use vstd::prelude::*;

verus! {

/// The ASCII code of 'A'.
pub const UPPER_A: u8 = 65;

/// The ASCII code of 'Z'.
pub const UPPER_Z: u8 = 90;

/// The distance from an ASCII uppercase letter to its lowercase form.
pub const CASE_GAP: u8 = 32;

/// The ASCII code of the double quote.
pub const QUOTE: u8 = 34;

/// Byte-wise equality of two byte strings.
pub fn bytes_eq(a: &Vec<u8>, b: &Vec<u8>) -> (r: bool)
    ensures
        r == (a@ == b@),
{
    if a.len() != b.len() {
        return false;
    }
    let mut i: usize = 0;
    while i < a.len()
        invariant
            a@.len() == b@.len(),
            i <= a@.len(),
            forall|j: int| 0 <= j < i ==> a@[j] == b@[j],
        decreases a@.len() - i,
    {
        if a[i] != b[i] {
            return false;
        }
        i = i + 1;
    }
    proof {
        assert(a@ =~= b@);
    }
    true
}

/// `needle` occurs in `hay` starting at position `i`.
pub open spec fn matches_at(hay: Seq<u8>, needle: Seq<u8>, i: int) -> bool {
    &&& 0 <= i
    &&& i + needle.len() <= hay.len()
    &&& hay.subrange(i, i + needle.len()) == needle
}

/// `needle` occurs somewhere in `hay`.
pub open spec fn contains_sub(hay: Seq<u8>, needle: Seq<u8>) -> bool {
    exists|i: int| matches_at(hay, needle, i)
}

/// `i` is the first position at which `needle` occurs in `hay`.
pub open spec fn first_match_at(hay: Seq<u8>, needle: Seq<u8>, i: int) -> bool {
    &&& matches_at(hay, needle, i)
    &&& forall|j: int| 0 <= j < i ==> !matches_at(hay, needle, j)
}

/// The position of the first occurrence of `needle` in `hay`.
pub open spec fn first_match_idx(hay: Seq<u8>, needle: Seq<u8>) -> int {
    choose|i: int| first_match_at(hay, needle, i)
}

/// The first occurrence is unique.
pub proof fn lemma_first_match_unique(hay: Seq<u8>, needle: Seq<u8>, i1: int, i2: int)
    requires
        first_match_at(hay, needle, i1),
        first_match_at(hay, needle, i2),
    ensures
        i1 == i2,
{
    if i1 < i2 {
        assert(!matches_at(hay, needle, i1));
    } else if i2 < i1 {
        assert(!matches_at(hay, needle, i2));
    }
}

/// Decides whether `needle` occurs in `hay` at exactly position `i`.
fn match_here(hay: &Vec<u8>, needle: &Vec<u8>, i: usize) -> (r: bool)
    requires
        i + needle@.len() <= hay@.len(),
    ensures
        r == matches_at(hay@, needle@, i as int),
{
    let hl = hay.len();
    let mut j: usize = 0;
    while j < needle.len()
        invariant
            i + needle@.len() <= hay@.len(),
            hay@.len() == hl,
            j <= needle@.len(),
            forall|t: int| 0 <= t < j ==> hay@[i + t] == needle@[t],
        decreases needle@.len() - j,
    {
        if hay[i + j] != needle[j] {
            proof {
                assert(!matches_at(hay@, needle@, i as int)) by {
                    if matches_at(hay@, needle@, i as int) {
                        assert(hay@.subrange(i as int, i + needle@.len())[j as int] == needle@[
                            j as int
                        ]);
                    }
                };
            }
            return false;
        }
        j = j + 1;
    }
    proof {
        assert(hay@.subrange(i as int, i + needle@.len()) =~= needle@);
    }
    true
}

/// Finds the first occurrence of `needle` in `hay`, if any.
pub fn find_sub(hay: &Vec<u8>, needle: &Vec<u8>) -> (r: Option<usize>)
    ensures
        r matches Some(i) ==> first_match_at(hay@, needle@, i as int),
        r is Some <==> contains_sub(hay@, needle@),
{
    if needle.len() > hay.len() {
        return None;
    }
    if needle.len() == 0 {
        proof {
            assert(hay@.subrange(0, 0) =~= needle@);
            assert(matches_at(hay@, needle@, 0));
        }
        return Some(0);
    }
    let mut i: usize = 0;
    while i <= hay.len() - needle.len()
        invariant
            1 <= needle@.len() <= hay@.len(),
            i <= hay@.len() - needle@.len() + 1,
            forall|j: int| 0 <= j < i ==> !matches_at(hay@, needle@, j),
        decreases hay@.len() - i,
    {
        if match_here(hay, needle, i) {
            return Some(i);
        }
        i = i + 1;
    }
    proof {
        assert forall|j: int| !matches_at(hay@, needle@, j) by {
            if matches_at(hay@, needle@, j) {
                assert(0 <= j < i);
            }
        };
    }
    None
}

/// `e` is the first position at or after `from` holding byte `b`.
pub open spec fn first_byte_at(hay: Seq<u8>, from: int, b: u8, e: int) -> bool {
    &&& from <= e < hay.len()
    &&& hay[e] == b
    &&& forall|j: int| from <= j < e ==> hay[j] != b
}

/// Finds the first occurrence of byte `b` at or after `from`.
pub fn find_byte_from(hay: &Vec<u8>, from: usize, b: u8) -> (r: Option<usize>)
    ensures
        r matches Some(e) ==> first_byte_at(hay@, from as int, b, e as int),
        r is Some <==> exists|e: int| first_byte_at(hay@, from as int, b, e),
{
    let mut i: usize = from;
    if from > hay.len() {
        return None;
    }
    while i < hay.len()
        invariant
            from <= i <= hay@.len(),
            forall|j: int| from <= j < i ==> hay@[j] != b,
        decreases hay@.len() - i,
    {
        if hay[i] == b {
            proof {
                assert(first_byte_at(hay@, from as int, b, i as int));
            }
            return Some(i);
        }
        i = i + 1;
    }
    proof {
        assert forall|e: int| !first_byte_at(hay@, from as int, b, e) by {
            if first_byte_at(hay@, from as int, b, e) {
                assert(hay@[e] != b);
            }
        };
    }
    None
}

/// ASCII lowercase of one byte.
pub open spec fn lower_byte(b: u8) -> u8 {
    if UPPER_A <= b <= UPPER_Z {
        (b + CASE_GAP) as u8
    } else {
        b
    }
}

/// ASCII lowercase of a byte string.
pub open spec fn lower_bytes(s: Seq<u8>) -> Seq<u8> {
    s.map_values(|b: u8| lower_byte(b))
}

/// Lowercases a byte string, ASCII letters only.
pub fn to_lower(s: &Vec<u8>) -> (r: Vec<u8>)
    ensures
        r@ == lower_bytes(s@),
{
    let mut r: Vec<u8> = Vec::new();
    let mut i: usize = 0;
    while i < s.len()
        invariant
            i <= s@.len(),
            r@.len() == i,
            forall|j: int| 0 <= j < i ==> r@[j] == lower_byte(s@[j]),
        decreases s@.len() - i,
    {
        let b = s[i];
        if UPPER_A <= b && b <= UPPER_Z {
            r.push(b + CASE_GAP);
        } else {
            r.push(b);
        }
        i = i + 1;
    }
    proof {
        assert(r@ =~= lower_bytes(s@));
    }
    r
}

/// The match rule for search queries: the query occurs in the name when both
/// are folded to ASCII lowercase (case-insensitive substring match).
pub open spec fn name_matches(name: Seq<u8>, query: Seq<u8>) -> bool {
    contains_sub(lower_bytes(name), lower_bytes(query))
}

/// Decides the search match rule.
pub fn matches_query(name: &Vec<u8>, query: &Vec<u8>) -> (r: bool)
    ensures
        r == name_matches(name@, query@),
{
    let ln = to_lower(name);
    let lq = to_lower(query);
    let found = find_sub(&ln, &lq);
    found.is_some()
}

/// The first double-quote-delimited value following the first occurrence of
/// `pre` in `hay`: the bytes from the end of that occurrence up to the next
/// double quote. Nothing when `pre` does not occur or no quote follows.
pub open spec fn spec_extract_quoted(hay: Seq<u8>, pre: Seq<u8>) -> Option<Seq<u8>> {
    if !contains_sub(hay, pre) {
        None
    } else {
        let s = first_match_idx(hay, pre) + pre.len();
        if exists|e: int| first_byte_at(hay, s, QUOTE, e) {
            Some(hay.subrange(s, choose|e: int| first_byte_at(hay, s, QUOTE, e)))
        } else {
            None
        }
    }
}

/// A position at or after `from` holding `b` yields a first such position.
pub proof fn lemma_exists_first_byte(hay: Seq<u8>, from: int, b: u8, t: int)
    requires
        0 <= from <= t < hay.len(),
        hay[t] == b,
    ensures
        exists|e: int| first_byte_at(hay, from, b, e),
    decreases t - from,
{
    if forall|j: int| from <= j < t ==> hay[j] != b {
        assert(first_byte_at(hay, from, b, t));
    } else {
        let t2 = choose|j: int| from <= j < t && hay[j] == b;
        lemma_exists_first_byte(hay, from, b, t2);
    }
}

/// The first quote position is unique.
pub proof fn lemma_first_byte_unique(hay: Seq<u8>, from: int, b: u8, e1: int, e2: int)
    requires
        first_byte_at(hay, from, b, e1),
        first_byte_at(hay, from, b, e2),
    ensures
        e1 == e2,
{
    if e1 < e2 {
        assert(hay[e1] != b);
    } else if e2 < e1 {
        assert(hay[e2] != b);
    }
}

/// Extracts the first double-quote-delimited value following the first
/// occurrence of `pre`, as the simple response envelopes of the remote
/// backend carry it (no escape sequences inside the value).
pub fn extract_quoted(hay: &Vec<u8>, pre: &Vec<u8>) -> (r: Option<Vec<u8>>)
    ensures
        r matches Some(v) ==> spec_extract_quoted(hay@, pre@) == Some(v@),
        r is Some <==> spec_extract_quoted(hay@, pre@) is Some,
{
    match find_sub(hay, pre) {
        None => None,
        Some(i) => {
            let hl = hay.len();
            proof {
                assert(i + pre@.len() <= hl);
            }
            let s = i + pre.len();
            proof {
                let i0 = first_match_idx(hay@, pre@);
                assert(first_match_at(hay@, pre@, i0));
                lemma_first_match_unique(hay@, pre@, i as int, i0);
            }
            match find_byte_from(hay, s, QUOTE) {
                None => None,
                Some(e) => {
                    proof {
                        let e0 = choose|e0: int| first_byte_at(hay@, s as int, QUOTE, e0);
                        assert(first_byte_at(hay@, s as int, QUOTE, e0));
                        lemma_first_byte_unique(hay@, s as int, QUOTE, e as int, e0);
                    }
                    let mut v: Vec<u8> = Vec::new();
                    let mut j: usize = s;
                    while j < e
                        invariant
                            s <= j <= e <= hay@.len(),
                            v@ =~= hay@.subrange(s as int, j as int),
                        decreases e - j,
                    {
                        let b = hay[j];
                        v.push(b);
                        j = j + 1;
                        proof {
                            assert(v@ =~= hay@.subrange(s as int, j as int));
                        }
                    }
                    Some(v)
                },
            }
        },
    }
}

} // verus!
