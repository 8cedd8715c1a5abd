use vstd::prelude::*;

verus! {

/// The chunks of `data` under chunk size `size`: slices of exactly `size`
/// bytes, with a shorter final chunk when the length is not a multiple of
/// `size`, and no chunk at all for empty data.
pub open spec fn spec_split(data: Seq<u8>, size: int) -> Seq<Seq<u8>>
    recommends
        size >= 1,
    decreases data.len(),
{
    if size < 1 || data.len() == 0 {
        Seq::empty()
    } else if data.len() <= size {
        seq![data]
    } else {
        seq![data.take(size)] + spec_split(data.skip(size), size)
    }
}

/// Round trip: splitting a byte sequence into chunks and concatenating the
/// chunks by index reproduces the original bytes exactly.
pub proof fn lemma_chunk_round_trip(data: Seq<u8>, size: int)
    requires
        size >= 1,
    ensures
        spec_split(data, size).flatten() == data,
    decreases data.len(),
{
    let s = spec_split(data, size);
    if data.len() == 0 {
        assert(s.flatten() =~= data);
    } else if data.len() <= size {
        assert(s == seq![data]);
        s.lemma_flatten_singleton();
        assert(s.flatten() == data);
    } else {
        lemma_chunk_round_trip(data.skip(size), size);
        let rest = spec_split(data.skip(size), size);
        assert(s == seq![data.take(size)] + rest);
        assert(s.first() == data.take(size));
        assert(s.drop_first() =~= rest);
        assert(s.flatten() == data.take(size) + rest.flatten());
        assert(data.take(size) + data.skip(size) =~= data);
    }
}

/// Every chunk the split yields is nonempty and no larger than the chunk
/// size, so each payload stays within the backend's attachment ceiling.
pub proof fn lemma_chunk_sizes(data: Seq<u8>, size: int, i: int)
    requires
        size >= 1,
        0 <= i < spec_split(data, size).len(),
    ensures
        1 <= spec_split(data, size)[i].len() <= size,
    decreases data.len(),
{
    if data.len() > size && i > 0 {
        lemma_chunk_sizes(data.skip(size), size, i - 1);
    }
}

/// Splits bytes into ordered chunks of at most `size` bytes; only the final
/// chunk may be shorter. Chunk order follows byte order, so the chunk at
/// position k holds bytes k*size onward.
pub fn split_into_chunks(data: &Vec<u8>, size: usize) -> (r: Vec<Vec<u8>>)
    requires
        size >= 1,
    ensures
        r.deep_view() == spec_split(data@, size as int),
{
    let mut r: Vec<Vec<u8>> = Vec::new();
    let mut i: usize = 0;
    proof {
        assert(data@.skip(0) =~= data@);
        assert(r.deep_view() =~= Seq::<Seq<u8>>::empty());
    }
    while i < data.len()
        invariant
            size >= 1,
            i <= data.len(),
            spec_split(data@, size as int) =~= r.deep_view() + spec_split(
                data@.skip(i as int),
                size as int,
            ),
        decreases data.len() - i,
    {
        let ghost prev = r.deep_view();
        let end = if data.len() - i >= size {
            i + size
        } else {
            data.len()
        };
        let mut chunk: Vec<u8> = Vec::new();
        let mut j = i;
        proof {
            assert(chunk@ =~= data@.subrange(i as int, i as int));
        }
        while j < end
            invariant
                i <= j <= end <= data.len(),
                chunk@ =~= data@.subrange(i as int, j as int),
            decreases end - j,
        {
            let b = data[j];
            chunk.push(b);
            j = j + 1;
            proof {
                assert(chunk@ =~= data@.subrange(i as int, j as int));
            }
        }
        proof {
            let tail = data@.skip(i as int);
            if data@.len() - i <= size {
                assert(tail =~= chunk@);
                assert(spec_split(tail, size as int) == seq![tail]);
                assert(data@.skip(end as int).len() == 0);
            } else {
                assert(tail.take(size as int) =~= chunk@);
                assert(tail.skip(size as int) =~= data@.skip(end as int));
                assert(spec_split(tail, size as int) == seq![chunk@] + spec_split(
                    data@.skip(end as int),
                    size as int,
                ));
            }
        }
        r.push(chunk);
        proof {
            assert(r.deep_view() =~~= prev.push(r@[r@.len() - 1]@));
            assert(prev + spec_split(data@.skip(i as int), size as int) =~= r.deep_view()
                + spec_split(data@.skip(end as int), size as int));
        }
        i = end;
    }
    proof {
        assert(spec_split(data@.skip(i as int), size as int) =~= Seq::<Seq<u8>>::empty());
        assert(r.deep_view() =~= spec_split(data@, size as int));
    }
    r
}

/// Concatenates chunks in the given order into one byte vector.
pub fn join_chunks(chunks: &Vec<Vec<u8>>) -> (r: Vec<u8>)
    ensures
        r@ == chunks.deep_view().flatten(),
{
    let dv = Ghost(chunks.deep_view());
    let mut r: Vec<u8> = Vec::new();
    let mut i: usize = 0;
    proof {
        assert(dv@.take(0).flatten() =~= Seq::<u8>::empty());
        assert(r@ =~= dv@.take(0).flatten());
    }
    while i < chunks.len()
        invariant
            i <= chunks.len(),
            dv@ == chunks.deep_view(),
            r@ =~= dv@.take(i as int).flatten(),
        decreases chunks.len() - i,
    {
        let ghost before = r@;
        let mut j: usize = 0;
        while j < chunks[i].len()
            invariant
                i < chunks.len(),
                j <= chunks@[i as int]@.len(),
                dv@ == chunks.deep_view(),
                r@ =~= before + chunks@[i as int]@.subrange(0, j as int),
            decreases chunks@[i as int]@.len() - j,
        {
            let b = chunks[i][j];
            r.push(b);
            j = j + 1;
            proof {
                assert(r@ =~= before + chunks@[i as int]@.subrange(0, j as int));
            }
        }
        i = i + 1;
        proof {
            assert(chunks@[i - 1]@.subrange(0, chunks@[i - 1]@.len() as int) =~= dv@[i - 1]);
            dv@.take(i - 1).lemma_flatten_push(dv@[i - 1]);
            assert(dv@.take(i - 1).push(dv@[i - 1]) =~= dv@.take(i as int));
            assert(r@ =~= dv@.take(i as int).flatten());
        }
    }
    proof {
        assert(dv@.take(i as int) =~= dv@);
    }
    r
}

/// Some arrived part carries chunk index `k`.
pub open spec fn has_index(parts: Seq<(usize, Vec<u8>)>, k: int) -> bool {
    exists|j: int| 0 <= j < parts.len() && parts[j].0 == k
}

/// No two arrived parts carry the same chunk index.
pub open spec fn distinct_indices(parts: Seq<(usize, Vec<u8>)>) -> bool {
    forall|j1: int, j2: int| 0 <= j1 < j2 < parts.len() ==> parts[j1].0 != parts[j2].0
}

/// The arrived parts carry exactly the chunk indices 0..n, one part each.
pub open spec fn complete_parts(parts: Seq<(usize, Vec<u8>)>, n: int) -> bool {
    &&& parts.len() == n
    &&& distinct_indices(parts)
    &&& forall|j: int| 0 <= j < parts.len() ==> (parts[j].0 as int) < n
    &&& forall|k: int| 0 <= k < n ==> has_index(parts, k)
}

/// The bytes of the part carrying chunk index `k`.
pub open spec fn part_at(parts: Seq<(usize, Vec<u8>)>, k: int) -> Seq<u8> {
    parts[choose|j: int| 0 <= j < parts.len() && parts[j].0 == k].1@
}

/// The chunk contents in index order, whatever order the parts arrived in.
pub open spec fn spec_assemble(parts: Seq<(usize, Vec<u8>)>, n: int) -> Seq<Seq<u8>> {
    Seq::new(n as nat, |k: int| part_at(parts, k))
}

/// A value sitting at two positions of a sequence has multiplicity at least
/// two in the sequence's multiset.
proof fn lemma_two_positions_count(s: Seq<(usize, Vec<u8>)>, i1: int, i2: int)
    requires
        0 <= i1 < i2 < s.len(),
        s[i1] == s[i2],
    ensures
        s.to_multiset().count(s[i1]) >= 2,
{
    broadcast use vstd::seq_lib::group_to_multiset_ensures;
    broadcast use vstd::multiset::group_multiset_axioms;

    let e = s[i1];
    let r = s.remove(i1);
    assert(r.to_multiset() =~= s.to_multiset().remove(e));
    assert(r[i2 - 1] == s[i2]);
    assert(r.contains(e));
    assert(r.to_multiset().count(e) > 0);
}

/// A value with multiplicity at least two sits at two distinct positions.
proof fn lemma_count_two_positions(s: Seq<(usize, Vec<u8>)>, e: (usize, Vec<u8>))
    requires
        s.to_multiset().count(e) >= 2,
    ensures
        exists|a: int, b: int| 0 <= a < b < s.len() && s[a] == e && s[b] == e,
{
    broadcast use vstd::seq_lib::group_to_multiset_ensures;
    broadcast use vstd::multiset::group_multiset_axioms;

    assert(s.contains(e));
    let a = choose|a: int| 0 <= a < s.len() && s[a] == e;
    let r = s.remove(a);
    assert(r.to_multiset() =~= s.to_multiset().remove(e));
    assert(r.to_multiset().count(e) >= 1);
    assert(r.contains(e));
    let j = choose|j: int| 0 <= j < r.len() && r[j] == e;
    let b = if j < a {
        j
    } else {
        j + 1
    };
    assert(s[b] == e);
    assert(b != a);
    if a < b {
        assert(0 <= a < b < s.len() && s[a] == e && s[b] == e);
    } else {
        assert(0 <= b < a < s.len() && s[b] == e && s[a] == e);
    }
}

/// The multiset of arrived parts decides completeness: any rearrangement of
/// a complete set of parts is itself complete.
pub proof fn lemma_reordered_parts_complete(
    p1: Seq<(usize, Vec<u8>)>,
    p2: Seq<(usize, Vec<u8>)>,
    n: int,
)
    requires
        p1.to_multiset() == p2.to_multiset(),
        complete_parts(p1, n),
    ensures
        complete_parts(p2, n),
{
    broadcast use vstd::seq_lib::group_to_multiset_ensures;

    assert(p1.len() == p1.to_multiset().len());
    assert(p2.len() == p2.to_multiset().len());
    assert forall|j: int| 0 <= j < p2.len() implies (p2[j].0 as int) < n by {
        assert(p2.contains(p2[j]));
        assert(p1.to_multiset().count(p2[j]) > 0);
        assert(p1.contains(p2[j]));
        let i = choose|i: int| 0 <= i < p1.len() && p1[i] == p2[j];
        assert((p1[i].0 as int) < n);
    };
    assert forall|k: int| 0 <= k < n implies has_index(p2, k) by {
        assert(has_index(p1, k));
        let i = choose|i: int| 0 <= i < p1.len() && p1[i].0 == k;
        assert(p1.contains(p1[i]));
        assert(p2.to_multiset().count(p1[i]) > 0);
        assert(p2.contains(p1[i]));
        let j = choose|j: int| 0 <= j < p2.len() && p2[j] == p1[i];
        assert(p2[j].0 == k);
    };
    assert forall|j1: int, j2: int|
        0 <= j1 < j2 < p2.len() implies p2[j1].0 != p2[j2].0 by {
        if p2[j1].0 == p2[j2].0 {
            if p2[j1] == p2[j2] {
                lemma_two_positions_count(p2, j1, j2);
                assert(p1.to_multiset().count(p2[j1]) >= 2);
                lemma_count_two_positions(p1, p2[j1]);
                let (a, b) = choose|a: int, b: int|
                    0 <= a < b < p1.len() && p1[a] == p2[j1] && p1[b] == p2[j1];
                assert(p1[a].0 != p1[b].0);
            } else {
                assert(p2.contains(p2[j1]));
                assert(p1.to_multiset().count(p2[j1]) > 0);
                assert(p1.contains(p2[j1]));
                assert(p2.contains(p2[j2]));
                assert(p1.to_multiset().count(p2[j2]) > 0);
                assert(p1.contains(p2[j2]));
                let a = choose|a: int| 0 <= a < p1.len() && p1[a] == p2[j1];
                let b = choose|b: int| 0 <= b < p1.len() && p1[b] == p2[j2];
                assert(a != b);
                if a < b {
                    assert(p1[a].0 != p1[b].0);
                } else {
                    assert(p1[b].0 != p1[a].0);
                }
            }
        }
    };
}

/// Completion-order independence: the arrived parts of a complete download,
/// taken in whatever arrival order, are still complete and reconstruct
/// byte-identical content.
pub proof fn lemma_completion_order_independent(
    p1: Seq<(usize, Vec<u8>)>,
    p2: Seq<(usize, Vec<u8>)>,
    n: int,
)
    requires
        p1.to_multiset() == p2.to_multiset(),
        complete_parts(p1, n),
    ensures
        complete_parts(p2, n),
        spec_assemble(p1, n) == spec_assemble(p2, n),
{
    broadcast use vstd::seq_lib::group_to_multiset_ensures;

    lemma_reordered_parts_complete(p1, p2, n);

    assert forall|k: int| 0 <= k < n implies part_at(p1, k) == part_at(p2, k) by {
        assert(has_index(p1, k));
        assert(has_index(p2, k));
        let j1 = choose|j: int| 0 <= j < p1.len() && p1[j].0 == k;
        let j2 = choose|j: int| 0 <= j < p2.len() && p2[j].0 == k;
        let e = p2[j2];
        assert(p2.contains(e));
        assert(p1.to_multiset().count(e) > 0);
        assert(p1.contains(e));
        let i1 = choose|i: int| 0 <= i < p1.len() && p1[i] == e;
        assert(p1[i1].0 == k);
        if i1 < j1 {
            assert(p1[i1].0 != p1[j1].0);
        } else if j1 < i1 {
            assert(p1[j1].0 != p1[i1].0);
        }
        assert(i1 == j1);
        assert(p1[j1].1@ == e.1@);
    };
    assert(spec_assemble(p1, n) =~= spec_assemble(p2, n));
}

/// Reassembles downloaded chunk contents by chunk index, however the fetches
/// completed. Returns the concatenated bytes when the parts carry exactly the
/// indices 0..n once each, and nothing otherwise.
pub fn assemble_by_index(parts: &Vec<(usize, Vec<u8>)>, n: usize) -> (r: Option<Vec<u8>>)
    ensures
        r is Some <==> complete_parts(parts@, n as int),
        r matches Some(bytes) ==> bytes@ == spec_assemble(parts@, n as int).flatten(),
{
    if parts.len() != n {
        return None;
    }
    let mut slots: Vec<Option<Vec<u8>>> = Vec::new();
    let mut k: usize = 0;
    while k < n
        invariant
            slots@.len() == k,
            k <= n,
            forall|t: int| 0 <= t < k ==> slots@[t] is None,
        decreases n - k,
    {
        slots.push(None);
        k = k + 1;
    }
    let mut i: usize = 0;
    while i < parts.len()
        invariant
            parts@.len() == n,
            slots@.len() == n,
            i <= n,
            distinct_indices(parts@.take(i as int)),
            forall|j: int| 0 <= j < i ==> (parts@[j].0 as int) < n,
            forall|t: int|
                0 <= t < n ==> ((slots@[t] is Some) <==> has_index(parts@.take(i as int), t)),
            forall|t: int| #![trigger slots@[t]]
                0 <= t < n ==> (slots@[t] matches Some(b) ==> exists|j: int|
                    0 <= j < i && (parts@[j].0 as int) == t && b@ == parts@[j].1@),
        decreases parts.len() - i,
    {
        let idx = parts[i].0;
        if idx >= n {
            proof {
                assert(0 <= i < parts@.len() && (parts@[i as int].0 as int) >= n);
            }
            return None;
        }
        if slots[idx].is_some() {
            proof {
                assert(has_index(parts@.take(i as int), idx as int));
                let j = choose|j: int|
                    0 <= j < parts@.take(i as int).len() && parts@.take(i as int)[j].0
                        == idx as int;
                assert(parts@[j].0 == parts@[i as int].0);
                assert(!distinct_indices(parts@));
            }
            return None;
        }
        proof {
            assert(!has_index(parts@.take(i as int), idx as int));
        }
        let bytes = parts[i].1.clone();
        proof {
            assert(bytes@ =~= parts@[i as int].1@);
        }
        slots[idx] = Some(bytes);
        i = i + 1;
        proof {
            assert(parts@.take(i as int) =~= parts@.take(i - 1).push(parts@[i - 1]));
            assert(parts@[i - 1].0 == idx);
            assert forall|j1: int, j2: int|
                0 <= j1 < j2 < i implies parts@.take(i as int)[j1].0 != parts@.take(
                i as int,
            )[j2].0 by {
                if j2 == i - 1 {
                    if parts@[j1].0 == idx {
                        assert(parts@.take(i - 1)[j1].0 == idx as int);
                        assert(has_index(parts@.take(i - 1), idx as int));
                    }
                } else {
                    assert(parts@.take(i - 1)[j1].0 != parts@.take(i - 1)[j2].0);
                }
            };
            assert(has_index(parts@.take(i as int), idx as int)) by {
                assert(parts@.take(i as int)[i - 1].0 == idx as int);
            };
            assert forall|t: int|
                0 <= t < n implies ((slots@[t] is Some) <==> has_index(
                parts@.take(i as int),
                t,
            )) by {
                if t != idx as int {
                    if has_index(parts@.take(i - 1), t) {
                        let j = choose|j: int| #![trigger parts@.take(i - 1)[j]]
                            0 <= j < parts@.take(i - 1).len() && parts@.take(i - 1)[j].0 == t;
                        assert(parts@.take(i as int)[j].0 == t);
                    }
                    if has_index(parts@.take(i as int), t) {
                        let j = choose|j: int| #![trigger parts@.take(i as int)[j]]
                            0 <= j < parts@.take(i as int).len() && parts@.take(i as int)[j].0 == t;
                        assert(j != i - 1);
                        assert(parts@.take(i - 1)[j].0 == t);
                    }
                }
            };
            assert forall|t: int| #![trigger slots@[t]]
                0 <= t < n implies (slots@[t] matches Some(b) ==> exists|j: int|
                0 <= j < i && (parts@[j].0 as int) == t && b@ == parts@[j].1@) by {
                if t == idx as int {
                    assert((parts@[i - 1].0 as int) == t && bytes@ == parts@[i - 1].1@);
                }
            };
        }
    }
    proof {
        assert(parts@.take(i as int) =~= parts@);
    }
    let mut ordered: Vec<Vec<u8>> = Vec::new();
    let mut k: usize = 0;
    while k < n
        invariant
            parts@.len() == n,
            slots@.len() == n,
            k <= n,
            distinct_indices(parts@),
            forall|j: int| 0 <= j < n ==> (parts@[j].0 as int) < n,
            forall|t: int| 0 <= t < n ==> ((slots@[t] is Some) <==> has_index(parts@, t)),
            forall|t: int| #![trigger slots@[t]]
                0 <= t < n ==> (slots@[t] matches Some(b) ==> exists|j: int|
                    0 <= j < n && (parts@[j].0 as int) == t && b@ == parts@[j].1@),
            ordered@.len() == k,
            forall|t: int| 0 <= t < k ==> ordered@[t]@ == part_at(parts@, t),
            forall|t: int| 0 <= t < k ==> slots@[t] is Some,
        decreases n - k,
    {
        match &slots[k] {
            Some(b) => {
                let c = b.clone();
                proof {
                    assert(c@ =~= slots@[k as int]->0@);
                    let j = choose|j: int|
                        0 <= j < n && (parts@[j].0 as int) == k as int && slots@[k as int]->0@
                            == parts@[j].1@;
                    let j2 = choose|j: int|
                        0 <= j < parts@.len() && parts@[j].0 == k as int;
                    if j < j2 {
                        assert(parts@[j].0 != parts@[j2].0);
                    } else if j2 < j {
                        assert(parts@[j2].0 != parts@[j].0);
                    }
                    assert(c@ == part_at(parts@, k as int));
                }
                ordered.push(c);
            },
            None => {
                proof {
                    assert(!has_index(parts@, k as int));
                }
                return None;
            },
        }
        k = k + 1;
    }
    proof {
        assert(complete_parts(parts@, n as int));
        assert(ordered.deep_view() =~~= spec_assemble(parts@, n as int));
    }
    let out = join_chunks(&ordered);
    Some(out)
}

} // verus!
