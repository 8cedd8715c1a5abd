use vstd::arithmetic::div_mod::{lemma_div_denominator, lemma_fundamental_div_mod};
use vstd::prelude::*;
use vstd::string::StringExecFns;

verus! {

/// 10 raised to `n`.
pub open spec fn pow10(n: nat) -> nat
    decreases n,
{
    if n == 0 {
        1
    } else {
        10 * pow10((n - 1) as nat)
    }
}

/// Number of decimal digits of `n` (0 is written with one digit).
pub open spec fn num_digits(n: nat) -> nat
    decreases n,
{
    if n < 10 {
        1
    } else {
        1 + num_digits(n / 10)
    }
}

/// Magnitude of an integer.
pub open spec fn abs_of(d: int) -> nat {
    if d >= 0 {
        d as nat
    } else {
        (-d) as nat
    }
}

/// A destination id is already canonical when its decimal string form begins
/// with "-100": it is negative and the three leading decimal digits of its
/// magnitude are 1, 0, 0.
pub open spec fn chat_id_is_canonical(d: int) -> bool {
    &&& d < 0
    &&& num_digits(abs_of(d)) >= 3
    &&& abs_of(d) / pow10((num_digits(abs_of(d)) - 3) as nat) == 100
}

/// The canonical form of a destination id: unchanged when already canonical,
/// otherwise shifted by 100 * 10^n where n is the number of decimal digits of
/// the magnitude.
pub open spec fn canonical_chat_id(d: int) -> int {
    if chat_id_is_canonical(d) {
        d
    } else {
        d - 100 * pow10(num_digits(abs_of(d)))
    }
}

proof fn lemma_pow10_values()
    ensures
        pow10(0) == 1,
        pow10(1) == 10,
        pow10(2) == 100,
        pow10(3) == 1000,
        pow10(16) == 10000000000000000,
        pow10(20) == 100000000000000000000,
{
    assert(pow10(0) == 1);
    assert(pow10(1) == 10);
    assert(pow10(2) == 100);
    assert(pow10(3) == 1000);
    assert(pow10(4) == 10000);
    assert(pow10(5) == 100000);
    assert(pow10(6) == 1000000);
    assert(pow10(7) == 10000000);
    assert(pow10(8) == 100000000);
    assert(pow10(9) == 1000000000);
    assert(pow10(10) == 10000000000);
    assert(pow10(11) == 100000000000);
    assert(pow10(12) == 1000000000000);
    assert(pow10(13) == 10000000000000);
    assert(pow10(14) == 100000000000000);
    assert(pow10(15) == 1000000000000000);
    assert(pow10(16) == 10000000000000000);
    assert(pow10(17) == 100000000000000000);
    assert(pow10(18) == 1000000000000000000);
    assert(pow10(19) == 10000000000000000000);
    assert(pow10(20) == 100000000000000000000);
}

proof fn lemma_pow10_pos(n: nat)
    ensures
        pow10(n) >= 1,
    decreases n,
{
    if n > 0 {
        lemma_pow10_pos((n - 1) as nat);
    }
}

proof fn lemma_pow10_mono(a: nat, b: nat)
    requires
        a <= b,
    ensures
        1 <= pow10(a) <= pow10(b),
    decreases b,
{
    lemma_pow10_pos(a);
    if a < b {
        lemma_pow10_mono(a, (b - 1) as nat);
        lemma_pow10_pos((b - 1) as nat);
        assert(pow10(b) == 10 * pow10((b - 1) as nat));
    }
}

/// If the magnitude is below 10^k, it has at most k digits.
proof fn lemma_num_digits_le(m: nat, k: nat)
    requires
        m < pow10(k),
        k >= 1,
    ensures
        num_digits(m) <= k,
    decreases k,
{
    if m >= 10 {
        assert(pow10(k) == 10 * pow10((k - 1) as nat));
        lemma_fundamental_div_mod(m as int, 10);
        assert(10 * (m / 10) <= m);
        assert(m / 10 < pow10((k - 1) as nat));
        if k == 1 {
            assert(pow10(1) == 10 * pow10(0));
            assert(pow10(0) == 1);
        }
        lemma_num_digits_le(m / 10, (k - 1) as nat);
    }
}

/// A positive number has magnitude at least 10^(digits - 1).
proof fn lemma_num_digits_lower(m: nat)
    requires
        m >= 1,
    ensures
        m >= pow10((num_digits(m) - 1) as nat),
    decreases m,
{
    if m < 10 {
        assert(pow10(0) == 1);
    } else {
        lemma_num_digits_lower(m / 10);
        let nd = num_digits(m / 10);
        lemma_fundamental_div_mod(m as int, 10);
        assert(m >= 10 * (m / 10));
        assert(10 * (m / 10) >= 10 * pow10((nd - 1) as nat));
        assert(num_digits(m) == 1 + nd);
        assert(pow10(nd) == 10 * pow10((nd - 1) as nat));
        assert(m >= pow10(nd));
    }
}

fn magnitude64(d: i64) -> (r: u64)
    ensures
        r as nat == abs_of(d as int),
{
    if d >= 0 {
        d as u64
    } else {
        let wide: i128 = d as i128;
        let neg: i128 = -wide;
        neg as u64
    }
}

fn count_digits(m: u64) -> (n: u64)
    ensures
        n as nat == num_digits(m as nat),
        1 <= n <= 20,
{
    proof {
        lemma_pow10_values();
        lemma_num_digits_le(m as nat, 20);
    }
    let mut n: u64 = 1;
    let mut x: u64 = m;
    while x >= 10
        invariant
            num_digits(m as nat) == (n - 1) as nat + num_digits(x as nat),
            1 <= n <= 20,
            num_digits(m as nat) <= 20,
        decreases x,
    {
        assert(num_digits(x as nat) == 1 + num_digits((x / 10) as nat));
        x = x / 10;
        n = n + 1;
    }
    n
}

fn pow10_exec(n: u64) -> (r: u64)
    requires
        n <= 16,
    ensures
        r as nat == pow10(n as nat),
{
    let mut i: u64 = 0;
    let mut acc: u64 = 1;
    proof {
        lemma_pow10_values();
    }
    while i < n
        invariant
            i <= n <= 16,
            acc as nat == pow10(i as nat),
            pow10(16) == 10000000000000000,
        decreases n - i,
    {
        proof {
            lemma_pow10_mono((i + 1) as nat, 16);
            assert(pow10((i + 1) as nat) == 10 * pow10(i as nat));
        }
        acc = acc * 10;
        i = i + 1;
    }
    acc
}

/// Reduces a magnitude of at least three digits to its three leading digits.
fn leading_three(m: u64) -> (t: u64)
    requires
        m >= 100,
    ensures
        t as nat == (m as nat) / pow10((num_digits(m as nat) - 3) as nat),
{
    proof {
        reveal_with_fuel(num_digits, 4);
        lemma_pow10_values();
    }
    let ghost mut j: nat = 0;
    let mut t: u64 = m;
    proof {
        assert((m as nat) / pow10(0) == m as nat);
    }
    while t >= 1000
        invariant
            t >= 100,
            t as nat == (m as nat) / pow10(j),
            num_digits(m as nat) == j + num_digits(t as nat),
        decreases t,
    {
        proof {
            assert(num_digits(t as nat) == 1 + num_digits((t / 10) as nat));
            lemma_pow10_mono(0, j);
            lemma_div_denominator(m as int, pow10(j) as int, 10);
            assert(pow10(j + 1) == 10 * pow10(j));
            assert(pow10(j) * 10 == 10 * pow10(j));
            j = j + 1;
        }
        t = t / 10;
    }
    proof {
        assert(num_digits(t as nat) == 3);
    }
    t
}

/// Decides whether a destination id is already in canonical "-100..." form.
pub fn chat_id_canonical(d: i64) -> (r: bool)
    ensures
        r == chat_id_is_canonical(d as int),
{
    proof {
        reveal_with_fuel(num_digits, 4);
        lemma_pow10_values();
    }
    if d >= 0 {
        false
    } else {
        let m = magnitude64(d);
        if m < 100 {
            proof {
                if num_digits(m as nat) >= 3 {
                    lemma_num_digits_lower(m as nat);
                    lemma_pow10_mono(2, (num_digits(m as nat) - 1) as nat);
                }
            }
            false
        } else {
            proof {
                lemma_num_digits_lower(m as nat);
                if num_digits(m as nat) < 3 {
                    assert(m as nat >= 100);
                }
            }
            leading_three(m) == 100
        }
    }
}

/// Canonicalizes a destination id for the remote backend's addressing scheme:
/// an id whose decimal string form already begins with "-100" is used
/// unchanged; otherwise, with n the number of decimal digits of the
/// magnitude, the result is the id minus 100 * 10^n.
///
/// Ids that are not yet canonical must be small enough that the shifted form
/// still fits the id type.
pub fn canonicalize(d: i64) -> (r: i64)
    requires
        chat_id_is_canonical(d as int) || (-10000000000000000 < d && d < 10000000000000000),
    ensures
        r as int == canonical_chat_id(d as int),
{
    if chat_id_canonical(d) {
        d
    } else {
        let m = magnitude64(d);
        proof {
            lemma_pow10_values();
            lemma_num_digits_le(m as nat, 16);
        }
        let n = count_digits(m);
        let p = pow10_exec(n);
        proof {
            lemma_pow10_mono(n as nat, 16);
        }
        d - 100 * (p as i64)
    }
}

/// The character for one decimal digit.
pub open spec fn digit_char(d: nat) -> char {
    if d == 0 {
        '0'
    } else if d == 1 {
        '1'
    } else if d == 2 {
        '2'
    } else if d == 3 {
        '3'
    } else if d == 4 {
        '4'
    } else if d == 5 {
        '5'
    } else if d == 6 {
        '6'
    } else if d == 7 {
        '7'
    } else if d == 8 {
        '8'
    } else {
        '9'
    }
}

/// The decimal digit string of a magnitude, most significant digit first.
pub open spec fn dec_digits(n: nat) -> Seq<char>
    decreases n,
{
    if n < 10 {
        seq![digit_char(n)]
    } else {
        dec_digits(n / 10).push(digit_char(n % 10))
    }
}

/// The decimal string form of a signed integer.
pub open spec fn dec_str_i64(d: int) -> Seq<char> {
    if d < 0 {
        seq!['-'] + dec_digits(abs_of(d))
    } else {
        dec_digits(abs_of(d))
    }
}

fn append_digit(s: &mut String, digit: u64)
    requires
        digit < 10,
    ensures
        final(s)@ == old(s)@.push(digit_char(digit as nat)),
{
    if digit == 0 {
        s.append("0");
        proof {
            reveal_strlit("0");
            assert(s@ =~= old(s)@.push('0'));
        }
    } else if digit == 1 {
        s.append("1");
        proof {
            reveal_strlit("1");
            assert(s@ =~= old(s)@.push('1'));
        }
    } else if digit == 2 {
        s.append("2");
        proof {
            reveal_strlit("2");
            assert(s@ =~= old(s)@.push('2'));
        }
    } else if digit == 3 {
        s.append("3");
        proof {
            reveal_strlit("3");
            assert(s@ =~= old(s)@.push('3'));
        }
    } else if digit == 4 {
        s.append("4");
        proof {
            reveal_strlit("4");
            assert(s@ =~= old(s)@.push('4'));
        }
    } else if digit == 5 {
        s.append("5");
        proof {
            reveal_strlit("5");
            assert(s@ =~= old(s)@.push('5'));
        }
    } else if digit == 6 {
        s.append("6");
        proof {
            reveal_strlit("6");
            assert(s@ =~= old(s)@.push('6'));
        }
    } else if digit == 7 {
        s.append("7");
        proof {
            reveal_strlit("7");
            assert(s@ =~= old(s)@.push('7'));
        }
    } else if digit == 8 {
        s.append("8");
        proof {
            reveal_strlit("8");
            assert(s@ =~= old(s)@.push('8'));
        }
    } else {
        s.append("9");
        proof {
            reveal_strlit("9");
            assert(s@ =~= old(s)@.push('9'));
        }
    }
}

fn push_dec_digits(s: &mut String, n: u64)
    ensures
        final(s)@ == old(s)@ + dec_digits(n as nat),
    decreases n,
{
    if n >= 10 {
        proof {
            lemma_fundamental_div_mod(n as int, 10);
        }
        push_dec_digits(s, n / 10);
        append_digit(s, n % 10);
        proof {
            assert(s@ =~= old(s)@ + dec_digits(n as nat));
        }
    } else {
        append_digit(s, n);
        proof {
            assert(s@ =~= old(s)@ + dec_digits(n as nat));
        }
    }
}

/// Renders a signed integer as its decimal string, as the remote protocol's
/// form fields carry it.
pub fn i64_to_dec_string(d: i64) -> (r: String)
    ensures
        r@ == dec_str_i64(d as int),
{
    let m = magnitude64(d);
    let mut s = String::new();
    if d < 0 {
        s.append("-");
        proof {
            reveal_strlit("-");
        }
    }
    push_dec_digits(&mut s, m);
    proof {
        assert(s@ =~= dec_str_i64(d as int));
    }
    s
}

} // verus!
