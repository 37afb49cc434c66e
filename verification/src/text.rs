//! Plain-text helpers shared by the reader and the printer: character
//! classes, decimal rendering and parsing of 64-bit integers, and the
//! conversions between `String` and `Vec<char>`.
use vstd::prelude::*;

verus! {

use vstd::std_specs::iter::IteratorSpec;

/// Decimal digit, `'0'` through `'9'`.
pub open spec fn is_digit(c: char) -> bool {
    48 <= c as u32 && c as u32 <= 57
}

pub open spec fn digit_val(c: char) -> int {
    c as u32 - 48
}

/// The character for one decimal digit.
pub open spec fn digit_char(d: int) -> char {
    if d == 0 {
        '0'
    } else if d == 1 {
        '1'
    } else if d == 2 {
        '2'
    } else if d == 3 {
        '3'
    } else if d == 4 {
        '4'
    } else if d == 5 {
        '5'
    } else if d == 6 {
        '6'
    } else if d == 7 {
        '7'
    } else if d == 8 {
        '8'
    } else {
        '9'
    }
}

/// Decimal rendering of a non-negative integer, most significant digit first.
pub open spec fn dec_nat(n: nat) -> Seq<char>
    decreases n,
{
    if n < 10 {
        seq![digit_char(n as int)]
    } else {
        dec_nat(n / 10) + seq![digit_char((n % 10) as int)]
    }
}

/// Decimal rendering of an integer, with a leading `-` when negative.
pub open spec fn dec_int(i: int) -> Seq<char> {
    if i < 0 {
        seq!['-'] + dec_nat((-i) as nat)
    } else {
        dec_nat(i as nat)
    }
}

pub proof fn lemma_dec_nat_digits(n: nat)
    ensures
        dec_nat(n).len() >= 1,
        forall|k: int| 0 <= k < dec_nat(n).len() ==> is_digit(#[trigger] dec_nat(n)[k]),
    decreases n,
{
    if n >= 10 {
        lemma_dec_nat_digits(n / 10);
    }
}

/// The value of a run of decimal digits.
pub open spec fn digits_val(s: Seq<char>) -> int
    decreases s.len(),
{
    if s.len() == 0 {
        0
    } else {
        digits_val(s.drop_last()) * 10 + digit_val(s.last())
    }
}

pub open spec fn all_digits(s: Seq<char>) -> bool {
    forall|k: int| 0 <= k < s.len() ==> is_digit(#[trigger] s[k])
}

/// A token that `i64` parsing accepts: an optional sign, then at least
/// one digit, denoting a value in the `i64` range.
pub open spec fn is_int_token(s: Seq<char>) -> bool {
    let body = if s.len() > 0 && (s[0] == '-' || s[0] == '+') {
        s.drop_first()
    } else {
        s
    };
    &&& body.len() > 0
    &&& all_digits(body)
    &&& i64::MIN <= int_token_val(s) <= i64::MAX
}

/// The integer a signed digit run denotes (ignoring the range check).
pub open spec fn int_token_val(s: Seq<char>) -> int {
    if s.len() > 0 && s[0] == '-' {
        -digits_val(s.drop_first())
    } else if s.len() > 0 && s[0] == '+' {
        digits_val(s.drop_first())
    } else {
        digits_val(s)
    }
}

proof fn lemma_digits_val_of_dec(n: nat)
    ensures
        digits_val(dec_nat(n)) == n,
    decreases n,
{
    if n < 10 {
        let s = dec_nat(n);
        assert(s =~= seq![digit_char(n as int)]);
        assert(s.drop_last() =~= Seq::<char>::empty());
        assert(digits_val(Seq::<char>::empty()) == 0);
        assert(s.last() == digit_char(n as int));
        assert(digit_val(digit_char(n as int)) == n);
        assert(digits_val(s) == digits_val(s.drop_last()) * 10 + digit_val(s.last()));
    } else {
        lemma_digits_val_of_dec(n / 10);
        let s = dec_nat(n);
        assert(s =~= dec_nat(n / 10) + seq![digit_char((n % 10) as int)]);
        assert(s.drop_last() =~= dec_nat(n / 10));
        assert(s.last() == digit_char((n % 10) as int));
        assert(digit_val(digit_char((n % 10) as int)) == n % 10);
        assert(n / 10 * 10 + n % 10 == n) by (nonlinear_arith);
    }
}

/// Rendering an `i64` and parsing the result gives the value back.
pub proof fn lemma_int_round_trip(i: int)
    requires
        i64::MIN <= i <= i64::MAX,
    ensures
        is_int_token(dec_int(i)),
        int_token_val(dec_int(i)) == i,
        dec_int(i).len() >= 1,
        is_digit(dec_int(i)[0]) || dec_int(i)[0] == '-',
{
    if i < 0 {
        let s = dec_int(i);
        lemma_dec_nat_digits((-i) as nat);
        lemma_digits_val_of_dec((-i) as nat);
        assert(s.drop_first() =~= dec_nat((-i) as nat));
    } else {
        let s = dec_int(i);
        lemma_dec_nat_digits(i as nat);
        lemma_digits_val_of_dec(i as nat);
        assert(s =~= dec_nat(i as nat));
        assert(is_digit(s[0]));
        assert(s[0] != '-' && s[0] != '+');
    }
}

/// One decimal digit as a character.
fn digit_to_char(d: u64) -> (c: char)
    requires
        d < 10,
    ensures
        c == digit_char(d as int),
{
    if d == 0 {
        '0'
    } else if d == 1 {
        '1'
    } else if d == 2 {
        '2'
    } else if d == 3 {
        '3'
    } else if d == 4 {
        '4'
    } else if d == 5 {
        '5'
    } else if d == 6 {
        '6'
    } else if d == 7 {
        '7'
    } else if d == 8 {
        '8'
    } else {
        '9'
    }
}

/// Appends the decimal digits of `n` to `out`, most significant first.
fn push_dec(n: u64, out: &mut Vec<char>)
    ensures
        final(out)@ == old(out)@ + dec_nat(n as nat),
    decreases n,
{
    if n < 10 {
        out.push(digit_to_char(n));
        assert(out@ =~= old(out)@ + dec_nat(n as nat));
    } else {
        push_dec(n / 10, out);
        out.push(digit_to_char(n % 10));
        assert(out@ =~= old(out)@ + dec_nat(n as nat));
    }
}

/// Decimal rendering of an `i64` as characters.
pub fn i64_chars(i: i64) -> (v: Vec<char>)
    ensures
        v@ == dec_int(i as int),
{
    let mut out: Vec<char> = Vec::new();
    if i >= 0 {
        push_dec(i as u64, &mut out);
        assert(out@ =~= dec_int(i as int));
    } else {
        out.push('-');
        let mag: u64 = (-(i as i128)) as u64;
        assert(mag == -(i as int));
        push_dec(mag, &mut out);
        assert(out@ =~= dec_int(i as int));
    }
    out
}

/// Decimal rendering of a `u64` as characters.
pub fn u64_chars(n: u64) -> (v: Vec<char>)
    ensures
        v@ == dec_nat(n as nat),
{
    let mut out: Vec<char> = Vec::new();
    push_dec(n, &mut out);
    assert(out@ =~= dec_nat(n as nat));
    out
}

/// Appends the decimal digits of a wide value, most significant first.
fn push_dec_wide(n: u128, out: &mut Vec<char>)
    ensures
        final(out)@ == old(out)@ + dec_nat(n as nat),
    decreases n,
{
    if n < 10 {
        out.push(digit_to_char(n as u64));
        assert(out@ =~= old(out)@ + dec_nat(n as nat));
    } else {
        push_dec_wide(n / 10, out);
        out.push(digit_to_char((n % 10) as u64));
        assert(out@ =~= old(out)@ + dec_nat(n as nat));
    }
}

/// Decimal rendering of a `u128` as characters.
pub fn u128_chars(n: u128) -> (v: Vec<char>)
    ensures
        v@ == dec_nat(n as nat),
{
    let mut out: Vec<char> = Vec::new();
    push_dec_wide(n, &mut out);
    assert(out@ =~= dec_nat(n as nat));
    out
}

/// Parses a full token as an `i64`, as decimal with an optional sign;
/// `None` exactly when the token is not an in-range integer.
pub fn parse_i64(t: &Vec<char>) -> (r: Option<i64>)
    ensures
        match r {
            Some(v) => is_int_token(t@) && v as int == int_token_val(t@),
            None => !is_int_token(t@),
        },
{
    let ghost s = t@;
    let len: usize = t.len();
    let neg: bool = len > 0 && t[0] == '-';
    let signed: bool = len > 0 && (t[0] == '-' || t[0] == '+');
    let start: usize = if signed {
        1
    } else {
        0
    };
    let ghost body = if signed {
        s.drop_first()
    } else {
        s
    };
    if start >= len {
        assert(body.len() == 0);
        assert(!is_int_token(t@));
        return None;
    }
    let bound: u128 = 9223372036854775808;
    let mut acc: u128 = 0;
    let mut big: bool = false;
    let mut idx: usize = start;
    while idx < len
        invariant
            start <= idx <= len,
            len == s.len(),
            t@ == s,
            signed == (s.len() > 0 && (s[0] == '-' || s[0] == '+')),
            neg == (s.len() > 0 && s[0] == '-'),
            start == if signed {
                1int
            } else {
                0int
            },
            body == if signed {
                s.drop_first()
            } else {
                s
            },
            body.len() == len - start,
            forall|k: int| 0 <= k < idx - start ==> is_digit(#[trigger] body[k]),
            !big ==> acc == digits_val(body.take(idx - start)) && acc <= bound,
            big ==> digits_val(body.take(idx - start)) > bound,
            bound == 9223372036854775808,
        decreases len - idx,
    {
        let c = t[idx];
        assert(body[idx - start] == c);
        let cv: u32 = c as u32;
        if cv < 48 || cv > 57 {
            assert(!is_digit(body[idx - start]));
            assert(!all_digits(body));
            assert(!is_int_token(t@));
            return None;
        }
        let d: u128 = (cv - 48) as u128;
        assert(body.take(idx + 1 - start).drop_last() =~= body.take(idx - start));
        assert(body.take(idx + 1 - start).last() == c);
        if !big {
            let next: u128 = acc * 10 + d;
            if next > bound {
                big = true;
            } else {
                acc = next;
            }
        } else {
            assert(digits_val(body.take(idx - start)) * 10 + digit_val(c) > bound);
        }
        idx += 1;
    }
    assert(body.take(len - start) =~= body);
    assert(all_digits(body));
    if big {
        assert(digits_val(body) > bound);
        if neg {
            assert(int_token_val(s) == -digits_val(body));
            assert(int_token_val(s) < i64::MIN);
        } else {
            assert(int_token_val(s) == digits_val(body));
            assert(int_token_val(s) > i64::MAX);
        }
        return None;
    }
    if neg {
        assert(int_token_val(s) == -(acc as int));
        if acc == bound {
            Some(i64::MIN)
        } else {
            assert(acc < bound);
            Some(-(acc as i64))
        }
    } else {
        assert(int_token_val(s) == acc as int);
        if acc > bound - 1 {
            assert(int_token_val(s) > i64::MAX);
            None
        } else {
            Some(acc as i64)
        }
    }
}

/// The characters of a string slice, in order.
pub fn chars_of(s: &str) -> (v: Vec<char>)
    ensures
        v@ == s@,
{
    broadcast use vstd::string::group_string_axioms;

    let mut it = s.chars();
    let mut v: Vec<char> = Vec::new();
    loop
        invariant
            vstd::std_specs::iter::IteratorSpec::remaining(&it) == s@.skip(v@.len() as int),
            it.obeys_prophetic_iter_laws(),
            v@.len() <= s@.len(),
            v@ == s@.take(v@.len() as int),
        decreases s@.len() - v@.len(),
    {
        let ghost pre = it;
        match it.next() {
            Some(c) => {
                proof {
                    assert(vstd::std_specs::iter::IteratorSpec::remaining(&pre)[0] == s@[v@.len()
                        as int]);
                }
                v.push(c);
                proof {
                    assert(v@ =~= s@.take(v@.len() as int));
                    assert(vstd::std_specs::iter::IteratorSpec::remaining(&it) =~= s@.skip(
                        v@.len() as int,
                    ));
                }
            },
            None => {
                proof {
                    assert(s@.skip(v@.len() as int).len() == 0);
                    assert(v@ =~= s@);
                }
                return v;
            },
        }
    }
}

/// Relies on `core::iter::Iterator::collect` through `String::from_iter`:
/// collecting characters builds the string of exactly those characters.
#[verifier::external_body]
pub fn string_of(v: &Vec<char>) -> (s: String)
    ensures
        s@ == v@,
{
    v.iter().collect()
}

/// Copies the characters of `src` in positions `a..b`.
pub fn subvec(src: &Vec<char>, a: usize, b: usize) -> (r: Vec<char>)
    requires
        a <= b <= src@.len(),
    ensures
        r@ == src@.subrange(a as int, b as int),
{
    let mut r: Vec<char> = Vec::new();
    let mut i: usize = a;
    while i < b
        invariant
            a <= i <= b <= src@.len(),
            r@ == src@.subrange(a as int, i as int),
        decreases b - i,
    {
        r.push(src[i]);
        proof {
            assert(src@.subrange(a as int, i + 1) =~= src@.subrange(a as int, i as int).push(
                src@[i as int],
            ));
        }
        i += 1;
    }
    r
}

/// Copies a character vector.
pub fn copy_chars(src: &Vec<char>) -> (r: Vec<char>)
    ensures
        r@ == src@,
{
    let r = subvec(src, 0, src.len());
    proof {
        assert(src@.subrange(0, src@.len() as int) =~= src@);
    }
    r
}

/// Compares two character vectors for equality.
pub fn chars_eq(a: &Vec<char>, b: &Vec<char>) -> (r: bool)
    ensures
        r == (a@ == b@),
{
    if a.len() != b.len() {
        return false;
    }
    let mut i: usize = 0;
    while i < a.len()
        invariant
            i <= a@.len(),
            a@.len() == b@.len(),
            forall|k: int| 0 <= k < i ==> a@[k] == b@[k],
        decreases a@.len() - i,
    {
        if a[i] != b[i] {
            return false;
        }
        i += 1;
    }
    proof {
        assert(a@ =~= b@);
    }
    true
}

/// Whether a character vector spells exactly the given text.
pub fn chars_are(a: &Vec<char>, s: &str) -> (r: bool)
    ensures
        r == (a@ == s@),
{
    let b = chars_of(s);
    chars_eq(a, &b)
}

/// Lexicographic order on character sequences by code point, matching
/// the order `str` comparison gives on the same text.
pub open spec fn lex_lt(a: Seq<char>, b: Seq<char>) -> bool
    decreases a.len(),
{
    if b.len() == 0 {
        false
    } else if a.len() == 0 {
        true
    } else if (a[0] as u32) < (b[0] as u32) {
        true
    } else if (a[0] as u32) > (b[0] as u32) {
        false
    } else {
        lex_lt(a.drop_first(), b.drop_first())
    }
}

/// Compares two character vectors lexicographically.
pub fn chars_lt(a: &Vec<char>, b: &Vec<char>) -> (r: bool)
    ensures
        r == lex_lt(a@, b@),
{
    let mut i: usize = 0;
    proof {
        assert(a@.skip(0) =~= a@);
        assert(b@.skip(0) =~= b@);
    }
    loop
        invariant
            i <= a.len(),
            i <= b.len(),
            lex_lt(a@, b@) == lex_lt(a@.skip(i as int), b@.skip(i as int)),
        decreases a@.len() - i,
    {
        let ghost sa = a@.skip(i as int);
        let ghost sb = b@.skip(i as int);
        if i >= b.len() {
            assert(sb.len() == 0);
            return false;
        }
        if i >= a.len() {
            assert(sa.len() == 0 && sb.len() > 0);
            return true;
        }
        assert(sa[0] == a@[i as int] && sb[0] == b@[i as int]);
        let ca: u32 = a[i] as u32;
        let cb: u32 = b[i] as u32;
        if ca < cb {
            return true;
        }
        if ca > cb {
            return false;
        }
        proof {
            assert(sa.drop_first() =~= a@.skip(i + 1));
            assert(sb.drop_first() =~= b@.skip(i + 1));
        }
        i += 1;
    }
}

} // verus!
