//! Character-level helpers: conversions between strings and character
//! vectors, decimal rendering of integers and decimal parsing.
use vstd::prelude::*;

verus! {

/// The characters of `s`, in order.
pub fn chars_of(s: &str) -> (v: Vec<char>)
    ensures
        v@ == s@,
{
    let mut v: Vec<char> = Vec::new();
    for c in it: s.chars()
        invariant
            v@ == it.seq().take(it.index() as int),
    {
        v.push(c);
    }
    v
}

/// The characters of `v` from `from` up to (not including) `to`.
pub fn slice_chars(v: &Vec<char>, from: usize, to: usize) -> (r: Vec<char>)
    requires
        from <= to <= v.len(),
    ensures
        r@ == v@.subrange(from as int, to as int),
{
    let mut r: Vec<char> = Vec::new();
    let mut i = from;
    while i < to
        invariant
            from <= i <= to <= v.len(),
            r@ == v@.subrange(from as int, i as int),
        decreases to - i,
    {
        r.push(v[i]);
        assert(v@.subrange(from as int, i + 1) =~= v@.subrange(from as int, i as int).push(v@[i as int]));
        i = i + 1;
    }
    r
}

/// Appends one character to a string (`String::push`).
#[verifier::external_body]
pub fn push_char(s: &mut String, c: char)
    ensures
        final(s)@ == old(s)@.push(c),
{
    s.push(c);
}

/// Appends a string slice to a string.
pub fn push_str(s: &mut String, t: &str)
    ensures
        final(s)@ == old(s)@ + t@,
{
    s.append(t);
}

/// Appends the characters of a vector to a string.
pub fn push_chars(s: &mut String, v: &Vec<char>)
    ensures
        final(s)@ == old(s)@ + v@,
{
    let ghost s0 = s@;
    let mut i: usize = 0;
    while i < v.len()
        invariant
            i <= v.len(),
            s@ == s0 + v@.take(i as int),
        decreases v.len() - i,
    {
        push_char(s, v[i]);
        assert(v@.take(i + 1) =~= v@.take(i as int).push(v@[i as int]));
        i = i + 1;
    }
    assert(v@.take(v.len() as int) =~= v@);
}

/// A string holding the characters of `v`.
pub fn string_of(v: &Vec<char>) -> (s: String)
    ensures
        s@ == v@,
{
    let mut s = String::new();
    push_chars(&mut s, v);
    s
}

/// An owned copy of a string slice.
pub fn owned(s: &str) -> (r: String)
    ensures
        r@ == s@,
{
    let mut r = String::new();
    push_str(&mut r, s);
    r
}

/// The ASCII digit for `d`.
pub open spec fn digit_char(d: int) -> char {
    ((d + 48) as u32) as char
}

/// The decimal digits of `n`, most significant first, with no leading zero
/// (`"0"` for zero).
pub open spec fn dec(n: nat) -> Seq<char>
    decreases n,
{
    if n < 10 {
        seq![digit_char(n as int)]
    } else {
        dec(n / 10).push(digit_char((n % 10) as int))
    }
}

/// The decimal form of a signed integer, with a leading `-` when negative.
pub open spec fn signed_dec(n: int) -> Seq<char> {
    if n < 0 {
        seq!['-'] + dec((-n) as nat)
    } else {
        dec(n as nat)
    }
}

/// The ASCII digit for a value below ten.
fn digit(d: u64) -> (c: char)
    requires
        d < 10,
    ensures
        c == digit_char(d as int),
{
    if d == 0 { '0' }
    else if d == 1 { '1' }
    else if d == 2 { '2' }
    else if d == 3 { '3' }
    else if d == 4 { '4' }
    else if d == 5 { '5' }
    else if d == 6 { '6' }
    else if d == 7 { '7' }
    else if d == 8 { '8' }
    else { '9' }
}

/// Appends the decimal digits of `n` to `out`.
pub fn push_u64(out: &mut String, n: u64)
    ensures
        final(out)@ == old(out)@ + dec(n as nat),
    decreases n,
{
    if n < 10 {
        push_char(out, digit(n));
        assert(dec(n as nat) =~= seq![digit_char(n as int)]);
    } else {
        push_u64(out, n / 10);
        push_char(out, digit(n % 10));
    }
}

/// The decimal form of `n` (`n.to_string()`).
pub fn u64_to_string(n: u64) -> (s: String)
    ensures
        s@ == dec(n as nat),
{
    let mut s = String::new();
    push_u64(&mut s, n);
    s
}

/// Appends the decimal form of a signed integer to `out`.
pub fn push_i64(out: &mut String, n: i64)
    ensures
        final(out)@ == old(out)@ + signed_dec(n as int),
{
    if n < 0 {
        push_char(out, '-');
        let magnitude: u64 = if n == i64::MIN {
            9223372036854775808u64
        } else {
            (-n) as u64
        };
        push_u64(out, magnitude);
    } else {
        push_u64(out, n as u64);
    }
}

/// Whether `c` is an ASCII decimal digit.
pub open spec fn is_digit(c: char) -> bool {
    '0' <= c <= '9'
}

/// The number written by a run of ASCII digits.
pub open spec fn digits_value(s: Seq<char>) -> nat
    decreases s.len(),
{
    if s.len() == 0 {
        0
    } else {
        digits_value(s.drop_last()) * 10 + ((s.last() as u32) - 48) as nat
    }
}

/// Every character of `s` is an ASCII digit.
pub open spec fn all_digits(s: Seq<char>) -> bool {
    forall|i: int| 0 <= i < s.len() ==> is_digit(#[trigger] s[i])
}

/// What `str::parse::<u64>` gives: an optional `+` followed by at least one
/// ASCII digit, of value at most `u64::MAX`.
pub open spec fn parse_u64_spec(s: Seq<char>) -> Option<u64> {
    let body = if s.len() > 0 && s[0] == '+' { s.drop_first() } else { s };
    if body.len() > 0 && all_digits(body) && digits_value(body) <= u64::MAX {
        Some(digits_value(body) as u64)
    } else {
        None
    }
}

/// Parses a decimal `u64` as `str::parse` does.
pub fn parse_u64(s: &Vec<char>) -> (r: Option<u64>)
    ensures
        r == parse_u64_spec(s@),
{
    let start: usize = if s.len() > 0 && s[0] == '+' { 1 } else { 0 };
    let ghost body = if s@.len() > 0 && s@[0] == '+' { s@.drop_first() } else { s@ };
    assert(body =~= s@.skip(start as int));
    if start >= s.len() {
        return None;
    }
    let mut value: u64 = 0;
    let mut i = start;
    while i < s.len()
        invariant
            start <= i <= s.len(),
            body == s@.skip(start as int),
            body == (if s@.len() > 0 && s@[0] == '+' { s@.drop_first() } else { s@ }),
            forall|k: int| start <= k < i ==> is_digit(#[trigger] s@[k]),
            value as nat == digits_value(s@.subrange(start as int, i as int)),
        decreases s.len() - i,
    {
        let c = s[i];
        let ghost pre = s@.subrange(start as int, i as int);
        assert(s@.subrange(start as int, i + 1) =~= pre.push(c));
        if !('0' <= c && c <= '9') {
            assert(body[i - start] == c);
            assert(!is_digit(body[i - start]));
            return None;
        }
        let d = (c as u32 - 48) as u64;
        if value > (u64::MAX - d) / 10 {
            proof {
                let next = s@.subrange(start as int, i + 1);
                assert(next.drop_last() =~= pre);
                assert(next.last() == c);
                assert(digits_value(next) == value * 10 + d);
                assert(value * 10 + d > u64::MAX) by (nonlinear_arith)
                    requires
                        value > (u64::MAX - d) / 10,
                        d < 10,
                ;
                if all_digits(body) {
                    assert(next =~= body.take(next.len() as int));
                    lemma_digits_value_grows(next, body);
                }
            }
            return None;
        }
        value = value * 10 + d;
        proof {
            let next = s@.subrange(start as int, i + 1);
            assert(next.drop_last() =~= pre);
            assert(next.last() == c);
        }
        i = i + 1;
    }
    assert(s@.subrange(start as int, s.len() as int) =~= body);
    Some(value)
}

/// A prefix of a digit run never has a larger value than the whole run.
proof fn lemma_digits_value_grows(pre: Seq<char>, whole: Seq<char>)
    requires
        pre.len() <= whole.len(),
        pre == whole.take(pre.len() as int),
        all_digits(whole),
    ensures
        digits_value(pre) <= digits_value(whole),
    decreases whole.len() - pre.len(),
{
    if pre.len() < whole.len() {
        let next = whole.take(pre.len() + 1 as int);
        assert(next.drop_last() =~= pre);
        lemma_digits_value_grows(next, whole);
    } else {
        assert(pre =~= whole);
    }
}

/// The decimal form of `n` is a non-empty run of ASCII digits that reads
/// back as `n`.
pub proof fn lemma_dec_digits(n: nat)
    ensures
        dec(n).len() >= 1,
        all_digits(dec(n)),
        digits_value(dec(n)) == n,
    decreases n,
{
    let d = (n % 10) as int;
    assert(digit_char(d) as u32 == d + 48 && is_digit(digit_char(d))) by {
        assert(0 <= d < 10);
    }
    if n >= 10 {
        lemma_dec_digits(n / 10);
        let s = dec(n);
        assert(s.drop_last() =~= dec(n / 10));
        assert forall|i: int| 0 <= i < s.len() implies is_digit(#[trigger] s[i]) by {
            if i < s.len() - 1 {
                assert(s[i] == dec(n / 10)[i]);
            }
        }
        assert(s.last() == digit_char(d));
        assert(digits_value(s) == digits_value(dec(n / 10)) * 10 + d);
        assert((n / 10) * 10 + n % 10 == n);
    } else {
        let s = dec(n);
        assert(s.drop_last() =~= Seq::<char>::empty());
        assert(digits_value(s) == digits_value(s.drop_last()) * 10 + d);
    }
}

/// Two numbers with the same decimal form are equal.
pub proof fn lemma_dec_injective(n: nat, m: nat)
    requires
        dec(n) == dec(m),
    ensures
        n == m,
{
    lemma_dec_digits(n);
    lemma_dec_digits(m);
}

/// Two integers with the same signed decimal form are equal.
pub proof fn lemma_signed_dec_injective(n: int, m: int)
    requires
        signed_dec(n) == signed_dec(m),
    ensures
        n == m,
{
    lemma_dec_digits(if n < 0 { (-n) as nat } else { n as nat });
    lemma_dec_digits(if m < 0 { (-m) as nat } else { m as nat });
    if n < 0 && m < 0 {
        assert(signed_dec(n).drop_first() =~= dec((-n) as nat));
        assert(signed_dec(m).drop_first() =~= dec((-m) as nat));
        lemma_dec_injective((-n) as nat, (-m) as nat);
    } else if n < 0 {
        assert(signed_dec(n)[0] == '-');
        assert(is_digit(dec(m as nat)[0]));
    } else if m < 0 {
        assert(signed_dec(m)[0] == '-');
        assert(is_digit(dec(n as nat)[0]));
    } else {
        lemma_dec_injective(n as nat, m as nat);
    }
}

/// A signed decimal form holds only `-` and ASCII digits.
pub proof fn lemma_signed_dec_chars(n: int)
    ensures
        forall|i: int| 0 <= i < signed_dec(n).len() ==> #[trigger] signed_dec(n)[i] == '-' || is_digit(signed_dec(n)[i]),
{
    if n < 0 {
        lemma_dec_digits((-n) as nat);
        assert forall|i: int| 0 < i < signed_dec(n).len() implies is_digit(#[trigger] signed_dec(n)[i]) by {
            assert(signed_dec(n)[i] == dec((-n) as nat)[i - 1]);
        }
    } else {
        lemma_dec_digits(n as nat);
    }
}

/// `part` stands in `text` from index `i` on.
pub open spec fn occurs_at(text: Seq<char>, part: Seq<char>, i: int) -> bool {
    0 <= i && i + part.len() <= text.len() && text.subrange(i, i + part.len()) == part
}

/// `part` stands somewhere in `text`.
pub open spec fn occurs_in(text: Seq<char>, part: Seq<char>) -> bool {
    exists|i: int| occurs_at(text, part, i)
}

/// What stands in `a` stands in `a + b` at the same place.
pub proof fn lemma_occurs_left(a: Seq<char>, b: Seq<char>, part: Seq<char>, i: int)
    requires
        occurs_at(a, part, i),
    ensures
        occurs_at(a + b, part, i),
{
    assert((a + b).subrange(i, i + part.len()) =~= a.subrange(i, i + part.len()));
}

/// What stands in `b` stands in `a + b`, shifted by the length of `a`.
pub proof fn lemma_occurs_right(a: Seq<char>, b: Seq<char>, part: Seq<char>, i: int)
    requires
        occurs_at(b, part, i),
    ensures
        occurs_at(a + b, part, a.len() + i),
{
    assert((a + b).subrange(a.len() + i, a.len() + i + part.len()) =~= b.subrange(i, i + part.len()));
}

} // verus!
