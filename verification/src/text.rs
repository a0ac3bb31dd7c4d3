//! Character-level building blocks: decimal number text, UTF-8 widths,
//! whitespace classification and string assembly.

use vstd::prelude::*;

verus! {

/// The character of a decimal digit `d` (0..=9).
pub open spec fn digit_char(d: int) -> char {
    (d + 48) as char
}

/// Decimal digits of a natural number, most significant first, without leading zeros.
pub open spec fn nat_str(n: nat) -> Seq<char>
    decreases n,
{
    if n < 10 {
        seq![digit_char(n as int)]
    } else {
        nat_str(n / 10).push(digit_char((n % 10) as int))
    }
}

/// Decimal text of an integer, with a leading `-` for negative values.
pub open spec fn int_str(i: int) -> Seq<char> {
    if i < 0 {
        seq!['-'] + nat_str((-i) as nat)
    } else {
        nat_str(i as nat)
    }
}

/// The fractional suffix of a multiple of one quarter, by its remainder.
pub open spec fn quarter_suffix(r: int) -> Seq<char> {
    if r == 1 {
        seq!['.', '2', '5']
    } else if r == 2 {
        seq!['.', '5']
    } else if r == 3 {
        seq!['.', '7', '5']
    } else {
        seq![]
    }
}

/// Shortest decimal text of the number `q / 4`: the integer part, then `.25`, `.5` or
/// `.75` when there is a fraction, and a `-` before negative values. This is the text
/// that a double-precision value with that exact value displays as.
pub open spec fn quarter_str(q: int) -> Seq<char> {
    let a: int = if q < 0 { -q } else { q };
    let sign: Seq<char> = if q < 0 { seq!['-'] } else { seq![] };
    sign + nat_str((a / 4) as nat) + quarter_suffix(a % 4)
}

/// Shortest decimal text of the number `h / 2`.
pub open spec fn half_str(h: int) -> Seq<char> {
    quarter_str(2 * h)
}

/// Number of bytes of the UTF-8 encoding of one character.
pub open spec fn char_utf8_len(c: char) -> int {
    if (c as u32) < 0x80 {
        1
    } else if (c as u32) < 0x800 {
        2
    } else if (c as u32) < 0x10000 {
        3
    } else {
        4
    }
}

/// Number of bytes of the UTF-8 encoding of a character sequence.
pub open spec fn utf8_len(s: Seq<char>) -> int
    decreases s.len(),
{
    if s.len() == 0 {
        0
    } else {
        utf8_len(s.drop_last()) + char_utf8_len(s.last())
    }
}

/// The characters with the Unicode `White_Space` property.
pub open spec fn is_space(c: char) -> bool {
    let u = c as u32;
    ||| 0x09 <= u <= 0x0d
    ||| u == 0x20
    ||| u == 0x85
    ||| u == 0xa0
    ||| u == 0x1680
    ||| 0x2000 <= u <= 0x200a
    ||| u == 0x2028
    ||| u == 0x2029
    ||| u == 0x202f
    ||| u == 0x205f
    ||| u == 0x3000
}

/// The number that a sequence of decimal digits denotes.
pub open spec fn digits_value(s: Seq<char>) -> int
    decreases s.len(),
{
    if s.len() == 0 {
        0
    } else {
        10 * digits_value(s.drop_last()) + (s.last() as int - 48)
    }
}

/// A decimal digit character.
pub open spec fn is_digit(c: char) -> bool {
    '0' <= c && c <= '9'
}

/// The decimal text of a natural number is made of digits, denotes the number, and has
/// no leading zero (it is `0` only for zero).
pub proof fn lemma_nat_str(n: nat)
    ensures
        nat_str(n).len() >= 1,
        forall|i: int| 0 <= i < nat_str(n).len() ==> is_digit(#[trigger] nat_str(n)[i]),
        digits_value(nat_str(n)) == n,
        nat_str(n)[0] == '0' ==> n == 0,
    decreases n,
{
    if n >= 10 {
        lemma_nat_str(n / 10);
        let p = nat_str(n / 10);
        let s = nat_str(n);
        assert(s == p.push(digit_char((n % 10) as int)));
        assert(s.drop_last() =~= p);
        assert forall|i: int| 0 <= i < s.len() implies is_digit(#[trigger] s[i]) by {
            if i < p.len() {
                assert(s[i] == p[i]);
            }
        }
        assert(s[0] == p[0]);
        let d = (n % 10) as int;
        assert(digit_char(d) as int == d + 48);
        assert(s.last() == digit_char(d));
        assert(n == 10 * (n / 10) + n % 10);
        assert(digits_value(s) == 10 * digits_value(p) + (d + 48 - 48));
    } else {
        assert(nat_str(n).drop_last() =~= Seq::<char>::empty());
        assert(digit_char(n as int) as int == n + 48);
        assert(digits_value(Seq::<char>::empty()) == 0);
        assert(nat_str(n).last() == digit_char(n as int));
        assert(digits_value(nat_str(n)) == n);
    }
}

/// Negative numbers are written as their magnitude after a `-`; whole quarters are
/// written as whole numbers, without a fraction; a negative quarter value is written as
/// its magnitude after a `-`.
pub proof fn lemma_number_text(i: int, k: int, q: int)
    ensures
        i < 0 ==> int_str(i) == seq!['-'] + int_str(-i),
        quarter_str(4 * k) == int_str(k),
        q > 0 ==> quarter_str(-q) == seq!['-'] + quarter_str(q),
{
    if k < 0 {
        assert((-4 * k) / 4 == -k);
        assert((-4 * k) % 4 == 0);
        assert(quarter_str(4 * k) =~= int_str(k));
    } else {
        assert((4 * k) / 4 == k);
        assert((4 * k) % 4 == 0);
        assert(quarter_str(4 * k) =~= int_str(k));
    }
    if q > 0 {
        assert(quarter_str(-q) =~= seq!['-'] + quarter_str(q));
    }
}

/// The fraction written after a whole number of a quarter value is the shortest decimal
/// of that fraction: nothing for none, else `.` and digits denoting `r / 4` exactly,
/// ending in a non-zero digit.
pub proof fn lemma_quarter_suffix(r: int)
    requires
        0 <= r < 4,
    ensures
        r == 0 ==> quarter_suffix(r).len() == 0,
        r > 0 ==> ({
            let f = quarter_suffix(r).skip(1);
            &&& quarter_suffix(r)[0] == '.'
            &&& f.len() >= 1
            &&& forall|i: int| 0 <= i < f.len() ==> is_digit(#[trigger] f[i])
            &&& f.last() != '0'
            &&& 4 * digits_value(f) == r * (if f.len() == 1 {
                10int
            } else {
                100int
            })
        }),
{
    if r > 0 {
        let f = quarter_suffix(r).skip(1);
        assert(('2' as int) == 50);
        assert(('5' as int) == 53);
        assert(('7' as int) == 55);
        if r == 2 {
            assert(f =~= seq!['5']);
            assert(f.drop_last() =~= Seq::<char>::empty());
            assert(digits_value(Seq::<char>::empty()) == 0);
            assert(digits_value(f) == 5);
        } else if r == 1 {
            assert(f =~= seq!['2', '5']);
            assert(f.drop_last() =~= seq!['2']);
            assert(seq!['2'].drop_last() =~= Seq::<char>::empty());
            assert(digits_value(Seq::<char>::empty()) == 0);
            assert(digits_value(seq!['2']) == 2);
            assert(digits_value(f) == 25);
        } else {
            assert(f =~= seq!['7', '5']);
            assert(f.drop_last() =~= seq!['7']);
            assert(seq!['7'].drop_last() =~= Seq::<char>::empty());
            assert(digits_value(Seq::<char>::empty()) == 0);
            assert(digits_value(seq!['7']) == 7);
            assert(digits_value(f) == 75);
        }
    }
}

/// Among ASCII characters, white space is exactly the space and the controls tab, line
/// feed, vertical tab, form feed and carriage return; every visible ASCII character
/// (from `!` to `~`) is not white space.
pub proof fn lemma_ascii_space(c: char)
    requires
        (c as u32) < 0x80,
    ensures
        is_space(c) <==> ((c as u32) == 0x20 || 0x09 <= (c as u32) <= 0x0d),
        0x21 <= (c as u32) <= 0x7e ==> !is_space(c),
{
}

pub proof fn lemma_utf8_len_bounds(s: Seq<char>)
    ensures
        s.len() <= utf8_len(s) <= 4 * s.len(),
    decreases s.len(),
{
    if s.len() > 0 {
        lemma_utf8_len_bounds(s.drop_last());
    }
}

pub proof fn lemma_utf8_len_concat(a: Seq<char>, b: Seq<char>)
    ensures
        utf8_len(a + b) == utf8_len(a) + utf8_len(b),
    decreases b.len(),
{
    if b.len() == 0 {
        assert(a + b =~= a);
    } else {
        lemma_utf8_len_concat(a, b.drop_last());
        assert((a + b).drop_last() =~= a + b.drop_last());
    }
}

/// `String::push`: appends one character.
#[verifier::external_body]
pub(crate) fn push_char(s: &mut String, c: char)
    ensures
        final(s)@ == old(s)@.push(c),
{
    s.push(c);
}

/// Whether `c` is a Unicode white-space character, as `char::is_whitespace` tells.
pub fn is_space_char(c: char) -> (b: bool)
    ensures
        b == is_space(c),
{
    let u = c as u32;
    (0x09 <= u && u <= 0x0d) || u == 0x20 || u == 0x85 || u == 0xa0 || u == 0x1680 || (0x2000
        <= u && u <= 0x200a) || u == 0x2028 || u == 0x2029 || u == 0x202f || u == 0x205f || u
        == 0x3000
}

/// Number of UTF-8 bytes of one character.
pub fn char_width(c: char) -> (w: u8)
    ensures
        w == char_utf8_len(c),
{
    let u = c as u32;
    if u < 0x80 {
        1
    } else if u < 0x800 {
        2
    } else if u < 0x10000 {
        3
    } else {
        4
    }
}

/// Number of UTF-8 bytes of a character sequence.
pub fn chars_width(v: &Vec<char>) -> (w: u128)
    ensures
        w == utf8_len(v@),
{
    let mut w: u128 = 0;
    let mut i: usize = 0;
    while i < v.len()
        invariant
            i <= v@.len(),
            w == utf8_len(v@.take(i as int)),
        decreases v@.len() - i,
    {
        proof {
            lemma_utf8_len_bounds(v@.take(i as int));
            assert(v@.take(i + 1).drop_last() =~= v@.take(i as int));
        }
        w = w + char_width(v[i]) as u128;
        i = i + 1;
    }
    assert(v@.take(v@.len() as int) =~= v@);
    w
}

/// The characters of a string slice, in order.
pub fn chars_of(s: &str) -> (v: Vec<char>)
    ensures
        v@ == s@,
{
    let mut v: Vec<char> = Vec::new();
    for c in it: s.chars()
        invariant
            it.seq() == s@,
            v@ == it.seq().take(it.index() as int),
    {
        v.push(c);
    }
    v
}

/// Whether a string slice holds exactly the characters of `lit`.
pub fn str_is(s: &str, lit: &str) -> (b: bool)
    ensures
        b == (s@ == lit@),
{
    let a = chars_of(s);
    let l = chars_of(lit);
    chars_eq(&a, &l)
}

/// Whether two character vectors are equal.
pub fn chars_eq(a: &Vec<char>, b: &Vec<char>) -> (r: bool)
    ensures
        r == (a@ == b@),
{
    if a.len() != b.len() {
        return false;
    }
    let mut i: usize = 0;
    while i < a.len()
        invariant
            a@.len() == b@.len(),
            i <= a@.len(),
            forall|j: int| 0 <= j < i ==> a@[j] == b@[j],
        decreases a@.len() - i,
    {
        if a[i] != b[i] {
            return false;
        }
        i = i + 1;
    }
    assert(a@ =~= b@);
    true
}

/// Appends the characters of `v`.
pub fn push_chars(s: &mut String, v: &Vec<char>)
    ensures
        final(s)@ == old(s)@ + v@,
{
    let mut i: usize = 0;
    while i < v.len()
        invariant
            i <= v@.len(),
            s@ == old(s)@ + v@.take(i as int),
        decreases v@.len() - i,
    {
        push_char(s, v[i]);
        assert(v@.take(i + 1) =~= v@.take(i as int).push(v@[i as int]));
        i = i + 1;
    }
    assert(v@.take(v@.len() as int) =~= v@);
}

/// A string holding the characters of `v`.
pub fn string_of(v: &Vec<char>) -> (s: String)
    ensures
        s@ == v@,
{
    let mut s = String::new();
    push_chars(&mut s, v);
    s
}

/// Appends the decimal digits of `n`.
pub fn push_nat(s: &mut String, n: u128)
    ensures
        final(s)@ == old(s)@ + nat_str(n as nat),
    decreases n,
{
    if n >= 10 {
        push_nat(s, n / 10);
    }
    let d: u8 = (n % 10) as u8;
    let c: char = (d + 48) as char;
    push_char(s, c);
    assert(final(s)@ =~= old(s)@ + nat_str(n as nat));
}

/// Appends the decimal text of `i`.
pub fn push_int(s: &mut String, i: i128)
    ensures
        final(s)@ == old(s)@ + int_str(i as int),
{
    if i < 0 {
        push_char(s, '-');
        let m: u128 = ((-(i + 1)) as u128) + 1;
        push_nat(s, m);
        assert(final(s)@ =~= old(s)@ + int_str(i as int));
    } else {
        push_nat(s, i as u128);
    }
}

/// Appends the shortest decimal text of `q / 4`.
pub fn push_quarter(s: &mut String, q: i128)
    ensures
        final(s)@ == old(s)@ + quarter_str(q as int),
{
    let a: u128 = if q < 0 {
        ((-(q + 1)) as u128) + 1
    } else {
        q as u128
    };
    let ghost s0 = s@;
    if q < 0 {
        push_char(s, '-');
    }
    push_nat(s, a / 4);
    let r = a % 4;
    if r == 1 {
        s.append(".25");
    } else if r == 2 {
        s.append(".5");
    } else if r == 3 {
        s.append(".75");
    }
    proof {
        reveal_strlit(".25");
        reveal_strlit(".5");
        reveal_strlit(".75");
    }
    assert(s@ =~= s0 + quarter_str(q as int));
}

/// Appends the decimal text of an `i64`.
pub fn push_i64(s: &mut String, i: i64)
    ensures
        final(s)@ == old(s)@ + int_str(i as int),
{
    push_int(s, i as i128);
}

} // verus!
