//! Character-level helpers that the rest of the library builds its strings with.
//!
//! Every string the library produces is described by its sequence of characters
//! (`Seq<char>`, the view of `str` and `String`). The functions here turn strings into
//! vectors of characters and back, lower-case text, and write numbers in zero-padded
//! decimal.

use vstd::prelude::*;

verus! {

/// `String::push` of the standard library appends exactly one character.
pub assume_specification[ String::push ](s: &mut String, c: char)
    ensures
        final(s)@ == old(s)@.push(c),
;

/// The characters of `s`, in order.
pub fn chars_of(s: &str) -> (out: Vec<char>)
    ensures
        out@ == s@,
{
    let mut out: Vec<char> = Vec::new();
    for c in it: s.chars()
        invariant
            out@ == it.seq().take(it.index() as int),
            it.seq() == s@,
    {
        out.push(c);
    }
    out
}

/// The string made of `chars`, in order.
pub fn string_of(chars: &Vec<char>) -> (out: String)
    ensures
        out@ == chars@,
{
    let mut out = String::new();
    let mut i: usize = 0;
    while i < chars.len()
        invariant
            i <= chars.len(),
            out@ == chars@.take(i as int),
        decreases chars.len() - i,
    {
        out.push(chars[i]);
        i += 1;
        assert(chars@.take(i as int) == chars@.take(i - 1).push(chars@[i - 1]));
    }
    assert(chars@.take(chars.len() as int) == chars@);
    out
}

/// Whether two strings hold the same characters.
pub fn same_text(a: &str, b: &str) -> (same: bool)
    ensures
        same == (a@ == b@),
{
    let x = chars_of(a);
    let y = chars_of(b);
    if x.len() != y.len() {
        return false;
    }
    let mut i: usize = 0;
    while i < x.len()
        invariant
            i <= x.len(),
            x.len() == y.len(),
            x@ == a@,
            y@ == b@,
            forall|j: int| 0 <= j < i ==> x@[j] == y@[j],
        decreases x.len() - i,
    {
        if x[i] != y[i] {
            assert(a@[i as int] != b@[i as int]);
            return false;
        }
        i += 1;
    }
    assert(x@ =~= y@);
    true
}

/// Appends all of `tail` to `v`.
pub fn extend_chars(v: &mut Vec<char>, tail: &Vec<char>)
    ensures
        final(v)@ == old(v)@ + tail@,
{
    let mut i: usize = 0;
    while i < tail.len()
        invariant
            i <= tail.len(),
            v@ == old(v)@ + tail@.take(i as int),
        decreases tail.len() - i,
    {
        v.push(tail[i]);
        i += 1;
        assert(tail@.take(i as int) == tail@.take(i - 1).push(tail@[i - 1]));
    }
    assert(tail@.take(tail.len() as int) == tail@);
}

/// An ASCII capital letter becomes its small letter; every other character stays.
pub open spec fn lower_char(c: char) -> char {
    if 'A' <= c && c <= 'Z' {
        ((c as u8) + 32) as char
    } else {
        c
    }
}

/// `s` with each ASCII capital letter replaced by its small letter; every other
/// character stays as it is.
pub open spec fn lower(s: Seq<char>) -> Seq<char> {
    Seq::new(s.len(), |i: int| lower_char(s[i]))
}

pub fn to_lower_char(c: char) -> (r: char)
    ensures
        r == lower_char(c),
{
    if 'A' <= c && c <= 'Z' {
        ((c as u8) + 32) as char
    } else {
        c
    }
}

/// Lower-cases the ASCII letters of `chars`.
pub fn to_lower(chars: &Vec<char>) -> (out: Vec<char>)
    ensures
        out@ == lower(chars@),
{
    let mut out: Vec<char> = Vec::new();
    let mut i: usize = 0;
    while i < chars.len()
        invariant
            i <= chars.len(),
            out@.len() == i,
            forall|j: int| 0 <= j < i ==> out@[j] == lower_char(chars@[j]),
        decreases chars.len() - i,
    {
        out.push(to_lower_char(chars[i]));
        i += 1;
    }
    assert(out@ =~= lower(chars@));
    out
}

/// Whether every character of `s` is an ASCII character.
pub open spec fn is_ascii_text(s: Seq<char>) -> bool {
    forall|i: int| 0 <= i < s.len() ==> '\0' <= #[trigger] s[i] <= '\u{7f}'
}

/// What the standard library's `str::to_lowercase` makes of `s`: its lowercase
/// equivalent by the rules of Unicode.
pub uninterp spec fn lowercased(s: Seq<char>) -> Seq<char>;

/// `s` in small letters: on ASCII text each capital letter becomes its small letter,
/// and on any other text the result is what `str::to_lowercase` gives.
pub open spec fn lowered(s: Seq<char>) -> Seq<char> {
    if is_ascii_text(s) {
        lower(s)
    } else {
        lowercased(s)
    }
}

/// Calls `str::to_lowercase` of the standard library. What comes back is given the
/// name `lowercased`. Not proved: that on ASCII text it is the text with each capital
/// letter replaced by its small letter.
#[verifier::external_body]
fn to_lowercase(s: &str) -> (out: String)
    ensures
        out@ == lowercased(s@),
        is_ascii_text(s@) ==> out@ == lower(s@),
{
    s.to_lowercase()
}

/// `s` in small letters.
pub fn lowercase(s: &str) -> (out: String)
    ensures
        out@ == lowered(s@),
{
    to_lowercase(s)
}

/// The character for one decimal digit.
pub open spec fn digit_char(d: int) -> char {
    if d == 0 {
        '0'
    } else if d == 1 {
        '1'
    } else if d == 2 {
        '2'
    } else if d == 3 {
        '3'
    } else if d == 4 {
        '4'
    } else if d == 5 {
        '5'
    } else if d == 6 {
        '6'
    } else if d == 7 {
        '7'
    } else if d == 8 {
        '8'
    } else {
        '9'
    }
}

/// `n` in decimal, without leading zeros (`0` is written `"0"`).
pub open spec fn decimal(n: nat) -> Seq<char>
    decreases n,
{
    if n < 10 {
        seq![digit_char(n as int)]
    } else {
        decimal(n / 10).push(digit_char((n % 10) as int))
    }
}

/// `s` with zeros put in front until it is at least `width` long.
pub open spec fn pad_zeros(s: Seq<char>, width: nat) -> Seq<char>
    decreases width - s.len(),
{
    if s.len() >= width {
        s
    } else {
        pad_zeros(seq!['0'] + s, width)
    }
}

/// `n` in decimal, with leading zeros up to `width` digits; longer numbers are not cut.
pub open spec fn zero_padded(n: nat, width: nat) -> Seq<char> {
    pad_zeros(decimal(n), width)
}

fn digit(d: u32) -> (c: char)
    requires
        d < 10,
    ensures
        c == digit_char(d as int),
{
    if d == 0 {
        '0'
    } else if d == 1 {
        '1'
    } else if d == 2 {
        '2'
    } else if d == 3 {
        '3'
    } else if d == 4 {
        '4'
    } else if d == 5 {
        '5'
    } else if d == 6 {
        '6'
    } else if d == 7 {
        '7'
    } else if d == 8 {
        '8'
    } else {
        '9'
    }
}

/// Writes `n` in decimal with at least `width` digits.
pub fn zero_padded_chars(n: u32, width: usize) -> (out: Vec<char>)
    ensures
        out@ == zero_padded(n as nat, width as nat),
{
    let mut out: Vec<char> = Vec::new();
    out.push(digit(n % 10));
    let mut rest: u32 = n / 10;
    assert(out@ == seq![digit_char((n % 10) as int)]);
    while rest > 0
        invariant
            decimal(n as nat) == if rest > 0 {
                decimal(rest as nat) + out@
            } else {
                out@
            },
        decreases rest,
    {
        let d = digit(rest % 10);
        out.insert(0, d);
        let ghost before = rest;
        rest = rest / 10;
        proof {
            let tail = out@.skip(1);
            assert(out@ =~= seq![d] + tail);
            if before < 10 {
                assert(decimal(before as nat) == seq![d]);
            } else {
                assert(decimal(before as nat) == decimal(rest as nat).push(d));
                assert(decimal(rest as nat).push(d) + tail =~= decimal(rest as nat) + out@);
            }
        }
    }
    while out.len() < width
        invariant
            pad_zeros(out@, width as nat) == zero_padded(n as nat, width as nat),
        decreases width - out.len(),
    {
        let ghost before = out@;
        out.insert(0, '0');
        assert(out@ =~= seq!['0'] + before);
    }
    out
}

/// The number a decimal digit stands for; 0 for any other character.
pub open spec fn digit_value(c: char) -> nat {
    if c == '1' {
        1
    } else if c == '2' {
        2
    } else if c == '3' {
        3
    } else if c == '4' {
        4
    } else if c == '5' {
        5
    } else if c == '6' {
        6
    } else if c == '7' {
        7
    } else if c == '8' {
        8
    } else if c == '9' {
        9
    } else {
        0
    }
}

/// The number that `digits` is the decimal writing of.
pub open spec fn decimal_value(digits: Seq<char>) -> nat
    decreases digits.len(),
{
    if digits.len() == 0 {
        0
    } else {
        decimal_value(digits.drop_last()) * 10 + digit_value(digits.last())
    }
}

/// Reading what `decimal` wrote gives the number back.
pub proof fn lemma_decimal_value(n: nat)
    ensures
        decimal_value(decimal(n)) == n,
    decreases n,
{
    if n < 10 {
        let digits = decimal(n);
        assert(digits.drop_last() =~= Seq::<char>::empty());
        assert(decimal_value(digits.drop_last()) == 0);
    } else {
        lemma_decimal_value(n / 10);
        let digits = decimal(n);
        assert(digits.drop_last() =~= decimal(n / 10));
    }
}

/// Zeros in front do not change the number.
pub proof fn lemma_leading_zero(digits: Seq<char>)
    ensures
        decimal_value(seq!['0'] + digits) == decimal_value(digits),
    decreases digits.len(),
{
    let longer = seq!['0'] + digits;
    if digits.len() == 0 {
        assert(longer.drop_last() =~= Seq::<char>::empty());
        assert(decimal_value(longer.drop_last()) == 0);
    } else {
        lemma_leading_zero(digits.drop_last());
        assert(longer.drop_last() =~= seq!['0'] + digits.drop_last());
    }
}

/// Reading what `zero_padded` wrote gives the number back.
pub proof fn lemma_zero_padded_value(n: nat, width: nat)
    ensures
        decimal_value(zero_padded(n, width)) == n,
{
    lemma_decimal_value(n);
    lemma_pad_zeros_value(decimal(n), width);
}

proof fn lemma_pad_zeros_value(digits: Seq<char>, width: nat)
    ensures
        decimal_value(pad_zeros(digits, width)) == decimal_value(digits),
    decreases width - digits.len(),
{
    if digits.len() < width {
        lemma_leading_zero(digits);
        lemma_pad_zeros_value(seq!['0'] + digits, width);
    }
}

/// Two numbers that are written the same are the same number.
pub proof fn lemma_zero_padded_injective(first: nat, second: nat, width: nat)
    requires
        zero_padded(first, width) == zero_padded(second, width),
    ensures
        first == second,
{
    lemma_zero_padded_value(first, width);
    lemma_zero_padded_value(second, width);
}

} // verus!
