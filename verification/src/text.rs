//! Character-sequence building blocks: decimal and hexadecimal digit strings,
//! space padding, and verified helpers that append to a `Vec<char>` buffer.

use vstd::prelude::*;
use vstd::string::StrSliceExecFns;

verus! {

/// The character for one decimal digit value.
pub open spec fn dec_digit(d: nat) -> char
    recommends
        d < 10,
{
    if d == 0 { '0' }
    else if d == 1 { '1' }
    else if d == 2 { '2' }
    else if d == 3 { '3' }
    else if d == 4 { '4' }
    else if d == 5 { '5' }
    else if d == 6 { '6' }
    else if d == 7 { '7' }
    else if d == 8 { '8' }
    else { '9' }
}

/// The decimal rendering of `n`, most significant digit first, no leading zeros
/// (a single `'0'` for zero).
pub open spec fn dec_digits(n: nat) -> Seq<char>
    decreases n,
{
    if n < 10 { seq![dec_digit(n)] } else { dec_digits(n / 10) + seq![dec_digit(n % 10)] }
}

/// The character for one hexadecimal digit value, lower case.
pub open spec fn hex_digit(d: nat) -> char
    recommends
        d < 16,
{
    if d < 10 { dec_digit(d) }
    else if d == 10 { 'a' }
    else if d == 11 { 'b' }
    else if d == 12 { 'c' }
    else if d == 13 { 'd' }
    else if d == 14 { 'e' }
    else { 'f' }
}

/// The hexadecimal rendering of `n`, most significant digit first, no leading
/// zeros (a single `'0'` for zero).
pub open spec fn hex_digits(n: nat) -> Seq<char>
    decreases n,
{
    if n < 16 { seq![hex_digit(n)] } else { hex_digits(n / 16) + seq![hex_digit(n % 16)] }
}

/// `n` space characters.
pub open spec fn spaces(n: nat) -> Seq<char> {
    Seq::new(n, |i: int| ' ')
}

/// `s`, right-aligned in a field of width `w`: space-padded on the left when
/// shorter than `w`, unchanged otherwise.
pub open spec fn pad_left(s: Seq<char>, w: nat) -> Seq<char> {
    if s.len() >= w { s } else { spaces((w - s.len()) as nat) + s }
}

fn dec_digit_char(d: u64) -> (c: char)
    requires
        d < 10,
    ensures
        c == dec_digit(d as nat),
{
    if d == 0 { '0' }
    else if d == 1 { '1' }
    else if d == 2 { '2' }
    else if d == 3 { '3' }
    else if d == 4 { '4' }
    else if d == 5 { '5' }
    else if d == 6 { '6' }
    else if d == 7 { '7' }
    else if d == 8 { '8' }
    else { '9' }
}

pub(crate) fn hex_digit_char(d: u64) -> (c: char)
    requires
        d < 16,
    ensures
        c == hex_digit(d as nat),
{
    if d < 10 { dec_digit_char(d) }
    else if d == 10 { 'a' }
    else if d == 11 { 'b' }
    else if d == 12 { 'c' }
    else if d == 13 { 'd' }
    else if d == 14 { 'e' }
    else { 'f' }
}

/// Append the decimal rendering of `n` to `out`.
pub fn push_dec(out: &mut Vec<char>, n: u64)
    ensures
        final(out)@ == old(out)@ + dec_digits(n as nat),
    decreases n,
{
    if n < 10 {
        out.push(dec_digit_char(n));
    } else {
        push_dec(out, n / 10);
        out.push(dec_digit_char(n % 10));
    }
    assert(final(out)@ =~= old(out)@ + dec_digits(n as nat));
}

/// Append the hexadecimal rendering of `n` to `out`.
pub fn push_hex(out: &mut Vec<char>, n: u64)
    ensures
        final(out)@ == old(out)@ + hex_digits(n as nat),
    decreases n,
{
    if n < 16 {
        out.push(hex_digit_char(n));
    } else {
        push_hex(out, n / 16);
        out.push(hex_digit_char(n % 16));
    }
    assert(final(out)@ =~= old(out)@ + hex_digits(n as nat));
}

/// Append `n` spaces to `out`.
pub fn push_spaces(out: &mut Vec<char>, n: usize)
    ensures
        final(out)@ == old(out)@ + spaces(n as nat),
{
    let ghost base: Seq<char> = out@;
    let mut i: usize = 0;
    while i < n
        invariant
            i <= n,
            out@ == base + spaces(i as nat),
        decreases n - i,
    {
        out.push(' ');
        assert(out@ =~= base + spaces((i + 1) as nat));
        i += 1;
    }
}

/// Append the characters of `src` to `out`.
pub fn push_chars(out: &mut Vec<char>, src: &Vec<char>)
    ensures
        final(out)@ == old(out)@ + src@,
{
    let ghost base: Seq<char> = out@;
    let mut i: usize = 0;
    while i < src.len()
        invariant
            i <= src.len(),
            out@ == base + src@.take(i as int),
        decreases src.len() - i,
    {
        out.push(src[i]);
        assert(out@ =~= base + src@.take((i + 1) as int));
        i += 1;
    }
    assert(out@ =~= base + src@);
}

/// Append the characters of the string slice `s` to `out`.
pub fn push_str_chars(out: &mut Vec<char>, s: &str)
    ensures
        final(out)@ == old(out)@ + s@,
{
    let ghost base: Seq<char> = out@;
    let len = s.unicode_len();
    let mut i: usize = 0;
    while i < len
        invariant
            i <= len,
            len == s@.len(),
            out@ == base + s@.take(i as int),
        decreases len - i,
    {
        out.push(s.get_char(i));
        assert(out@ =~= base + s@.take((i + 1) as int));
        i += 1;
    }
    assert(out@ =~= base + s@);
}

/// The characters of `s` as a vector.
pub fn str_to_chars(s: &str) -> (r: Vec<char>)
    ensures
        r@ == s@,
{
    let mut out: Vec<char> = Vec::new();
    push_str_chars(&mut out, s);
    out
}

/// Append the decimal rendering of `n`, right-aligned in a field of `w`
/// characters, to `out`.
pub fn push_dec_padded(out: &mut Vec<char>, n: u64, w: usize)
    ensures
        final(out)@ == old(out)@ + pad_left(dec_digits(n as nat), w as nat),
{
    let mut tmp: Vec<char> = Vec::new();
    push_dec(&mut tmp, n);
    if tmp.len() < w {
        push_spaces(out, w - tmp.len());
    }
    push_chars(out, &tmp);
    assert(final(out)@ =~= old(out)@ + pad_left(dec_digits(n as nat), w as nat));
}

/// The number of newline characters in `s`.
pub open spec fn nl_count(s: Seq<char>) -> nat
    decreases s.len(),
{
    if s.len() == 0 {
        0
    } else {
        nl_count(s.drop_last()) + (if s.last() == '\n' { 1nat } else { 0nat })
    }
}

/// Whether `s` contains no newline character.
pub open spec fn no_newline(s: Seq<char>) -> bool {
    forall |i: int| 0 <= i < s.len() ==> s[i] != '\n'
}

/// Newline counting distributes over concatenation.
pub proof fn lemma_nl_count_concat(a: Seq<char>, b: Seq<char>)
    ensures
        nl_count(a + b) == nl_count(a) + nl_count(b),
    decreases b.len(),
{
    if b.len() == 0 {
        assert(a + b =~= a);
    } else {
        assert((a + b).drop_last() =~= a + b.drop_last());
        assert((a + b).last() == b.last());
        lemma_nl_count_concat(a, b.drop_last());
    }
}

/// A string without newlines counts zero of them.
pub proof fn lemma_nl_count_zero(s: Seq<char>)
    requires
        no_newline(s),
    ensures
        nl_count(s) == 0,
    decreases s.len(),
{
    if s.len() > 0 {
        assert(no_newline(s.drop_last()));
        lemma_nl_count_zero(s.drop_last());
        assert(s.last() != '\n');
    }
}

/// Decimal digit strings contain no newline.
pub proof fn lemma_dec_digits_no_newline(n: nat)
    ensures
        no_newline(dec_digits(n)),
    decreases n,
{
    if n < 10 {
        assert(dec_digit(n) != '\n');
    } else {
        lemma_dec_digits_no_newline(n / 10);
        assert forall |i: int| 0 <= i < dec_digits(n).len()
            implies dec_digits(n)[i] != '\n' by {
            if i < dec_digits(n / 10).len() {
                assert(dec_digits(n)[i] == dec_digits(n / 10)[i]);
            } else {
                assert(dec_digits(n)[i] == dec_digit(n % 10));
            }
        }
    }
}

/// Hexadecimal digit strings contain no newline.
pub proof fn lemma_hex_digits_no_newline(n: nat)
    ensures
        no_newline(hex_digits(n)),
    decreases n,
{
    if n < 16 {
        assert(hex_digit(n) != '\n');
    } else {
        lemma_hex_digits_no_newline(n / 16);
        assert forall |i: int| 0 <= i < hex_digits(n).len()
            implies hex_digits(n)[i] != '\n' by {
            if i < hex_digits(n / 16).len() {
                assert(hex_digits(n)[i] == hex_digits(n / 16)[i]);
            } else {
                assert(hex_digits(n)[i] == hex_digit(n % 16));
            }
        }
    }
}

/// Space padding contains no newline and keeps the padded string free of
/// them.
pub proof fn lemma_pad_left_no_newline(s: Seq<char>, w: nat)
    requires
        no_newline(s),
    ensures
        no_newline(pad_left(s, w)),
{
    if s.len() < w {
        assert forall |i: int| 0 <= i < pad_left(s, w).len()
            implies pad_left(s, w)[i] != '\n' by {
            if i < w - s.len() {
                assert(pad_left(s, w)[i] == ' ');
            } else {
                assert(pad_left(s, w)[i] == s[i - (w - s.len())]);
            }
        }
    }
}

/// Relies on std's `FromIterator` implementation for `String`: collecting an
/// iterator of characters yields the string of exactly those characters, in
/// order.
#[verifier::external_body]
pub fn chars_to_string(v: &Vec<char>) -> (r: String)
    ensures
        r@ == v@,
{
    v.iter().collect()
}

} // verus!
