//! The report's persisted text format, at the level of single values: string
//! escaping for quoted values, a verified reader of quoted values, and the
//! lemma that reading inverts escaping.

use vstd::prelude::*;
use vstd::string::StrSliceExecFns;
use crate::text::{hex_digit, hex_digit_char};

verus! {

/// The characters with a one-letter escape code inside a quoted value.
pub open spec fn has_short_escape(c: char) -> bool {
    c == '\\' || c == '"' || c == '\n' || c == '\r' || c == '\t'
}

/// The remaining control characters, which are written as a four-digit
/// hexadecimal escape so that a quoted value holds none of them raw.
pub open spec fn is_ctrl(c: char) -> bool {
    ((c as u32) < 32 && c != '\n' && c != '\r' && c != '\t') || (c as u32) == 127
}

/// The code letter written after the backslash for an escaped character.
pub open spec fn esc_code(c: char) -> char
    recommends
        has_short_escape(c),
{
    if c == '\\' { '\\' }
    else if c == '"' { '"' }
    else if c == '\n' { 'n' }
    else if c == '\r' { 'r' }
    else { 't' }
}

/// Whether `d` is a valid code letter after a backslash.
pub open spec fn is_esc_code(d: char) -> bool {
    d == '\\' || d == '"' || d == 'n' || d == 'r' || d == 't'
}

/// The character a code letter stands for.
pub open spec fn unesc_code(d: char) -> char
    recommends
        is_esc_code(d),
{
    if d == '\\' { '\\' }
    else if d == '"' { '"' }
    else if d == 'n' { '\n' }
    else if d == 'r' { '\r' }
    else { '\t' }
}

/// Whether `c` is a lower-case hexadecimal digit character.
pub open spec fn is_hex_lower(c: char) -> bool {
    ('0' <= c && c <= '9') || ('a' <= c && c <= 'f')
}

/// The value of a lower-case hexadecimal digit character.
pub open spec fn hex_val(c: char) -> nat
    recommends
        is_hex_lower(c),
{
    if c == '0' { 0 }
    else if c == '1' { 1 }
    else if c == '2' { 2 }
    else if c == '3' { 3 }
    else if c == '4' { 4 }
    else if c == '5' { 5 }
    else if c == '6' { 6 }
    else if c == '7' { 7 }
    else if c == '8' { 8 }
    else if c == '9' { 9 }
    else if c == 'a' { 10 }
    else if c == 'b' { 11 }
    else if c == 'c' { 12 }
    else if c == 'd' { 13 }
    else if c == 'e' { 14 }
    else { 15 }
}

/// The escaped form of one character: a two-character code for the common
/// escapes, a four-digit hexadecimal escape for the other control
/// characters, the character itself otherwise.
pub open spec fn esc_char(c: char) -> Seq<char> {
    if has_short_escape(c) {
        seq!['\\', esc_code(c)]
    } else if is_ctrl(c) {
        seq!['\\', 'u', '0', '0', hex_digit(((c as u32) / 16) as nat),
            hex_digit(((c as u32) % 16) as nat)]
    } else {
        seq![c]
    }
}

/// The escaped form of a whole string: each character escaped in order.
pub open spec fn escape(s: Seq<char>) -> Seq<char>
    decreases s.len(),
{
    if s.len() == 0 { Seq::<char>::empty() } else { esc_char(s[0]) + escape(s.skip(1)) }
}

/// Escaping distributes over appending one character at the back.
pub proof fn lemma_escape_push(s: Seq<char>, c: char)
    ensures
        escape(s.push(c)) == escape(s) + esc_char(c),
    decreases s.len(),
{
    if s.len() == 0 {
        assert(s.push(c) =~= seq![c]);
        assert(s.push(c).skip(1) =~= Seq::<char>::empty());
        assert(s.push(c)[0] == c);
        assert(escape(s.push(c)) == esc_char(c) + escape(Seq::<char>::empty()));
        assert(escape(s.push(c)) =~= escape(s) + esc_char(c));
    } else {
        assert(s.push(c).skip(1) =~= s.skip(1).push(c));
        lemma_escape_push(s.skip(1), c);
        assert(escape(s.push(c)) =~= escape(s) + esc_char(c));
    }
}

/// Read a quoted value's body out of `s` from position `i` up to the closing
/// quote: the unescaped value and the position just past the quote, or nothing
/// when no well-formed closing quote follows.
pub open spec fn consume_str(s: Seq<char>, i: int) -> Option<(Seq<char>, int)>
    decreases s.len() - i,
{
    if i < 0 || i >= s.len() {
        None
    } else if s[i] == '"' {
        Some((Seq::<char>::empty(), i + 1))
    } else if s[i] == '\\' {
        if i + 1 >= s.len() {
            None
        } else if is_esc_code(s[i + 1]) {
            match consume_str(s, i + 2) {
                Some(p) => Some((seq![unesc_code(s[i + 1])] + p.0, p.1)),
                None => None,
            }
        } else if s[i + 1] == 'u' {
            if i + 6 > s.len() {
                None
            } else if s[i + 2] == '0' && s[i + 3] == '0' && is_hex_lower(s[i + 4])
                && is_hex_lower(s[i + 5]) {
                match consume_str(s, i + 6) {
                    Some(p) => Some((
                        seq![((16 * hex_val(s[i + 4]) + hex_val(s[i + 5])) as u8) as char] + p.0,
                        p.1,
                    )),
                    None => None,
                }
            } else {
                None
            }
        } else {
            None
        }
    } else {
        match consume_str(s, i + 1) {
            Some(p) => Some((seq![s[i]] + p.0, p.1)),
            None => None,
        }
    }
}

/// A successful read ends within the string.
pub proof fn lemma_consume_in_range(s: Seq<char>, i: int)
    requires
        consume_str(s, i) is Some,
    ensures
        i < (consume_str(s, i)->0).1 <= s.len(),
    decreases s.len() - i,
{
    if s[i] == '"' {
    } else if s[i] == '\\' {
        if is_esc_code(s[i + 1]) {
            lemma_consume_in_range(s, i + 2);
        } else {
            lemma_consume_in_range(s, i + 6);
        }
    } else {
        lemma_consume_in_range(s, i + 1);
    }
}

/// Reading inverts escaping: where `s` holds the escaped form of `v` at
/// position `i`, followed by a closing quote, the read returns exactly `v`
/// and stops just past that quote.
pub proof fn lemma_consume_escaped(s: Seq<char>, i: int, v: Seq<char>)
    requires
        0 <= i,
        i + escape(v).len() + 1 <= s.len(),
        s.subrange(i, i + escape(v).len() as int) == escape(v),
        s[i + escape(v).len() as int] == '"',
    ensures
        consume_str(s, i) == Some((v, i + escape(v).len() + 1)),
    decreases v.len(),
{
    if v.len() == 0 {
        assert(escape(v).len() == 0);
        assert(s[i] == '"');
    } else {
        let c = v[0];
        let rest = v.skip(1);
        assert(escape(v) == esc_char(c) + escape(rest));
        let ec = esc_char(c);
        assert(escape(v).len() == ec.len() + escape(rest).len());
        assert(forall |k: int| 0 <= k < escape(v).len()
            ==> s[i + k] == #[trigger] escape(v)[k]);
        let j = i + ec.len();
        assert(s.subrange(j, j + escape(rest).len() as int) =~= escape(rest)) by {
            assert(forall |k: int| 0 <= k < escape(rest).len()
                ==> s[j + k] == #[trigger] escape(rest)[k]) by {
                assert(forall |k: int| 0 <= k < escape(rest).len()
                    ==> #[trigger] escape(rest)[k] == escape(v)[ec.len() + k]);
            }
        }
        assert(s[j + escape(rest).len() as int] == '"');
        lemma_consume_escaped(s, j, rest);
        assert(s[i] == escape(v)[0]);
        assert(escape(v)[0] == ec[0]);
        if has_short_escape(c) {
            assert(ec[0] == '\\' && ec[1] == esc_code(c));
            assert(s[i + 1] == escape(v)[1]);
            assert(escape(v)[1] == ec[1]);
            assert(s[i] == '\\');
            assert(s[i + 1] == esc_code(c));
            assert(is_esc_code(esc_code(c)));
            assert(unesc_code(esc_code(c)) == c);
            assert(seq![c] + rest =~= v);
        } else if is_ctrl(c) {
            let hi = ((c as u32) / 16) as nat;
            let lo = ((c as u32) % 16) as nat;
            assert(ec == seq!['\\', 'u', '0', '0', hex_digit(hi), hex_digit(lo)]);
            assert(s[i + 1] == escape(v)[1] && escape(v)[1] == ec[1]);
            assert(s[i + 2] == escape(v)[2] && escape(v)[2] == ec[2]);
            assert(s[i + 3] == escape(v)[3] && escape(v)[3] == ec[3]);
            assert(s[i + 4] == escape(v)[4] && escape(v)[4] == ec[4]);
            assert(s[i + 5] == escape(v)[5] && escape(v)[5] == ec[5]);
            assert(s[i] == '\\' && s[i + 1] == 'u');
            assert(!is_esc_code('u'));
            assert(hi < 8 && lo < 16);
            assert(is_hex_lower(hex_digit(hi)) && hex_val(hex_digit(hi)) == hi);
            assert(is_hex_lower(hex_digit(lo)) && hex_val(hex_digit(lo)) == lo);
            let n = 16 * hex_val(s[i + 4]) + hex_val(s[i + 5]);
            assert(n == c as u32);
            assert(n < 128);
            assert((n as u8) as u32 == n);
            assert(((n as u8) as char) as u32 == n);
            let d = (n as u8) as char;
            vstd::utf8::char_u32_cast(c, c as u32);
            vstd::utf8::char_u32_cast(d, d as u32);
            assert(d as u32 == c as u32);
            assert(d == c);
            assert(seq![c] + rest =~= v);
        } else {
            assert(s[i] == c);
            assert(c != '"' && c != '\\');
            assert(seq![c] + rest =~= v);
        }
    }
}

/// Whether `s` holds exactly the text `t` at position `i`; when it does, the
/// position just past it.
pub open spec fn expect(s: Seq<char>, i: int, t: Seq<char>) -> Option<int> {
    if 0 <= i && i + t.len() <= s.len() && s.subrange(i, i + t.len() as int) == t {
        Some(i + t.len() as int)
    } else {
        None
    }
}

/// Splitting a concatenation found at position `o` of `s`: the first part is
/// the subrange there, and the rest of `s` is the second part.
pub proof fn lemma_skip_concat(s: Seq<char>, o: int, a: Seq<char>, b: Seq<char>)
    requires
        0 <= o <= s.len(),
        s.skip(o) == a + b,
    ensures
        o + a.len() + b.len() == s.len(),
        s.subrange(o, o + a.len() as int) == a,
        s.skip(o + a.len() as int) == b,
{
    assert(s.skip(o).len() == s.len() - o);
    assert(s.subrange(o, o + a.len() as int) =~= a) by {
        assert forall |k: int| 0 <= k < a.len()
            implies s.subrange(o, o + a.len() as int)[k] == a[k] by {
            assert(s.subrange(o, o + a.len() as int)[k] == s[o + k]);
            assert(s.skip(o)[k] == s[o + k]);
            assert((a + b)[k] == a[k]);
        }
    }
    assert(s.skip(o + a.len() as int) =~= b) by {
        assert forall |k: int| 0 <= k < b.len()
            implies s.skip(o + a.len() as int)[k] == b[k] by {
            assert(s.skip(o + a.len() as int)[k] == s[o + a.len() + k]);
            assert(s.skip(o)[a.len() + k] == s[o + a.len() + k]);
            assert((a + b)[a.len() + k] == b[k]);
        }
    }
}

/// One serialized field block: the key, an equals sign, the escaped value in
/// quotes, and a newline.
pub open spec fn field_str(key: Seq<char>, v: Seq<char>) -> Seq<char> {
    key + " = \""@ + escape(v) + "\"\n"@
}

/// Parse one field block at position `i` of `s`: the key, the separator, a
/// quoted value, and a newline; when all are present, the unescaped value and
/// the position just past the block.
pub open spec fn parse_field(s: Seq<char>, i: int, key: Seq<char>) -> Option<(Seq<char>, int)> {
    match expect(s, i, key) {
        Some(j0) => match expect(s, j0, " = \""@) {
            Some(j1) => match consume_str(s, j1) {
                Some(p) => match expect(s, p.1, "\n"@) {
                    Some(j2) => Some((p.0, j2)),
                    None => None,
                },
                None => None,
            },
            None => None,
        },
        None => None,
    }
}

/// Append the escaped form of `s` to `out`.
pub fn push_escaped(out: &mut Vec<char>, s: &str)
    ensures
        final(out)@ == old(out)@ + escape(s@),
{
    let ghost base: Seq<char> = out@;
    let len = s.unicode_len();
    let mut i: usize = 0;
    while i < len
        invariant
            i <= len,
            len == s@.len(),
            out@ == base + escape(s@.take(i as int)),
        decreases len - i,
    {
        let c = s.get_char(i);
        if c == '\\' {
            out.push('\\');
            out.push('\\');
        } else if c == '"' {
            out.push('\\');
            out.push('"');
        } else if c == '\n' {
            out.push('\\');
            out.push('n');
        } else if c == '\r' {
            out.push('\\');
            out.push('r');
        } else if c == '\t' {
            out.push('\\');
            out.push('t');
        } else if (c as u32) < 32 || (c as u32) == 127 {
            out.push('\\');
            out.push('u');
            out.push('0');
            out.push('0');
            let code: u32 = c as u32;
            out.push(hex_digit_char((code / 16) as u64));
            out.push(hex_digit_char((code % 16) as u64));
        } else {
            out.push(c);
        }
        proof {
            lemma_escape_push(s@.take(i as int), s@[i as int]);
            assert(s@.take((i + 1) as int) =~= s@.take(i as int).push(s@[i as int]));
            assert(out@ =~= base + escape(s@.take((i + 1) as int)));
        }
        i += 1;
    }
    assert(s@.take(len as int) =~= s@);
}

/// Whether the characters of `v` at position `i` hold exactly the text of
/// `lit`; when they do, the returned position is just past it.
pub fn expect_lit(v: &Vec<char>, i: usize, lit: &str) -> (r: Option<usize>)
    ensures
        match r {
            Some(j) => expect(v@, i as int, lit@) == Some(j as int),
            None => expect(v@, i as int, lit@) is None,
        },
{
    let n = lit.unicode_len();
    if i > v.len() || n > v.len() - i {
        return None;
    }
    let mut k: usize = 0;
    while k < n
        invariant
            k <= n,
            n == lit@.len(),
            i + n <= v.len(),
            forall |m: int| 0 <= m < k ==> v@[i + m] == lit@[m],
        decreases n - k,
    {
        if v[i + k] != lit.get_char(k) {
            assert(v@.subrange(i as int, i + n as int)[k as int] != lit@[k as int]);
            return None;
        }
        k += 1;
    }
    assert(v@.subrange(i as int, i + n as int) =~= lit@);
    Some(i + n)
}

/// Read a quoted value's body out of `v` from position `i`, appending the
/// unescaped characters to `out`; returns the position just past the closing
/// quote. Mirrors `consume_str`; when that read fails, nothing is returned.
pub fn consume_exec(v: &Vec<char>, i: usize, out: &mut Vec<char>) -> (r: Option<usize>)
    ensures
        match consume_str(v@, i as int) {
            Some(p) => (match r {
                Some(j) => j as int == p.1,
                None => false,
            }) && final(out)@ == old(out)@ + p.0,
            None => r is None,
        },
    decreases v@.len() - i,
{
    proof {
        if consume_str(v@, i as int) is Some {
            lemma_consume_in_range(v@, i as int);
        }
    }
    if i >= v.len() {
        return None;
    }
    let c = v[i];
    if c == '"' {
        assert(final(out)@ =~= old(out)@ + Seq::<char>::empty());
        return Some(i + 1);
    }
    if c == '\\' {
        if i + 1 >= v.len() {
            return None;
        }
        let d = v[i + 1];
        if d == '\\' {
            out.push('\\');
        } else if d == '"' {
            out.push('"');
        } else if d == 'n' {
            out.push('\n');
        } else if d == 'r' {
            out.push('\r');
        } else if d == 't' {
            out.push('\t');
        } else if d == 'u' {
            if v.len() - i < 6 {
                return None;
            }
            if v[i + 2] != '0' || v[i + 3] != '0' {
                return None;
            }
            let hi = match hex_val_exec(v[i + 4]) {
                Some(x) => x,
                None => { return None; },
            };
            let lo = match hex_val_exec(v[i + 5]) {
                Some(x) => x,
                None => { return None; },
            };
            let n: u8 = 16 * hi + lo;
            let ghost decoded: Seq<char> =
                seq![((16 * hex_val(v@[i + 4]) + hex_val(v@[i + 5])) as u8) as char];
            out.push(n as char);
            let ghost mid: Seq<char> = out@;
            assert(mid =~= old(out)@ + decoded);
            let r = consume_exec(v, i + 6, out);
            match r {
                Some(j) => {
                    proof {
                        let p = consume_str(v@, (i + 6) as int)->0;
                        assert(out@ =~= old(out)@ + (decoded + p.0));
                    }
                    return Some(j);
                },
                None => {
                    return None;
                },
            }
        } else {
            return None;
        }
        let ghost mid: Seq<char> = out@;
        assert(mid =~= old(out)@ + seq![unesc_code(v@[i + 1])]);
        let r = consume_exec(v, i + 2, out);
        match r {
            Some(j) => {
                proof {
                    let p = consume_str(v@, (i + 2) as int)->0;
                    assert(out@ =~= old(out)@ + (seq![unesc_code(v@[i + 1])] + p.0));
                }
                return Some(j);
            },
            None => {
                return None;
            },
        }
    }
    out.push(c);
    let ghost mid: Seq<char> = out@;
    assert(mid =~= old(out)@ + seq![v@[i as int]]);
    let r = consume_exec(v, i + 1, out);
    match r {
        Some(j) => {
            proof {
                let p = consume_str(v@, (i + 1) as int)->0;
                assert(out@ =~= old(out)@ + (seq![v@[i as int]] + p.0));
            }
            Some(j)
        },
        None => None,
    }
}

fn hex_val_exec(c: char) -> (r: Option<u8>)
    ensures
        r is Some <==> is_hex_lower(c),
        match r {
            Some(x) => x as nat == hex_val(c) && x < 16,
            None => true,
        },
{
    if c == '0' { Some(0) }
    else if c == '1' { Some(1) }
    else if c == '2' { Some(2) }
    else if c == '3' { Some(3) }
    else if c == '4' { Some(4) }
    else if c == '5' { Some(5) }
    else if c == '6' { Some(6) }
    else if c == '7' { Some(7) }
    else if c == '8' { Some(8) }
    else if c == '9' { Some(9) }
    else if c == 'a' { Some(10) }
    else if c == 'b' { Some(11) }
    else if c == 'c' { Some(12) }
    else if c == 'd' { Some(13) }
    else if c == 'e' { Some(14) }
    else if c == 'f' { Some(15) }
    else { None }
}

/// Whether the characters of `v` are exactly the text of `lit`.
pub fn chars_eq_lit(v: &Vec<char>, lit: &str) -> (r: bool)
    ensures
        r == (v@ == lit@),
{
    let n = lit.unicode_len();
    if v.len() != n {
        return false;
    }
    let mut k: usize = 0;
    while k < n
        invariant
            k <= n,
            n == lit@.len(),
            n == v@.len(),
            forall |m: int| 0 <= m < k ==> v@[m] == lit@[m],
        decreases n - k,
    {
        if v[k] != lit.get_char(k) {
            return false;
        }
        k += 1;
    }
    assert(v@ =~= lit@);
    true
}

} // verus!
