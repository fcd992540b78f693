//! Text building blocks for the JSON-lines trace: decimal rendering of
//! integers, JSON string escaping, and text comparison.

use vstd::prelude::*;
use vstd::string::{StrSliceExecFns, StringSliceAdditionalSpecFns};

verus! {

/// Appends one character to `s`.
#[verifier::external_body]
pub(crate) fn push_char(s: &mut String, c: char)
    ensures
        final(s)@ == old(s)@.push(c),
{
    s.push(c);
}

/// The lowercase hexadecimal digit for `d` (`0`..`9`, `a`..`f`); for `d < 10`
/// it is also the decimal digit.
pub open spec fn hex_digit(d: nat) -> char {
    if d == 0 { '0' }
    else if d == 1 { '1' }
    else if d == 2 { '2' }
    else if d == 3 { '3' }
    else if d == 4 { '4' }
    else if d == 5 { '5' }
    else if d == 6 { '6' }
    else if d == 7 { '7' }
    else if d == 8 { '8' }
    else if d == 9 { '9' }
    else if d == 10 { 'a' }
    else if d == 11 { 'b' }
    else if d == 12 { 'c' }
    else if d == 13 { 'd' }
    else if d == 14 { 'e' }
    else { 'f' }
}

fn hex_digit_char(d: u32) -> (c: char)
    requires
        d < 16,
    ensures
        c == hex_digit(d as nat),
{
    if d == 0 { '0' }
    else if d == 1 { '1' }
    else if d == 2 { '2' }
    else if d == 3 { '3' }
    else if d == 4 { '4' }
    else if d == 5 { '5' }
    else if d == 6 { '6' }
    else if d == 7 { '7' }
    else if d == 8 { '8' }
    else if d == 9 { '9' }
    else if d == 10 { 'a' }
    else if d == 11 { 'b' }
    else if d == 12 { 'c' }
    else if d == 13 { 'd' }
    else if d == 14 { 'e' }
    else { 'f' }
}

/// The decimal digits of `n`, most significant first, without leading zeros.
pub open spec fn decimal_digits(n: nat) -> Seq<char>
    decreases n,
{
    if n < 10 {
        seq![hex_digit(n)]
    } else {
        decimal_digits(n / 10).push(hex_digit(n % 10))
    }
}

/// The decimal rendering of `i`: a leading `-` for negative values, then
/// the digits of its magnitude.
pub open spec fn decimal_text(i: int) -> Seq<char> {
    if i < 0 {
        seq!['-'] + decimal_digits((-i) as nat)
    } else {
        decimal_digits(i as nat)
    }
}

fn push_decimal_digits(out: &mut String, n: u128)
    ensures
        final(out)@ == old(out)@ + decimal_digits(n as nat),
    decreases n,
{
    if n >= 10 {
        push_decimal_digits(out, n / 10);
    }
    push_char(out, hex_digit_char((n % 10) as u32));
}

/// Appends the decimal rendering of `n`.
pub fn push_decimal_u32(out: &mut String, n: u32)
    ensures
        final(out)@ == old(out)@ + decimal_text(n as int),
{
    push_decimal_digits(out, n as u128);
}

/// Appends the decimal rendering of `i`, sign included.
pub fn push_decimal_i128(out: &mut String, i: i128)
    ensures
        final(out)@ == old(out)@ + decimal_text(i as int),
{
    if i < 0 {
        push_char(out, '-');
        let magnitude: u128 = ((-(i + 1)) as u128) + 1;
        push_decimal_digits(out, magnitude);
        assert(old(out)@.push('-') + decimal_digits(magnitude as nat)
            =~= old(out)@ + (seq!['-'] + decimal_digits(magnitude as nat)));
    } else {
        push_decimal_digits(out, i as u128);
    }
}

/// The JSON escape of one character: quote, backslash, newline, carriage
/// return and tab get their two-character escapes, every other control
/// character below U+0020 becomes `\u00XX` with lowercase hex digits, and
/// all other characters stand for themselves.
pub open spec fn escape_char(c: char) -> Seq<char> {
    if c == '"' {
        seq!['\\', '"']
    } else if c == '\\' {
        seq!['\\', '\\']
    } else if c == '\n' {
        seq!['\\', 'n']
    } else if c == '\r' {
        seq!['\\', 'r']
    } else if c == '\t' {
        seq!['\\', 't']
    } else if (c as u32) < 0x20 {
        seq!['\\', 'u', '0', '0', hex_digit((c as u32 / 16) as nat), hex_digit((c as u32 % 16) as nat)]
    } else {
        seq![c]
    }
}

/// The JSON escape of a whole text, character by character.
pub open spec fn escape_text(s: Seq<char>) -> Seq<char>
    decreases s.len(),
{
    if s.len() == 0 {
        seq![]
    } else {
        escape_text(s.drop_last()) + escape_char(s.last())
    }
}

/// Escapes `s` so that, put between double quotes, it is a JSON string
/// value whose content is `s`.
pub fn escape_json(s: &str) -> (escaped: String)
    ensures
        escaped@ == escape_text(s@),
{
    broadcast use vstd::string::group_string_axioms;

    let mut out = String::new();
    for c in it: s.chars()
        invariant
            it.seq() == s@,
            out@ == escape_text(s@.take(it.index() as int)),
    {
        let ghost before = out@;
        let ghost i = it.index();
        if c == '"' {
            push_char(&mut out, '\\');
            push_char(&mut out, '"');
        } else if c == '\\' {
            push_char(&mut out, '\\');
            push_char(&mut out, '\\');
        } else if c == '\n' {
            push_char(&mut out, '\\');
            push_char(&mut out, 'n');
        } else if c == '\r' {
            push_char(&mut out, '\\');
            push_char(&mut out, 'r');
        } else if c == '\t' {
            push_char(&mut out, '\\');
            push_char(&mut out, 't');
        } else if (c as u32) < 0x20 {
            let code = c as u32;
            push_char(&mut out, '\\');
            push_char(&mut out, 'u');
            push_char(&mut out, '0');
            push_char(&mut out, '0');
            push_char(&mut out, hex_digit_char(code / 16));
            push_char(&mut out, hex_digit_char(code % 16));
        } else {
            push_char(&mut out, c);
        }
        assert(out@ =~= before + escape_char(c));
        assert(s@.take(i + 1).drop_last() =~= s@.take(i));
    }
    assert(s@.take(s@.len() as int) =~= s@);
    out
}

/// Whether the texts `a` and `b` are the same.
pub fn same_text(a: &str, b: &str) -> (same: bool)
    ensures
        same == (a@ == b@),
{
    let x = a.as_bytes();
    let y = b.as_bytes();
    let n = x.len();
    if n != y.len() {
        return false;
    }
    let mut i: usize = 0;
    while i < n
        invariant
            i <= n,
            n == x@.len(),
            n == y@.len(),
            x@ == a.spec_bytes(),
            y@ == b.spec_bytes(),
            forall|k: int| 0 <= k < i ==> x@[k] == y@[k],
        decreases n - i,
    {
        if x[i] != y[i] {
            return false;
        }
        i = i + 1;
    }
    assert(x@ =~= y@);
    proof {
        vstd::utf8::encode_utf8_decode_utf8(a@);
        vstd::utf8::encode_utf8_decode_utf8(b@);
    }
    true
}

/// The value of a hexadecimal digit (either case); 0 for any other character.
pub open spec fn hex_value(c: char) -> int {
    if '0' as u32 <= c as u32 <= '9' as u32 {
        c as u32 - '0' as u32
    } else if 'a' as u32 <= c as u32 <= 'f' as u32 {
        c as u32 - 'a' as u32 + 10
    } else if 'A' as u32 <= c as u32 <= 'F' as u32 {
        c as u32 - 'A' as u32 + 10
    } else {
        0
    }
}

/// The character that the two-character JSON escape `\e` stands for.
pub open spec fn unescaped(e: char) -> char {
    if e == 'n' {
        '\n'
    } else if e == 'r' {
        '\r'
    } else if e == 't' {
        '\t'
    } else if e == 'b' {
        '\u{8}'
    } else if e == 'f' {
        '\u{c}'
    } else {
        e
    }
}

/// How a JSON reader decodes the content of a string value: `\uXXXX`
/// gives the character with that code, `\e` the character it stands for,
/// and any other character itself.
pub open spec fn unescape_text(t: Seq<char>) -> Seq<char>
    decreases t.len(),
{
    if t.len() == 0 {
        seq![]
    } else if t[0] == '\\' && t.len() >= 2 {
        if t[1] == 'u' && t.len() >= 6 {
            seq![
                (hex_value(t[2]) * 4096 + hex_value(t[3]) * 256 + hex_value(t[4]) * 16
                    + hex_value(t[5])) as char,
            ] + unescape_text(t.subrange(6, t.len() as int))
        } else {
            seq![unescaped(t[1])] + unescape_text(t.subrange(2, t.len() as int))
        }
    } else {
        seq![t[0]] + unescape_text(t.subrange(1, t.len() as int))
    }
}

proof fn lemma_hex_digit_value(d: nat)
    requires
        d < 16,
    ensures
        hex_value(hex_digit(d)) == d,
        hex_digit(d) as u32 >= 0x20,
{
}

proof fn lemma_unescape_escape_char(c: char, rest: Seq<char>)
    ensures
        unescape_text(escape_char(c) + rest) == seq![c] + unescape_text(rest),
{
    let t = escape_char(c) + rest;
    if c == '"' || c == '\\' || c == '\n' || c == '\r' || c == '\t' {
        assert(t.subrange(2, t.len() as int) =~= rest);
    } else if (c as u32) < 0x20 {
        let code = c as u32;
        lemma_hex_digit_value((code / 16) as nat);
        lemma_hex_digit_value((code % 16) as nat);
        assert(t.subrange(6, t.len() as int) =~= rest);
        assert(t[2] == '0' && t[3] == '0');
        assert(hex_value(t[4]) * 16 + hex_value(t[5]) == code);
        assert(((code as int) as char) == c);
    } else {
        assert(t.subrange(1, t.len() as int) =~= rest);
    }
}

proof fn lemma_unescape_escape_prefix(p: Seq<char>, rest: Seq<char>)
    ensures
        unescape_text(escape_text(p) + rest) == p + unescape_text(rest),
    decreases p.len(),
{
    if p.len() == 0 {
        assert(escape_text(p) + rest =~= rest);
        assert(p + unescape_text(rest) =~= unescape_text(rest));
    } else {
        let init = p.drop_last();
        let last = p.last();
        let tail = escape_char(last) + rest;
        assert(escape_text(p) + rest =~= escape_text(init) + tail);
        lemma_unescape_escape_prefix(init, tail);
        lemma_unescape_escape_char(last, rest);
        assert(init + (seq![last] + unescape_text(rest)) =~= p + unescape_text(rest));
    }
}

/// Law: escaping loses nothing. A JSON reader that decodes the escaped
/// text of `s` gets `s` back.
pub proof fn law_escape_round_trip(s: Seq<char>)
    ensures
        unescape_text(escape_text(s)) == s,
{
    lemma_unescape_escape_prefix(s, seq![]);
    assert(escape_text(s) + seq![] =~= escape_text(s));
    assert(s + unescape_text(seq![]) =~= s);
}

/// Law: escaped text holds no control character (none below U+0020), so
/// in particular no raw newline, carriage return or tab.
pub proof fn law_escape_has_no_control_chars(s: Seq<char>)
    ensures
        forall|k: int| 0 <= k < escape_text(s).len() ==> (escape_text(s)[k] as u32) >= 0x20,
    decreases s.len(),
{
    if s.len() > 0 {
        let init = s.drop_last();
        let c = s.last();
        law_escape_has_no_control_chars(init);
        let e = escape_char(c);
        if (c as u32) < 0x20 && c != '\n' && c != '\r' && c != '\t' {
            lemma_hex_digit_value(((c as u32) / 16) as nat);
            lemma_hex_digit_value(((c as u32) % 16) as nat);
        }
        assert(forall|k: int| 0 <= k < e.len() ==> (e[k] as u32) >= 0x20);
        assert forall|k: int| 0 <= k < escape_text(s).len() implies (escape_text(s)[k] as u32)
            >= 0x20 by {
            if k < escape_text(init).len() {
                assert(escape_text(s)[k] == escape_text(init)[k]);
            } else {
                assert(escape_text(s)[k] == e[k - escape_text(init).len()]);
            }
        }
    }
}

/// A hexadecimal digit in either case.
pub open spec fn is_hex_char(c: char) -> bool {
    ||| '0' as u32 <= c as u32 <= '9' as u32
    ||| 'a' as u32 <= c as u32 <= 'f' as u32
    ||| 'A' as u32 <= c as u32 <= 'F' as u32
}

/// The characters that JSON admits after a backslash as a two-character
/// escape.
pub open spec fn json_short_escape(e: char) -> bool {
    e == '"' || e == '\\' || e == '/' || e == 'b' || e == 'f' || e == 'n' || e == 'r' || e == 't'
}

/// JSON's grammar for the content of a string value, between its quotes:
/// any character but `"`, `\` and the control characters below U+0020
/// stands for itself, and every backslash starts one of `\"`, `\\`, `\/`,
/// `\b`, `\f`, `\n`, `\r`, `\t` or `\uXXXX` with four hex digits.
pub open spec fn json_string_body(t: Seq<char>) -> bool
    decreases t.len(),
{
    if t.len() == 0 {
        true
    } else if t[0] == '\\' {
        if t.len() >= 2 && json_short_escape(t[1]) {
            json_string_body(t.subrange(2, t.len() as int))
        } else if t.len() >= 6 && t[1] == 'u' && is_hex_char(t[2]) && is_hex_char(t[3])
            && is_hex_char(t[4]) && is_hex_char(t[5]) {
            json_string_body(t.subrange(6, t.len() as int))
        } else {
            false
        }
    } else if t[0] == '"' || (t[0] as u32) < 0x20 {
        false
    } else {
        json_string_body(t.subrange(1, t.len() as int))
    }
}

/// A character that JSON lets stand for itself inside a string value.
pub open spec fn json_plain_char(c: char) -> bool {
    c as u32 >= 0x20 && c != '"' && c != '\\'
}

proof fn lemma_hex_digit_is_hex(d: nat)
    requires
        d < 16,
    ensures
        is_hex_char(hex_digit(d)),
{
}

proof fn lemma_body_escape_char(c: char, rest: Seq<char>)
    ensures
        json_string_body(escape_char(c) + rest) == json_string_body(rest),
{
    let t = escape_char(c) + rest;
    if c == '"' || c == '\\' || c == '\n' || c == '\r' || c == '\t' {
        assert(t.subrange(2, t.len() as int) =~= rest);
    } else if (c as u32) < 0x20 {
        let code = c as u32;
        lemma_hex_digit_is_hex((code / 16) as nat);
        lemma_hex_digit_is_hex((code % 16) as nat);
        assert(t.subrange(6, t.len() as int) =~= rest);
    } else {
        assert(t.subrange(1, t.len() as int) =~= rest);
    }
}

proof fn lemma_body_escape_prefix(p: Seq<char>, rest: Seq<char>)
    ensures
        json_string_body(escape_text(p) + rest) == json_string_body(rest),
    decreases p.len(),
{
    if p.len() == 0 {
        assert(escape_text(p) + rest =~= rest);
    } else {
        let init = p.drop_last();
        let last = p.last();
        let tail = escape_char(last) + rest;
        assert(escape_text(p) + rest =~= escape_text(init) + tail);
        lemma_body_escape_prefix(init, tail);
        lemma_body_escape_char(last, rest);
    }
}

/// Law: escaped text is always a well-formed JSON string content: put
/// between double quotes it is a JSON string that any JSON reader accepts.
/// Every backslash in it starts one of JSON's own escapes, and no quote or
/// control character stands unescaped.
pub proof fn law_escape_is_json_string_body(s: Seq<char>)
    ensures
        json_string_body(escape_text(s)),
{
    lemma_body_escape_prefix(s, seq![]);
    assert(escape_text(s) + seq![] =~= escape_text(s));
}

/// Law: text that JSON lets stand as it is comes out of escaping
/// unchanged; only quotes, backslashes and control characters are escaped.
pub proof fn law_escape_keeps_plain_text(s: Seq<char>)
    requires
        forall|i: int| 0 <= i < s.len() ==> json_plain_char(#[trigger] s[i]),
    ensures
        escape_text(s) == s,
    decreases s.len(),
{
    if s.len() > 0 {
        let init = s.drop_last();
        assert(forall|i: int| 0 <= i < init.len() ==> init[i] == s[i]);
        law_escape_keeps_plain_text(init);
        assert(json_plain_char(s[s.len() - 1]));
        assert(escape_text(s) =~= init + seq![s.last()]);
        assert(init + seq![s.last()] =~= s);
    }
}

/// A character of a decimal rendering: a digit or the minus sign.
pub open spec fn decimal_char(c: char) -> bool {
    c == '-' || ('0' as u32 <= c as u32 <= '9' as u32)
}

/// The number that a run of decimal digits denotes.
pub open spec fn digits_value(s: Seq<char>) -> int
    decreases s.len(),
{
    if s.len() == 0 {
        0
    } else {
        digits_value(s.drop_last()) * 10 + (s.last() as u32 - '0' as u32)
    }
}

proof fn lemma_decimal_digits_facts(n: nat)
    ensures
        decimal_digits(n).len() > 0,
        digits_value(decimal_digits(n)) == n,
        decimal_digits(n)[0] != '-',
        forall|i: int| 0 <= i < decimal_digits(n).len() ==> decimal_char(#[trigger] decimal_digits(n)[i]),
    decreases n,
{
    if n >= 10 {
        lemma_decimal_digits_facts(n / 10);
        let prev = decimal_digits(n / 10);
        let d = hex_digit(n % 10);
        assert(decimal_digits(n).drop_last() =~= prev);
        assert(decimal_digits(n)[0] == prev[0]);
        assert forall|i: int| 0 <= i < decimal_digits(n).len() implies decimal_char(
            #[trigger] decimal_digits(n)[i],
        ) by {
            if i < prev.len() {
                assert(decimal_digits(n)[i] == prev[i]);
            }
        }
        assert(digits_value(decimal_digits(n)) == digits_value(prev) * 10 + (n % 10));
        assert((n / 10) * 10 + n % 10 == n) by (nonlinear_arith);
    } else {
        assert(decimal_digits(n).drop_last() =~= Seq::<char>::empty());
        assert(digits_value(Seq::<char>::empty()) == 0);
        assert(hex_digit(n) as u32 - '0' as u32 == n);
    }
}

/// Law: every character of a decimal rendering is a digit or `-`.
pub proof fn law_decimal_text_chars(i: int)
    ensures
        decimal_text(i).len() > 0,
        forall|k: int| 0 <= k < decimal_text(i).len() ==> decimal_char(#[trigger] decimal_text(i)[k]),
{
    if i < 0 {
        lemma_decimal_digits_facts((-i) as nat);
        let t = decimal_text(i);
        assert forall|k: int| 0 <= k < t.len() implies decimal_char(#[trigger] t[k]) by {
            if k > 0 {
                assert(t[k] == decimal_digits((-i) as nat)[k - 1]);
            }
        }
    } else {
        lemma_decimal_digits_facts(i as nat);
    }
}

/// Law: the decimal rendering tells numbers apart: two numbers with the
/// same rendering are equal.
pub proof fn law_decimal_text_injective(i: int, j: int)
    requires
        decimal_text(i) == decimal_text(j),
    ensures
        i == j,
{
    if i < 0 {
        lemma_decimal_digits_facts((-i) as nat);
    } else {
        lemma_decimal_digits_facts(i as nat);
    }
    if j < 0 {
        lemma_decimal_digits_facts((-j) as nat);
    } else {
        lemma_decimal_digits_facts(j as nat);
    }
    if i < 0 && j < 0 {
        assert(decimal_digits((-i) as nat) =~= decimal_text(i).subrange(1, decimal_text(i).len() as int));
        assert(decimal_digits((-j) as nat) =~= decimal_text(j).subrange(1, decimal_text(j).len() as int));
    }
}

} // verus!
