//! Escaping names for JSON strings.

use vstd::prelude::*;
use crate::text::{chars_of, push_char};

verus! {

/// The lowercase hexadecimal digit for `d` (below sixteen).
pub open spec fn hex_digit(d: nat) -> char {
    if d < 10 {
        crate::text::digit_char(d)
    } else if d == 10 { 'a' }
    else if d == 11 { 'b' }
    else if d == 12 { 'c' }
    else if d == 13 { 'd' }
    else if d == 14 { 'e' }
    else { 'f' }
}

/// The value of a hexadecimal digit (either case); other characters are 0.
pub open spec fn hex_value(c: char) -> nat {
    if '0' <= c && c <= '9' {
        (c as nat - '0' as nat) as nat
    } else if 'a' <= c && c <= 'f' {
        (c as nat - 'a' as nat + 10) as nat
    } else if 'A' <= c && c <= 'F' {
        (c as nat - 'A' as nat + 10) as nat
    } else {
        0
    }
}

/// `c` as it stands inside a JSON string: a backslash before `\` and `"`,
/// the short escapes for backspace, form feed, newline, carriage return
/// and tab, `\u00XX` for the other control characters, and any other
/// character as it is.
pub open spec fn json_char(c: char) -> Seq<char> {
    if c == '\\' {
        seq!['\\', '\\']
    } else if c == '"' {
        seq!['\\', '"']
    } else if c == '\u{8}' {
        seq!['\\', 'b']
    } else if c == '\u{c}' {
        seq!['\\', 'f']
    } else if c == '\n' {
        seq!['\\', 'n']
    } else if c == '\r' {
        seq!['\\', 'r']
    } else if c == '\t' {
        seq!['\\', 't']
    } else if (c as u32) < 0x20 {
        seq!['\\', 'u', '0', '0', hex_digit((c as u32 / 16) as nat), hex_digit((c as u32 % 16) as nat)]
    } else {
        seq![c]
    }
}

/// `s` escaped for a JSON string.
pub open spec fn json_escaped(s: Seq<char>) -> Seq<char>
    decreases s.len(),
{
    if s.len() == 0 {
        Seq::empty()
    } else {
        json_escaped(s.drop_last()) + json_char(s.last())
    }
}

fn hex_digit_exec(d: u32) -> (c: char)
    requires
        d < 16,
    ensures
        c == hex_digit(d as nat),
{
    if d == 0 { '0' } else if d == 1 { '1' } else if d == 2 { '2' } else if d == 3 { '3' }
    else if d == 4 { '4' } else if d == 5 { '5' } else if d == 6 { '6' } else if d == 7 { '7' }
    else if d == 8 { '8' } else if d == 9 { '9' } else if d == 10 { 'a' } else if d == 11 { 'b' }
    else if d == 12 { 'c' } else if d == 13 { 'd' } else if d == 14 { 'e' } else { 'f' }
}

fn push_json_char(s: &mut String, c: char)
    ensures
        final(s)@ == old(s)@ + json_char(c),
{
    let code = c as u32;
    if c == '\\' {
        push_char(s, '\\');
        push_char(s, '\\');
    } else if c == '"' {
        push_char(s, '\\');
        push_char(s, '"');
    } else if c == '\u{8}' {
        push_char(s, '\\');
        push_char(s, 'b');
    } else if c == '\u{c}' {
        push_char(s, '\\');
        push_char(s, 'f');
    } else if c == '\n' {
        push_char(s, '\\');
        push_char(s, 'n');
    } else if c == '\r' {
        push_char(s, '\\');
        push_char(s, 'r');
    } else if c == '\t' {
        push_char(s, '\\');
        push_char(s, 't');
    } else if code < 0x20 {
        push_char(s, '\\');
        push_char(s, 'u');
        push_char(s, '0');
        push_char(s, '0');
        push_char(s, hex_digit_exec(code / 16));
        push_char(s, hex_digit_exec(code % 16));
    } else {
        push_char(s, c);
    }
    assert(final(s)@ =~= old(s)@ + json_char(c)) by {
        assert(s@ =~= old(s)@ + json_char(c));
    }
}

/// Appends `t` escaped for a JSON string.
pub fn push_json_escaped(s: &mut String, t: &str)
    ensures
        final(s)@ == old(s)@ + json_escaped(t@),
{
    let cs = chars_of(t);
    let ghost start = s@;
    let mut i: usize = 0;
    while i < cs.len()
        invariant
            i <= cs.len(),
            s@ == start + json_escaped(cs@.take(i as int)),
        decreases cs.len() - i,
    {
        assert(cs@.take(i as int + 1).drop_last() =~= cs@.take(i as int));
        push_json_char(s, cs[i]);
        i = i + 1;
        assert(s@ =~= start + json_escaped(cs@.take(i as int)));
    }
    assert(cs@.take(i as int) =~= t@);
}

/// The character a JSON escape `\e` stands for, for the short escapes.
pub open spec fn short_unescape(e: char) -> char {
    if e == 'b' { '\u{8}' }
    else if e == 'f' { '\u{c}' }
    else if e == 'n' { '\n' }
    else if e == 'r' { '\r' }
    else if e == 't' { '\t' }
    else { e }
}

/// Reads a JSON string body back: `\uXXXX` gives the character with that
/// code, `\` before another character gives that character or the control
/// character it names, and anything else stands for itself.
pub open spec fn json_unescaped(t: Seq<char>) -> Seq<char>
    decreases t.len(),
{
    if t.len() == 0 {
        Seq::empty()
    } else if t[0] == '\\' && t.len() >= 6 && t[1] == 'u' {
        let code = hex_value(t[2]) * 4096 + hex_value(t[3]) * 256 + hex_value(t[4]) * 16 + hex_value(t[5]);
        seq![(code as u32) as char] + json_unescaped(t.skip(6))
    } else if t[0] == '\\' && t.len() >= 2 {
        seq![short_unescape(t[1])] + json_unescaped(t.skip(2))
    } else {
        seq![t[0]] + json_unescaped(t.skip(1))
    }
}

proof fn lemma_escaped_front(s: Seq<char>)
    requires
        s.len() > 0,
    ensures
        json_escaped(s) == json_char(s[0]) + json_escaped(s.skip(1)),
    decreases s.len(),
{
    if s.len() > 1 {
        lemma_escaped_front(s.drop_last());
        assert(s.drop_last().skip(1) =~= s.skip(1).drop_last());
        assert(s.skip(1).last() == s.last());
    } else {
        assert(s.drop_last() =~= Seq::<char>::empty());
        assert(s.skip(1) =~= Seq::<char>::empty());
    }
}

proof fn lemma_hex_round_trip(d: nat)
    requires
        d < 16,
    ensures
        hex_value(hex_digit(d)) == d,
{
}

/// The JSON name of an entry reads back as its name.
pub proof fn law_json_name_round_trip(s: Seq<char>)
    ensures
        json_unescaped(json_escaped(s)) == s,
    decreases s.len(),
{
    if s.len() > 0 {
        lemma_escaped_front(s);
        law_json_name_round_trip(s.skip(1));
        let c = s[0];
        let head = json_char(c);
        let t = head + json_escaped(s.skip(1));
        assert(t.skip(head.len() as int) =~= json_escaped(s.skip(1)));
        if head.len() == 6 {
            let u = c as u32;
            lemma_hex_round_trip((u / 16) as nat);
            lemma_hex_round_trip((u % 16) as nat);
            assert(t[2] == '0' && t[3] == '0');
            let code = hex_value(t[2]) * 4096 + hex_value(t[3]) * 256 + hex_value(t[4]) * 16 + hex_value(t[5]);
            assert(code == u as nat);
            assert((code as u32) == u);
            vstd::utf8::char_u32_cast(c, c as u32);
        }
        assert(s =~= seq![c] + s.skip(1));
    }
}

/// An escaped name holds no control character, so a JSON object stays on
/// one line.
pub proof fn law_json_one_line(s: Seq<char>)
    ensures
        forall|i: int| 0 <= i < json_escaped(s).len() ==> (#[trigger] json_escaped(s)[i]) as u32 >= 0x20,
    decreases s.len(),
{
    if s.len() > 0 {
        law_json_one_line(s.drop_last());
        let a = json_escaped(s.drop_last());
        let b = json_char(s.last());
        assert forall|i: int| 0 <= i < b.len() implies (#[trigger] b[i]) as u32 >= 0x20 by {
            if b.len() == 6 {
                if i >= 4 {
                    let u = s.last() as u32;
                    assert(u / 16 < 16 && u % 16 < 16);
                }
            }
        }
        assert forall|i: int| 0 <= i < json_escaped(s).len() implies (#[trigger] json_escaped(s)[i]) as u32 >= 0x20 by {
            assert(json_escaped(s) == a + b);
            if i < a.len() {
                assert(json_escaped(s)[i] == a[i]);
            } else {
                assert(json_escaped(s)[i] == b[i - a.len()]);
            }
        }
    }
}

} // verus!
