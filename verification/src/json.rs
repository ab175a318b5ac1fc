use vstd::prelude::*;

use crate::text::{chars_of, digit_char, digit_str};

verus! {

// ---------------------------------------------------------------------------
// JSON string literals
// ---------------------------------------------------------------------------

/// The lower-case hexadecimal digit for `d` (0 to 15).
pub open spec fn hex_digit(d: int) -> char {
    if d < 10 {
        digit_char(d)
    } else {
        (87 + d) as char
    }
}

/// Whether a character is written escaped inside a JSON string: the quote, the backslash
/// and the control characters below U+0020.
pub open spec fn needs_escape(c: char) -> bool {
    c == '"' || c == '\\' || (c as int) < 0x20
}

/// How one character is written inside a JSON string literal: the quote and the backslash
/// behind a backslash; backspace, form feed, line feed, carriage return and tab as `\b`,
/// `\f`, `\n`, `\r` and `\t`; the other control characters below U+0020 as `\u00` and two
/// lower-case hexadecimal digits; every other character as itself.
pub open spec fn json_escaped_char(c: char) -> Seq<char> {
    if c == '"' {
        seq!['\\', '"']
    } else if c == '\\' {
        seq!['\\', '\\']
    } else if c == '\u{8}' {
        seq!['\\', 'b']
    } else if c == '\u{c}' {
        seq!['\\', 'f']
    } else if c == '\n' {
        seq!['\\', 'n']
    } else if c == '\r' {
        seq!['\\', 'r']
    } else if c == '\t' {
        seq!['\\', 't']
    } else if (c as int) < 0x20 {
        seq!['\\', 'u', '0', '0', hex_digit((c as int) / 16), hex_digit((c as int) % 16)]
    } else {
        seq![c]
    }
}

/// The characters of `s`, each written as inside a JSON string literal.
pub open spec fn json_escaped(s: Seq<char>) -> Seq<char>
    decreases s.len(),
{
    if s.len() == 0 {
        Seq::empty()
    } else {
        json_escaped(s.drop_last()) + json_escaped_char(s.last())
    }
}

/// The JSON string literal for the text `s`, as `serde_json` writes a string: quoted, with
/// the characters escaped as `json_escaped_char` says.
pub open spec fn json_string_literal(s: Seq<char>) -> Seq<char> {
    seq!['"'] + json_escaped(s) + seq!['"']
}

/// Writing one more character extends the escaped text by that character's form.
proof fn lemma_escaped_step(s: Seq<char>, i: int)
    requires
        0 <= i < s.len(),
    ensures
        json_escaped(s.take(i + 1)) == json_escaped(s.take(i)) + json_escaped_char(s[i]),
{
    assert(s.take(i + 1).drop_last() =~= s.take(i));
}

/// A run of characters that need no escape is written as it stands.
proof fn lemma_escaped_plain_run(s: Seq<char>, a: int, b: int)
    requires
        0 <= a <= b <= s.len(),
        forall|j: int| a <= j < b ==> !needs_escape(#[trigger] s[j]),
    ensures
        json_escaped(s.take(b)) == json_escaped(s.take(a)) + s.subrange(a, b),
    decreases b - a,
{
    if b > a {
        lemma_escaped_plain_run(s, a, b - 1);
        lemma_escaped_step(s, b - 1);
        assert(!needs_escape(s[b - 1]));
        assert(json_escaped_char(s[b - 1]) == seq![s[b - 1]]);
        assert(s.subrange(a, b - 1).push(s[b - 1]) =~= s.subrange(a, b));
    } else {
        assert(s.subrange(a, b) =~= Seq::<char>::empty());
    }
}

fn is_escaped(c: char) -> (r: bool)
    ensures
        r == needs_escape(c),
{
    c == '"' || c == '\\' || (c as u32) < 0x20
}

fn hex_digit_str(d: u32) -> (r: &'static str)
    requires
        d < 16,
    ensures
        r@ == seq![hex_digit(d as int)],
{
    proof {
        reveal_strlit("a");
        reveal_strlit("b");
        reveal_strlit("c");
        reveal_strlit("d");
        reveal_strlit("e");
        reveal_strlit("f");
    }
    if d < 10 {
        digit_str(d as u128)
    } else if d == 10 {
        "a"
    } else if d == 11 {
        "b"
    } else if d == 12 {
        "c"
    } else if d == 13 {
        "d"
    } else if d == 14 {
        "e"
    } else {
        "f"
    }
}

/// Appends the escaped form of a character that needs one.
fn push_escape(out: &mut String, c: char)
    requires
        needs_escape(c),
    ensures
        final(out)@ == old(out)@ + json_escaped_char(c),
{
    proof {
        reveal_strlit("\\\"");
        reveal_strlit("\\\\");
        reveal_strlit("\\b");
        reveal_strlit("\\f");
        reveal_strlit("\\n");
        reveal_strlit("\\r");
        reveal_strlit("\\t");
        reveal_strlit("\\u00");
    }
    if c == '"' {
        out.append("\\\"");
    } else if c == '\\' {
        out.append("\\\\");
    } else if c == '\u{8}' {
        out.append("\\b");
    } else if c == '\u{c}' {
        out.append("\\f");
    } else if c == '\n' {
        out.append("\\n");
    } else if c == '\r' {
        out.append("\\r");
    } else if c == '\t' {
        out.append("\\t");
    } else {
        let n = c as u32;
        out.append("\\u00");
        out.append(hex_digit_str(n / 16));
        out.append(hex_digit_str(n % 16));
        assert(old(out)@ + "\\u00"@ + seq![hex_digit((n / 16) as int)] + seq![
            hex_digit((n % 16) as int),
        ] =~= old(out)@ + json_escaped_char(c));
    }
}

/// The JSON string literal for `s`, written as `serde_json` writes a string: the runs of
/// characters that need no escape as they stand, each other character escaped.
pub fn json_string(s: &str) -> (r: String)
    ensures
        r@ == json_string_literal(s@),
{
    proof {
        reveal_strlit("\"");
    }
    let v = chars_of(s);
    let mut out = "\"".to_owned();
    let mut run_start: usize = 0;
    let mut i: usize = 0;
    while i < v.len()
        invariant
            v@ == s@,
            run_start <= i <= v.len(),
            out@ == seq!['"'] + json_escaped(s@.take(run_start as int)),
            forall|j: int| run_start <= j < i ==> !needs_escape(#[trigger] s@[j]),
        decreases v.len() - i,
    {
        let c = v[i];
        if is_escaped(c) {
            let run = s.substring_char(run_start, i);
            out.append(run);
            push_escape(&mut out, c);
            proof {
                lemma_escaped_plain_run(s@, run_start as int, i as int);
                lemma_escaped_step(s@, i as int);
            }
            run_start = i + 1;
        }
        i = i + 1;
    }
    let run = s.substring_char(run_start, v.len());
    out.append(run);
    out.append("\"");
    proof {
        lemma_escaped_plain_run(s@, run_start as int, v.len() as int);
        assert(s@.take(v.len() as int) =~= s@);
    }
    out
}

} // verus!
