//! Canonical JSON text for the records whose digests the kernel chains: object keys in
//! sorted order, no insignificant white space, strings escaped as JSON requires.

use vstd::prelude::*;
use vstd::string::{StrSliceExecFns, StringExecFns};
use crate::text::chars_of;

verus! {

broadcast use vstd::string::group_string_axioms;

pub open spec fn hex_digit(n: int) -> char {
    if n < 10 {
        (('0' as u32) + n) as char
    } else {
        (('a' as u32) + n - 10) as char
    }
}

/// How JSON writes one character inside a string.
pub open spec fn json_escape_char(c: char) -> Seq<char> {
    let u = c as u32;
    if c == '"' {
        seq!['\\', '"']
    } else if c == '\\' {
        seq!['\\', '\\']
    } else if u == 0x08 {
        seq!['\\', 'b']
    } else if u == 0x0c {
        seq!['\\', 'f']
    } else if u == 0x0a {
        seq!['\\', 'n']
    } else if u == 0x0d {
        seq!['\\', 'r']
    } else if u == 0x09 {
        seq!['\\', 't']
    } else if u < 0x20 {
        seq!['\\', 'u', '0', '0', hex_digit((u / 16) as int), hex_digit((u % 16) as int)]
    } else {
        seq![c]
    }
}

/// The first `n` characters of `s`, escaped.
pub open spec fn json_escape(s: Seq<char>, n: nat) -> Seq<char>
    decreases n,
{
    if n == 0 || n > s.len() {
        Seq::empty()
    } else {
        json_escape(s, (n - 1) as nat) + json_escape_char(s[n - 1])
    }
}

/// A JSON string literal holding `s`.
pub open spec fn json_string(s: Seq<char>) -> Seq<char> {
    seq!['"'] + json_escape(s, s.len()) + seq!['"']
}

pub open spec fn decimal_digit(d: int) -> char {
    (('0' as u32) + d) as char
}

/// The decimal numeral of `n`.
pub open spec fn decimal(n: nat) -> Seq<char>
    decreases n,
{
    if n < 10 {
        seq![decimal_digit(n as int)]
    } else {
        decimal(n / 10) + seq![decimal_digit((n % 10) as int)]
    }
}

fn digit_str(d: u32) -> (r: &'static str)
    requires
        d < 16,
    ensures
        r@ == seq![hex_digit(d as int)],
{
    proof {
        reveal_strlit("0");
        reveal_strlit("1");
        reveal_strlit("2");
        reveal_strlit("3");
        reveal_strlit("4");
        reveal_strlit("5");
        reveal_strlit("6");
        reveal_strlit("7");
        reveal_strlit("8");
        reveal_strlit("9");
        reveal_strlit("a");
        reveal_strlit("b");
        reveal_strlit("c");
        reveal_strlit("d");
        reveal_strlit("e");
        reveal_strlit("f");
    }
    let r = match d {
        0 => "0",
        1 => "1",
        2 => "2",
        3 => "3",
        4 => "4",
        5 => "5",
        6 => "6",
        7 => "7",
        8 => "8",
        9 => "9",
        10 => "a",
        11 => "b",
        12 => "c",
        13 => "d",
        14 => "e",
        _ => "f",
    };
    assert(r@ =~= seq![hex_digit(d as int)]);
    r
}

fn escape_str(c: char) -> (r: Option<&'static str>)
    ensures
        match r {
            Some(e) => e@ == json_escape_char(c),
            None => {
                &&& c != '"' && c != '\\'
                &&& (c as u32) != 0x08 && (c as u32) != 0x0c && (c as u32) != 0x0a
                &&& (c as u32) != 0x0d && (c as u32) != 0x09
            },
        },
{
    proof {
        reveal_strlit("\\\"");
        reveal_strlit("\\\\");
        reveal_strlit("\\b");
        reveal_strlit("\\f");
        reveal_strlit("\\n");
        reveal_strlit("\\r");
        reveal_strlit("\\t");
    }
    let u = c as u32;
    if c == '"' {
        assert("\\\""@ =~= seq!['\\', '"']);
        Some("\\\"")
    } else if c == '\\' {
        assert("\\\\"@ =~= seq!['\\', '\\']);
        Some("\\\\")
    } else if u == 0x08 {
        assert("\\b"@ =~= seq!['\\', 'b']);
        Some("\\b")
    } else if u == 0x0c {
        assert("\\f"@ =~= seq!['\\', 'f']);
        Some("\\f")
    } else if u == 0x0a {
        assert("\\n"@ =~= seq!['\\', 'n']);
        Some("\\n")
    } else if u == 0x0d {
        assert("\\r"@ =~= seq!['\\', 'r']);
        Some("\\r")
    } else if u == 0x09 {
        assert("\\t"@ =~= seq!['\\', 't']);
        Some("\\t")
    } else {
        None
    }
}

/// Appends `s` to `out` as a JSON string literal.
pub fn push_json_string(out: &mut String, s: &str)
    ensures
        final(out)@ == old(out)@ + json_string(s@),
{
    proof {
        reveal_strlit("\"");
        reveal_strlit("\\u00");
    }
    let ghost start = out@;
    out.append("\"");
    let chars = chars_of(s);
    let n = chars.len();
    let mut i: usize = 0;
    while i < n
        invariant
            chars@ == s@,
            n == chars@.len(),
            i <= n,
            out@ == start + seq!['"'] + json_escape(s@, i as nat),
        decreases n - i,
    {
        let c = chars[i];
        let ghost before = out@;
        match escape_str(c) {
            Some(e) => {
                out.append(e);
            },
            None => {
                let u = c as u32;
                if u < 0x20 {
                    proof {
                        reveal_strlit("\\u00");
                    }
                    out.append("\\u00");
                    let hi = digit_str(u / 16);
                    out.append(hi);
                    let lo = digit_str(u % 16);
                    out.append(lo);

                    assert(out@ =~= before + json_escape_char(c));
                } else {
                    out.append(s.substring_char(i, i + 1));
                    assert(s@.subrange(i as int, i + 1) =~= seq![c]);
                }
            },
        }
        assert(out@ =~= before + json_escape_char(c));
        assert(json_escape(s@, (i + 1) as nat) == json_escape(s@, i as nat) + json_escape_char(
            s@[i as int],
        ));
        i = i + 1;
    }
    out.append("\"");
    assert(out@ =~= start + json_string(s@));
}

/// Appends the decimal numeral of `n` to `out`.
pub fn push_decimal(out: &mut String, n: u64)
    ensures
        final(out)@ == old(out)@ + decimal(n as nat),
    decreases n,
{
    if n >= 10 {
        push_decimal(out, n / 10);
    }
    let d = (n % 10) as u32;
    out.append(digit_str(d));
    proof {
        if n < 10 {
            assert(decimal(n as nat) =~= seq![decimal_digit(n as int)]);
        }
    }
}

} // verus!
