//! The configuration document codec.
//!
//! The document is the JSON object `{ "browsers": [ ... ] }` where each
//! element carries the four fields `id`, `name`, `path` and `icon` (a string
//! or `null`). The serializer emits one canonical pretty-printed form; the
//! parser accepts any amount of whitespace between tokens and the four
//! fields of an entry in any order, each exactly once.

use vstd::prelude::*;
use vstd::string::StringExecFns;
use crate::error::Error;
use crate::model::{bseq_view, Browser, BrowserV, Config, ConfigV};
use crate::text::{char_from_u32, chars_eq, chars_of, string_of};

verus! {

// ---------------------------------------------------------------------------
// Layout: the canonical serialized form, chunk by chunk.
// ---------------------------------------------------------------------------

pub open spec fn k_id() -> Seq<char> {
    seq!['i', 'd']
}

pub open spec fn k_name() -> Seq<char> {
    seq!['n', 'a', 'm', 'e']
}

pub open spec fn k_path() -> Seq<char> {
    seq!['p', 'a', 't', 'h']
}

pub open spec fn k_icon() -> Seq<char> {
    seq!['i', 'c', 'o', 'n']
}

pub open spec fn k_browsers() -> Seq<char> {
    seq!['b', 'r', 'o', 'w', 's', 'e', 'r', 's']
}

/// A key in quotes followed by a colon and one space.
pub open spec fn keycolon(k: Seq<char>) -> Seq<char> {
    seq!['"'] + k + seq!['"', ':', ' ']
}

/// Four spaces: the indentation of an entry in the array.
pub open spec fn ind4() -> Seq<char> {
    seq![' ', ' ', ' ', ' ']
}

/// Newline plus the six-space indentation of a field.
pub open spec fn nl6() -> Seq<char> {
    seq!['\n', ' ', ' ', ' ', ' ', ' ', ' ']
}

/// Newline plus the two-space indentation of the top-level field.
pub open spec fn nl2() -> Seq<char> {
    seq!['\n', ' ', ' ']
}

pub open spec fn null4() -> Seq<char> {
    seq!['n', 'u', 'l', 'l']
}

/// The hexadecimal digit for `d`, lower case.
pub open spec fn hex_digit(d: int) -> char {
    if d == 0 { '0' } else if d == 1 { '1' } else if d == 2 { '2' } else if d == 3 { '3' }
    else if d == 4 { '4' } else if d == 5 { '5' } else if d == 6 { '6' } else if d == 7 { '7' }
    else if d == 8 { '8' } else if d == 9 { '9' } else if d == 10 { 'a' } else if d == 11 { 'b' }
    else if d == 12 { 'c' } else if d == 13 { 'd' } else if d == 14 { 'e' } else { 'f' }
}

/// How one character is written inside a JSON string: itself, a two-character
/// escape, or a `\u00..` escape for the remaining control characters.
pub open spec fn esc_char(c: char) -> Seq<char> {
    if c == '"' {
        seq!['\\', '"']
    } else if c == '\\' {
        seq!['\\', '\\']
    } else if c == '\u{0008}' {
        seq!['\\', 'b']
    } else if c == '\u{0009}' {
        seq!['\\', 't']
    } else if c == '\u{000A}' {
        seq!['\\', 'n']
    } else if c == '\u{000C}' {
        seq!['\\', 'f']
    } else if c == '\u{000D}' {
        seq!['\\', 'r']
    } else if (c as u32) < 0x20 {
        seq!['\\', 'u', '0', '0', hex_digit(c as u32 as int / 16), hex_digit(c as u32 as int % 16)]
    } else {
        seq![c]
    }
}

/// The escaped body of a JSON string.
pub open spec fn esc(s: Seq<char>) -> Seq<char>
    decreases s.len(),
{
    if s.len() == 0 {
        Seq::empty()
    } else {
        esc_char(s[0]) + esc(s.drop_first())
    }
}

/// A complete JSON string literal.
pub open spec fn jstr(s: Seq<char>) -> Seq<char> {
    seq!['"'] + esc(s) + seq!['"']
}

pub open spec fn jicon(icon: Option<Seq<char>>) -> Seq<char> {
    match icon {
        Some(e) => jstr(e),
        None => null4(),
    }
}

/// The canonical serialization of one browser entry.
pub open spec fn json_browser(b: BrowserV) -> Seq<char> {
    ind4() + seq!['{']
        + nl6() + keycolon(k_id()) + jstr(b.id) + seq![',']
        + nl6() + keycolon(k_name()) + jstr(b.name) + seq![',']
        + nl6() + keycolon(k_path()) + jstr(b.path) + seq![',']
        + nl6() + keycolon(k_icon()) + jicon(b.icon)
        + seq!['\n', ' ', ' ', ' ', ' ', '}']
}

/// The array elements, joined by a comma and a newline.
pub open spec fn json_browsers(bs: Seq<BrowserV>) -> Seq<char>
    decreases bs.len(),
{
    if bs.len() == 0 {
        Seq::empty()
    } else if bs.len() == 1 {
        json_browser(bs[0])
    } else {
        json_browser(bs[0]) + seq![',', '\n'] + json_browsers(bs.drop_first())
    }
}

/// The canonical serialization of the whole document.
pub open spec fn json_config(c: ConfigV) -> Seq<char> {
    seq!['{'] + nl2() + keycolon(k_browsers()) + seq!['[']
        + (if c.browsers.len() == 0 {
            seq![']']
        } else {
            seq!['\n'] + json_browsers(c.browsers) + seq!['\n', ' ', ' ', ']']
        })
        + seq!['\n', '}']
}

// ---------------------------------------------------------------------------
// The parser, at the specification level.
// ---------------------------------------------------------------------------

pub open spec fn is_ws(c: char) -> bool {
    c == ' ' || c == '\n' || c == '\t' || c == '\r'
}

/// The input without its leading whitespace.
pub open spec fn skip_ws(s: Seq<char>) -> Seq<char>
    decreases s.len(),
{
    if s.len() > 0 && is_ws(s[0]) {
        skip_ws(s.drop_first())
    } else {
        s
    }
}

/// The value of a hexadecimal digit, either case.
pub open spec fn hex_val(c: char) -> Option<int> {
    let u = c as u32;
    if 0x30 <= u && u <= 0x39 {
        Some(u - 0x30)
    } else if 0x61 <= u && u <= 0x66 {
        Some(u - 0x61 + 10)
    } else if 0x41 <= u && u <= 0x46 {
        Some(u - 0x41 + 10)
    } else {
        None
    }
}

/// Four hexadecimal digits at the front of the input.
pub open spec fn parse_hex4(s: Seq<char>) -> Option<int> {
    if s.len() < 4 {
        None
    } else {
        match (hex_val(s[0]), hex_val(s[1]), hex_val(s[2]), hex_val(s[3])) {
            (Some(a), Some(b), Some(c), Some(d)) => Some(a * 4096 + b * 256 + c * 16 + d),
            _ => None,
        }
    }
}

pub open spec fn is_scalar_value(u: int) -> bool {
    (0 <= u < 0xD800) || (0xE000 <= u <= 0x10FFFF)
}

/// The escape following a backslash: the character it denotes and the rest
/// of the input. `\u` escapes cover the basic plane directly and the rest
/// through a surrogate pair.
pub open spec fn parse_escape(s: Seq<char>) -> Option<(char, Seq<char>)> {
    if s.len() == 0 {
        None
    } else if s[0] == '"' {
        Some(('"', s.drop_first()))
    } else if s[0] == '\\' {
        Some(('\\', s.drop_first()))
    } else if s[0] == '/' {
        Some(('/', s.drop_first()))
    } else if s[0] == 'b' {
        Some(('\u{0008}', s.drop_first()))
    } else if s[0] == 'f' {
        Some(('\u{000C}', s.drop_first()))
    } else if s[0] == 'n' {
        Some(('\n', s.drop_first()))
    } else if s[0] == 'r' {
        Some(('\r', s.drop_first()))
    } else if s[0] == 't' {
        Some(('\t', s.drop_first()))
    } else if s[0] == 'u' {
        match parse_hex4(s.skip(1)) {
            None => None,
            Some(h) => if 0xD800 <= h && h < 0xDC00 {
                if s.len() >= 11 && s[5] == '\\' && s[6] == 'u' {
                    match parse_hex4(s.skip(7)) {
                        None => None,
                        Some(l) => if 0xDC00 <= l && l < 0xE000 {
                            Some(((0x10000 + (h - 0xD800) * 0x400 + (l - 0xDC00)) as u32 as char, s.skip(11)))
                        } else {
                            None
                        },
                    }
                } else {
                    None
                }
            } else if 0xDC00 <= h && h < 0xE000 {
                None
            } else {
                Some((h as u32 as char, s.skip(5)))
            },
        }
    } else {
        None
    }
}

/// The body of a JSON string after its opening quote: the denoted characters
/// and the input after the closing quote.
pub open spec fn parse_str_body(s: Seq<char>) -> Option<(Seq<char>, Seq<char>)>
    decreases s.len(),
{
    if s.len() == 0 {
        None
    } else if s[0] == '"' {
        Some((Seq::empty(), s.drop_first()))
    } else if s[0] == '\\' {
        match parse_escape(s.drop_first()) {
            None => None,
            Some((c, rest)) => if rest.len() < s.len() {
                match parse_str_body(rest) {
                    None => None,
                    Some((t, r2)) => Some((seq![c] + t, r2)),
                }
            } else {
                None
            },
        }
    } else if (s[0] as u32) < 0x20 {
        None
    } else {
        match parse_str_body(s.drop_first()) {
            None => None,
            Some((t, r2)) => Some((seq![s[0]] + t, r2)),
        }
    }
}

/// A JSON string token, leading whitespace allowed.
pub open spec fn parse_string(s: Seq<char>) -> Option<(Seq<char>, Seq<char>)> {
    let t = skip_ws(s);
    if t.len() > 0 && t[0] == '"' {
        parse_str_body(t.drop_first())
    } else {
        None
    }
}

/// The value of the `icon` field: a string or `null`.
pub open spec fn parse_icon_val(s: Seq<char>) -> Option<(Option<Seq<char>>, Seq<char>)> {
    let t = skip_ws(s);
    if t.len() > 0 && t[0] == '"' {
        match parse_str_body(t.drop_first()) {
            None => None,
            Some((v, r)) => Some((Some(v), r)),
        }
    } else if t.len() >= 4 && t[0] == 'n' && t[1] == 'u' && t[2] == 'l' && t[3] == 'l' {
        Some((None, t.skip(4)))
    } else {
        None
    }
}

/// The fields of an entry gathered so far. The outer `Option` of `icon`
/// records whether the field was seen at all.
pub ghost struct FieldsV {
    pub id: Option<Seq<char>>,
    pub name: Option<Seq<char>>,
    pub path: Option<Seq<char>>,
    pub icon: Option<Option<Seq<char>>>,
}

pub open spec fn no_fields() -> FieldsV {
    FieldsV { id: None, name: None, path: None, icon: None }
}

/// The fields of an entry, from after the opening brace to after the closing
/// brace. Each of the four keys must appear exactly once, in any order;
/// `fuel` bounds the recursion and never runs out on a well-formed entry.
pub open spec fn parse_fields(s: Seq<char>, acc: FieldsV, fuel: nat) -> Option<(BrowserV, Seq<char>)>
    decreases fuel,
{
    match parse_string(s) {
        None => None,
        Some((key, r1)) => {
            let t1 = skip_ws(r1);
            if t1.len() > 0 && t1[0] == ':' {
                let r2 = t1.drop_first();
                let step: Option<(FieldsV, Seq<char>)> = if key == k_id() {
                    if acc.id is Some {
                        None
                    } else {
                        match parse_string(r2) {
                            None => None,
                            Some((v, r3)) => Some((FieldsV { id: Some(v), ..acc }, r3)),
                        }
                    }
                } else if key == k_name() {
                    if acc.name is Some {
                        None
                    } else {
                        match parse_string(r2) {
                            None => None,
                            Some((v, r3)) => Some((FieldsV { name: Some(v), ..acc }, r3)),
                        }
                    }
                } else if key == k_path() {
                    if acc.path is Some {
                        None
                    } else {
                        match parse_string(r2) {
                            None => None,
                            Some((v, r3)) => Some((FieldsV { path: Some(v), ..acc }, r3)),
                        }
                    }
                } else if key == k_icon() {
                    if acc.icon is Some {
                        None
                    } else {
                        match parse_icon_val(r2) {
                            None => None,
                            Some((v, r3)) => Some((FieldsV { icon: Some(v), ..acc }, r3)),
                        }
                    }
                } else {
                    None
                };
                match step {
                    None => None,
                    Some((acc2, r3)) => {
                        let t2 = skip_ws(r3);
                        if t2.len() > 0 && t2[0] == ',' {
                            if fuel > 0 {
                                parse_fields(t2.drop_first(), acc2, (fuel - 1) as nat)
                            } else {
                                None
                            }
                        } else if t2.len() > 0 && t2[0] == '}' {
                            match (acc2.id, acc2.name, acc2.path, acc2.icon) {
                                (Some(id), Some(name), Some(path), Some(icon)) => Some((
                                    BrowserV { id, name, path, icon },
                                    t2.drop_first(),
                                )),
                                _ => None,
                            }
                        } else {
                            None
                        }
                    },
                }
            } else {
                None
            }
        },
    }
}

/// One browser object, leading whitespace allowed.
pub open spec fn parse_browser(s: Seq<char>) -> Option<(BrowserV, Seq<char>)> {
    let t = skip_ws(s);
    if t.len() > 0 && t[0] == '{' {
        parse_fields(t.drop_first(), no_fields(), 3)
    } else {
        None
    }
}

/// One or more array elements separated by commas, up to and including the
/// closing bracket.
pub open spec fn parse_elems(s: Seq<char>) -> Option<(Seq<BrowserV>, Seq<char>)>
    decreases s.len(),
{
    match parse_browser(s) {
        None => None,
        Some((b, r)) => {
            let t = skip_ws(r);
            if t.len() > 0 && t.len() <= s.len() {
                if t[0] == ',' {
                    match parse_elems(t.drop_first()) {
                        None => None,
                        Some((bs, r2)) => Some((seq![b] + bs, r2)),
                    }
                } else if t[0] == ']' {
                    Some((seq![b], t.drop_first()))
                } else {
                    None
                }
            } else {
                None
            }
        },
    }
}

/// The browser array, from its opening bracket to after its closing bracket.
pub open spec fn parse_array(s: Seq<char>) -> Option<(Seq<BrowserV>, Seq<char>)> {
    let t = skip_ws(s);
    if t.len() > 0 && t[0] == '[' {
        let u = skip_ws(t.drop_first());
        if u.len() > 0 && u[0] == ']' {
            Some((Seq::empty(), u.drop_first()))
        } else {
            parse_elems(t.drop_first())
        }
    } else {
        None
    }
}

/// The whole document: the single `browsers` member and nothing but
/// whitespace after the closing brace.
pub open spec fn parse_doc(s: Seq<char>) -> Option<ConfigV> {
    let t = skip_ws(s);
    if t.len() > 0 && t[0] == '{' {
        match parse_string(t.drop_first()) {
            None => None,
            Some((key, r1)) => if key == k_browsers() {
                let u = skip_ws(r1);
                if u.len() > 0 && u[0] == ':' {
                    match parse_array(u.drop_first()) {
                        None => None,
                        Some((bs, r2)) => {
                            let v = skip_ws(r2);
                            if v.len() > 0 && v[0] == '}' && skip_ws(v.drop_first()).len() == 0 {
                                Some(ConfigV { browsers: bs })
                            } else {
                                None
                            }
                        },
                    }
                } else {
                    None
                }
            } else {
                None
            },
        }
    } else {
        None
    }
}

// ---------------------------------------------------------------------------
// The serializer.
// ---------------------------------------------------------------------------

/// Appending one character escapes it after the already escaped prefix.
pub proof fn lemma_esc_snoc(x: Seq<char>, c: char)
    ensures
        esc(x.push(c)) == esc(x) + esc_char(c),
    decreases x.len(),
{
    if x.len() == 0 {
        assert(x.push(c)[0] == c);
        assert(x.push(c).drop_first() =~= Seq::<char>::empty());
        assert(esc(x.push(c)) =~= esc_char(c) + esc(Seq::<char>::empty()));
        assert(esc(x.push(c)) =~= esc(x) + esc_char(c));
    } else {
        assert(x.push(c)[0] == x[0]);
        assert(x.push(c).drop_first() =~= x.drop_first().push(c));
        lemma_esc_snoc(x.drop_first(), c);
        assert(esc(x.push(c)) == esc_char(x[0]) + (esc(x.drop_first()) + esc_char(c)));
        assert(esc_char(x[0]) + (esc(x.drop_first()) + esc_char(c)) =~= (esc_char(x[0]) + esc(
            x.drop_first(),
        )) + esc_char(c));
    }
}

fn hex_digit_exec(d: u32) -> (r: char)
    requires
        d < 16,
    ensures
        r == hex_digit(d as int),
{
    if d == 0 { '0' } else if d == 1 { '1' } else if d == 2 { '2' } else if d == 3 { '3' }
    else if d == 4 { '4' } else if d == 5 { '5' } else if d == 6 { '6' } else if d == 7 { '7' }
    else if d == 8 { '8' } else if d == 9 { '9' } else if d == 10 { 'a' } else if d == 11 { 'b' }
    else if d == 12 { 'c' } else if d == 13 { 'd' } else if d == 14 { 'e' } else { 'f' }
}

/// Appends the escaped form of one character.
fn push_esc_char(out: &mut Vec<char>, c: char)
    ensures
        final(out)@ == old(out)@ + esc_char(c),
{
    if c == '"' {
        out.push('\\');
        out.push('"');
    } else if c == '\\' {
        out.push('\\');
        out.push('\\');
    } else if c == '\u{0008}' {
        out.push('\\');
        out.push('b');
    } else if c == '\u{0009}' {
        out.push('\\');
        out.push('t');
    } else if c == '\u{000A}' {
        out.push('\\');
        out.push('n');
    } else if c == '\u{000C}' {
        out.push('\\');
        out.push('f');
    } else if c == '\u{000D}' {
        out.push('\\');
        out.push('r');
    } else if (c as u32) < 0x20 {
        let u = c as u32;
        out.push('\\');
        out.push('u');
        out.push('0');
        out.push('0');
        out.push(hex_digit_exec(u / 16));
        out.push(hex_digit_exec(u % 16));
    } else {
        out.push(c);
    }
    assert(final(out)@ =~= old(out)@ + esc_char(c));
}

/// Appends a complete JSON string literal for `s`.
fn push_jstr(out: &mut Vec<char>, s: &str)
    ensures
        final(out)@ == old(out)@ + jstr(s@),
{
    let cs = chars_of(s);
    out.push('"');
    let mut i: usize = 0;
    while i < cs.len()
        invariant
            i <= cs.len(),
            cs@ == s@,
            out@ =~= old(out)@ + seq!['"'] + esc(s@.subrange(0, i as int)),
        decreases cs.len() - i,
    {
        push_esc_char(out, cs[i]);
        proof {
            lemma_esc_snoc(s@.subrange(0, i as int), s@[i as int]);
            assert(s@.subrange(0, i + 1 as int) =~= s@.subrange(0, i as int).push(s@[i as int]));
            assert(out@ =~= old(out)@ + seq!['"'] + esc(s@.subrange(0, i + 1 as int)));
        }
        i = i + 1;
    }
    out.push('"');
    proof {
        assert(s@.subrange(0, s@.len() as int) =~= s@);
        assert(final(out)@ =~= old(out)@ + jstr(s@));
    }
}

/// Appends newline plus six spaces, a quoted key and the colon.
fn push_field_head(out: &mut Vec<char>, key: &Vec<char>)
    ensures
        final(out)@ == old(out)@ + nl6() + keycolon(key@),
{
    out.push('\n');
    out.push(' ');
    out.push(' ');
    out.push(' ');
    out.push(' ');
    out.push(' ');
    out.push(' ');
    out.push('"');
    let mut i: usize = 0;
    while i < key.len()
        invariant
            i <= key.len(),
            out@ =~= old(out)@ + nl6() + seq!['"'] + key@.subrange(0, i as int),
        decreases key.len() - i,
    {
        out.push(key[i]);
        assert(out@ =~= old(out)@ + nl6() + seq!['"'] + key@.subrange(0, i + 1 as int));
        i = i + 1;
    }
    out.push('"');
    out.push(':');
    out.push(' ');
    proof {
        assert(key@.subrange(0, key@.len() as int) =~= key@);
        assert(final(out)@ =~= old(out)@ + nl6() + keycolon(key@));
    }
}

fn needle_id() -> (r: Vec<char>)
    ensures
        r@ == k_id(),
{
    let mut v: Vec<char> = Vec::new();
    v.push('i');
    v.push('d');
    assert(v@ =~= k_id());
    v
}

fn needle_name() -> (r: Vec<char>)
    ensures
        r@ == k_name(),
{
    let mut v: Vec<char> = Vec::new();
    v.push('n');
    v.push('a');
    v.push('m');
    v.push('e');
    assert(v@ =~= k_name());
    v
}

fn needle_path() -> (r: Vec<char>)
    ensures
        r@ == k_path(),
{
    let mut v: Vec<char> = Vec::new();
    v.push('p');
    v.push('a');
    v.push('t');
    v.push('h');
    assert(v@ =~= k_path());
    v
}

fn needle_icon() -> (r: Vec<char>)
    ensures
        r@ == k_icon(),
{
    let mut v: Vec<char> = Vec::new();
    v.push('i');
    v.push('c');
    v.push('o');
    v.push('n');
    assert(v@ =~= k_icon());
    v
}

fn needle_browsers() -> (r: Vec<char>)
    ensures
        r@ == k_browsers(),
{
    let mut v: Vec<char> = Vec::new();
    v.push('b');
    v.push('r');
    v.push('o');
    v.push('w');
    v.push('s');
    v.push('e');
    v.push('r');
    v.push('s');
    assert(v@ =~= k_browsers());
    v
}

/// Appends one serialized browser entry.
#[verifier::rlimit(60)]
fn push_browser(out: &mut Vec<char>, b: &Browser)
    ensures
        final(out)@ == old(out)@ + json_browser(b@),
{
    out.push(' ');
    out.push(' ');
    out.push(' ');
    out.push(' ');
    out.push('{');
    assert(out@ =~= old(out)@ + ind4() + seq!['{']);
    let ghost c0 = out@;
    let kid = needle_id();
    push_field_head(out, &kid);
    push_jstr(out, b.id.as_str());
    out.push(',');
    assert(out@ =~= c0 + nl6() + keycolon(k_id()) + jstr(b@.id) + seq![',']);
    let ghost c1 = out@;
    let kname = needle_name();
    push_field_head(out, &kname);
    push_jstr(out, b.name.as_str());
    out.push(',');
    assert(out@ =~= c1 + nl6() + keycolon(k_name()) + jstr(b@.name) + seq![',']);
    let ghost c2 = out@;
    let kpath = needle_path();
    push_field_head(out, &kpath);
    push_jstr(out, b.path.as_str());
    out.push(',');
    assert(out@ =~= c2 + nl6() + keycolon(k_path()) + jstr(b@.path) + seq![',']);
    let ghost c3 = out@;
    let kicon = needle_icon();
    push_field_head(out, &kicon);
    match &b.icon {
        Some(e) => {
            push_jstr(out, e.as_str());
        },
        None => {
            out.push('n');
            out.push('u');
            out.push('l');
            out.push('l');
        },
    }
    assert(out@ =~= c3 + nl6() + keycolon(k_icon()) + jicon(b@.icon));
    let ghost c4 = out@;
    out.push('\n');
    out.push(' ');
    out.push(' ');
    out.push(' ');
    out.push(' ');
    out.push('}');
    assert(out@ =~= c4 + seq!['\n', ' ', ' ', ' ', ' ', '}']);
    assert(final(out)@ =~= old(out)@ + json_browser(b@));
}

/// Joining one more entry onto serialized entries.
pub proof fn lemma_json_browsers_snoc(bs: Seq<BrowserV>, b: BrowserV)
    ensures
        json_browsers(bs.push(b)) == if bs.len() == 0 {
            json_browser(b)
        } else {
            json_browsers(bs) + seq![',', '\n'] + json_browser(b)
        },
    decreases bs.len(),
{
    let e = bs.push(b);
    if bs.len() == 0 {
        assert(e.len() == 1);
        assert(e[0] == b);
    } else {
        assert(e[0] == bs[0]);
        assert(e.drop_first() =~= bs.drop_first().push(b));
        lemma_json_browsers_snoc(bs.drop_first(), b);
        if bs.len() == 1 {
            assert(json_browsers(e) == json_browser(bs[0]) + seq![',', '\n'] + json_browser(b));
        } else {
            assert(json_browsers(e) == json_browser(bs[0]) + seq![',', '\n'] + (json_browsers(
                bs.drop_first(),
            ) + seq![',', '\n'] + json_browser(b)));
            assert(json_browser(bs[0]) + seq![',', '\n'] + (json_browsers(bs.drop_first())
                + seq![',', '\n'] + json_browser(b)) =~= (json_browser(bs[0]) + seq![',', '\n']
                + json_browsers(bs.drop_first())) + seq![',', '\n'] + json_browser(b));
        }
    }
}

/// The canonical pretty-printed document for `c`.
pub fn serialize_config(c: &Config) -> (r: String)
    ensures
        r@ == json_config(c@),
{
    let mut out: Vec<char> = Vec::new();
    out.push('{');
    out.push('\n');
    out.push(' ');
    out.push(' ');
    out.push('"');
    let kb = needle_browsers();
    let mut i: usize = 0;
    while i < kb.len()
        invariant
            i <= kb.len(),
            kb@ == k_browsers(),
            out@ =~= seq!['{'] + nl2() + seq!['"'] + k_browsers().subrange(0, i as int),
        decreases kb.len() - i,
    {
        out.push(kb[i]);
        assert(out@ =~= seq!['{'] + nl2() + seq!['"'] + k_browsers().subrange(0, i + 1 as int));
        i = i + 1;
    }
    out.push('"');
    out.push(':');
    out.push(' ');
    out.push('[');
    proof {
        assert(k_browsers().subrange(0, k_browsers().len() as int) =~= k_browsers());
        assert(out@ =~= seq!['{'] + nl2() + keycolon(k_browsers()) + seq!['[']);
    }
    let ghost head = out@;
    let n = c.browsers.len();
    if n == 0 {
        out.push(']');
    } else {
        out.push('\n');
        let ghost base = out@;
        let mut j: usize = 0;
        while j < n
            invariant
                j <= n,
                n == c.browsers.len(),
                base == head + seq!['\n'],
                j == 0 ==> out@ == base,
                j >= 1 ==> out@ =~= base + json_browsers(c@.browsers.subrange(0, j as int)),
            decreases n - j,
        {
            let ghost pre = c@.browsers.subrange(0, j as int);
            if j > 0 {
                out.push(',');
                out.push('\n');
                assert(out@ =~= base + json_browsers(pre) + seq![',', '\n']);
            }
            push_browser(&mut out, &c.browsers[j]);
            proof {
                assert(c.browsers@[j as int]@ == c@.browsers[j as int]);
                lemma_json_browsers_snoc(pre, c@.browsers[j as int]);
                assert(c@.browsers.subrange(0, j + 1 as int) =~= pre.push(c@.browsers[j as int]));
                if j == 0 {
                    assert(out@ =~= base + json_browsers(c@.browsers.subrange(0, j + 1 as int)));
                } else {
                    assert(base + json_browsers(pre) + seq![',', '\n'] + json_browser(
                        c@.browsers[j as int],
                    ) =~= base + (json_browsers(pre) + seq![',', '\n'] + json_browser(
                        c@.browsers[j as int],
                    )));
                    assert(out@ =~= base + json_browsers(c@.browsers.subrange(0, j + 1 as int)));
                }
            }
            j = j + 1;
        }
        proof {
            assert(c@.browsers.subrange(0, n as int) =~= c@.browsers);
        }
        out.push('\n');
        out.push(' ');
        out.push(' ');
        out.push(']');
    }
    out.push('\n');
    out.push('}');
    proof {
        assert(out@ =~= json_config(c@));
    }
    string_of(&out)
}

// ---------------------------------------------------------------------------
// The parser, executably. Each function mirrors its specification twin on
// the suffix of the input starting at `i`.
// ---------------------------------------------------------------------------

/// Index bookkeeping for suffixes.
pub proof fn lemma_skip_step(s: Seq<char>, i: int)
    requires
        0 <= i < s.len(),
    ensures
        s.skip(i).len() == s.len() - i,
        s.skip(i)[0] == s[i],
        s.skip(i).drop_first() == s.skip(i + 1),
{
    assert(s.skip(i).drop_first() =~= s.skip(i + 1));
}

pub proof fn lemma_skip_skip(s: Seq<char>, i: int, k: int)
    requires
        0 <= i,
        0 <= k,
        i + k <= s.len(),
    ensures
        s.skip(i).skip(k) == s.skip(i + k),
{
    assert(s.skip(i).skip(k) =~= s.skip(i + k));
}

/// The first index at or after `i` holding no whitespace.
fn w_skip(s: &Vec<char>, i: usize) -> (j: usize)
    requires
        i <= s.len(),
    ensures
        i <= j <= s@.len(),
        skip_ws(s@.skip(i as int)) == s@.skip(j as int),
{
    let mut j = i;
    loop
        invariant
            i <= j <= s@.len(),
            skip_ws(s@.skip(i as int)) == skip_ws(s@.skip(j as int)),
        decreases s@.len() - j,
    {
        if j == s.len() {
            assert(s@.skip(j as int).len() == 0);
            return j;
        }
        proof {
            lemma_skip_step(s@, j as int);
        }
        let c = s[j];
        if c == ' ' || c == '\n' || c == '\t' || c == '\r' {
            j = j + 1;
        } else {
            return j;
        }
    }
}

fn p_hex1(c: char) -> (r: Option<u32>)
    ensures
        match r {
            Some(v) => hex_val(c) == Some(v as int) && v < 16,
            None => hex_val(c) is None,
        },
{
    let u = c as u32;
    if 0x30 <= u && u <= 0x39 {
        Some(u - 0x30)
    } else if 0x61 <= u && u <= 0x66 {
        Some(u - 0x61 + 10)
    } else if 0x41 <= u && u <= 0x46 {
        Some(u - 0x41 + 10)
    } else {
        None
    }
}

fn p_hex4(s: &Vec<char>, i: usize) -> (r: Option<u32>)
    requires
        i <= s.len(),
    ensures
        match r {
            Some(v) => i + 4 <= s@.len() && parse_hex4(s@.skip(i as int)) == Some(v as int) && v
                < 0x10000,
            None => parse_hex4(s@.skip(i as int)) is None,
        },
{
    if s.len() - i < 4 {
        return None;
    }
    proof {
        assert(s@.skip(i as int)[0] == s@[i as int]);
        assert(s@.skip(i as int)[1] == s@[i + 1]);
        assert(s@.skip(i as int)[2] == s@[i + 2]);
        assert(s@.skip(i as int)[3] == s@[i + 3]);
    }
    let a = match p_hex1(s[i]) {
        Some(v) => v,
        None => {
            return None;
        },
    };
    let b = match p_hex1(s[i + 1]) {
        Some(v) => v,
        None => {
            return None;
        },
    };
    let c = match p_hex1(s[i + 2]) {
        Some(v) => v,
        None => {
            return None;
        },
    };
    let d = match p_hex1(s[i + 3]) {
        Some(v) => v,
        None => {
            return None;
        },
    };
    Some(a * 4096 + b * 256 + c * 16 + d)
}

fn p_escape(s: &Vec<char>, i: usize) -> (r: Option<(char, usize)>)
    requires
        i <= s.len(),
    ensures
        match r {
            Some((c, j)) => i < j <= s@.len() && parse_escape(s@.skip(i as int)) == Some(
                (c, s@.skip(j as int)),
            ),
            None => parse_escape(s@.skip(i as int)) is None,
        },
{
    if i == s.len() {
        return None;
    }
    proof {
        lemma_skip_step(s@, i as int);
    }
    let c0 = s[i];
    if c0 == '"' {
        return Some(('"', i + 1));
    }
    if c0 == '\\' {
        return Some(('\\', i + 1));
    }
    if c0 == '/' {
        return Some(('/', i + 1));
    }
    if c0 == 'b' {
        return Some(('\u{0008}', i + 1));
    }
    if c0 == 'f' {
        return Some(('\u{000C}', i + 1));
    }
    if c0 == 'n' {
        return Some(('\n', i + 1));
    }
    if c0 == 'r' {
        return Some(('\r', i + 1));
    }
    if c0 == 't' {
        return Some(('\t', i + 1));
    }
    if c0 == 'u' {
        proof {
            lemma_skip_skip(s@, i as int, 1);
        }
        match p_hex4(s, i + 1) {
            None => {
                return None;
            },
            Some(h) => {
                if 0xD800 <= h && h < 0xDC00 {
                    if s.len() - i >= 11 {
                        proof {
                            assert(s@.skip(i as int)[5] == s@[i + 5]);
                            assert(s@.skip(i as int)[6] == s@[i + 6]);
                            lemma_skip_skip(s@, i as int, 7);
                        }
                        if s[i + 5] == '\\' && s[i + 6] == 'u' {
                            match p_hex4(s, i + 7) {
                                None => {
                                    return None;
                                },
                                Some(l) => {
                                    if 0xDC00 <= l && l < 0xE000 {
                                        let comb: u32 = 0x10000 + (h - 0xD800) * 0x400 + (l
                                            - 0xDC00);
                                        match char_from_u32(comb) {
                                            Some(ch) => {
                                                proof {
                                                    vstd::utf8::char_u32_cast(ch, comb);
                                                    lemma_skip_skip(s@, i as int, 11);
                                                }
                                                return Some((ch, i + 11));
                                            },
                                            None => {
                                                proof {
                                                    assert(false);
                                                }
                                                return None;
                                            },
                                        }
                                    } else {
                                        return None;
                                    }
                                },
                            }
                        } else {
                            return None;
                        }
                    } else {
                        return None;
                    }
                } else if 0xDC00 <= h && h < 0xE000 {
                    return None;
                } else {
                    match char_from_u32(h) {
                        Some(ch) => {
                            proof {
                                vstd::utf8::char_u32_cast(ch, h);
                                lemma_skip_skip(s@, i as int, 5);
                            }
                            return Some((ch, i + 5));
                        },
                        None => {
                            proof {
                                assert(false);
                            }
                            return None;
                        },
                    }
                }
            },
        }
    }
    None
}

fn p_str_body(s: &Vec<char>, i: usize) -> (r: Option<(Vec<char>, usize)>)
    requires
        i <= s.len(),
    ensures
        match r {
            Some((v, j)) => i < j <= s@.len() && parse_str_body(s@.skip(i as int)) == Some(
                (v@, s@.skip(j as int)),
            ),
            None => parse_str_body(s@.skip(i as int)) is None,
        },
    decreases s@.len() - i,
{
    if i == s.len() {
        return None;
    }
    proof {
        lemma_skip_step(s@, i as int);
    }
    let c0 = s[i];
    if c0 == '"' {
        let v: Vec<char> = Vec::new();
        assert(v@ =~= Seq::<char>::empty());
        return Some((v, i + 1));
    }
    if c0 == '\\' {
        match p_escape(s, i + 1) {
            None => {
                return None;
            },
            Some((c, j)) => {
                match p_str_body(s, j) {
                    None => {
                        return None;
                    },
                    Some((mut v, j2)) => {
                        let ghost vv = v@;
                        v.insert(0, c);
                        proof {
                            assert(v@ =~= seq![c] + vv);
                        }
                        return Some((v, j2));
                    },
                }
            },
        }
    }
    if (c0 as u32) < 0x20 {
        return None;
    }
    match p_str_body(s, i + 1) {
        None => None,
        Some((mut v, j2)) => {
            let ghost vv = v@;
            v.insert(0, c0);
            proof {
                assert(v@ =~= seq![c0] + vv);
            }
            Some((v, j2))
        },
    }
}

fn p_string(s: &Vec<char>, i: usize) -> (r: Option<(Vec<char>, usize)>)
    requires
        i <= s.len(),
    ensures
        match r {
            Some((v, j)) => i < j <= s@.len() && parse_string(s@.skip(i as int)) == Some(
                (v@, s@.skip(j as int)),
            ),
            None => parse_string(s@.skip(i as int)) is None,
        },
{
    let t = w_skip(s, i);
    if t < s.len() {
        proof {
            lemma_skip_step(s@, t as int);
        }
        if s[t] == '"' {
            return p_str_body(s, t + 1);
        }
        return None;
    }
    None
}

pub open spec fn opt_chars_view(o: Option<Vec<char>>) -> Option<Seq<char>> {
    match o {
        Some(v) => Some(v@),
        None => None,
    }
}

fn p_icon_val(s: &Vec<char>, i: usize) -> (r: Option<(Option<Vec<char>>, usize)>)
    requires
        i <= s.len(),
    ensures
        match r {
            Some((v, j)) => i < j <= s@.len() && parse_icon_val(s@.skip(i as int)) == Some(
                (opt_chars_view(v), s@.skip(j as int)),
            ),
            None => parse_icon_val(s@.skip(i as int)) is None,
        },
{
    let t = w_skip(s, i);
    if t == s.len() {
        return None;
    }
    proof {
        lemma_skip_step(s@, t as int);
    }
    if s[t] == '"' {
        match p_str_body(s, t + 1) {
            None => {
                return None;
            },
            Some((v, j)) => {
                return Some((Some(v), j));
            },
        }
    }
    if s.len() - t >= 4 {
        proof {
            assert(s@.skip(t as int)[1] == s@[t + 1]);
            assert(s@.skip(t as int)[2] == s@[t + 2]);
            assert(s@.skip(t as int)[3] == s@[t + 3]);
            lemma_skip_skip(s@, t as int, 4);
        }
        if s[t] == 'n' && s[t + 1] == 'u' && s[t + 2] == 'l' && s[t + 3] == 'l' {
            return Some((None, t + 4));
        }
    }
    None
}

struct FieldsAcc {
    id: Option<Vec<char>>,
    name: Option<Vec<char>>,
    path: Option<Vec<char>>,
    icon: Option<Option<Vec<char>>>,
}

spec fn facc_view(a: FieldsAcc) -> FieldsV {
    FieldsV {
        id: opt_chars_view(a.id),
        name: opt_chars_view(a.name),
        path: opt_chars_view(a.path),
        icon: match a.icon {
            Some(x) => Some(opt_chars_view(x)),
            None => None,
        },
    }
}

#[verifier::rlimit(60)]
fn p_fields(s: &Vec<char>, i: usize, acc: FieldsAcc, fuel: u8) -> (r: Option<(Browser, usize)>)
    requires
        i <= s.len(),
    ensures
        match r {
            Some((b, j)) => i < j <= s@.len() && parse_fields(
                s@.skip(i as int),
                facc_view(acc),
                fuel as nat,
            ) == Some((b@, s@.skip(j as int))),
            None => parse_fields(s@.skip(i as int), facc_view(acc), fuel as nat) is None,
        },
    decreases fuel,
{
    let (kv, r1) = match p_string(s, i) {
        None => {
            return None;
        },
        Some(k) => k,
    };
    let t1 = w_skip(s, r1);
    if t1 == s.len() {
        return None;
    }
    proof {
        lemma_skip_step(s@, t1 as int);
    }
    if s[t1] != ':' {
        return None;
    }
    let r2 = t1 + 1;
    let nid = needle_id();
    let nname = needle_name();
    let npath = needle_path();
    let nicon = needle_icon();
    let step: Option<(FieldsAcc, usize)> = if chars_eq(&kv, &nid) {
        if acc.id.is_some() {
            None
        } else {
            match p_string(s, r2) {
                None => None,
                Some((v, r3)) => Some((FieldsAcc { id: Some(v), ..acc }, r3)),
            }
        }
    } else if chars_eq(&kv, &nname) {
        if acc.name.is_some() {
            None
        } else {
            match p_string(s, r2) {
                None => None,
                Some((v, r3)) => Some((FieldsAcc { name: Some(v), ..acc }, r3)),
            }
        }
    } else if chars_eq(&kv, &npath) {
        if acc.path.is_some() {
            None
        } else {
            match p_string(s, r2) {
                None => None,
                Some((v, r3)) => Some((FieldsAcc { path: Some(v), ..acc }, r3)),
            }
        }
    } else if chars_eq(&kv, &nicon) {
        if acc.icon.is_some() {
            None
        } else {
            match p_icon_val(s, r2) {
                None => None,
                Some((v, r3)) => Some((FieldsAcc { icon: Some(v), ..acc }, r3)),
            }
        }
    } else {
        None
    };
    match step {
        None => None,
        Some((acc2, r3)) => {
            let t2 = w_skip(s, r3);
            if t2 == s.len() {
                return None;
            }
            proof {
                lemma_skip_step(s@, t2 as int);
            }
            if s[t2] == ',' {
                if fuel > 0 {
                    p_fields(s, t2 + 1, acc2, fuel - 1)
                } else {
                    None
                }
            } else if s[t2] == '}' {
                match (acc2.id, acc2.name, acc2.path, acc2.icon) {
                    (Some(idv), Some(namev), Some(pathv), Some(iconv)) => {
                        let b = Browser {
                            id: string_of(&idv),
                            name: string_of(&namev),
                            path: string_of(&pathv),
                            icon: match iconv {
                                Some(x) => Some(string_of(&x)),
                                None => None,
                            },
                        };
                        Some((b, t2 + 1))
                    },
                    _ => None,
                }
            } else {
                None
            }
        },
    }
}

fn p_browser(s: &Vec<char>, i: usize) -> (r: Option<(Browser, usize)>)
    requires
        i <= s.len(),
    ensures
        match r {
            Some((b, j)) => i < j <= s@.len() && parse_browser(s@.skip(i as int)) == Some(
                (b@, s@.skip(j as int)),
            ),
            None => parse_browser(s@.skip(i as int)) is None,
        },
{
    let t = w_skip(s, i);
    if t == s.len() {
        return None;
    }
    proof {
        lemma_skip_step(s@, t as int);
    }
    if s[t] != '{' {
        return None;
    }
    let acc = FieldsAcc { id: None, name: None, path: None, icon: None };
    proof {
        assert(facc_view(acc) == no_fields());
    }
    p_fields(s, t + 1, acc, 3)
}

fn p_elems(s: &Vec<char>, i: usize) -> (r: Option<(Vec<Browser>, usize)>)
    requires
        i <= s.len(),
    ensures
        match r {
            Some((bs, j)) => i < j <= s@.len() && parse_elems(s@.skip(i as int)) == Some(
                (bseq_view(bs@), s@.skip(j as int)),
            ),
            None => parse_elems(s@.skip(i as int)) is None,
        },
    decreases s@.len() - i,
{
    match p_browser(s, i) {
        None => None,
        Some((b, rr)) => {
            let t = w_skip(s, rr);
            if t == s.len() {
                return None;
            }
            proof {
                lemma_skip_step(s@, t as int);
            }
            if s[t] == ',' {
                match p_elems(s, t + 1) {
                    None => None,
                    Some((mut bs, j2)) => {
                        let ghost bv = bs@;
                        bs.insert(0, b);
                        proof {
                            assert(bseq_view(bs@) =~= seq![b@] + bseq_view(bv));
                        }
                        Some((bs, j2))
                    },
                }
            } else if s[t] == ']' {
                let mut bs: Vec<Browser> = Vec::new();
                bs.push(b);
                proof {
                    assert(bseq_view(bs@) =~= seq![b@]);
                }
                Some((bs, t + 1))
            } else {
                None
            }
        },
    }
}

fn p_array(s: &Vec<char>, i: usize) -> (r: Option<(Vec<Browser>, usize)>)
    requires
        i <= s.len(),
    ensures
        match r {
            Some((bs, j)) => i < j <= s@.len() && parse_array(s@.skip(i as int)) == Some(
                (bseq_view(bs@), s@.skip(j as int)),
            ),
            None => parse_array(s@.skip(i as int)) is None,
        },
{
    let t = w_skip(s, i);
    if t == s.len() {
        return None;
    }
    proof {
        lemma_skip_step(s@, t as int);
    }
    if s[t] != '[' {
        return None;
    }
    let u = w_skip(s, t + 1);
    if u < s.len() {
        proof {
            lemma_skip_step(s@, u as int);
        }
        if s[u] == ']' {
            let bs: Vec<Browser> = Vec::new();
            proof {
                assert(bseq_view(bs@) =~= Seq::<BrowserV>::empty());
            }
            return Some((bs, u + 1));
        }
    }
    p_elems(s, t + 1)
}

/// Parses a configuration document. Malformed content is a `ParseError`.
pub fn parse_config(text: &str) -> (r: Result<Config, Error>)
    ensures
        match r {
            Ok(c) => parse_doc(text@) == Some(c@),
            Err(e) => parse_doc(text@) is None && e matches Error::ParseError(_),
        },
{
    let s = chars_of(text);
    proof {
        assert(s@.skip(0) =~= s@);
    }
    let t = w_skip(&s, 0);
    if t == s.len() {
        return Err(Error::ParseError(String::from_str("empty document")));
    }
    proof {
        lemma_skip_step(s@, t as int);
    }
    if s[t] != '{' {
        return Err(Error::ParseError(String::from_str("expected an object")));
    }
    match p_string(&s, t + 1) {
        None => Err(Error::ParseError(String::from_str("expected a member name"))),
        Some((key, r1)) => {
            let nb = needle_browsers();
            if !chars_eq(&key, &nb) {
                return Err(Error::ParseError(String::from_str("expected the browsers member")));
            }
            let u = w_skip(&s, r1);
            if u == s.len() {
                return Err(Error::ParseError(String::from_str("truncated document")));
            }
            proof {
                lemma_skip_step(s@, u as int);
            }
            if s[u] != ':' {
                return Err(Error::ParseError(String::from_str("expected a colon")));
            }
            match p_array(&s, u + 1) {
                None => Err(Error::ParseError(String::from_str("malformed browser array"))),
                Some((bs, r2)) => {
                    let v = w_skip(&s, r2);
                    if v == s.len() {
                        return Err(Error::ParseError(String::from_str("truncated document")));
                    }
                    proof {
                        lemma_skip_step(s@, v as int);
                    }
                    if s[v] != '}' {
                        return Err(Error::ParseError(String::from_str("expected a closing brace")));
                    }
                    let w = w_skip(&s, v + 1);
                    if w != s.len() {
                        return Err(Error::ParseError(String::from_str(
                            "unexpected trailing content",
                        )));
                    }
                    assert(s@.skip(w as int).len() == 0);
                    Ok(Config { browsers: bs })
                },
            }
        },
    }
}

} // verus!
