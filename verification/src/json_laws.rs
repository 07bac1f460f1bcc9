//! Round-trip law of the configuration codec: parsing the canonical
//! serialization of any document yields that document back.

use vstd::prelude::*;
use crate::json::{
    esc, esc_char, hex_digit, hex_val, is_ws, jicon, jstr, json_browser, json_browsers,
    json_config, k_browsers, k_icon, k_id, k_name, k_path, keycolon, ind4, nl2, nl6, null4,
    parse_array, parse_browser, parse_doc, parse_elems, parse_escape, parse_fields, parse_hex4,
    parse_icon_val, parse_str_body, parse_string, skip_ws, no_fields, FieldsV,
};
use crate::model::{BrowserV, ConfigV};

verus! {

pub open spec fn all_ws(p: Seq<char>) -> bool {
    forall|k: int| 0 <= k < p.len() ==> is_ws(#[trigger] p[k])
}

/// A character that is written as itself inside a JSON string.
pub open spec fn is_plain(c: char) -> bool {
    c != '"' && c != '\\' && (c as u32) >= 0x20
}

pub open spec fn all_plain(p: Seq<char>) -> bool {
    forall|k: int| 0 <= k < p.len() ==> is_plain(#[trigger] p[k])
}

/// Leading whitespace is skipped chunk by chunk.
pub proof fn lemma_skip_ws_all_ws(p: Seq<char>, s: Seq<char>)
    requires
        all_ws(p),
    ensures
        skip_ws(p + s) == skip_ws(s),
    decreases p.len(),
{
    if p.len() == 0 {
        assert(p + s =~= s);
    } else {
        assert((p + s)[0] == p[0]);
        assert((p + s).drop_first() =~= p.drop_first() + s);
        assert(all_ws(p.drop_first())) by {
            assert(forall|k: int|
                0 <= k < p.drop_first().len() ==> p.drop_first()[k] == #[trigger] p[k + 1]);
        }
        lemma_skip_ws_all_ws(p.drop_first(), s);
    }
}

pub proof fn lemma_skip_ws_len(s: Seq<char>)
    ensures
        skip_ws(s).len() <= s.len(),
    decreases s.len(),
{
    if s.len() > 0 && is_ws(s[0]) {
        lemma_skip_ws_len(s.drop_first());
    }
}

/// Escaping is the identity on plain characters.
pub proof fn lemma_esc_all_plain(x: Seq<char>)
    requires
        all_plain(x),
    ensures
        esc(x) == x,
    decreases x.len(),
{
    if x.len() == 0 {
        assert(esc(x) =~= x);
    } else {
        assert(is_plain(x[0]));
        assert(esc_char(x[0]) =~= seq![x[0]]);
        assert(all_plain(x.drop_first())) by {
            assert(forall|k: int|
                0 <= k < x.drop_first().len() ==> x.drop_first()[k] == #[trigger] x[k + 1]);
        }
        lemma_esc_all_plain(x.drop_first());
        assert(esc(x) =~= x);
    }
}

/// Decoding a hexadecimal digit undoes encoding it.
pub proof fn lemma_hex_digit_val(d: int)
    requires
        0 <= d < 16,
    ensures
        hex_val(hex_digit(d)) == Some(d),
{
}

/// The body of a serialized string parses back to its characters.
#[verifier::rlimit(100)]
pub proof fn lemma_str_body_rt(x: Seq<char>, rest: Seq<char>)
    ensures
        parse_str_body(esc(x) + (seq!['"'] + rest)) == Some((x, rest)),
    decreases x.len(),
{
    if x.len() == 0 {
        assert(esc(x) + (seq!['"'] + rest) =~= seq!['"'] + rest);
        let s = seq!['"'] + rest;
        assert(s[0] == '"');
        assert(s.drop_first() =~= rest);
    } else {
        let c = x[0];
        let t = esc(x.drop_first()) + (seq!['"'] + rest);
        let s = esc(x) + (seq!['"'] + rest);
        assert(s =~= esc_char(c) + t);
        lemma_str_body_rt(x.drop_first(), rest);
        if c == '"' || c == '\\' {
            let e = if c == '"' { '"' } else { '\\' };
            assert(esc_char(c) =~= seq!['\\', e]);
            assert(s[0] == '\\');
            assert(s.drop_first() =~= seq![e] + t);
            assert((seq![e] + t)[0] == e);
            assert((seq![e] + t).drop_first() =~= t);
            assert(parse_escape(s.drop_first()) == Some((c, t)));
            assert(t.len() < s.len());
            assert(seq![c] + x.drop_first() =~= x);
        } else if c == '\u{0008}' || c == '\u{0009}' || c == '\u{000A}' || c == '\u{000C}' || c
            == '\u{000D}' {
            let e = if c == '\u{0008}' {
                'b'
            } else if c == '\u{0009}' {
                't'
            } else if c == '\u{000A}' {
                'n'
            } else if c == '\u{000C}' {
                'f'
            } else {
                'r'
            };
            assert(esc_char(c) =~= seq!['\\', e]);
            assert(s[0] == '\\');
            assert(s.drop_first() =~= seq![e] + t);
            assert((seq![e] + t)[0] == e);
            assert((seq![e] + t).drop_first() =~= t);
            assert(parse_escape(s.drop_first()) == Some((c, t)));
            assert(t.len() < s.len());
            assert(seq![c] + x.drop_first() =~= x);
        } else if (c as u32) < 0x20 {
            let u = c as u32 as int;
            let hi = u / 16;
            let lo = u % 16;
            vstd::arithmetic::div_mod::lemma_fundamental_div_mod(u, 16);
            assert(0 <= hi < 16 && 0 <= lo < 16);
            lemma_hex_digit_val(hi);
            lemma_hex_digit_val(lo);
            assert(esc_char(c) =~= seq!['\\', 'u', '0', '0', hex_digit(hi), hex_digit(lo)]);
            assert(s[0] == '\\');
            let body = seq!['u', '0', '0', hex_digit(hi), hex_digit(lo)] + t;
            assert(s.drop_first() =~= body);
            assert(body[0] == 'u');
            let four = seq!['0', '0', hex_digit(hi), hex_digit(lo)] + t;
            assert(body.skip(1) =~= four);
            assert(four[0] == '0' && four[1] == '0' && four[2] == hex_digit(hi) && four[3]
                == hex_digit(lo));
            assert(hex_val('0') == Some(0int));
            assert(parse_hex4(four) == Some(0 * 4096 + 0 * 256 + hi * 16 + lo));
            assert(hi * 16 + lo == u);
            assert(0 <= u < 0x20);
            assert(body.skip(5) =~= t);
            vstd::utf8::char_u32_cast(c, c as u32);
            assert((u as u32 as char) == c);
            assert(parse_escape(body) == Some((c, t)));
            assert(t.len() < s.len());
            assert(seq![c] + x.drop_first() =~= x);
        } else {
            assert(esc_char(c) =~= seq![c]);
            assert(s[0] == c);
            assert(s.drop_first() =~= t);
            assert(seq![c] + x.drop_first() =~= x);
        }
    }
}

/// A key and its colon parse as one string token followed by `: `.
pub proof fn lemma_key_rt(pre: Seq<char>, k: Seq<char>, tail: Seq<char>)
    requires
        all_ws(pre),
        all_plain(k),
    ensures
        parse_string(pre + keycolon(k) + tail) == Some((k, seq![':', ' '] + tail)),
{
    lemma_esc_all_plain(k);
    let body = esc(k) + (seq!['"'] + (seq![':', ' '] + tail));
    assert(pre + keycolon(k) + tail =~= pre + (seq!['"'] + body));
    lemma_skip_ws_all_ws(pre, seq!['"'] + body);
    let t = seq!['"'] + body;
    assert(!is_ws(t[0]));
    assert(skip_ws(t) == t);
    assert(t.drop_first() =~= body);
    lemma_str_body_rt(k, seq![':', ' '] + tail);
}

/// A serialized string value after `: ` parses back.
pub proof fn lemma_value_rt(v: Seq<char>, tail: Seq<char>)
    ensures
        parse_string(seq![' '] + (jstr(v) + tail)) == Some((v, tail)),
{
    let body = esc(v) + (seq!['"'] + tail);
    assert(seq![' '] + (jstr(v) + tail) =~= seq![' '] + (seq!['"'] + body));
    lemma_skip_ws_all_ws(seq![' '], seq!['"'] + body);
    assert(all_ws(seq![' ']));
    let t = seq!['"'] + body;
    assert(!is_ws(t[0]));
    assert(t.drop_first() =~= body);
    lemma_str_body_rt(v, tail);
}

/// A serialized icon value after `: ` parses back.
pub proof fn lemma_icon_rt(icon: Option<Seq<char>>, tail: Seq<char>)
    ensures
        parse_icon_val(seq![' '] + (jicon(icon) + tail)) == Some((icon, tail)),
{
    match icon {
        Some(v) => {
            let body = esc(v) + (seq!['"'] + tail);
            assert(seq![' '] + (jicon(icon) + tail) =~= seq![' '] + (seq!['"'] + body));
            lemma_skip_ws_all_ws(seq![' '], seq!['"'] + body);
            assert(all_ws(seq![' ']));
            let t = seq!['"'] + body;
            assert(!is_ws(t[0]));
            assert(t.drop_first() =~= body);
            lemma_str_body_rt(v, tail);
        },
        None => {
            let t = null4() + tail;
            assert(seq![' '] + (jicon(icon) + tail) =~= seq![' '] + t);
            lemma_skip_ws_all_ws(seq![' '], t);
            assert(all_ws(seq![' ']));
            assert(!is_ws(t[0]));
            assert(t[0] == 'n' && t[1] == 'u' && t[2] == 'l' && t[3] == 'l');
            assert(t.len() >= 4);
            assert(t.skip(4) =~= tail);
        },
    }
}

pub proof fn lemma_keys_distinct()
    ensures
        k_id() != k_name(),
        k_id() != k_path(),
        k_id() != k_icon(),
        k_name() != k_path(),
        k_name() != k_icon(),
        k_path() != k_icon(),
        all_plain(k_id()),
        all_plain(k_name()),
        all_plain(k_path()),
        all_plain(k_icon()),
        all_plain(k_browsers()),
{
    assert(k_id().len() == 2 && k_name().len() == 4 && k_path().len() == 4 && k_icon().len() == 4
        && k_browsers().len() == 8);
    assert(k_name()[0] == 'n' && k_path()[0] == 'p' && k_icon()[0] == 'i');
    assert(all_plain(k_id())) by {
        assert forall|k: int| 0 <= k < k_id().len() implies is_plain(#[trigger] k_id()[k]) by {
            if k == 0 {
            } else {
                assert(k == 1);
            }
        }
    }
    assert(all_plain(k_name())) by {
        assert forall|k: int| 0 <= k < k_name().len() implies is_plain(#[trigger] k_name()[k]) by {
            if k == 0 {
            } else if k == 1 {
            } else if k == 2 {
            } else {
                assert(k == 3);
            }
        }
    }
    assert(all_plain(k_path())) by {
        assert forall|k: int| 0 <= k < k_path().len() implies is_plain(#[trigger] k_path()[k]) by {
            if k == 0 {
            } else if k == 1 {
            } else if k == 2 {
            } else {
                assert(k == 3);
            }
        }
    }
    assert(all_plain(k_icon())) by {
        assert forall|k: int| 0 <= k < k_icon().len() implies is_plain(#[trigger] k_icon()[k]) by {
            if k == 0 {
            } else if k == 1 {
            } else if k == 2 {
            } else {
                assert(k == 3);
            }
        }
    }
    assert(all_plain(k_browsers())) by {
        assert forall|k: int| 0 <= k < k_browsers().len() implies is_plain(
            #[trigger] k_browsers()[k],
        ) by {
            if k == 0 {
            } else if k == 1 {
            } else if k == 2 {
            } else if k == 3 {
            } else if k == 4 {
            } else if k == 5 {
            } else if k == 6 {
            } else {
                assert(k == 7);
            }
        }
    }
}

pub proof fn lemma_ws_chunks()
    ensures
        all_ws(ind4()),
        all_ws(nl6()),
        all_ws(nl2()),
        all_ws(seq![' ']),
        all_ws(seq!['\n']),
        all_ws(seq!['\n', ' ', ' ', ' ', ' ']),
        all_ws(seq!['\n', ' ', ' ']),
{
    assert(all_ws(ind4())) by {
        assert forall|k: int| 0 <= k < ind4().len() implies is_ws(#[trigger] ind4()[k]) by {
            if k == 0 {
            } else if k == 1 {
            } else if k == 2 {
            } else {
                assert(k == 3);
            }
        }
    }
    assert(all_ws(nl6())) by {
        assert forall|k: int| 0 <= k < nl6().len() implies is_ws(#[trigger] nl6()[k]) by {
            if k == 0 {
            } else if k == 1 {
            } else if k == 2 {
            } else if k == 3 {
            } else if k == 4 {
            } else if k == 5 {
            } else {
                assert(k == 6);
            }
        }
    }
    assert(all_ws(nl2())) by {
        assert forall|k: int| 0 <= k < nl2().len() implies is_ws(#[trigger] nl2()[k]) by {
            if k == 0 {
            } else if k == 1 {
            } else {
                assert(k == 2);
            }
        }
    }
    let sp = seq![' '];
    assert(all_ws(sp)) by {
        assert forall|k: int| 0 <= k < sp.len() implies is_ws(#[trigger] sp[k]) by {
            assert(k == 0);
        }
    }
    let nl = seq!['\n'];
    assert(all_ws(nl)) by {
        assert forall|k: int| 0 <= k < nl.len() implies is_ws(#[trigger] nl[k]) by {
            assert(k == 0);
        }
    }
    let nl4 = seq!['\n', ' ', ' ', ' ', ' '];
    assert(all_ws(nl4)) by {
        assert forall|k: int| 0 <= k < nl4.len() implies is_ws(#[trigger] nl4[k]) by {
            if k == 0 {
            } else if k == 1 {
            } else if k == 2 {
            } else if k == 3 {
            } else {
                assert(k == 4);
            }
        }
    }
    let nl2b = seq!['\n', ' ', ' '];
    assert(all_ws(nl2b)) by {
        assert forall|k: int| 0 <= k < nl2b.len() implies is_ws(#[trigger] nl2b[k]) by {
            if k == 0 {
            } else if k == 1 {
            } else {
                assert(k == 2);
            }
        }
    }
}

/// Concatenated whitespace chunks are whitespace.
pub proof fn lemma_all_ws_concat(a: Seq<char>, b: Seq<char>)
    requires
        all_ws(a),
        all_ws(b),
    ensures
        all_ws(a + b),
{
    assert forall|k: int| 0 <= k < (a + b).len() implies is_ws(#[trigger] (a + b)[k]) by {
        if k < a.len() {
            assert((a + b)[k] == a[k]);
        } else {
            assert((a + b)[k] == b[k - a.len()]);
        }
    }
}

/// A serialized browser entry parses back, whatever whitespace precedes it
/// and whatever follows it.
#[verifier::rlimit(100)]
pub proof fn lemma_browser_rt(b: BrowserV, pre: Seq<char>, r: Seq<char>)
    requires
        all_ws(pre),
    ensures
        parse_browser(pre + json_browser(b) + r) == Some((b, r)),
        skip_ws(pre + json_browser(b) + r).len() > 0,
        skip_ws(pre + json_browser(b) + r)[0] == '{',
{
    lemma_keys_distinct();
    lemma_ws_chunks();
    let s = pre + json_browser(b) + r;
    let t4 = seq!['\n', ' ', ' ', ' ', ' ', '}'] + r;
    let f4 = nl6() + keycolon(k_icon()) + (jicon(b.icon) + t4);
    let t3 = seq![','] + f4;
    let f3 = nl6() + keycolon(k_path()) + (jstr(b.path) + t3);
    let t2 = seq![','] + f3;
    let f2 = nl6() + keycolon(k_name()) + (jstr(b.name) + t2);
    let t1 = seq![','] + f2;
    let f1 = nl6() + keycolon(k_id()) + (jstr(b.id) + t1);
    assert(s =~= (pre + ind4()) + (seq!['{'] + f1));
    lemma_all_ws_concat(pre, ind4());
    lemma_skip_ws_all_ws(pre + ind4(), seq!['{'] + f1);
    let t = seq!['{'] + f1;
    assert(!is_ws(t[0]));
    assert(skip_ws(s) == t);
    assert(t.drop_first() =~= f1);
    let acc0 = no_fields();
    // field `id`
    lemma_key_rt(nl6(), k_id(), jstr(b.id) + t1);
    let c1 = seq![':', ' '] + (jstr(b.id) + t1);
    assert(!is_ws(c1[0]));
    assert(skip_ws(c1) == c1);
    assert(c1[0] == ':');
    assert(c1.drop_first() =~= seq![' '] + (jstr(b.id) + t1));
    lemma_value_rt(b.id, t1);
    let acc1 = FieldsV { id: Some(b.id), ..acc0 };
    assert(!is_ws(t1[0]));
    assert(skip_ws(t1) == t1);
    assert(t1[0] == ',');
    assert(t1.drop_first() =~= f2);
    assert(parse_fields(f1, acc0, 3) == parse_fields(f2, acc1, 2));
    // field `name`
    lemma_key_rt(nl6(), k_name(), jstr(b.name) + t2);
    let c2 = seq![':', ' '] + (jstr(b.name) + t2);
    assert(!is_ws(c2[0]));
    assert(skip_ws(c2) == c2);
    assert(c2.drop_first() =~= seq![' '] + (jstr(b.name) + t2));
    lemma_value_rt(b.name, t2);
    let acc2 = FieldsV { name: Some(b.name), ..acc1 };
    assert(!is_ws(t2[0]));
    assert(skip_ws(t2) == t2);
    assert(t2.drop_first() =~= f3);
    assert(parse_fields(f2, acc1, 2) == parse_fields(f3, acc2, 1));
    // field `path`
    lemma_key_rt(nl6(), k_path(), jstr(b.path) + t3);
    let c3 = seq![':', ' '] + (jstr(b.path) + t3);
    assert(!is_ws(c3[0]));
    assert(skip_ws(c3) == c3);
    assert(c3.drop_first() =~= seq![' '] + (jstr(b.path) + t3));
    lemma_value_rt(b.path, t3);
    let acc3 = FieldsV { path: Some(b.path), ..acc2 };
    assert(!is_ws(t3[0]));
    assert(skip_ws(t3) == t3);
    assert(t3.drop_first() =~= f4);
    assert(parse_fields(f3, acc2, 1) == parse_fields(f4, acc3, 0));
    // field `icon`
    lemma_key_rt(nl6(), k_icon(), jicon(b.icon) + t4);
    let c4 = seq![':', ' '] + (jicon(b.icon) + t4);
    assert(!is_ws(c4[0]));
    assert(skip_ws(c4) == c4);
    assert(c4.drop_first() =~= seq![' '] + (jicon(b.icon) + t4));
    lemma_icon_rt(b.icon, t4);
    assert(t4 =~= seq!['\n', ' ', ' ', ' ', ' '] + (seq!['}'] + r));
    lemma_skip_ws_all_ws(seq!['\n', ' ', ' ', ' ', ' '], seq!['}'] + r);
    let e = seq!['}'] + r;
    assert(!is_ws(e[0]));
    assert(skip_ws(t4) == e);
    assert(e[0] == '}');
    assert(e.drop_first() =~= r);
    assert(parse_fields(f4, acc3, 0) == Some(
        (BrowserV { id: b.id, name: b.name, path: b.path, icon: b.icon }, r),
    ));
    assert(BrowserV { id: b.id, name: b.name, path: b.path, icon: b.icon } == b);
}

/// One or more serialized entries parse back, up to the closing bracket
/// found after them.
pub proof fn lemma_elems_rt(bs: Seq<BrowserV>, pre: Seq<char>, rest: Seq<char>)
    requires
        bs.len() >= 1,
        all_ws(pre),
        skip_ws(rest).len() > 0,
        skip_ws(rest)[0] == ']',
    ensures
        parse_elems(pre + json_browsers(bs) + rest) == Some((bs, skip_ws(rest).drop_first())),
        skip_ws(pre + json_browsers(bs) + rest).len() > 0,
        skip_ws(pre + json_browsers(bs) + rest)[0] == '{',
    decreases bs.len(),
{
    let s = pre + json_browsers(bs) + rest;
    if bs.len() == 1 {
        assert(json_browsers(bs) == json_browser(bs[0]));
        lemma_browser_rt(bs[0], pre, rest);
        let t = skip_ws(rest);
        lemma_skip_ws_len(rest);
        assert(rest.len() <= s.len());
        assert(seq![bs[0]] =~= bs);
    } else {
        let r1 = seq![',', '\n'] + (json_browsers(bs.drop_first()) + rest);
        assert(s =~= pre + json_browser(bs[0]) + r1);
        lemma_browser_rt(bs[0], pre, r1);
        assert(!is_ws(r1[0]));
        assert(skip_ws(r1) == r1);
        assert(r1.len() <= s.len());
        assert(r1[0] == ',');
        assert(r1.drop_first() =~= seq!['\n'] + json_browsers(bs.drop_first()) + rest);
        lemma_ws_chunks();
        lemma_elems_rt(bs.drop_first(), seq!['\n'], rest);
        assert(seq![bs[0]] + bs.drop_first() =~= bs);
    }
}

/// Round trip: parsing the canonical serialization of any configuration
/// document yields exactly that document, entry order and fields preserved.
#[verifier::rlimit(100)]
pub proof fn lemma_save_load_round_trip(c: ConfigV)
    ensures
        parse_doc(json_config(c)) == Some(c),
{
    lemma_keys_distinct();
    lemma_ws_chunks();
    let s = json_config(c);
    let nlb = seq!['\n', '}'];
    let mid = if c.browsers.len() == 0 {
        seq![']']
    } else {
        seq!['\n'] + json_browsers(c.browsers) + seq!['\n', ' ', ' ', ']']
    };
    let f = nl2() + keycolon(k_browsers()) + (seq!['['] + (mid + nlb));
    assert(s =~= seq!['{'] + f);
    let t = seq!['{'] + f;
    assert(!is_ws(t[0]));
    assert(skip_ws(s) == skip_ws(t));
    assert(skip_ws(t) == t);
    assert(t.drop_first() =~= f);
    lemma_key_rt(nl2(), k_browsers(), seq!['['] + (mid + nlb));
    let u0 = seq![':', ' '] + (seq!['['] + (mid + nlb));
    assert(!is_ws(u0[0]));
    assert(skip_ws(u0) == u0);
    assert(u0[0] == ':');
    assert(u0.drop_first() =~= seq![' '] + (seq!['['] + (mid + nlb)));
    // the array
    let a0 = seq![' '] + (seq!['['] + (mid + nlb));
    lemma_skip_ws_all_ws(seq![' '], seq!['['] + (mid + nlb));
    let a1 = seq!['['] + (mid + nlb);
    assert(!is_ws(a1[0]));
    assert(skip_ws(a0) == a1);
    assert(a1[0] == '[');
    assert(a1.drop_first() =~= mid + nlb);
    if c.browsers.len() == 0 {
        let e = mid + nlb;
        assert(e =~= seq![']', '\n', '}']);
        assert(!is_ws(e[0]));
        assert(skip_ws(e) == e);
        assert(e[0] == ']');
        assert(parse_array(a0) == Some((Seq::<BrowserV>::empty(), e.drop_first())));
        assert(Seq::<BrowserV>::empty() =~= c.browsers);
        let v0 = e.drop_first();
        assert(v0 =~= seq!['\n', '}']);
        assert(skip_ws(v0) == skip_ws(seq!['}'] + Seq::<char>::empty())) by {
            assert(v0 =~= seq!['\n'] + (seq!['}'] + Seq::<char>::empty()));
            lemma_skip_ws_all_ws(seq!['\n'], seq!['}'] + Seq::<char>::empty());
        }
        let w = seq!['}'] + Seq::<char>::empty();
        assert(!is_ws(w[0]));
        assert(skip_ws(w) == w);
        assert(w[0] == '}');
        assert(w.drop_first() =~= Seq::<char>::empty());
        assert(skip_ws(w.drop_first()).len() == 0);
    } else {
        let rest9 = seq!['\n', ' ', ' ', ']'] + nlb;
        assert(mid + nlb =~= seq!['\n'] + json_browsers(c.browsers) + rest9);
        assert(skip_ws(rest9) == seq![']'] + nlb) by {
            assert(rest9 =~= seq!['\n', ' ', ' '] + (seq![']'] + nlb));
            lemma_skip_ws_all_ws(seq!['\n', ' ', ' '], seq![']'] + nlb);
            assert(!is_ws((seq![']'] + nlb)[0]));
        }
        assert((seq![']'] + nlb)[0] == ']');
        assert((seq![']'] + nlb).len() > 0);
        lemma_elems_rt(c.browsers, seq!['\n'], rest9);
        let arr_in = mid + nlb;
        assert(skip_ws(arr_in)[0] == '{');
        assert(parse_elems(arr_in) == Some((c.browsers, (seq![']'] + nlb).drop_first())));
        assert((seq![']'] + nlb).drop_first() =~= nlb);
        assert(parse_array(a0) == Some((c.browsers, nlb)));
        assert(skip_ws(nlb) == skip_ws(seq!['}'] + Seq::<char>::empty())) by {
            assert(nlb =~= seq!['\n'] + (seq!['}'] + Seq::<char>::empty()));
            lemma_skip_ws_all_ws(seq!['\n'], seq!['}'] + Seq::<char>::empty());
        }
        let w = seq!['}'] + Seq::<char>::empty();
        assert(!is_ws(w[0]));
        assert(skip_ws(w) == w);
        assert(w[0] == '}');
        assert(w.drop_first() =~= Seq::<char>::empty());
        assert(skip_ws(w.drop_first()).len() == 0);
    }
    assert(ConfigV { browsers: c.browsers } == c);
}

} // verus!
