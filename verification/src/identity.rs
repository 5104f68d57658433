use vstd::prelude::*;

use crate::errors::VaultError;
use crate::text::{char_from_code, chars_of, has_prefix, push_str_chars, string_from_chars};

verus! {

// The binding file holds one JSON object with the single member "id". The
// writer emits the canonical text; the reader accepts the JSON grammar
// around it: insignificant whitespace, the full set of JSON string escapes,
// and a bare integer id, which reads verbatim.

pub open spec fn is_json_ws(c: char) -> bool {
    c == ' ' || c == '\t' || c == '\n' || c == '\r'
}

/// Drops every leading insignificant-whitespace character.
pub open spec fn skip_ws(s: Seq<char>) -> Seq<char>
    decreases s.len(),
{
    if s.len() > 0 && is_json_ws(s[0]) {
        skip_ws(s.drop_first())
    } else {
        s
    }
}

pub open spec fn is_hex_digit(c: char) -> bool {
    ('0' <= c <= '9') || ('a' <= c <= 'f') || ('A' <= c <= 'F')
}

pub open spec fn hex_val(c: char) -> int {
    if '0' <= c <= '9' {
        c as int - '0' as int
    } else if 'a' <= c <= 'f' {
        c as int - 'a' as int + 10
    } else {
        c as int - 'A' as int + 10
    }
}

pub open spec fn hex4_ok(s: Seq<char>, at: int) -> bool {
    &&& at + 4 <= s.len()
    &&& is_hex_digit(s[at])
    &&& is_hex_digit(s[at + 1])
    &&& is_hex_digit(s[at + 2])
    &&& is_hex_digit(s[at + 3])
}

pub open spec fn hex4_val(s: Seq<char>, at: int) -> int {
    hex_val(s[at]) * 0x1000 + hex_val(s[at + 1]) * 0x100 + hex_val(s[at + 2]) * 0x10 + hex_val(
        s[at + 3],
    )
}

pub open spec fn cons_parsed(c: char, r: Option<(Seq<char>, Seq<char>)>) -> Option<
    (Seq<char>, Seq<char>),
> {
    match r {
        None => None,
        Some(p) => Some((seq![c] + p.0, p.1)),
    }
}

/// A JSON string body after its opening quote: the decoded characters and
/// what follows the closing quote. Every JSON escape is decoded, a surrogate
/// pair as one character; a raw control character, a lone surrogate, an
/// unknown escape or a missing closing quote is a parse failure.
pub open spec fn parse_string_body(s: Seq<char>) -> Option<(Seq<char>, Seq<char>)>
    decreases s.len(),
{
    if s.len() == 0 {
        None
    } else if s[0] == '"' {
        Some((Seq::empty(), s.drop_first()))
    } else if s[0] == '\\' {
        if s.len() >= 2 {
            let e = s[1];
            if e == '"' || e == '\\' || e == '/' {
                cons_parsed(e, parse_string_body(s.subrange(2, s.len() as int)))
            } else if e == 'b' {
                cons_parsed(8 as char, parse_string_body(s.subrange(2, s.len() as int)))
            } else if e == 'f' {
                cons_parsed(12 as char, parse_string_body(s.subrange(2, s.len() as int)))
            } else if e == 'n' {
                cons_parsed('\n', parse_string_body(s.subrange(2, s.len() as int)))
            } else if e == 'r' {
                cons_parsed('\r', parse_string_body(s.subrange(2, s.len() as int)))
            } else if e == 't' {
                cons_parsed('\t', parse_string_body(s.subrange(2, s.len() as int)))
            } else if e == 'u' {
                if hex4_ok(s, 2) {
                    let n = hex4_val(s, 2);
                    if 0xD800 <= n < 0xDC00 {
                        if s.len() >= 12 && s[6] == '\\' && s[7] == 'u' && hex4_ok(s, 8) {
                            let m = hex4_val(s, 8);
                            if 0xDC00 <= m < 0xE000 {
                                cons_parsed(
                                    (0x10000 + (n - 0xD800) * 0x400 + (m - 0xDC00)) as char,
                                    parse_string_body(s.subrange(12, s.len() as int)),
                                )
                            } else {
                                None
                            }
                        } else {
                            None
                        }
                    } else if 0xDC00 <= n < 0xE000 {
                        None
                    } else {
                        cons_parsed(n as char, parse_string_body(s.subrange(6, s.len() as int)))
                    }
                } else {
                    None
                }
            } else {
                None
            }
        } else {
            None
        }
    } else if (s[0] as u32) < 0x20 {
        None
    } else {
        cons_parsed(s[0], parse_string_body(s.drop_first()))
    }
}

/// How many decimal digits open the sequence.
pub open spec fn digit_run(s: Seq<char>) -> int
    decreases s.len(),
{
    if s.len() > 0 && '0' <= s[0] <= '9' {
        1 + digit_run(s.drop_first())
    } else {
        0
    }
}

/// A bare integer id, kept verbatim: an optional minus sign and at least one
/// digit.
pub open spec fn parse_number_value(s: Seq<char>) -> Option<(Seq<char>, Seq<char>)> {
    let neg = s.len() > 0 && s[0] == '-';
    let t = if neg {
        s.drop_first()
    } else {
        s
    };
    let k = digit_run(t);
    if k == 0 {
        None
    } else {
        let tok = if neg {
            seq!['-'] + t.subrange(0, k)
        } else {
            t.subrange(0, k)
        };
        Some((tok, t.subrange(k, t.len() as int)))
    }
}

/// The id member's value: a JSON string, or a bare integer read verbatim.
/// Anything else (null among it) yields no id.
pub open spec fn parse_id_value(s: Seq<char>) -> Option<(Seq<char>, Seq<char>)> {
    if s.len() > 0 && s[0] == '"' {
        parse_string_body(s.drop_first())
    } else {
        parse_number_value(s)
    }
}

pub open spec fn key_lit() -> Seq<char> {
    seq!['"', 'i', 'd', '"']
}

/// The key id a binding record holds: one JSON object whose single member
/// "id" carries it, with whitespace tolerated everywhere the JSON grammar
/// allows it and every JSON string escape decoded. Nothing when no id can
/// be extracted. Narrower than full JSON on purpose: only the record this
/// vault itself writes is read back, so an object with further members or
/// an id of another kind (a boolean, a float, an array) reads as an
/// uninitialized vault, while everything the writer produces round trips.
pub open spec fn parse_binding_model(s: Seq<char>) -> Option<Seq<char>> {
    let a = skip_ws(s);
    if a.len() > 0 && a[0] == '{' {
        let b = skip_ws(a.drop_first());
        if has_prefix(b, key_lit()) {
            let c = skip_ws(b.subrange(4, b.len() as int));
            if c.len() > 0 && c[0] == ':' {
                let d = skip_ws(c.drop_first());
                match parse_id_value(d) {
                    None => None,
                    Some(p) => {
                        let e = skip_ws(p.1);
                        if e.len() > 0 && e[0] == '}' && skip_ws(e.drop_first()).len() == 0 {
                            Some(p.0)
                        } else {
                            None
                        }
                    },
                }
            } else {
                None
            }
        } else {
            None
        }
    } else {
        None
    }
}

// The writer's canonical form.

pub open spec fn hex_digit_char(n: int) -> char {
    if n < 10 {
        ('0' as int + n) as char
    } else {
        ('a' as int + n - 10) as char
    }
}

pub open spec fn escape_char(c: char) -> Seq<char> {
    if c == '"' || c == '\\' {
        seq!['\\', c]
    } else if (c as u32) < 0x20 {
        seq![
            '\\',
            'u',
            '0',
            '0',
            hex_digit_char(((c as u32) / 16) as int),
            hex_digit_char(((c as u32) % 16) as int),
        ]
    } else {
        seq![c]
    }
}

pub open spec fn escape_id(s: Seq<char>) -> Seq<char>
    decreases s.len(),
{
    if s.len() == 0 {
        Seq::empty()
    } else {
        escape_char(s[0]) + escape_id(s.drop_first())
    }
}

pub open spec fn binding_prefix() -> Seq<char> {
    seq!['{', '"', 'i', 'd', '"', ':', '"']
}

pub open spec fn binding_suffix() -> Seq<char> {
    seq!['"', '}']
}

pub open spec fn serialized_binding(id: Seq<char>) -> Seq<char> {
    binding_prefix() + escape_id(id) + binding_suffix()
}

// Round trip: reading back the canonical form yields the id, whatever
// characters it holds.

proof fn lemma_escape_snoc(s: Seq<char>, c: char)
    ensures
        escape_id(s.push(c)) == escape_id(s) + escape_char(c),
    decreases s.len(),
{
    if s.len() == 0 {
        assert(s.push(c)[0] == c);
        assert(s.push(c).drop_first() =~= Seq::<char>::empty());
        assert(escape_id(Seq::<char>::empty()) =~= Seq::<char>::empty());
        assert(escape_id(s.push(c)) =~= escape_char(c) + Seq::<char>::empty());
        assert(escape_id(s) =~= Seq::<char>::empty());
        assert(escape_id(s.push(c)) =~= escape_id(s) + escape_char(c));
    } else {
        assert(s.push(c)[0] == s[0]);
        assert(s.push(c).drop_first() =~= s.drop_first().push(c));
        lemma_escape_snoc(s.drop_first(), c);
        assert(escape_id(s.push(c)) == escape_char(s[0]) + (escape_id(s.drop_first())
            + escape_char(c)));
        assert(escape_char(s[0]) + (escape_id(s.drop_first()) + escape_char(c)) =~= (escape_char(
            s[0],
        ) + escape_id(s.drop_first())) + escape_char(c));
    }
}

proof fn lemma_hex_digit_char(n: int)
    requires
        0 <= n < 16,
    ensures
        is_hex_digit(hex_digit_char(n)),
        hex_val(hex_digit_char(n)) == n,
{
    if n < 10 {
        assert(('0' as int + n) as char as int == '0' as int + n);
    } else {
        assert(('a' as int + n - 10) as char as int == 'a' as int + n - 10);
    }
}

#[verifier::rlimit(60)]
proof fn lemma_parse_string_escape(id: Seq<char>, r: Seq<char>)
    ensures
        parse_string_body(escape_id(id) + seq!['"'] + r) == Some((id, r)),
    decreases id.len(),
{
    let s = escape_id(id) + seq!['"'] + r;
    if id.len() == 0 {
        assert(escape_id(id) =~= Seq::<char>::empty());
        assert(s =~= seq!['"'] + r);
        assert(s[0] == '"');
        assert(s.drop_first() =~= r);
        assert(id =~= Seq::<char>::empty());
    } else {
        let c = id[0];
        let rest = id.drop_first();
        lemma_parse_string_escape(rest, r);
        let tail = escape_id(rest) + seq!['"'] + r;
        assert(escape_id(id) == escape_char(c) + escape_id(rest));
        if c == '"' || c == '\\' {
            assert(s =~= seq!['\\', c] + tail);
            assert(s[0] == '\\' && s[1] == c);
            assert(s.subrange(2, s.len() as int) =~= tail);
            assert(seq![c] + rest =~= id);
        } else if (c as u32) < 0x20 {
            let cv = (c as u32) as int;
            let hi = hex_digit_char(((c as u32) / 16) as int);
            let lo = hex_digit_char(((c as u32) % 16) as int);
            assert(s =~= seq!['\\', 'u', '0', '0', hi, lo] + tail);
            assert(s[0] == '\\' && s[1] == 'u');
            assert(s[2] == '0' && s[3] == '0' && s[4] == hi && s[5] == lo);
            assert(0 <= cv && cv < 0x20);
            assert(((c as u32) / 16) as int == cv / 16);
            assert(((c as u32) % 16) as int == cv % 16);
            assert(0 <= cv / 16 && cv / 16 < 16);
            assert(0 <= cv % 16 && cv % 16 < 16);
            lemma_hex_digit_char(cv / 16);
            lemma_hex_digit_char(cv % 16);
            assert(hex_val('0') == 0);
            assert(hex4_ok(s, 2));
            assert(hex4_val(s, 2) == (cv / 16) * 0x10 + cv % 16);
            assert(hex4_val(s, 2) == cv);
            assert(cv as char == c) by {
                vstd::utf8::char_u32_cast(c, c as u32);
            }
            assert(s.subrange(6, s.len() as int) =~= tail);
            assert(seq![c] + rest =~= id);
        } else {
            assert(s =~= seq![c] + tail);
            assert(s[0] == c);
            assert(s[0] != '"' && s[0] != '\\');
            assert(!((s[0] as u32) < 0x20));
            assert(s.drop_first() =~= tail);
            assert(seq![c] + rest =~= id);
        }
    }
}

/// Writing a binding and reading it back yields the same key id, whatever
/// characters the id holds.
pub proof fn lemma_binding_round_trip(id: Seq<char>)
    ensures
        parse_binding_model(serialized_binding(id)) == Some(id),
{
    let s = serialized_binding(id);
    assert(s[0] == '{');
    assert(!is_json_ws('{'));
    assert(skip_ws(s) == s);
    let b0 = s.drop_first();
    assert(b0[0] == '"');
    assert(skip_ws(b0) == b0);
    assert(b0.subrange(0, 4) =~= key_lit());
    assert(has_prefix(b0, key_lit()));
    let c0 = b0.subrange(4, b0.len() as int);
    assert(c0 =~= seq![':', '"'] + escape_id(id) + binding_suffix());
    assert(c0[0] == ':');
    assert(skip_ws(c0) == c0);
    let d0 = c0.drop_first();
    assert(d0 =~= seq!['"'] + (escape_id(id) + seq!['"'] + seq!['}']));
    assert(d0[0] == '"');
    assert(skip_ws(d0) == d0);
    assert(d0.drop_first() =~= escape_id(id) + seq!['"'] + seq!['}']);
    lemma_parse_string_escape(id, seq!['}']);
    assert(parse_id_value(d0) == Some((id, seq!['}'])));
    let e0: Seq<char> = seq!['}'];
    assert(!is_json_ws('}'));
    assert(skip_ws(e0) == e0);
    assert(e0.drop_first() =~= Seq::<char>::empty());
    assert(skip_ws(e0.drop_first()).len() == 0);
}

// Executable writer.

fn hex_char(d: u32) -> (r: char)
    requires
        d < 16,
    ensures
        r == hex_digit_char(d as int),
{
    if d == 0 {
        '0'
    } else if d == 1 {
        '1'
    } else if d == 2 {
        '2'
    } else if d == 3 {
        '3'
    } else if d == 4 {
        '4'
    } else if d == 5 {
        '5'
    } else if d == 6 {
        '6'
    } else if d == 7 {
        '7'
    } else if d == 8 {
        '8'
    } else if d == 9 {
        '9'
    } else if d == 10 {
        'a'
    } else if d == 11 {
        'b'
    } else if d == 12 {
        'c'
    } else if d == 13 {
        'd'
    } else if d == 14 {
        'e'
    } else {
        'f'
    }
}

/// Serializes the vault's binding to its chosen identity key: a one-member
/// object holding the key id, with quotes, backslashes and control
/// characters escaped, so any id round trips.
pub fn serialize_binding(id: &str) -> (r: String)
    ensures
        r@ == serialized_binding(id@),
{
    let mut v: Vec<char> = Vec::new();
    push_str_chars(&mut v, "{\"id\":\"");
    proof {
        reveal_strlit("{\"id\":\"");
        assert("{\"id\":\""@ =~= binding_prefix());
    }
    let len = id.unicode_len();
    let mut i: usize = 0;
    while i < len
        invariant
            i <= len == id@.len(),
            v@ =~= binding_prefix() + escape_id(id@.subrange(0, i as int)),
        decreases len - i,
    {
        let c = id.get_char(i);
        if c == '"' || c == '\\' {
            v.push('\\');
            v.push(c);
        } else if (c as u32) < 0x20 {
            v.push('\\');
            v.push('u');
            v.push('0');
            v.push('0');
            let code = c as u32;
            let hi_c = hex_char(code / 16);
            let lo_c = hex_char(code % 16);
            v.push(hi_c);
            v.push(lo_c);
            proof {
                assert(hi_c == hex_digit_char((c as int) / 16));
                assert(lo_c == hex_digit_char((c as int) % 16));
            }
        } else {
            v.push(c);
        }
        proof {
            lemma_escape_snoc(id@.subrange(0, i as int), c);
            assert(id@.subrange(0, i as int).push(c) =~= id@.subrange(0, i + 1));
            assert(v@ =~= binding_prefix() + escape_id(id@.subrange(0, i + 1)));
        }
        i = i + 1;
    }
    proof {
        assert(id@.subrange(0, len as int) =~= id@);
    }
    push_str_chars(&mut v, "\"}");
    proof {
        reveal_strlit("\"}");
        assert("\"}"@ =~= binding_suffix());
        assert(v@ =~= serialized_binding(id@));
    }
    string_from_chars(&v)
}

// Executable reader.

proof fn lemma_skip_ws_at(s: Seq<char>, k: int)
    requires
        0 <= k <= s.len(),
        forall|j: int| 0 <= j < k ==> is_json_ws(#[trigger] s[j]),
        k < s.len() ==> !is_json_ws(s[k]),
    ensures
        skip_ws(s) =~= s.subrange(k, s.len() as int),
    decreases k,
{
    if k == 0 {
        assert(s.subrange(0, s.len() as int) =~= s);
    } else {
        let t = s.drop_first();
        lemma_skip_ws_at(t, k - 1);
        assert(t.subrange(k - 1, t.len() as int) =~= s.subrange(k, s.len() as int));
    }
}

fn skip_ws_from(v: &Vec<char>, from: usize) -> (r: usize)
    requires
        from <= v@.len(),
    ensures
        from <= r <= v@.len(),
        skip_ws(v@.subrange(from as int, v@.len() as int)) =~= v@.subrange(
            r as int,
            v@.len() as int,
        ),
        r < v@.len() ==> !is_json_ws(v@[r as int]),
{
    let mut i: usize = from;
    while i < v.len() && (v[i] == ' ' || v[i] == '\t' || v[i] == '\n' || v[i] == '\r')
        invariant
            from <= i <= v@.len(),
            forall|j: int| from <= j < i ==> is_json_ws(#[trigger] v@[j]),
        decreases v@.len() - i,
    {
        i = i + 1;
    }
    proof {
        lemma_skip_ws_at(v@.subrange(from as int, v@.len() as int), i - from);
        assert(v@.subrange(from as int, v@.len() as int).subrange(
            i - from,
            v@.len() - from,
        ) =~= v@.subrange(i as int, v@.len() as int));
    }
    i
}

fn hex_digit_value(c: char) -> (r: Option<u32>)
    ensures
        r is Some <==> is_hex_digit(c),
        r matches Some(n) ==> n == hex_val(c) && n < 16,
{
    if '0' <= c && c <= '9' {
        Some(c as u32 - '0' as u32)
    } else if 'a' <= c && c <= 'f' {
        Some(c as u32 - 'a' as u32 + 10)
    } else if 'A' <= c && c <= 'F' {
        Some(c as u32 - 'A' as u32 + 10)
    } else {
        None
    }
}

/// Decodes a JSON string body starting at `from` (just after the opening
/// quote): the decoded characters and the position just after the closing
/// quote, exactly as the string-body model says.
#[verifier::rlimit(100)]
fn parse_string_at(v: &Vec<char>, from: usize) -> (r: Option<(Vec<char>, usize)>)
    requires
        from <= v@.len(),
    ensures
        match r {
            Some(p) => p.1 <= v@.len() && parse_string_body(
                v@.subrange(from as int, v@.len() as int),
            ) == Some((p.0@, v@.subrange(p.1 as int, v@.len() as int))),
            None => parse_string_body(v@.subrange(from as int, v@.len() as int)) is None,
        },
{
    let n = v.len();
    let ghost whole = v@.subrange(from as int, n as int);
    let mut out: Vec<char> = Vec::new();
    let mut i: usize = from;
    proof {
        assert(whole.subrange(0, whole.len() as int) =~= whole);
    }
    while i < n
        invariant
            from <= i <= n == v@.len(),
            whole == v@.subrange(from as int, n as int),
            parse_string_body(whole) == match parse_string_body(
                v@.subrange(i as int, n as int),
            ) {
                None => None::<(Seq<char>, Seq<char>)>,
                Some(p) => Some((out@ + p.0, p.1)),
            },
        decreases n - i,
    {
        let ghost cur = v@.subrange(i as int, n as int);
        proof {
            assert(cur[0] == v@[i as int]);
        }
        let c = v[i];
        if c == '"' {
            proof {
                assert(cur.drop_first() =~= v@.subrange(i + 1, n as int));
                assert(out@ + Seq::<char>::empty() =~= out@);
            }
            return Some((out, i + 1));
        } else if c == '\\' {
            if n - i < 2 {
                return None;
            }
            proof {
                assert(cur.len() >= 2);
                assert(cur[1] == v@[i + 1]);
            }
            let e = v[i + 1];
            if e == '"' || e == '\\' || e == '/' || e == 'b' || e == 'f' || e == 'n' || e == 'r'
                || e == 't' {
                let decoded: char = if e == 'b' {
                    8 as u8 as char
                } else if e == 'f' {
                    12 as u8 as char
                } else if e == 'n' {
                    '\n'
                } else if e == 'r' {
                    '\r'
                } else if e == 't' {
                    '\t'
                } else {
                    e
                };
                let ghost rest2 = parse_string_body(v@.subrange(i + 2, n as int));
                let ghost prev = out@;
                proof {
                    assert(cur.subrange(2, cur.len() as int) =~= v@.subrange(i + 2, n as int));
                    assert(8 as u8 as char == 8 as char);
                    assert(12 as u8 as char == 12 as char);
                    assert(parse_string_body(cur) == cons_parsed(decoded, rest2));
                }
                out.push(decoded);
                proof {
                    match rest2 {
                        Some(q) => {
                            assert(prev + (seq![decoded] + q.0) =~= out@ + q.0);
                        },
                        None => {},
                    }
                }
                i = i + 2;
            } else if e == 'u' {
                if n - i < 6 {
                    proof {
                        assert(!hex4_ok(cur, 2));
                    }
                    return None;
                }
                proof {
                    assert(cur[2] == v@[i + 2] && cur[3] == v@[i + 3] && cur[4] == v@[i + 4]
                        && cur[5] == v@[i + 5]);
                }
                let d0 = hex_digit_value(v[i + 2]);
                let d1 = hex_digit_value(v[i + 3]);
                let d2 = hex_digit_value(v[i + 4]);
                let d3 = hex_digit_value(v[i + 5]);
                let (a0, a1, a2, a3) = match (d0, d1, d2, d3) {
                    (Some(a0), Some(a1), Some(a2), Some(a3)) => (a0, a1, a2, a3),
                    _ => {
                        proof {
                            assert(!hex4_ok(cur, 2));
                        }
                        return None;
                    },
                };
                let code = a0 * 0x1000 + a1 * 0x100 + a2 * 0x10 + a3;
                proof {
                    assert(hex4_ok(cur, 2));
                    assert(code == hex4_val(cur, 2));
                }
                if 0xD800 <= code && code < 0xDC00 {
                    if n - i < 12 {
                        return None;
                    }
                    proof {
                        assert(cur[6] == v@[i + 6] && cur[7] == v@[i + 7]);
                        assert(cur[8] == v@[i + 8] && cur[9] == v@[i + 9] && cur[10] == v@[i
                            + 10] && cur[11] == v@[i + 11]);
                    }
                    if !(v[i + 6] == '\\' && v[i + 7] == 'u') {
                        return None;
                    }
                    let e0 = hex_digit_value(v[i + 8]);
                    let e1 = hex_digit_value(v[i + 9]);
                    let e2 = hex_digit_value(v[i + 10]);
                    let e3 = hex_digit_value(v[i + 11]);
                    let (b0, b1, b2, b3) = match (e0, e1, e2, e3) {
                        (Some(b0), Some(b1), Some(b2), Some(b3)) => (b0, b1, b2, b3),
                        _ => {
                            proof {
                                assert(!hex4_ok(cur, 8));
                            }
                            return None;
                        },
                    };
                    let low = b0 * 0x1000 + b1 * 0x100 + b2 * 0x10 + b3;
                    proof {
                        assert(hex4_ok(cur, 8));
                        assert(low == hex4_val(cur, 8));
                    }
                    if !(0xDC00 <= low && low < 0xE000) {
                        return None;
                    }
                    let combined = 0x10000 + (code - 0xD800) * 0x400 + (low - 0xDC00);
                    let decoded = char_from_code(combined);
                    let ghost rest12 = parse_string_body(v@.subrange(i + 12, n as int));
                    let ghost prev = out@;
                    proof {
                        assert(cur.subrange(12, cur.len() as int) =~= v@.subrange(
                            i + 12,
                            n as int,
                        ));
                        assert(combined as int == 0x10000 + (hex4_val(cur, 2) - 0xD800) * 0x400
                            + (hex4_val(cur, 8) - 0xDC00));
                        assert(parse_string_body(cur) == cons_parsed(decoded, rest12));
                    }
                    out.push(decoded);
                    proof {
                        match rest12 {
                            Some(q) => {
                                assert(prev + (seq![decoded] + q.0) =~= out@ + q.0);
                            },
                            None => {},
                        }
                    }
                    i = i + 12;
                } else if 0xDC00 <= code && code < 0xE000 {
                    return None;
                } else {
                    let decoded = char_from_code(code);
                    let ghost rest6 = parse_string_body(v@.subrange(i + 6, n as int));
                    let ghost prev = out@;
                    proof {
                        assert(cur.subrange(6, cur.len() as int) =~= v@.subrange(i + 6, n as int));
                        assert(code as int == hex4_val(cur, 2));
                        assert(parse_string_body(cur) == cons_parsed(decoded, rest6));
                    }
                    out.push(decoded);
                    proof {
                        match rest6 {
                            Some(q) => {
                                assert(prev + (seq![decoded] + q.0) =~= out@ + q.0);
                            },
                            None => {},
                        }
                    }
                    i = i + 6;
                }
            } else {
                return None;
            }
        } else if (c as u32) < 0x20 {
            return None;
        } else {
            let ghost rest1 = parse_string_body(v@.subrange(i + 1, n as int));
            let ghost prev = out@;
            proof {
                assert(cur.drop_first() =~= v@.subrange(i + 1, n as int));
                assert(parse_string_body(cur) == cons_parsed(c, rest1));
            }
            out.push(c);
            proof {
                match rest1 {
                    Some(q) => {
                        assert(prev + (seq![c] + q.0) =~= out@ + q.0);
                    },
                    None => {},
                }
            }
            i = i + 1;
        }
    }
    proof {
        assert(v@.subrange(n as int, n as int) =~= Seq::<char>::empty());
    }
    None
}

proof fn lemma_digit_run_at(s: Seq<char>, k: int)
    requires
        0 <= k <= s.len(),
        forall|j: int| 0 <= j < k ==> '0' <= #[trigger] s[j] <= '9',
        k < s.len() ==> !('0' <= s[k] <= '9'),
    ensures
        digit_run(s) == k,
    decreases k,
{
    if k > 0 {
        lemma_digit_run_at(s.drop_first(), k - 1);
    }
}

/// Scans a bare integer id at `from`: the verbatim token and the position
/// after it, exactly as the number model says.
fn parse_number_at(v: &Vec<char>, from: usize) -> (r: Option<(Vec<char>, usize)>)
    requires
        from <= v@.len(),
    ensures
        match r {
            Some(p) => p.1 <= v@.len() && parse_number_value(
                v@.subrange(from as int, v@.len() as int),
            ) == Some((p.0@, v@.subrange(p.1 as int, v@.len() as int))),
            None => parse_number_value(v@.subrange(from as int, v@.len() as int)) is None,
        },
{
    let n = v.len();
    let ghost whole = v@.subrange(from as int, n as int);
    let mut out: Vec<char> = Vec::new();
    let neg = from < n && v[from] == '-';
    let start = if neg {
        from + 1
    } else {
        from
    };
    let ghost t = if neg {
        whole.drop_first()
    } else {
        whole
    };
    proof {
        if from < n {
            assert(whole[0] == v@[from as int]);
        }
        assert(t =~= v@.subrange(start as int, n as int));
    }
    if neg {
        out.push('-');
    }
    let mut i: usize = start;
    while i < n && '0' <= v[i] && v[i] <= '9'
        invariant
            start <= i <= n == v@.len(),
            t =~= v@.subrange(start as int, n as int),
            forall|j: int| start <= j < i ==> '0' <= #[trigger] v@[j] <= '9',
            out@ =~= (if neg {
                seq!['-']
            } else {
                Seq::<char>::empty()
            }) + v@.subrange(start as int, i as int),
        decreases n - i,
    {
        out.push(v[i]);
        proof {
            assert(out@.drop_last() + seq![v@[i as int]] =~= out@);
            assert((if neg {
                seq!['-']
            } else {
                Seq::<char>::empty()
            }) + v@.subrange(start as int, i + 1) =~= out@);
        }
        i = i + 1;
    }
    proof {
        let ghost k = i - start;
        assert(forall|j: int| 0 <= j < k ==> '0' <= #[trigger] t[j] <= '9');
        if k < t.len() {
            assert(t[k] == v@[i as int]);
        }
        lemma_digit_run_at(t, k);
        assert(t.subrange(0, k) =~= v@.subrange(start as int, i as int));
        assert(t.subrange(k, t.len() as int) =~= v@.subrange(i as int, n as int));
    }
    if i == start {
        return None;
    }
    Some((out, i))
}

/// Reads the key id out of a binding record; any record from which no id
/// can be extracted is a not-initialized vault, never a panic.
#[verifier::rlimit(60)]
pub fn parse_binding(s: &str) -> (r: Result<String, VaultError>)
    ensures
        match r {
            Ok(id) => parse_binding_model(s@) == Some(id@),
            Err(e) => parse_binding_model(s@) is None && e == VaultError::NotInitialized,
        },
{
    let v = chars_of(s);
    let n = v.len();
    proof {
        assert(v@.subrange(0, n as int) =~= v@);
    }
    let i1 = skip_ws_from(&v, 0);
    let ghost a = skip_ws(v@);
    if i1 >= n || v[i1] != '{' {
        return Err(VaultError::NotInitialized);
    }
    proof {
        assert(a[0] == v@[i1 as int]);
        assert(a.drop_first() =~= v@.subrange(i1 + 1, n as int));
    }
    let i2 = skip_ws_from(&v, i1 + 1);
    let ghost b = skip_ws(a.drop_first());
    proof {
        assert(b =~= v@.subrange(i2 as int, n as int));
    }
    proof {
        reveal_strlit("\"id\"");
        assert("\"id\""@ =~= key_lit());
    }
    if n - i2 < 4 || !(v[i2] == '"' && v[i2 + 1] == 'i' && v[i2 + 2] == 'd' && v[i2 + 3] == '"') {
        proof {
            if key_lit().len() <= b.len() {
                assert(b.subrange(0, 4)[0] == b[0] && b.subrange(0, 4)[1] == b[1] && b.subrange(
                    0,
                    4,
                )[2] == b[2] && b.subrange(0, 4)[3] == b[3]);
                assert(b[0] == v@[i2 as int] && b[1] == v@[i2 + 1] && b[2] == v@[i2 + 2] && b[3]
                    == v@[i2 + 3]);
            }
        }
        return Err(VaultError::NotInitialized);
    }
    proof {
        assert(b[0] == v@[i2 as int] && b[1] == v@[i2 + 1] && b[2] == v@[i2 + 2] && b[3] == v@[i2
            + 3]);
        assert(b.subrange(0, 4) =~= key_lit());
        assert(has_prefix(b, key_lit()));
        assert(b.subrange(4, b.len() as int) =~= v@.subrange(i2 + 4, n as int));
    }
    let i3 = skip_ws_from(&v, i2 + 4);
    let ghost c = skip_ws(b.subrange(4, b.len() as int));
    proof {
        assert(c =~= v@.subrange(i3 as int, n as int));
    }
    if i3 >= n || v[i3] != ':' {
        return Err(VaultError::NotInitialized);
    }
    proof {
        assert(c[0] == v@[i3 as int]);
        assert(c.drop_first() =~= v@.subrange(i3 + 1, n as int));
    }
    let i4 = skip_ws_from(&v, i3 + 1);
    let ghost d = skip_ws(c.drop_first());
    proof {
        assert(d =~= v@.subrange(i4 as int, n as int));
    }
    let parsed = if i4 < n && v[i4] == '"' {
        proof {
            assert(d[0] == v@[i4 as int]);
            assert(d.drop_first() =~= v@.subrange(i4 + 1, n as int));
        }
        parse_string_at(&v, i4 + 1)
    } else {
        proof {
            if d.len() > 0 {
                assert(d[0] == v@[i4 as int]);
            }
        }
        parse_number_at(&v, i4)
    };
    let (id_chars, after) = match parsed {
        Some(p) => p,
        None => {
            return Err(VaultError::NotInitialized);
        },
    };
    proof {
        assert(parse_id_value(d) == Some((id_chars@, v@.subrange(after as int, n as int))));
    }
    let i5 = skip_ws_from(&v, after);
    let ghost e = skip_ws(v@.subrange(after as int, n as int));
    proof {
        assert(e =~= v@.subrange(i5 as int, n as int));
    }
    if i5 >= n || v[i5] != '}' {
        return Err(VaultError::NotInitialized);
    }
    proof {
        assert(e[0] == v@[i5 as int]);
        assert(e.drop_first() =~= v@.subrange(i5 + 1, n as int));
    }
    let i6 = skip_ws_from(&v, i5 + 1);
    if i6 != n {
        proof {
            assert(skip_ws(e.drop_first())[0] == v@[i6 as int]);
        }
        return Err(VaultError::NotInitialized);
    }
    Ok(string_from_chars(&id_chars))
}

/// Reads the vault's identity binding from the binding file's contents, or
/// reports the vault uninitialized when the file was absent or malformed.
pub fn read_id(contents: &Option<String>) -> (r: Result<String, VaultError>)
    ensures
        match contents {
            None => r == Err::<String, VaultError>(VaultError::NotInitialized),
            Some(s) => match r {
                Ok(id) => parse_binding_model(s@) == Some(id@),
                Err(e) => parse_binding_model(s@) is None && e == VaultError::NotInitialized,
            },
        },
{
    match contents {
        None => Err(VaultError::NotInitialized),
        Some(s) => parse_binding(s.as_str()),
    }
}

} // verus!
