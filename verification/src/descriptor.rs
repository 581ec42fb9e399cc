//! The project descriptor codec. A descriptor is a pretty-printed JSON
//! object with the fields `id`, `name` and `path` as strings and
//! `createdAt` and `modifiedAt` as integers; readers also accept the
//! underscore-separated spellings `created_at` and `modified_at`, any field
//! order, unknown string or integer fields, and the usual JSON string
//! escapes. Nested values are not part of the descriptor shape and are
//! rejected.

use vstd::prelude::*;

use crate::frontmatter::{FmVal, FmValue};
use crate::models::{Project, ProjectV};
use crate::outside::{char_from_code, chars_to_string};
use crate::text::{
    copy_range, digit_val, is_digit_char, digit_char, i64_literal_val, is_i64_literal,
    parse_i64_chars, push_all, push_str_chars, render_i64, render_i64_spec, str_chars, str_eq,
};

verus! {

// ---------------------------------------------------------------------------
// String escaping
// ---------------------------------------------------------------------------

/// The lowercase hexadecimal digit for `n` in 0..16.
pub open spec fn hex_digit_char(n: int) -> char {
    if n == 0 {
        '0'
    } else if n == 1 {
        '1'
    } else if n == 2 {
        '2'
    } else if n == 3 {
        '3'
    } else if n == 4 {
        '4'
    } else if n == 5 {
        '5'
    } else if n == 6 {
        '6'
    } else if n == 7 {
        '7'
    } else if n == 8 {
        '8'
    } else if n == 9 {
        '9'
    } else if n == 10 {
        'a'
    } else if n == 11 {
        'b'
    } else if n == 12 {
        'c'
    } else if n == 13 {
        'd'
    } else if n == 14 {
        'e'
    } else {
        'f'
    }
}

/// The value of a hexadecimal digit character, or -1.
pub open spec fn hex_val(c: char) -> int {
    if is_digit_char(c) {
        digit_val(c) as int
    } else if 0x61 <= c as u32 && c as u32 <= 0x66 {
        10 + (c as u32 - 0x61)
    } else if 0x41 <= c as u32 && c as u32 <= 0x46 {
        10 + (c as u32 - 0x41)
    } else {
        -1
    }
}

/// How one character is written inside a JSON string: quotes and
/// backslashes escaped, the named control characters short-escaped, other
/// control characters as `\u00..`, everything else verbatim.
pub open spec fn escape_char(c: char) -> Seq<char> {
    if c == '"' {
        seq!['\\', '"']
    } else if c == '\\' {
        seq!['\\', '\\']
    } else if c == '\u{0008}' {
        seq!['\\', 'b']
    } else if c == '\u{000C}' {
        seq!['\\', 'f']
    } else if c == '\n' {
        seq!['\\', 'n']
    } else if c == '\r' {
        seq!['\\', 'r']
    } else if c == '\t' {
        seq!['\\', 't']
    } else if (c as u32) < 0x20 {
        seq!['\\', 'u', '0', '0', hex_digit_char(((c as u32) / 16) as int), hex_digit_char(
            ((c as u32) % 16) as int,
        )]
    } else {
        seq![c]
    }
}

/// A whole string escaped for a JSON string literal.
pub open spec fn escape_string(s: Seq<char>) -> Seq<char>
    decreases s.len(),
{
    if s.len() == 0 {
        seq![]
    } else {
        escape_string(s.drop_last()) + escape_char(s.last())
    }
}

/// `escape_string` also unfolds from the front.
pub proof fn lemma_escape_string_front(s: Seq<char>)
    requires
        s.len() > 0,
    ensures
        escape_string(s) == escape_char(s[0]) + escape_string(s.drop_first()),
    decreases s.len(),
{
    if s.len() == 1 {
        assert(s.drop_last() =~= Seq::<char>::empty());
        assert(s.drop_first() =~= Seq::<char>::empty());
        assert(escape_string(s) =~= escape_char(s[0]) + escape_string(s.drop_first()));
    } else {
        lemma_escape_string_front(s.drop_last());
        assert(s.drop_last()[0] == s[0]);
        assert(s.drop_last().drop_first() =~= s.drop_first().drop_last());
        assert(s.drop_first().last() == s.last());
        assert(escape_string(s) == (escape_char(s[0]) + escape_string(s.drop_first().drop_last()))
            + escape_char(s.last()));
        assert((escape_char(s[0]) + escape_string(s.drop_first().drop_last())) + escape_char(
            s.last(),
        ) =~= escape_char(s[0]) + (escape_string(s.drop_first().drop_last()) + escape_char(
            s.last(),
        )));
    }
}

/// The lowercase hexadecimal digit character for a value below sixteen.
fn hex_digit_of(n: u32) -> (c: char)
    requires
        n < 16,
    ensures
        c == hex_digit_char(n as int),
{
    if n == 0 {
        '0'
    } else if n == 1 {
        '1'
    } else if n == 2 {
        '2'
    } else if n == 3 {
        '3'
    } else if n == 4 {
        '4'
    } else if n == 5 {
        '5'
    } else if n == 6 {
        '6'
    } else if n == 7 {
        '7'
    } else if n == 8 {
        '8'
    } else if n == 9 {
        '9'
    } else if n == 10 {
        'a'
    } else if n == 11 {
        'b'
    } else if n == 12 {
        'c'
    } else if n == 13 {
        'd'
    } else if n == 14 {
        'e'
    } else {
        'f'
    }
}

/// Appends `s` escaped for a JSON string literal.
fn push_escaped(out: &mut Vec<char>, s: &str)
    ensures
        final(out)@ == old(out)@ + escape_string(s@),
{
    let v = str_chars(s);
    let n = v.len();
    let mut i: usize = 0;
    proof {
        assert(v@.take(0) =~= Seq::<char>::empty());
        assert(old(out)@ + escape_string(v@.take(0)) =~= old(out)@);
    }
    while i < n
        invariant
            i <= n,
            n == v@.len(),
            v@ == s@,
            out@ == old(out)@ + escape_string(v@.take(i as int)),
        decreases n - i,
    {
        let c = v[i];
        let ghost out0 = out@;
        if c == '"' {
            out.push('\\');
            out.push('"');
        } else if c == '\\' {
            out.push('\\');
            out.push('\\');
        } else if c == '\u{0008}' {
            out.push('\\');
            out.push('b');
        } else if c == '\u{000C}' {
            out.push('\\');
            out.push('f');
        } else if c == '\n' {
            out.push('\\');
            out.push('n');
        } else if c == '\r' {
            out.push('\\');
            out.push('r');
        } else if c == '\t' {
            out.push('\\');
            out.push('t');
        } else if (c as u32) < 0x20 {
            let u: u32 = c as u32;
            out.push('\\');
            out.push('u');
            out.push('0');
            out.push('0');
            out.push(hex_digit_of(u / 16));
            out.push(hex_digit_of(u % 16));
        } else {
            out.push(c);
        }
        proof {
            assert(out@ =~= out0 + escape_char(v@[i as int]));
        }
        i = i + 1;
        proof {
            assert(v@.take(i as int).drop_last() =~= v@.take(i - 1));
            assert(v@.take(i as int).last() == v@[i - 1]);
            assert(escape_string(v@.take(i as int)) == escape_string(v@.take(i - 1)) + escape_char(
                v@[i - 1],
            ));
            assert((old(out)@ + escape_string(v@.take(i - 1))) + escape_char(v@[i - 1]) =~= old(
                out,
            )@ + (escape_string(v@.take(i - 1)) + escape_char(v@[i - 1])));
        }
    }
    proof {
        assert(v@.take(n as int) =~= v@);
    }
}

// ---------------------------------------------------------------------------
// Rendering
// ---------------------------------------------------------------------------

/// The pretty-printed descriptor text for a project record.
pub open spec fn render_descriptor_spec(p: ProjectV) -> Seq<char> {
    "{\n  \"id\": \""@ + escape_string(p.id) + "\",\n  \"name\": \""@ + escape_string(p.name)
        + "\",\n  \"path\": \""@ + escape_string(p.path) + "\",\n  \"createdAt\": "@
        + render_i64_spec(p.created_at) + ",\n  \"modifiedAt\": "@ + render_i64_spec(
        p.modified_at,
    ) + "\n}"@
}

/// Renders the descriptor text written to a project's `project.json`.
pub fn render_descriptor(p: &Project) -> (r: String)
    ensures
        r@ == render_descriptor_spec(p@),
{
    let mut out: Vec<char> = Vec::new();
    push_str_chars(&mut out, "{\n  \"id\": \"");
    push_escaped(&mut out, p.id.as_str());
    let ghost c1 = "{\n  \"id\": \""@ + escape_string(p.id@);
    push_str_chars(&mut out, "\",\n  \"name\": \"");
    push_escaped(&mut out, p.name.as_str());
    let ghost c2 = c1 + "\",\n  \"name\": \""@ + escape_string(p.name@);
    proof {
        assert(out@ =~= c2);
    }
    push_str_chars(&mut out, "\",\n  \"path\": \"");
    push_escaped(&mut out, p.path.as_str());
    let ghost c3 = c2 + "\",\n  \"path\": \""@ + escape_string(p.path@);
    proof {
        assert(out@ =~= c3);
    }
    push_str_chars(&mut out, "\",\n  \"createdAt\": ");
    let created = render_i64(p.created_at);
    push_all(&mut out, &created);
    let ghost c4 = c3 + "\",\n  \"createdAt\": "@ + render_i64_spec(p.created_at as int);
    proof {
        assert(out@ =~= c4);
    }
    push_str_chars(&mut out, ",\n  \"modifiedAt\": ");
    let modified = render_i64(p.modified_at);
    push_all(&mut out, &modified);
    push_str_chars(&mut out, "\n}");
    proof {
        assert(out@ =~= c4 + ",\n  \"modifiedAt\": "@ + render_i64_spec(p.modified_at as int)
            + "\n}"@);
        assert(out@ =~= render_descriptor_spec(p@));
    }
    chars_to_string(&out)
}

// ---------------------------------------------------------------------------
// Parsing
// ---------------------------------------------------------------------------

/// JSON insignificant white space.
pub open spec fn json_ws(c: char) -> bool {
    c == ' ' || c == '\t' || c == '\n' || c == '\r'
}

/// The first position at or after `i` holding something other than white
/// space.
pub open spec fn skip_ws_spec(s: Seq<char>, i: int) -> int
    decreases s.len() - i,
{
    if 0 <= i < s.len() && json_ws(s[i]) {
        skip_ws_spec(s, i + 1)
    } else {
        i
    }
}

/// Advances past white space.
fn skip_ws(v: &Vec<char>, i: usize) -> (r: usize)
    requires
        i <= v@.len(),
    ensures
        r as int == skip_ws_spec(v@, i as int),
        i <= r <= v@.len(),
{
    let mut cur: usize = i;
    while cur < v.len() && (v[cur] == ' ' || v[cur] == '\t' || v[cur] == '\n' || v[cur] == '\r')
        invariant
            i <= cur <= v@.len(),
            skip_ws_spec(v@, i as int) == skip_ws_spec(v@, cur as int),
        decreases v@.len() - cur,
    {
        cur = cur + 1;
    }
    cur
}

/// The character with the given code, used for `\u` escapes.
pub open spec fn char_of_code(code: int) -> char {
    choose|x: char| #![trigger x as u32] x as u32 == code
}

pub proof fn lemma_char_of_code_is(code: u32, c: char)
    requires
        c as u32 == code,
    ensures
        char_of_code(code as int) == c,
{
    let x = char_of_code(code as int);
    assert(c as u32 == code as int);
    assert(x as u32 == code as int);
}

/// Reads a JSON string body starting just after the opening quote; yields
/// the unescaped content and the position after the closing quote.
pub open spec fn parse_string_body(s: Seq<char>, i: int) -> Option<(Seq<char>, int)>
    decreases s.len() - i,
{
    if i < 0 || i >= s.len() {
        None
    } else if s[i] == '"' {
        Some((seq![], i + 1))
    } else if s[i] == '\\' {
        if i + 1 >= s.len() {
            None
        } else {
            let e = s[i + 1];
            if e == 'u' {
                if i + 6 > s.len() {
                    None
                } else {
                    let h = hex4_val(s, i + 2);
                    if h < 0 || (0xD800 <= h && h < 0xE000) {
                        None
                    } else {
                        match parse_string_body(s, i + 6) {
                            Some((t, j)) => Some((seq![char_of_code(h)] + t, j)),
                            None => None,
                        }
                    }
                }
            } else {
                match short_escape(e) {
                    Some(c) => match parse_string_body(s, i + 2) {
                        Some((t, j)) => Some((seq![c] + t, j)),
                        None => None,
                    },
                    None => None,
                }
            }
        }
    } else if (s[i] as u32) < 0x20 {
        None
    } else {
        match parse_string_body(s, i + 1) {
            Some((t, j)) => Some((seq![s[i]] + t, j)),
            None => None,
        }
    }
}

/// The named one-character escapes.
pub open spec fn short_escape(e: char) -> Option<char> {
    if e == '"' {
        Some('"')
    } else if e == '\\' {
        Some('\\')
    } else if e == '/' {
        Some('/')
    } else if e == 'b' {
        Some('\u{0008}')
    } else if e == 'f' {
        Some('\u{000C}')
    } else if e == 'n' {
        Some('\n')
    } else if e == 'r' {
        Some('\r')
    } else if e == 't' {
        Some('\t')
    } else {
        None
    }
}

/// The value of the four hexadecimal digits at `i`, or -1.
pub open spec fn hex4_val(s: Seq<char>, i: int) -> int {
    if i + 4 <= s.len() && hex_val(s[i]) >= 0 && hex_val(s[i + 1]) >= 0 && hex_val(s[i + 2]) >= 0
        && hex_val(s[i + 3]) >= 0 {
        hex_val(s[i]) * 0x1000 + hex_val(s[i + 1]) * 0x100 + hex_val(s[i + 2]) * 0x10 + hex_val(
            s[i + 3],
        )
    } else {
        -1
    }
}

/// The position after the run of decimal digits starting at `i`.
pub open spec fn digits_end(s: Seq<char>, i: int) -> int
    decreases s.len() - i,
{
    if 0 <= i < s.len() && is_digit_char(s[i]) {
        digits_end(s, i + 1)
    } else {
        i
    }
}

/// Reads a JSON integer token at `i`: an optional minus sign and digits,
/// rejected when the value leaves the range of `i64`.
pub open spec fn parse_int_tok(s: Seq<char>, i: int) -> Option<(int, int)> {
    if i < 0 || i > s.len() {
        None
    } else {
        let start = if i < s.len() && s[i] == '-' {
            i + 1
        } else {
            i
        };
        let e = digits_end(s, start);
        if e == start {
            None
        } else {
            let tok = s.subrange(i, e);
            if is_i64_literal(tok) {
                Some((i64_literal_val(tok), e))
            } else {
                None
            }
        }
    }
}

/// Reads one `"key": value` member at `i` (no leading white space); the
/// value is a string or an integer.
pub open spec fn parse_member(s: Seq<char>, i: int) -> Option<((Seq<char>, FmVal), int)> {
    if 0 <= i < s.len() && s[i] == '"' {
        match parse_string_body(s, i + 1) {
            Some((k, j)) => {
                let j2 = skip_ws_spec(s, j);
                if j2 < s.len() && s[j2] == ':' {
                    let j3 = skip_ws_spec(s, j2 + 1);
                    if j3 < s.len() && s[j3] == '"' {
                        match parse_string_body(s, j3 + 1) {
                            Some((v, j4)) => Some(((k, FmVal::Str(v)), j4)),
                            None => None,
                        }
                    } else {
                        match parse_int_tok(s, j3) {
                            Some((n, j4)) => Some(((k, FmVal::Int(n)), j4)),
                            None => None,
                        }
                    }
                } else {
                    None
                }
            },
            None => None,
        }
    } else {
        None
    }
}

/// Reads the members of an object from the first member on, up to and
/// including the closing brace.
pub open spec fn parse_members(s: Seq<char>, i: int) -> Option<(Seq<(Seq<char>, FmVal)>, int)>
    decreases s.len() - i,
{
    match parse_member(s, i) {
        Some((m, j)) => {
            let j2 = skip_ws_spec(s, j);
            if j2 < s.len() && s[j2] == ',' {
                let j3 = skip_ws_spec(s, j2 + 1);
                if j3 <= i || j3 > s.len() {
                    None
                } else {
                    match parse_members(s, j3) {
                        Some((ms, j4)) => Some((seq![m] + ms, j4)),
                        None => None,
                    }
                }
            } else if j2 < s.len() && s[j2] == '}' {
                Some((seq![m], j2 + 1))
            } else {
                None
            }
        },
        None => None,
    }
}

/// Parses a whole flat JSON object, with nothing but white space around it.
pub open spec fn parse_object(s: Seq<char>) -> Option<Seq<(Seq<char>, FmVal)>> {
    let i = skip_ws_spec(s, 0);
    if i < s.len() && s[i] == '{' {
        let j = skip_ws_spec(s, i + 1);
        if j < s.len() && s[j] == '}' {
            if skip_ws_spec(s, j + 1) == s.len() {
                Some(seq![])
            } else {
                None
            }
        } else {
            match parse_members(s, j) {
                Some((ms, k)) => if skip_ws_spec(s, k) == s.len() {
                    Some(ms)
                } else {
                    None
                },
                None => None,
            }
        }
    } else {
        None
    }
}

/// The values among the members whose key is `k1` or `k2`, in order.
pub open spec fn member_values(
    ms: Seq<(Seq<char>, FmVal)>,
    k1: Seq<char>,
    k2: Seq<char>,
) -> Seq<FmVal>
    decreases ms.len(),
{
    if ms.len() == 0 {
        seq![]
    } else {
        member_values(ms.drop_last(), k1, k2) + (if ms.last().0 == k1 || ms.last().0 == k2 {
            seq![ms.last().1]
        } else {
            seq![]
        })
    }
}

/// The value of one hexadecimal digit character.
fn hex_val_of(c: char) -> (r: Option<u32>)
    ensures
        match r {
            Some(n) => hex_val(c) == n as int && n < 16,
            None => hex_val(c) == -1,
        },
{
    let u: u32 = c as u32;
    if 0x30 <= u && u <= 0x39 {
        Some(u - 0x30)
    } else if 0x61 <= u && u <= 0x66 {
        Some(10 + (u - 0x61))
    } else if 0x41 <= u && u <= 0x46 {
        Some(10 + (u - 0x41))
    } else {
        None
    }
}

/// Reads a JSON string body after its opening quote.
fn parse_string_body_exec(v: &Vec<char>, i: usize) -> (r: Option<(Vec<char>, usize)>)
    requires
        i <= v@.len(),
    ensures
        match r {
            Some(t) => parse_string_body(v@, i as int) == Some((t.0@, t.1 as int)) && t.1
                <= v@.len(),
            None => parse_string_body(v@, i as int) is None,
        },
{
    let mut acc: Vec<char> = Vec::new();
    let mut cur: usize = i;
    proof {
        assert(acc@ =~= Seq::<char>::empty());
    }
    while cur < v.len()
        invariant
            i <= cur <= v@.len(),
            parse_string_body(v@, i as int) == (match parse_string_body(v@, cur as int) {
                Some((t, j)) => Some((acc@ + t, j)),
                None => None::<(Seq<char>, int)>,
            }),
        decreases v@.len() - cur,
    {
        let ghost acc0 = acc@;
        let ghost cur0 = cur as int;
        let c = v[cur];
        if c == '"' {
            proof {
                assert(parse_string_body(v@, cur0) == Some((Seq::<char>::empty(), cur0 + 1)));
                assert(acc0 + Seq::<char>::empty() =~= acc0);
            }
            return Some((acc, cur + 1));
        } else if c == '\\' {
            if cur + 1 >= v.len() {
                return None;
            }
            let e = v[cur + 1];
            if e == 'u' {
                if v.len() - cur < 6 {
                    proof {
                        assert(cur0 + 6 > v@.len());
                    }
                    return None;
                }
                let h0 = hex_val_of(v[cur + 2]);
                let h1 = hex_val_of(v[cur + 3]);
                let h2 = hex_val_of(v[cur + 4]);
                let h3 = hex_val_of(v[cur + 5]);
                match (h0, h1, h2, h3) {
                    (Some(a), Some(b), Some(cc), Some(d)) => {
                        let h: u32 = a * 0x1000 + b * 0x100 + cc * 0x10 + d;
                        proof {
                            assert(hex4_val(v@, cur0 + 2) == h as int);
                        }
                        if 0xD800 <= h && h < 0xE000 {
                            return None;
                        }
                        match char_from_code(h) {
                            Some(ch) => {
                                proof {
                                    lemma_char_of_code_is(h, ch);
                                }
                                acc.push(ch);
                                cur = cur + 6;
                                proof {
                                    assert(acc@ =~= acc0.push(ch));
                                    assert(parse_string_body(v@, cur0) == (
                                    match parse_string_body(v@, cur as int) {
                                        Some((t, j)) => Some((seq![ch] + t, j)),
                                        None => None::<(Seq<char>, int)>,
                                    }));
                                    assert(forall|t: Seq<char>|
                                        acc0 + (seq![ch] + t) =~= #[trigger] (acc0.push(ch) + t));
                                }
                            },
                            None => {
                                proof {
                                    assert(h < 0xD800 || 0xE000 <= h);
                                    assert(h <= 0xFFFF);
                                    assert(false);
                                }
                                return None;
                            },
                        }
                    },
                    _ => {
                        proof {
                            assert(hex4_val(v@, cur0 + 2) == -1);
                        }
                        return None;
                    },
                }
            } else {
                let sc: Option<char> = if e == '"' {
                    Some('"')
                } else if e == '\\' {
                    Some('\\')
                } else if e == '/' {
                    Some('/')
                } else if e == 'b' {
                    Some('\u{0008}')
                } else if e == 'f' {
                    Some('\u{000C}')
                } else if e == 'n' {
                    Some('\n')
                } else if e == 'r' {
                    Some('\r')
                } else if e == 't' {
                    Some('\t')
                } else {
                    None
                };
                match sc {
                    Some(c0) => {
                        proof {
                            assert(short_escape(e) == Some(c0));
                        }
                        acc.push(c0);
                        cur = cur + 2;
                        proof {
                            assert(acc@ =~= acc0.push(c0));
                            assert(forall|t: Seq<char>|
                                acc0 + (seq![c0] + t) =~= #[trigger] (acc0.push(c0) + t));
                        }
                    },
                    None => {
                        proof {
                            assert(short_escape(e) is None);
                        }
                        return None;
                    },
                }
            }
        } else if (c as u32) < 0x20 {
            return None;
        } else {
            acc.push(c);
            cur = cur + 1;
            proof {
                assert(acc@ =~= acc0.push(c));
                assert(forall|t: Seq<char>| acc0 + (seq![c] + t) =~= #[trigger] (acc0.push(c) + t));
            }
        }
    }
    proof {
        assert(parse_string_body(v@, cur as int) is None);
    }
    None
}

/// Reads a JSON integer token.
fn parse_int_tok_exec(v: &Vec<char>, i: usize) -> (r: Option<(i64, usize)>)
    requires
        i <= v@.len(),
    ensures
        match r {
            Some(t) => parse_int_tok(v@, i as int) == Some((t.0 as int, t.1 as int)) && t.1
                <= v@.len(),
            None => parse_int_tok(v@, i as int) is None,
        },
{
    let neg: bool = i < v.len() && v[i] == '-';
    let start: usize = if neg {
        i + 1
    } else {
        i
    };
    let mut j: usize = start;
    while j < v.len() && digit_char(v[j])
        invariant
            start <= j <= v@.len(),
            digits_end(v@, start as int) == digits_end(v@, j as int),
        decreases v@.len() - j,
    {
        j = j + 1;
    }
    proof {
        assert(digits_end(v@, j as int) == j as int);
    }
    if j == start {
        return None;
    }
    let tok = copy_range(v, i, j);
    match parse_i64_chars(&tok) {
        Some(n) => Some((n, j)),
        None => None,
    }
}

/// Reads one member.
fn parse_member_exec(v: &Vec<char>, i: usize) -> (r: Option<((String, FmValue), usize)>)
    requires
        i <= v@.len(),
    ensures
        match r {
            Some(t) => parse_member(v@, i as int) == Some((((t.0).0@, (t.0).1@), t.1 as int))
                && t.1 <= v@.len(),
            None => parse_member(v@, i as int) is None,
        },
{
    if i < v.len() && v[i] == '"' {
        match parse_string_body_exec(v, i + 1) {
            Some((k, j)) => {
                let j2 = skip_ws(v, j);
                if j2 < v.len() && v[j2] == ':' {
                    let j3 = skip_ws(v, j2 + 1);
                    if j3 < v.len() && v[j3] == '"' {
                        match parse_string_body_exec(v, j3 + 1) {
                            Some((val, j4)) => {
                                let key = chars_to_string(&k);
                                let vs = chars_to_string(&val);
                                Some(((key, FmValue::StringValue(vs)), j4))
                            },
                            None => None,
                        }
                    } else {
                        match parse_int_tok_exec(v, j3) {
                            Some((n, j4)) => {
                                let key = chars_to_string(&k);
                                Some(((key, FmValue::IntValue(n)), j4))
                            },
                            None => None,
                        }
                    }
                } else {
                    None
                }
            },
            None => None,
        }
    } else {
        None
    }
}

/// Reads all members of an object, including the closing brace.
fn parse_members_exec(v: &Vec<char>, i: usize) -> (r: Option<(Vec<(String, FmValue)>, usize)>)
    requires
        i <= v@.len(),
    ensures
        match r {
            Some(t) => parse_members(v@, i as int) == Some((
                t.0@.map_values(|m: (String, FmValue)| (m.0@, m.1@)),
                t.1 as int,
            )) && t.1 <= v@.len(),
            None => parse_members(v@, i as int) is None,
        },
{
    let mut acc: Vec<(String, FmValue)> = Vec::new();
    let mut cur: usize = i;
    let ghost accf = |m: (String, FmValue)| (m.0@, m.1@);
    proof {
        assert(acc@.map_values(accf) =~= Seq::<(Seq<char>, FmVal)>::empty());
    }
    loop
        invariant
            i <= cur <= v@.len(),
            parse_members(v@, i as int) == (match parse_members(v@, cur as int) {
                Some((ms, j)) => Some((acc@.map_values(accf) + ms, j)),
                None => None::<(Seq<(Seq<char>, FmVal)>, int)>,
            }),
            accf == (|m: (String, FmValue)| (m.0@, m.1@)),
        decreases v@.len() - cur,
    {
        let ghost acc0 = acc@.map_values(accf);
        let ghost cur0 = cur as int;
        match parse_member_exec(v, cur) {
            Some((m, j)) => {
                let j2 = skip_ws(v, j);
                let ghost mv = (m.0@, m.1@);
                if j2 < v.len() && v[j2] == ',' {
                    let j3 = skip_ws(v, j2 + 1);
                    if j3 <= cur {
                        return None;
                    }
                    acc.push(m);
                    cur = j3;
                    proof {
                        assert(acc@.map_values(accf) =~= acc0.push(mv));
                        assert(parse_members(v@, cur0) == (match parse_members(v@, cur as int) {
                            Some((ms, j4)) => Some((seq![mv] + ms, j4)),
                            None => None::<(Seq<(Seq<char>, FmVal)>, int)>,
                        }));
                        assert(forall|ms: Seq<(Seq<char>, FmVal)>|
                            acc0 + (seq![mv] + ms) =~= #[trigger] (acc0.push(mv) + ms));
                    }
                } else if j2 < v.len() && v[j2] == '}' {
                    acc.push(m);
                    proof {
                        assert(acc@.map_values(accf) =~= acc0.push(mv));
                        assert(parse_members(v@, cur0) == Some((seq![mv], j2 + 1)));
                        assert(acc0 + seq![mv] =~= acc0.push(mv));
                    }
                    return Some((acc, j2 + 1));
                } else {
                    return None;
                }
            },
            None => {
                return None;
            },
        }
    }
}

/// The record a descriptor text denotes, if it has the expected shape: each
/// field present exactly once, under either of its spellings, with the
/// right type.
pub open spec fn parse_descriptor_spec(s: Seq<char>) -> Option<ProjectV> {
    match parse_object(s) {
        Some(ms) => {
            let ids = member_values(ms, "id"@, "id"@);
            let names = member_values(ms, "name"@, "name"@);
            let paths = member_values(ms, "path"@, "path"@);
            let createds = member_values(ms, "createdAt"@, "created_at"@);
            let modifieds = member_values(ms, "modifiedAt"@, "modified_at"@);
            if ids.len() == 1 && names.len() == 1 && paths.len() == 1 && createds.len() == 1
                && modifieds.len() == 1 {
                match (ids[0], names[0], paths[0], createds[0], modifieds[0]) {
                    (
                        FmVal::Str(id),
                        FmVal::Str(name),
                        FmVal::Str(path),
                        FmVal::Int(c),
                        FmVal::Int(m),
                    ) => Some(
                        ProjectV { id: id, name: name, path: path, created_at: c, modified_at: m },
                    ),
                    _ => None,
                }
            } else {
                None
            }
        },
        None => None,
    }
}

// ---------------------------------------------------------------------------
// Round trip
// ---------------------------------------------------------------------------

pub proof fn lemma_hex_digit_char_val(n: int)
    requires
        0 <= n < 16,
    ensures
        hex_val(hex_digit_char(n)) == n,
{
    if n == 0 {
        assert(hex_val('0') == 0);
    } else if n == 1 {
        assert(hex_val('1') == 1);
    } else if n == 2 {
        assert(hex_val('2') == 2);
    } else if n == 3 {
        assert(hex_val('3') == 3);
    } else if n == 4 {
        assert(hex_val('4') == 4);
    } else if n == 5 {
        assert(hex_val('5') == 5);
    } else if n == 6 {
        assert(hex_val('6') == 6);
    } else if n == 7 {
        assert(hex_val('7') == 7);
    } else if n == 8 {
        assert(hex_val('8') == 8);
    } else if n == 9 {
        assert(hex_val('9') == 9);
    } else if n == 10 {
        assert(hex_val('a') == 10);
    } else if n == 11 {
        assert(hex_val('b') == 11);
    } else if n == 12 {
        assert(hex_val('c') == 12);
    } else if n == 13 {
        assert(hex_val('d') == 13);
    } else if n == 14 {
        assert(hex_val('e') == 14);
    } else {
        assert(hex_val('f') == 15);
    }
}

/// Reading a JSON string body at the rendering of `x` recovers `x`.
pub proof fn lemma_parse_string_at(s: Seq<char>, i: int, x: Seq<char>)
    requires
        0 <= i,
        i + escape_string(x).len() + 1 <= s.len(),
        s.subrange(i, i + escape_string(x).len()) == escape_string(x),
        s[i + escape_string(x).len()] == '"',
    ensures
        parse_string_body(s, i) == Some((x, i + escape_string(x).len() + 1)),
    decreases x.len(),
{
    if x.len() == 0 {
        assert(escape_string(x).len() == 0);
        assert(s[i] == '"');
    } else {
        let c = x[0];
        let rest = x.drop_first();
        lemma_escape_string_front(x);
        let ec = escape_char(c);
        let es = escape_string(x);
        let er = escape_string(rest);
        assert(es == ec + er);
        assert forall|k: int| 0 <= k < es.len() implies s[i + k] == #[trigger] es[k] by {
            assert(s[i + k] == s.subrange(i, i + es.len())[k]);
        }
        assert forall|k: int| 0 <= k < ec.len() implies s[i + k] == #[trigger] ec[k] by {
            assert(s[i + k] == es[k]);
            assert(es[k] == (ec + er)[k]);
        }
        let i2 = i + ec.len();
        assert forall|k: int| 0 <= k < er.len() implies s.subrange(i2, i2 + er.len())[k]
            == #[trigger] er[k] by {
            assert(s.subrange(i2, i2 + er.len())[k] == s[i2 + k]);
            assert(s[i2 + k] == es[ec.len() + k]);
            assert(es[ec.len() + k] == (ec + er)[ec.len() + k]);
        }
        assert(s.subrange(i2, i2 + er.len()) =~= er);
        lemma_parse_string_at(s, i2, rest);
        assert(seq![c] + rest =~= x);
        if c == '"' {
            assert(ec == seq!['\\', '"']);
            assert(s[i] == '\\' && s[i + 1] == '"');
            assert(short_escape('"') == Some('"'));
        } else if c == '\\' {
            assert(s[i] == '\\' && s[i + 1] == '\\');
        } else if c == '\u{0008}' {
            assert(s[i] == '\\' && s[i + 1] == 'b');
        } else if c == '\u{000C}' {
            assert(s[i] == '\\' && s[i + 1] == 'f');
        } else if c == '\n' {
            assert(s[i] == '\\' && s[i + 1] == 'n');
        } else if c == '\r' {
            assert(s[i] == '\\' && s[i + 1] == 'r');
        } else if c == '\t' {
            assert(s[i] == '\\' && s[i + 1] == 't');
        } else if (c as u32) < 0x20 {
            let u = c as u32;
            assert(ec == seq!['\\', 'u', '0', '0', hex_digit_char((u / 16) as int), hex_digit_char(
                (u % 16) as int,
            )]);
            assert(s[i] == '\\' && s[i + 1] == 'u' && s[i + 2] == '0' && s[i + 3] == '0');
            assert(s[i + 4] == hex_digit_char((u / 16) as int));
            assert(s[i + 5] == hex_digit_char((u % 16) as int));
            assert(hex_val('0') == 0);
            lemma_hex_digit_char_val((u / 16) as int);
            lemma_hex_digit_char_val((u % 16) as int);
            let h = hex4_val(s, i + 2);
            assert(h == (u / 16) * 16 + (u % 16));
            assert(h == u) by {
                vstd::arithmetic::div_mod::lemma_fundamental_div_mod(u as int, 16);
            };
            assert(!(0xD800 <= h && h < 0xE000));
            lemma_char_of_code_is(u, c);
        } else {
            assert(ec == seq![c]);
            assert(s[i] == c);
            assert(s[i] != '"' && s[i] != '\\' && !((s[i] as u32) < 0x20));
        }
    }
}

pub proof fn lemma_digits_end_is(s: Seq<char>, a: int, b: int)
    requires
        0 <= a <= b <= s.len(),
        forall|k: int| #![trigger s[k]] a <= k < b ==> is_digit_char(s[k]),
        b == s.len() || !is_digit_char(s[b]),
    ensures
        digits_end(s, a) == b,
    decreases b - a,
{
    if a == b {
    } else {
        assert(is_digit_char(s[a]));
        lemma_digits_end_is(s, a + 1, b);
    }
}

/// Reading a JSON integer token at the rendering of `n` recovers `n`.
pub proof fn lemma_parse_int_at(s: Seq<char>, i: int, n: int)
    requires
        0 <= i,
        -0x8000000000000000 <= n <= 0x7fffffffffffffff,
        i + render_i64_spec(n).len() <= s.len(),
        s.subrange(i, i + render_i64_spec(n).len()) == render_i64_spec(n),
        i + render_i64_spec(n).len() == s.len() || !is_digit_char(
            s[i + render_i64_spec(n).len()],
        ),
    ensures
        parse_int_tok(s, i) == Some((n, i + render_i64_spec(n).len())),
{
    let r = render_i64_spec(n);
    crate::text::lemma_render_parse_i64(n);
    assert forall|k: int| 0 <= k < r.len() implies s[i + k] == #[trigger] r[k] by {
        assert(s[i + k] == s.subrange(i, i + r.len())[k]);
    }
    if n < 0 {
        crate::text::lemma_dec_digits_val((-n) as nat);
        let d = crate::text::dec_digits((-n) as nat);
        assert(r == seq!['-'] + d);
        assert(s[i] == r[0]);
        assert(s[i] == '-');
        assert forall|k: int| #![trigger s[k]] i + 1 <= k < i + r.len() implies is_digit_char(
            s[k],
        ) by {
            assert(s[k] == r[k - i]);
            assert(r[k - i] == d[k - i - 1]);
            assert(is_digit_char(d[k - i - 1]));
        }
        lemma_digits_end_is(s, i + 1, i + r.len());
        assert(s.subrange(i, i + r.len()) =~= r);
        assert(digits_end(s, i + 1) != i + 1);
    } else {
        crate::text::lemma_dec_digits_val(n as nat);
        assert(r == crate::text::dec_digits(n as nat));
        assert forall|k: int| #![trigger s[k]] i <= k < i + r.len() implies is_digit_char(s[k]) by {
            assert(s[k] == r[k - i]);
            assert(is_digit_char(r[k - i]));
        }
        assert(s[i] != '-') by {
            assert(is_digit_char(s[i]));
        };
        lemma_digits_end_is(s, i, i + r.len());
        assert(s.subrange(i, i + r.len()) =~= r);
    }
}

/// The literal segments of a rendered descriptor.
pub open spec fn seg_id_open() -> Seq<char> {
    "{\n  \"id\": \""@
}

pub open spec fn seg_name_open() -> Seq<char> {
    "\",\n  \"name\": \""@
}

pub open spec fn seg_path_open() -> Seq<char> {
    "\",\n  \"path\": \""@
}

pub open spec fn seg_created_open() -> Seq<char> {
    "\",\n  \"createdAt\": "@
}

pub open spec fn seg_modified_open() -> Seq<char> {
    ",\n  \"modifiedAt\": "@
}

pub open spec fn seg_close() -> Seq<char> {
    "\n}"@
}

/// The character layout of a rendered descriptor, segment by segment.
/// Where each segment of a rendered descriptor starts.
pub open spec fn off_e1(p: ProjectV) -> int {
    11
}

pub open spec fn off_l2(p: ProjectV) -> int {
    off_e1(p) + escape_string(p.id).len()
}

pub open spec fn off_e2(p: ProjectV) -> int {
    off_l2(p) + 14
}

pub open spec fn off_l3(p: ProjectV) -> int {
    off_e2(p) + escape_string(p.name).len()
}

pub open spec fn off_e3(p: ProjectV) -> int {
    off_l3(p) + 14
}

pub open spec fn off_l4(p: ProjectV) -> int {
    off_e3(p) + escape_string(p.path).len()
}

pub open spec fn off_d1(p: ProjectV) -> int {
    off_l4(p) + 18
}

pub open spec fn off_l5(p: ProjectV) -> int {
    off_d1(p) + render_i64_spec(p.created_at).len()
}

pub open spec fn off_d2(p: ProjectV) -> int {
    off_l5(p) + 18
}

pub open spec fn off_l6(p: ProjectV) -> int {
    off_d2(p) + render_i64_spec(p.modified_at).len()
}

/// The pointwise layout of a rendered descriptor, segment by segment.
pub open spec fn rt_layout_facts(p: ProjectV) -> bool {
    let s = render_descriptor_spec(p);
    &&& s.len() == off_l6(p) + 2
    &&& seg_id_open().len() == 11
    &&& seg_name_open().len() == 14
    &&& seg_path_open().len() == 14
    &&& seg_created_open().len() == 18
    &&& seg_modified_open().len() == 18
    &&& seg_close().len() == 2
    &&& forall|k: int| 0 <= k < 11 ==> s[k] == #[trigger] seg_id_open()[k]
    &&& forall|k: int|
        0 <= k < escape_string(p.id).len() ==> s[off_e1(p) + k] == #[trigger] escape_string(
            p.id,
        )[k]
    &&& forall|k: int| 0 <= k < 14 ==> s[off_l2(p) + k] == #[trigger] seg_name_open()[k]
    &&& forall|k: int|
        0 <= k < escape_string(p.name).len() ==> s[off_e2(p) + k] == #[trigger] escape_string(
            p.name,
        )[k]
    &&& forall|k: int| 0 <= k < 14 ==> s[off_l3(p) + k] == #[trigger] seg_path_open()[k]
    &&& forall|k: int|
        0 <= k < escape_string(p.path).len() ==> s[off_e3(p) + k] == #[trigger] escape_string(
            p.path,
        )[k]
    &&& forall|k: int| 0 <= k < 18 ==> s[off_l4(p) + k] == #[trigger] seg_created_open()[k]
    &&& forall|k: int|
        0 <= k < render_i64_spec(p.created_at).len() ==> s[off_d1(p) + k]
            == #[trigger] render_i64_spec(p.created_at)[k]
    &&& forall|k: int| 0 <= k < 18 ==> s[off_l5(p) + k] == #[trigger] seg_modified_open()[k]
    &&& forall|k: int|
        0 <= k < render_i64_spec(p.modified_at).len() ==> s[off_d2(p) + k]
            == #[trigger] render_i64_spec(p.modified_at)[k]
    &&& forall|k: int| 0 <= k < 2 ==> s[off_l6(p) + k] == #[trigger] seg_close()[k]
}

proof fn lemma_rt_layout(p: ProjectV)
    ensures
        rt_layout_facts(p),
{
    reveal_strlit("{\n  \"id\": \"");
    reveal_strlit("\",\n  \"name\": \"");
    reveal_strlit("\",\n  \"path\": \"");
    reveal_strlit("\",\n  \"createdAt\": ");
    reveal_strlit(",\n  \"modifiedAt\": ");
    reveal_strlit("\n}");
    let l1 = seg_id_open();
    let l2 = seg_name_open();
    let l3 = seg_path_open();
    let l4 = seg_created_open();
    let l5 = seg_modified_open();
    let l6 = seg_close();
    let e1 = escape_string(p.id);
    let e2 = escape_string(p.name);
    let e3 = escape_string(p.path);
    let d1 = render_i64_spec(p.created_at);
    let d2 = render_i64_spec(p.modified_at);
    let p1 = l1;
    let p2 = p1 + e1;
    let p3 = p2 + l2;
    let p4 = p3 + e2;
    let p5 = p4 + l3;
    let p6 = p5 + e3;
    let p7 = p6 + l4;
    let p8 = p7 + d1;
    let p9 = p8 + l5;
    let p10 = p9 + d2;
    let s = render_descriptor_spec(p);
    assert(s == p10 + l6);
    assert(l1.len() == 11 && l2.len() == 14 && l3.len() == 14 && l4.len() == 18 && l5.len() == 18
        && l6.len() == 2);
    assert forall|k: int| 0 <= k < 11 implies s[k] == #[trigger] l1[k] by {
        assert(s[k] == p10[k]);
        assert(p10[k] == p9[k]);
        assert(p9[k] == p8[k]);
        assert(p8[k] == p7[k]);
        assert(p7[k] == p6[k]);
        assert(p6[k] == p5[k]);
        assert(p5[k] == p4[k]);
        assert(p4[k] == p3[k]);
        assert(p3[k] == p2[k]);
        assert(p2[k] == p1[k]);
    }
    assert forall|k: int| 0 <= k < e1.len() implies s[off_e1(p) + k] == #[trigger] e1[k] by {
        let x = off_e1(p) + k;
        assert(s[x] == p10[x]);
        assert(p10[x] == p9[x]);
        assert(p9[x] == p8[x]);
        assert(p8[x] == p7[x]);
        assert(p7[x] == p6[x]);
        assert(p6[x] == p5[x]);
        assert(p5[x] == p4[x]);
        assert(p4[x] == p3[x]);
        assert(p3[x] == p2[x]);
        assert(p2[x] == e1[k]);
    }
    assert forall|k: int| 0 <= k < 14 implies s[off_l2(p) + k] == #[trigger] l2[k] by {
        let x = off_l2(p) + k;
        assert(s[x] == p10[x]);
        assert(p10[x] == p9[x]);
        assert(p9[x] == p8[x]);
        assert(p8[x] == p7[x]);
        assert(p7[x] == p6[x]);
        assert(p6[x] == p5[x]);
        assert(p5[x] == p4[x]);
        assert(p4[x] == p3[x]);
        assert(p3[x] == l2[k]);
    }
    assert forall|k: int| 0 <= k < e2.len() implies s[off_e2(p) + k] == #[trigger] e2[k] by {
        let x = off_e2(p) + k;
        assert(s[x] == p10[x]);
        assert(p10[x] == p9[x]);
        assert(p9[x] == p8[x]);
        assert(p8[x] == p7[x]);
        assert(p7[x] == p6[x]);
        assert(p6[x] == p5[x]);
        assert(p5[x] == p4[x]);
        assert(p4[x] == e2[k]);
    }
    assert forall|k: int| 0 <= k < 14 implies s[off_l3(p) + k] == #[trigger] l3[k] by {
        let x = off_l3(p) + k;
        assert(s[x] == p10[x]);
        assert(p10[x] == p9[x]);
        assert(p9[x] == p8[x]);
        assert(p8[x] == p7[x]);
        assert(p7[x] == p6[x]);
        assert(p6[x] == p5[x]);
        assert(p5[x] == l3[k]);
    }
    assert forall|k: int| 0 <= k < e3.len() implies s[off_e3(p) + k] == #[trigger] e3[k] by {
        let x = off_e3(p) + k;
        assert(s[x] == p10[x]);
        assert(p10[x] == p9[x]);
        assert(p9[x] == p8[x]);
        assert(p8[x] == p7[x]);
        assert(p7[x] == p6[x]);
        assert(p6[x] == e3[k]);
    }
    assert forall|k: int| 0 <= k < 18 implies s[off_l4(p) + k] == #[trigger] l4[k] by {
        let x = off_l4(p) + k;
        assert(s[x] == p10[x]);
        assert(p10[x] == p9[x]);
        assert(p9[x] == p8[x]);
        assert(p8[x] == p7[x]);
        assert(p7[x] == l4[k]);
    }
    assert forall|k: int| 0 <= k < d1.len() implies s[off_d1(p) + k] == #[trigger] d1[k] by {
        let x = off_d1(p) + k;
        assert(s[x] == p10[x]);
        assert(p10[x] == p9[x]);
        assert(p9[x] == p8[x]);
        assert(p8[x] == d1[k]);
    }
    assert forall|k: int| 0 <= k < 18 implies s[off_l5(p) + k] == #[trigger] l5[k] by {
        let x = off_l5(p) + k;
        assert(s[x] == p10[x]);
        assert(p10[x] == p9[x]);
        assert(p9[x] == l5[k]);
    }
    assert forall|k: int| 0 <= k < d2.len() implies s[off_d2(p) + k] == #[trigger] d2[k] by {
        let x = off_d2(p) + k;
        assert(s[x] == p10[x]);
        assert(p10[x] == d2[k]);
    }
    assert forall|k: int| 0 <= k < 2 implies s[off_l6(p) + k] == #[trigger] l6[k] by {
        let x = off_l6(p) + k;
        assert(s[x] == l6[k]);
    }
}

proof fn lemma_rt_member_id(p: ProjectV)
    ensures
        parse_member(render_descriptor_spec(p), 4) == Some(
            (("id"@, FmVal::Str(p.id)), off_l2(p) + 1),
        ),
{
    lemma_rt_layout(p);
    reveal_strlit("{\n  \"id\": \"");
    reveal_strlit("\",\n  \"name\": \"");
    reveal_strlit("id");
    let s = render_descriptor_spec(p);
    let l1 = seg_id_open();
    let l2 = seg_name_open();
    let e1 = escape_string(p.id);
    assert(s[4] == l1[4] && l1[4] == '"');
    assert(s[5] == l1[5] && l1[5] == 'i');
    assert(s[6] == l1[6] && l1[6] == 'd');
    assert(s[7] == l1[7] && l1[7] == '"');
    assert(s[8] == l1[8] && l1[8] == ':');
    assert(s[9] == l1[9] && l1[9] == ' ');
    assert(s[10] == l1[10] && l1[10] == '"');
    assert(parse_string_body(s, 7) == Some((Seq::<char>::empty(), 8int)));
    assert(parse_string_body(s, 6) == Some((seq!['d'] + Seq::<char>::empty(), 8int)));
    assert(parse_string_body(s, 5) == Some((seq!['i'] + (seq!['d'] + Seq::<char>::empty()), 8int)));
    assert(seq!['i'] + (seq!['d'] + Seq::<char>::empty()) =~= "id"@);
    assert(skip_ws_spec(s, 8) == 8);
    assert(skip_ws_spec(s, 9) == skip_ws_spec(s, 10));
    assert(skip_ws_spec(s, 10) == 10);
    let b = off_e1(p);
    assert forall|k: int| 0 <= k < e1.len() implies s.subrange(b, b + e1.len())[k]
        == #[trigger] e1[k] by {
        assert(s.subrange(b, b + e1.len())[k] == s[b + k]);
    }
    assert(s.subrange(b, b + e1.len()) =~= e1);
    assert(s[off_l2(p)] == l2[0] && l2[0] == '"');
    assert(s[b + e1.len()] == '"');
    lemma_parse_string_at(s, b, p.id);
}

proof fn lemma_rt_member_name(p: ProjectV)
    ensures
        parse_member(render_descriptor_spec(p), off_l2(p) + 5) == Some(
            (("name"@, FmVal::Str(p.name)), off_l3(p) + 1),
        ),
{
    lemma_rt_layout(p);
    reveal_strlit("\",\n  \"name\": \"");
    reveal_strlit("\",\n  \"path\": \"");
    reveal_strlit("name");
    let s = render_descriptor_spec(p);
    let l2 = seg_name_open();
    let l3 = seg_path_open();
    let e2 = escape_string(p.name);
    let a = off_l2(p);
    assert(s[a + 5] == l2[5] && l2[5] == '"');
    assert(s[a + 6] == l2[6] && l2[6] == 'n');
    assert(s[a + 7] == l2[7] && l2[7] == 'a');
    assert(s[a + 8] == l2[8] && l2[8] == 'm');
    assert(s[a + 9] == l2[9] && l2[9] == 'e');
    assert(s[a + 10] == l2[10] && l2[10] == '"');
    assert(s[a + 11] == l2[11] && l2[11] == ':');
    assert(s[a + 12] == l2[12] && l2[12] == ' ');
    assert(s[a + 13] == l2[13] && l2[13] == '"');
    assert(parse_string_body(s, a + 10) == Some((Seq::<char>::empty(), a + 11)));
    assert(parse_string_body(s, a + 9) == Some((seq!['e'] + Seq::<char>::empty(), a + 11)));
    assert(parse_string_body(s, a + 8) == Some((seq!['m'] + (seq!['e'] + Seq::<char>::empty()), a
        + 11)));
    assert(parse_string_body(s, a + 7) == Some((seq!['a'] + (seq!['m'] + (seq!['e'] + Seq::<
        char,
    >::empty())), a + 11)));
    assert(parse_string_body(s, a + 6) == Some((seq!['n'] + (seq!['a'] + (seq!['m'] + (seq!['e']
        + Seq::<char>::empty()))), a + 11)));
    assert(seq!['n'] + (seq!['a'] + (seq!['m'] + (seq!['e'] + Seq::<char>::empty()))) =~= "name"@);
    assert(skip_ws_spec(s, a + 11) == a + 11);
    assert(skip_ws_spec(s, a + 12) == skip_ws_spec(s, a + 13));
    assert(skip_ws_spec(s, a + 13) == a + 13);
    let b = off_e2(p);
    assert forall|k: int| 0 <= k < e2.len() implies s.subrange(b, b + e2.len())[k]
        == #[trigger] e2[k] by {
        assert(s.subrange(b, b + e2.len())[k] == s[b + k]);
    }
    assert(s.subrange(b, b + e2.len()) =~= e2);
    assert(s[off_l3(p)] == l3[0] && l3[0] == '"');
    assert(s[b + e2.len()] == '"');
    lemma_parse_string_at(s, b, p.name);
}

proof fn lemma_rt_member_path(p: ProjectV)
    ensures
        parse_member(render_descriptor_spec(p), off_l3(p) + 5) == Some(
            (("path"@, FmVal::Str(p.path)), off_l4(p) + 1),
        ),
{
    lemma_rt_layout(p);
    reveal_strlit("\",\n  \"path\": \"");
    reveal_strlit("\",\n  \"createdAt\": ");
    reveal_strlit("path");
    let s = render_descriptor_spec(p);
    let l3 = seg_path_open();
    let l4 = seg_created_open();
    let e3 = escape_string(p.path);
    let a = off_l3(p);
    assert(s[a + 5] == l3[5] && l3[5] == '"');
    assert(s[a + 6] == l3[6] && l3[6] == 'p');
    assert(s[a + 7] == l3[7] && l3[7] == 'a');
    assert(s[a + 8] == l3[8] && l3[8] == 't');
    assert(s[a + 9] == l3[9] && l3[9] == 'h');
    assert(s[a + 10] == l3[10] && l3[10] == '"');
    assert(s[a + 11] == l3[11] && l3[11] == ':');
    assert(s[a + 12] == l3[12] && l3[12] == ' ');
    assert(s[a + 13] == l3[13] && l3[13] == '"');
    assert(parse_string_body(s, a + 10) == Some((Seq::<char>::empty(), a + 11)));
    assert(parse_string_body(s, a + 9) == Some((seq!['h'] + Seq::<char>::empty(), a + 11)));
    assert(parse_string_body(s, a + 8) == Some((seq!['t'] + (seq!['h'] + Seq::<char>::empty()), a
        + 11)));
    assert(parse_string_body(s, a + 7) == Some((seq!['a'] + (seq!['t'] + (seq!['h'] + Seq::<
        char,
    >::empty())), a + 11)));
    assert(parse_string_body(s, a + 6) == Some((seq!['p'] + (seq!['a'] + (seq!['t'] + (seq!['h']
        + Seq::<char>::empty()))), a + 11)));
    assert(seq!['p'] + (seq!['a'] + (seq!['t'] + (seq!['h'] + Seq::<char>::empty()))) =~= "path"@);
    assert(skip_ws_spec(s, a + 11) == a + 11);
    assert(skip_ws_spec(s, a + 12) == skip_ws_spec(s, a + 13));
    assert(skip_ws_spec(s, a + 13) == a + 13);
    let b = off_e3(p);
    assert forall|k: int| 0 <= k < e3.len() implies s.subrange(b, b + e3.len())[k]
        == #[trigger] e3[k] by {
        assert(s.subrange(b, b + e3.len())[k] == s[b + k]);
    }
    assert(s.subrange(b, b + e3.len()) =~= e3);
    assert(s[off_l4(p)] == l4[0] && l4[0] == '"');
    assert(s[b + e3.len()] == '"');
    lemma_parse_string_at(s, b, p.path);
}

proof fn lemma_rt_member_created(p: ProjectV)
    requires
        -0x8000000000000000 <= p.created_at <= 0x7fffffffffffffff,
    ensures
        parse_member(render_descriptor_spec(p), off_l4(p) + 5) == Some(
            (("createdAt"@, FmVal::Int(p.created_at)), off_l5(p)),
        ),
{
    lemma_rt_layout(p);
    reveal_strlit("\",\n  \"createdAt\": ");
    reveal_strlit(",\n  \"modifiedAt\": ");
    reveal_strlit("createdAt");
    let s = render_descriptor_spec(p);
    let l4 = seg_created_open();
    let l5 = seg_modified_open();
    let d1 = render_i64_spec(p.created_at);
    let a = off_l4(p);
    assert(s[a + 5] == l4[5] && l4[5] == '"');
    assert(s[a + 6] == l4[6] && l4[6] == 'c');
    assert(s[a + 7] == l4[7] && l4[7] == 'r');
    assert(s[a + 8] == l4[8] && l4[8] == 'e');
    assert(s[a + 9] == l4[9] && l4[9] == 'a');
    assert(s[a + 10] == l4[10] && l4[10] == 't');
    assert(s[a + 11] == l4[11] && l4[11] == 'e');
    assert(s[a + 12] == l4[12] && l4[12] == 'd');
    assert(s[a + 13] == l4[13] && l4[13] == 'A');
    assert(s[a + 14] == l4[14] && l4[14] == 't');
    assert(s[a + 15] == l4[15] && l4[15] == '"');
    assert(s[a + 16] == l4[16] && l4[16] == ':');
    assert(s[a + 17] == l4[17] && l4[17] == ' ');
    assert(parse_string_body(s, a + 15) == Some((Seq::<char>::empty(), a + 16)));
    assert(parse_string_body(s, a + 14) == Some((seq!['t'] + Seq::<char>::empty(), a + 16)));
    assert(parse_string_body(s, a + 13) == Some((seq!['A'] + (seq!['t'] + Seq::<char>::empty()), a
        + 16)));
    assert(parse_string_body(s, a + 12) == Some((seq!['d'] + (seq!['A'] + (seq!['t'] + Seq::<
        char,
    >::empty())), a + 16)));
    assert(parse_string_body(s, a + 11) == Some((seq!['e'] + (seq!['d'] + (seq!['A'] + (seq!['t']
        + Seq::<char>::empty()))), a + 16)));
    assert(parse_string_body(s, a + 10) == Some((seq!['t'] + (seq!['e'] + (seq!['d'] + (seq!['A']
        + (seq!['t'] + Seq::<char>::empty())))), a + 16)));
    assert(parse_string_body(s, a + 9) == Some((seq!['a'] + (seq!['t'] + (seq!['e'] + (seq!['d']
        + (seq!['A'] + (seq!['t'] + Seq::<char>::empty()))))), a + 16)));
    assert(parse_string_body(s, a + 8) == Some((seq!['e'] + (seq!['a'] + (seq!['t'] + (seq!['e']
        + (seq!['d'] + (seq!['A'] + (seq!['t'] + Seq::<char>::empty())))))), a + 16)));
    assert(parse_string_body(s, a + 7) == Some((seq!['r'] + (seq!['e'] + (seq!['a'] + (seq!['t']
        + (seq!['e'] + (seq!['d'] + (seq!['A'] + (seq!['t'] + Seq::<char>::empty()))))))), a
        + 16)));
    assert(parse_string_body(s, a + 6) == Some((seq!['c'] + (seq!['r'] + (seq!['e'] + (seq!['a']
        + (seq!['t'] + (seq!['e'] + (seq!['d'] + (seq!['A'] + (seq!['t'] + Seq::<
        char,
    >::empty())))))))), a + 16)));
    assert(seq!['c'] + (seq!['r'] + (seq!['e'] + (seq!['a'] + (seq!['t'] + (seq!['e'] + (seq!['d']
        + (seq!['A'] + (seq!['t'] + Seq::<char>::empty())))))))) =~= "createdAt"@);
    assert(skip_ws_spec(s, a + 16) == a + 16);
    let b = off_d1(p);
    assert(s[b] == d1[0]);
    assert(!json_ws(d1[0]) && d1[0] != '"') by {
        if p.created_at < 0 {
            assert(d1[0] == '-');
        } else {
            crate::text::lemma_dec_digits_val(p.created_at as nat);
            assert(is_digit_char(d1[0]));
        }
    };
    assert(skip_ws_spec(s, a + 17) == skip_ws_spec(s, a + 18));
    assert(skip_ws_spec(s, b) == b);
    assert forall|k: int| 0 <= k < d1.len() implies s.subrange(b, b + d1.len())[k]
        == #[trigger] d1[k] by {
        assert(s.subrange(b, b + d1.len())[k] == s[b + k]);
    }
    assert(s.subrange(b, b + d1.len()) =~= d1);
    assert(s[off_l5(p)] == l5[0] && l5[0] == ',');
    assert(!is_digit_char(','));
    assert(s[b + d1.len()] == ',');
    lemma_parse_int_at(s, b, p.created_at);
}

proof fn lemma_rt_member_modified(p: ProjectV)
    requires
        -0x8000000000000000 <= p.modified_at <= 0x7fffffffffffffff,
    ensures
        parse_member(render_descriptor_spec(p), off_l5(p) + 4) == Some(
            (("modifiedAt"@, FmVal::Int(p.modified_at)), off_l6(p)),
        ),
{
    lemma_rt_layout(p);
    reveal_strlit(",\n  \"modifiedAt\": ");
    reveal_strlit("\n}");
    reveal_strlit("modifiedAt");
    let s = render_descriptor_spec(p);
    let l5 = seg_modified_open();
    let l6 = seg_close();
    let d2 = render_i64_spec(p.modified_at);
    let a = off_l5(p);
    assert(s[a + 4] == l5[4] && l5[4] == '"');
    assert(s[a + 5] == l5[5] && l5[5] == 'm');
    assert(s[a + 6] == l5[6] && l5[6] == 'o');
    assert(s[a + 7] == l5[7] && l5[7] == 'd');
    assert(s[a + 8] == l5[8] && l5[8] == 'i');
    assert(s[a + 9] == l5[9] && l5[9] == 'f');
    assert(s[a + 10] == l5[10] && l5[10] == 'i');
    assert(s[a + 11] == l5[11] && l5[11] == 'e');
    assert(s[a + 12] == l5[12] && l5[12] == 'd');
    assert(s[a + 13] == l5[13] && l5[13] == 'A');
    assert(s[a + 14] == l5[14] && l5[14] == 't');
    assert(s[a + 15] == l5[15] && l5[15] == '"');
    assert(s[a + 16] == l5[16] && l5[16] == ':');
    assert(s[a + 17] == l5[17] && l5[17] == ' ');
    assert(parse_string_body(s, a + 15) == Some((Seq::<char>::empty(), a + 16)));
    assert(parse_string_body(s, a + 14) == Some((seq!['t'] + Seq::<char>::empty(), a + 16)));
    assert(parse_string_body(s, a + 13) == Some((seq!['A'] + (seq!['t'] + Seq::<char>::empty()), a
        + 16)));
    assert(parse_string_body(s, a + 12) == Some((seq!['d'] + (seq!['A'] + (seq!['t'] + Seq::<
        char,
    >::empty())), a + 16)));
    assert(parse_string_body(s, a + 11) == Some((seq!['e'] + (seq!['d'] + (seq!['A'] + (seq!['t']
        + Seq::<char>::empty()))), a + 16)));
    assert(parse_string_body(s, a + 10) == Some((seq!['i'] + (seq!['e'] + (seq!['d'] + (seq!['A']
        + (seq!['t'] + Seq::<char>::empty())))), a + 16)));
    assert(parse_string_body(s, a + 9) == Some((seq!['f'] + (seq!['i'] + (seq!['e'] + (seq!['d']
        + (seq!['A'] + (seq!['t'] + Seq::<char>::empty()))))), a + 16)));
    assert(parse_string_body(s, a + 8) == Some((seq!['i'] + (seq!['f'] + (seq!['i'] + (seq!['e']
        + (seq!['d'] + (seq!['A'] + (seq!['t'] + Seq::<char>::empty())))))), a + 16)));
    assert(parse_string_body(s, a + 7) == Some((seq!['d'] + (seq!['i'] + (seq!['f'] + (seq!['i']
        + (seq!['e'] + (seq!['d'] + (seq!['A'] + (seq!['t'] + Seq::<char>::empty()))))))), a
        + 16)));
    assert(parse_string_body(s, a + 6) == Some((seq!['o'] + (seq!['d'] + (seq!['i'] + (seq!['f']
        + (seq!['i'] + (seq!['e'] + (seq!['d'] + (seq!['A'] + (seq!['t'] + Seq::<
        char,
    >::empty())))))))), a + 16)));
    assert(parse_string_body(s, a + 5) == Some((seq!['m'] + (seq!['o'] + (seq!['d'] + (seq!['i']
        + (seq!['f'] + (seq!['i'] + (seq!['e'] + (seq!['d'] + (seq!['A'] + (seq!['t'] + Seq::<
        char,
    >::empty()))))))))), a + 16)));
    assert(seq!['m'] + (seq!['o'] + (seq!['d'] + (seq!['i'] + (seq!['f'] + (seq!['i'] + (seq!['e']
        + (seq!['d'] + (seq!['A'] + (seq!['t'] + Seq::<char>::empty()))))))))) =~= "modifiedAt"@);
    assert(skip_ws_spec(s, a + 16) == a + 16);
    let b = off_d2(p);
    assert(s[b] == d2[0]);
    assert(!json_ws(d2[0]) && d2[0] != '"') by {
        if p.modified_at < 0 {
            assert(d2[0] == '-');
        } else {
            crate::text::lemma_dec_digits_val(p.modified_at as nat);
            assert(is_digit_char(d2[0]));
        }
    };
    assert(skip_ws_spec(s, a + 17) == skip_ws_spec(s, a + 18));
    assert(skip_ws_spec(s, b) == b);
    assert forall|k: int| 0 <= k < d2.len() implies s.subrange(b, b + d2.len())[k]
        == #[trigger] d2[k] by {
        assert(s.subrange(b, b + d2.len())[k] == s[b + k]);
    }
    assert(s.subrange(b, b + d2.len()) =~= d2);
    assert(s[off_l6(p)] == l6[0] && l6[0] == '\n');
    assert(!is_digit_char('\n'));
    assert(s[b + d2.len()] == '\n');
    lemma_parse_int_at(s, b, p.modified_at);
}

/// The five members of a rendered descriptor, in order.
pub open spec fn rt_members(p: ProjectV) -> Seq<(Seq<char>, FmVal)> {
    seq![
        ("id"@, FmVal::Str(p.id)),
        ("name"@, FmVal::Str(p.name)),
        ("path"@, FmVal::Str(p.path)),
        ("createdAt"@, FmVal::Int(p.created_at)),
        ("modifiedAt"@, FmVal::Int(p.modified_at)),
    ]
}

/// The white space and punctuation between the members of a rendered
/// descriptor.
pub open spec fn rt_gaps_facts(p: ProjectV) -> bool {
    let s = render_descriptor_spec(p);
    &&& s.len() == off_l6(p) + 2
    &&& skip_ws_spec(s, 0) == 0
    &&& s[0] == '{'
    &&& skip_ws_spec(s, 1) == 4
    &&& s[4] == '"'
    &&& skip_ws_spec(s, off_l2(p) + 1) == off_l2(p) + 1
    &&& s[off_l2(p) + 1] == ','
    &&& skip_ws_spec(s, off_l2(p) + 2) == off_l2(p) + 5
    &&& skip_ws_spec(s, off_l3(p) + 1) == off_l3(p) + 1
    &&& s[off_l3(p) + 1] == ','
    &&& skip_ws_spec(s, off_l3(p) + 2) == off_l3(p) + 5
    &&& skip_ws_spec(s, off_l4(p) + 1) == off_l4(p) + 1
    &&& s[off_l4(p) + 1] == ','
    &&& skip_ws_spec(s, off_l4(p) + 2) == off_l4(p) + 5
    &&& skip_ws_spec(s, off_l5(p)) == off_l5(p)
    &&& s[off_l5(p)] == ','
    &&& skip_ws_spec(s, off_l5(p) + 1) == off_l5(p) + 4
    &&& skip_ws_spec(s, off_l6(p)) == off_l6(p) + 1
    &&& s[off_l6(p) + 1] == '}'
    &&& skip_ws_spec(s, off_l6(p) + 2) == off_l6(p) + 2
}

#[verifier::rlimit(60)]
proof fn lemma_rt_gaps(p: ProjectV)
    ensures
        rt_gaps_facts(p),
{
    lemma_rt_layout(p);
    reveal_strlit("{\n  \"id\": \"");
    reveal_strlit("\",\n  \"name\": \"");
    reveal_strlit("\",\n  \"path\": \"");
    reveal_strlit("\",\n  \"createdAt\": ");
    reveal_strlit(",\n  \"modifiedAt\": ");
    reveal_strlit("\n}");
    let s = render_descriptor_spec(p);
    let l1 = seg_id_open();
    let l2 = seg_name_open();
    let l3 = seg_path_open();
    let l4 = seg_created_open();
    let l5 = seg_modified_open();
    let l6 = seg_close();
    assert(s[0] == l1[0] && l1[0] == '{');
    assert(s[1] == l1[1] && l1[1] == '\n');
    assert(s[2] == l1[2] && l1[2] == ' ');
    assert(s[3] == l1[3] && l1[3] == ' ');
    assert(s[4] == l1[4] && l1[4] == '"');
    assert(skip_ws_spec(s, 0) == 0);
    assert(skip_ws_spec(s, 1) == skip_ws_spec(s, 2));
    assert(skip_ws_spec(s, 2) == skip_ws_spec(s, 3));
    assert(skip_ws_spec(s, 3) == skip_ws_spec(s, 4));
    assert(skip_ws_spec(s, 4) == 4);
    let a2 = off_l2(p);
    assert(s[a2 + 1] == l2[1] && l2[1] == ',');
    assert(s[a2 + 2] == l2[2] && l2[2] == '\n');
    assert(s[a2 + 3] == l2[3] && l2[3] == ' ');
    assert(s[a2 + 4] == l2[4] && l2[4] == ' ');
    assert(s[a2 + 5] == l2[5] && l2[5] == '"');
    assert(skip_ws_spec(s, a2 + 1) == a2 + 1);
    assert(skip_ws_spec(s, a2 + 2) == skip_ws_spec(s, a2 + 3));
    assert(skip_ws_spec(s, a2 + 3) == skip_ws_spec(s, a2 + 4));
    assert(skip_ws_spec(s, a2 + 4) == skip_ws_spec(s, a2 + 5));
    assert(skip_ws_spec(s, a2 + 5) == a2 + 5);
    let a3 = off_l3(p);
    assert(s[a3 + 1] == l3[1] && l3[1] == ',');
    assert(s[a3 + 2] == l3[2] && l3[2] == '\n');
    assert(s[a3 + 3] == l3[3] && l3[3] == ' ');
    assert(s[a3 + 4] == l3[4] && l3[4] == ' ');
    assert(s[a3 + 5] == l3[5] && l3[5] == '"');
    assert(skip_ws_spec(s, a3 + 1) == a3 + 1);
    assert(skip_ws_spec(s, a3 + 2) == skip_ws_spec(s, a3 + 3));
    assert(skip_ws_spec(s, a3 + 3) == skip_ws_spec(s, a3 + 4));
    assert(skip_ws_spec(s, a3 + 4) == skip_ws_spec(s, a3 + 5));
    assert(skip_ws_spec(s, a3 + 5) == a3 + 5);
    let a4 = off_l4(p);
    assert(s[a4 + 1] == l4[1] && l4[1] == ',');
    assert(s[a4 + 2] == l4[2] && l4[2] == '\n');
    assert(s[a4 + 3] == l4[3] && l4[3] == ' ');
    assert(s[a4 + 4] == l4[4] && l4[4] == ' ');
    assert(s[a4 + 5] == l4[5] && l4[5] == '"');
    assert(skip_ws_spec(s, a4 + 1) == a4 + 1);
    assert(skip_ws_spec(s, a4 + 2) == skip_ws_spec(s, a4 + 3));
    assert(skip_ws_spec(s, a4 + 3) == skip_ws_spec(s, a4 + 4));
    assert(skip_ws_spec(s, a4 + 4) == skip_ws_spec(s, a4 + 5));
    assert(skip_ws_spec(s, a4 + 5) == a4 + 5);
    let a5 = off_l5(p);
    assert(s[a5] == l5[0] && l5[0] == ',');
    assert(s[a5 + 1] == l5[1] && l5[1] == '\n');
    assert(s[a5 + 2] == l5[2] && l5[2] == ' ');
    assert(s[a5 + 3] == l5[3] && l5[3] == ' ');
    assert(s[a5 + 4] == l5[4] && l5[4] == '"');
    assert(skip_ws_spec(s, a5) == a5);
    assert(skip_ws_spec(s, a5 + 1) == skip_ws_spec(s, a5 + 2));
    assert(skip_ws_spec(s, a5 + 2) == skip_ws_spec(s, a5 + 3));
    assert(skip_ws_spec(s, a5 + 3) == skip_ws_spec(s, a5 + 4));
    assert(skip_ws_spec(s, a5 + 4) == a5 + 4);
    let a6 = off_l6(p);
    assert(s[a6] == l6[0] && l6[0] == '\n');
    assert(s[a6 + 1] == l6[1] && l6[1] == '}');
    assert(skip_ws_spec(s, a6) == skip_ws_spec(s, a6 + 1));
    assert(skip_ws_spec(s, a6 + 1) == a6 + 1);
    assert(skip_ws_spec(s, a6 + 2) == a6 + 2);
}

#[verifier::rlimit(60)]
proof fn lemma_rt_object(p: ProjectV)
    requires
        -0x8000000000000000 <= p.created_at <= 0x7fffffffffffffff,
        -0x8000000000000000 <= p.modified_at <= 0x7fffffffffffffff,
    ensures
        parse_object(render_descriptor_spec(p)) == Some(rt_members(p)),
{
    lemma_rt_gaps(p);
    lemma_rt_member_id(p);
    lemma_rt_member_name(p);
    lemma_rt_member_path(p);
    lemma_rt_member_created(p);
    lemma_rt_member_modified(p);
    let s = render_descriptor_spec(p);
    let m1 = ("id"@, FmVal::Str(p.id));
    let m2 = ("name"@, FmVal::Str(p.name));
    let m3 = ("path"@, FmVal::Str(p.path));
    let m4 = ("createdAt"@, FmVal::Int(p.created_at));
    let m5 = ("modifiedAt"@, FmVal::Int(p.modified_at));
    let a2 = off_l2(p);
    let a3 = off_l3(p);
    let a4 = off_l4(p);
    let a5 = off_l5(p);
    let a6 = off_l6(p);
    // assemble the member list, last member first
    assert(parse_members(s, a5 + 4) == Some((seq![m5], a6 + 2)));
    assert(parse_members(s, a4 + 5) == Some((seq![m4] + seq![m5], a6 + 2)));
    assert(parse_members(s, a3 + 5) == Some((seq![m3] + (seq![m4] + seq![m5]), a6 + 2)));
    assert(parse_members(s, a2 + 5) == Some((seq![m2] + (seq![m3] + (seq![m4] + seq![m5])), a6
        + 2)));
    assert(parse_members(s, 4) == Some((seq![m1] + (seq![m2] + (seq![m3] + (seq![m4] + seq![m5]))),
        a6 + 2)));
    assert(seq![m1] + (seq![m2] + (seq![m3] + (seq![m4] + seq![m5]))) =~= rt_members(p));
    assert(s[4] != '}');
    assert(parse_object(s) == Some(rt_members(p)));
}

/// Rendering a record and parsing the text back yields the record: the
/// descriptor codec loses nothing, whatever the field values hold.
#[verifier::rlimit(80)]
pub proof fn lemma_descriptor_round_trip(p: ProjectV)
    requires
        -0x8000000000000000 <= p.created_at <= 0x7fffffffffffffff,
        -0x8000000000000000 <= p.modified_at <= 0x7fffffffffffffff,
    ensures
        parse_descriptor_spec(render_descriptor_spec(p)) == Some(p),
{
    lemma_rt_object(p);
    reveal_strlit("id");
    reveal_strlit("name");
    reveal_strlit("path");
    reveal_strlit("createdAt");
    reveal_strlit("created_at");
    reveal_strlit("modifiedAt");
    reveal_strlit("modified_at");
    let s = render_descriptor_spec(p);
    let ms = rt_members(p);
    let m1 = ("id"@, FmVal::Str(p.id));
    let m2 = ("name"@, FmVal::Str(p.name));
    let m3 = ("path"@, FmVal::Str(p.path));
    let m4 = ("createdAt"@, FmVal::Int(p.created_at));
    let m5 = ("modifiedAt"@, FmVal::Int(p.modified_at));
    assert("id"@.len() == 2 && "name"@.len() == 4 && "path"@.len() == 4 && "createdAt"@.len() == 9
        && "created_at"@.len() == 10 && "modifiedAt"@.len() == 10 && "modified_at"@.len() == 11);
    assert("name"@ != "path"@) by {
        assert("name"@[0] == 'n' && "path"@[0] == 'p');
    };
    assert("modifiedAt"@ != "created_at"@) by {
        assert("modifiedAt"@[0] == 'm' && "created_at"@[0] == 'c');
    };
    assert(ms.drop_last() =~= seq![m1, m2, m3, m4]);
    assert(seq![m1, m2, m3, m4].drop_last() =~= seq![m1, m2, m3]);
    assert(seq![m1, m2, m3].drop_last() =~= seq![m1, m2]);
    assert(seq![m1, m2].drop_last() =~= seq![m1]);
    assert(seq![m1].drop_last() =~= Seq::<(Seq<char>, FmVal)>::empty());
    reveal_with_fuel(member_values, 7);
    assert(member_values(ms, "id"@, "id"@) =~= seq![FmVal::Str(p.id)]);
    assert(member_values(ms, "name"@, "name"@) =~= seq![FmVal::Str(p.name)]);
    assert(member_values(ms, "path"@, "path"@) =~= seq![FmVal::Str(p.path)]);
    assert(member_values(ms, "createdAt"@, "created_at"@) =~= seq![FmVal::Int(p.created_at)]);
    assert(member_values(ms, "modifiedAt"@, "modified_at"@) =~= seq![FmVal::Int(p.modified_at)]);
    assert(parse_descriptor_spec(s) == Some(
        ProjectV {
            id: p.id,
            name: p.name,
            path: p.path,
            created_at: p.created_at,
            modified_at: p.modified_at,
        },
    ));
}

/// How often a key occurs among the members, and where its single
/// occurrence sits when there is exactly one.
fn field_values(ms: &Vec<(String, FmValue)>, k1: &str, k2: &str) -> (r: (usize, usize))
    ensures
        r.0 as int == member_values(
            ms@.map_values(|m: (String, FmValue)| (m.0@, m.1@)),
            k1@,
            k2@,
        ).len(),
        r.0 == 1 ==> r.1 < ms@.len() && ms@[r.1 as int].1@ == member_values(
            ms@.map_values(|m: (String, FmValue)| (m.0@, m.1@)),
            k1@,
            k2@,
        )[0],
{
    let ghost accf = |m: (String, FmValue)| (m.0@, m.1@);
    let ghost msv = ms@.map_values(accf);
    let mut count: usize = 0;
    let mut ix: usize = 0;
    let mut t: usize = 0;
    proof {
        assert(msv.take(0) =~= Seq::<(Seq<char>, FmVal)>::empty());
    }
    while t < ms.len()
        invariant
            t <= ms@.len(),
            msv == ms@.map_values(accf),
            accf == (|m: (String, FmValue)| (m.0@, m.1@)),
            count <= t,
            count as int == member_values(msv.take(t as int), k1@, k2@).len(),
            count == 1 ==> ix < ms@.len() && ms@[ix as int].1@ == member_values(
                msv.take(t as int),
                k1@,
                k2@,
            )[0],
        decreases ms@.len() - t,
    {
        let ghost before = member_values(msv.take(t as int), k1@, k2@);
        proof {
            assert(msv.take(t + 1).drop_last() =~= msv.take(t as int));
            assert(msv.take(t + 1).last() == msv[t as int]);
            assert(msv[t as int] == (ms@[t as int].0@, ms@[t as int].1@));
        }
        if str_eq(ms[t].0.as_str(), k1) || str_eq(ms[t].0.as_str(), k2) {
            proof {
                assert(member_values(msv.take(t + 1), k1@, k2@) =~= before.push(
                    msv[t as int].1,
                ));
            }
            if count == 0 {
                ix = t;
            }
            count = count + 1;
            proof {
                if count == 1 {
                    assert(member_values(msv.take(t + 1), k1@, k2@)[0] == msv[t as int].1);
                }
            }
        } else {
            proof {
                assert(member_values(msv.take(t + 1), k1@, k2@) =~= before);
            }
        }
        t = t + 1;
    }
    proof {
        assert(msv.take(ms@.len() as int) =~= msv);
    }
    (count, ix)
}

/// Parses a descriptor text into a project record, or nothing when the
/// text does not have the descriptor shape.
pub fn parse_descriptor(s: &str) -> (r: Option<Project>)
    ensures
        match parse_descriptor_spec(s@) {
            Some(pv) => r matches Some(p) && p@ == pv,
            None => r is None,
        },
{
    let v = str_chars(s);
    let i = skip_ws(&v, 0);
    if !(i < v.len() && v[i] == '{') {
        return None;
    }
    let j = skip_ws(&v, i + 1);
    if j < v.len() && v[j] == '}' {
        let e = skip_ws(&v, j + 1);
        // an empty object has no fields and never the descriptor shape
        proof {
            if parse_object(s@) is Some {
                let ms = parse_object(s@).unwrap();
                assert(ms =~= Seq::<(Seq<char>, FmVal)>::empty());
                assert(member_values(ms, "id"@, "id"@).len() == 0);
            }
        }
        return None;
    }
    let members = match parse_members_exec(&v, j) {
        Some((ms, k)) => {
            let e = skip_ws(&v, k);
            if e != v.len() {
                return None;
            }
            ms
        },
        None => {
            return None;
        },
    };
    let ghost msv = members@.map_values(|m: (String, FmValue)| (m.0@, m.1@));
    proof {
        assert(parse_object(s@) == Some(msv));
    }
    let (n_id, ix_id) = field_values(&members, "id", "id");
    let (n_name, ix_name) = field_values(&members, "name", "name");
    let (n_path, ix_path) = field_values(&members, "path", "path");
    let (n_created, ix_created) = field_values(&members, "createdAt", "created_at");
    let (n_modified, ix_modified) = field_values(&members, "modifiedAt", "modified_at");
    if !(n_id == 1 && n_name == 1 && n_path == 1 && n_created == 1 && n_modified == 1) {
        return None;
    }
    let id: String = match &members[ix_id].1 {
        FmValue::StringValue(x) => x.clone(),
        FmValue::IntValue(_) => {
            return None;
        },
    };
    let name: String = match &members[ix_name].1 {
        FmValue::StringValue(x) => x.clone(),
        FmValue::IntValue(_) => {
            return None;
        },
    };
    let path: String = match &members[ix_path].1 {
        FmValue::StringValue(x) => x.clone(),
        FmValue::IntValue(_) => {
            return None;
        },
    };
    let created_at: i64 = match &members[ix_created].1 {
        FmValue::IntValue(n) => *n,
        FmValue::StringValue(_) => {
            return None;
        },
    };
    let modified_at: i64 = match &members[ix_modified].1 {
        FmValue::IntValue(n) => *n,
        FmValue::StringValue(_) => {
            return None;
        },
    };
    Some(Project { id, name, path, created_at, modified_at })
}

} // verus!
