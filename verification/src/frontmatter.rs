//! Frontmatter: the optional header block at the top of a document file,
//! delimited by a line of exactly `---` at the start and a later line of
//! exactly `---`, carrying flat `key: value` pairs. A value that parses
//! entirely as a base-10 integer is stored as a number, anything else as a
//! trimmed string. A file lacking the opening delimiter has no frontmatter
//! and is all body.

use vstd::prelude::*;

use crate::outside::chars_to_string;
use crate::text::{
    find_char_in, first_index_of, is_i64_literal, i64_literal_val, lemma_first_index_of_is,
    lemma_first_index_of_none, parse_i64_chars, str_chars, str_eq, strip_cr, trim_range, trim_spec,
    copy_range,
};

verus! {

/// A frontmatter value: integer if the raw text parses as one, else string.
#[derive(Clone, Debug)]
pub enum FmValue {
    IntValue(i64),
    StringValue(String),
}

/// Mathematical view of a frontmatter value.
pub enum FmVal {
    Int(int),
    Str(Seq<char>),
}

impl View for FmValue {
    type V = FmVal;

    open spec fn view(&self) -> FmVal {
        match self {
            FmValue::IntValue(n) => FmVal::Int(*n as int),
            FmValue::StringValue(s) => FmVal::Str(s@),
        }
    }
}

/// Parses one line: the text before the first `:` is the key, the rest the
/// raw value, both trimmed. A line without `:` contributes nothing.
pub open spec fn parse_kv_line(line: Seq<char>) -> Seq<(Seq<char>, FmVal)> {
    let i = first_index_of(line, ':');
    if i < 0 {
        seq![]
    } else {
        let key = trim_spec(line.take(i));
        let raw = trim_spec(line.skip(i + 1));
        seq![
            (
                key,
                if is_i64_literal(raw) {
                    FmVal::Int(i64_literal_val(raw))
                } else {
                    FmVal::Str(raw)
                },
            ),
        ]
    }
}

/// Parses a region of `key: value` lines, in order, as `str::lines` splits
/// them.
pub open spec fn parse_kv_region(s: Seq<char>) -> Seq<(Seq<char>, FmVal)>
    decreases s.len(),
{
    if s.len() == 0 {
        seq![]
    } else {
        let i = first_index_of(s, '\n');
        if 0 <= i && i < s.len() {
            parse_kv_line(strip_cr(s.take(i))) + parse_kv_region(s.skip(i + 1))
        } else {
            parse_kv_line(strip_cr(s))
        }
    }
}

/// Looks a key up among parsed pairs; a later line overwrites an earlier one.
pub open spec fn fm_lookup(pairs: Seq<(Seq<char>, FmVal)>, key: Seq<char>) -> Option<FmVal>
    decreases pairs.len(),
{
    if pairs.len() == 0 {
        None
    } else if pairs.last().0 == key {
        Some(pairs.last().1)
    } else {
        fm_lookup(pairs.drop_last(), key)
    }
}

/// The string value of a key, if it has one.
pub open spec fn fm_str(pairs: Seq<(Seq<char>, FmVal)>, key: Seq<char>) -> Option<Seq<char>> {
    match fm_lookup(pairs, key) {
        Some(FmVal::Str(s)) => Some(s),
        _ => None,
    }
}

/// The integer value of a key, if it has one.
pub open spec fn fm_int(pairs: Seq<(Seq<char>, FmVal)>, key: Seq<char>) -> Option<int> {
    match fm_lookup(pairs, key) {
        Some(FmVal::Int(n)) => Some(n),
        _ => None,
    }
}

/// Whether the content opens with the frontmatter delimiter line.
pub open spec fn fm_open(s: Seq<char>) -> bool {
    s.len() >= 4 && s[0] == '-' && s[1] == '-' && s[2] == '-' && s[3] == '\n'
}

/// Whether a closing delimiter `\n---\n` sits at position `p`.
pub open spec fn fm_close_at(s: Seq<char>, p: int) -> bool {
    4 <= p && p + 5 <= s.len() && s[p] == '\n' && s[p + 1] == '-' && s[p + 2] == '-' && s[p + 3]
        == '-' && s[p + 4] == '\n'
}

/// The first closing delimiter at or after `q`, or -1 if there is none.
pub open spec fn fm_close_from(s: Seq<char>, q: int) -> int
    decreases s.len() + 5 - q,
{
    if q < 4 || q + 5 > s.len() {
        -1
    } else if fm_close_at(s, q) {
        q
    } else {
        fm_close_from(s, q + 1)
    }
}

pub proof fn lemma_fm_close_from(s: Seq<char>, q: int)
    requires
        4 <= q,
    ensures
        fm_close_from(s, q) == -1 ==> forall|j: int| q <= j ==> !fm_close_at(s, j),
        fm_close_from(s, q) >= 0 ==> q <= fm_close_from(s, q) && fm_close_at(s, fm_close_from(s, q))
            && forall|j: int| q <= j < fm_close_from(s, q) ==> !fm_close_at(s, j),
    decreases s.len() + 5 - q,
{
    if q + 5 > s.len() {
        assert forall|j: int| q <= j implies !fm_close_at(s, j) by {}
    } else if fm_close_at(s, q) {
    } else {
        lemma_fm_close_from(s, q + 1);
    }
}

/// A witness position pins `fm_close_from` down.
pub proof fn lemma_fm_close_from_is(s: Seq<char>, q: int, p: int)
    requires
        4 <= q <= p,
        fm_close_at(s, p),
        forall|j: int| #![trigger fm_close_at(s, j)] q <= j < p ==> !fm_close_at(s, j),
    ensures
        fm_close_from(s, q) == p,
    decreases p - q,
{
    if q == p {
    } else {
        assert(!fm_close_at(s, q));
        lemma_fm_close_from_is(s, q + 1, p);
    }
}

pub proof fn lemma_fm_close_from_none(s: Seq<char>, q: int)
    requires
        4 <= q,
        forall|j: int| #![trigger fm_close_at(s, j)] q <= j ==> !fm_close_at(s, j),
    ensures
        fm_close_from(s, q) == -1,
    decreases s.len() + 5 - q,
{
    if q + 5 > s.len() {
    } else {
        assert(!fm_close_at(s, q));
        lemma_fm_close_from_none(s, q + 1);
    }
}

/// The parsed pairs of the frontmatter block of `s`, empty when there is no
/// well-formed block.
pub open spec fn fm_pairs_spec(s: Seq<char>) -> Seq<(Seq<char>, FmVal)> {
    if fm_open(s) && fm_close_from(s, 4) >= 0 {
        parse_kv_region(s.subrange(4, fm_close_from(s, 4)))
    } else {
        seq![]
    }
}

/// The body of `s`: everything after the frontmatter block, or all of `s`
/// when there is no well-formed block.
pub open spec fn fm_body_spec(s: Seq<char>) -> Seq<char> {
    if fm_open(s) && fm_close_from(s, 4) >= 0 {
        s.skip(fm_close_from(s, 4) + 5)
    } else {
        s
    }
}

/// The parsed frontmatter of one document file.
#[derive(Clone, Debug)]
pub struct Frontmatter {
    pairs: Vec<(String, FmValue)>,
}

impl View for Frontmatter {
    type V = Seq<(Seq<char>, FmVal)>;

    closed spec fn view(&self) -> Seq<(Seq<char>, FmVal)> {
        self.pairs@.map_values(|p: (String, FmValue)| (p.0@, p.1@))
    }
}

impl Frontmatter {
    /// The string value of `key`, if the frontmatter has one.
    pub fn get_str(&self, key: &str) -> (r: Option<String>)
        ensures
            match fm_str(self@, key@) {
                Some(s) => r matches Some(x) && x@ == s,
                None => r is None,
            },
    {
        let ghost view = self@;
        let mut i: usize = self.pairs.len();
        proof {
            assert(view.take(i as int) =~= view);
        }
        while i > 0
            invariant
                i <= self.pairs@.len(),
                view == self@,
                fm_lookup(view, key@) == fm_lookup(view.take(i as int), key@),
            decreases i,
        {
            i = i - 1;
            proof {
                assert(view.take(i + 1).drop_last() =~= view.take(i as int));
                assert(view.take(i + 1).last() == view[i as int]);
                assert(view[i as int] == (self.pairs@[i as int].0@, self.pairs@[i as int].1@));
            }
            if str_eq(self.pairs[i].0.as_str(), key) {
                match &self.pairs[i].1 {
                    FmValue::StringValue(s) => {
                        return Some(s.clone());
                    },
                    FmValue::IntValue(_) => {
                        return None;
                    },
                }
            }
        }
        proof {
            assert(view.take(0) =~= Seq::<(Seq<char>, FmVal)>::empty());
        }
        None
    }

    /// The integer value of `key`, if the frontmatter has one.
    pub fn get_int(&self, key: &str) -> (r: Option<i64>)
        ensures
            match fm_int(self@, key@) {
                Some(n) => r matches Some(m) && m as int == n,
                None => r is None,
            },
    {
        let ghost view = self@;
        let mut i: usize = self.pairs.len();
        proof {
            assert(view.take(i as int) =~= view);
        }
        while i > 0
            invariant
                i <= self.pairs@.len(),
                view == self@,
                fm_lookup(view, key@) == fm_lookup(view.take(i as int), key@),
            decreases i,
        {
            i = i - 1;
            proof {
                assert(view.take(i + 1).drop_last() =~= view.take(i as int));
                assert(view.take(i + 1).last() == view[i as int]);
                assert(view[i as int] == (self.pairs@[i as int].0@, self.pairs@[i as int].1@));
            }
            if str_eq(self.pairs[i].0.as_str(), key) {
                match &self.pairs[i].1 {
                    FmValue::IntValue(n) => {
                        return Some(*n);
                    },
                    FmValue::StringValue(_) => {
                        return None;
                    },
                }
            }
        }
        proof {
            assert(view.take(0) =~= Seq::<(Seq<char>, FmVal)>::empty());
        }
        None
    }
}

/// Parses one raw line (before carriage-return stripping) into at most one
/// key-value pair.
fn parse_line(line: &Vec<char>) -> (r: Option<(String, FmValue)>)
    ensures
        match r {
            Some(pair) => parse_kv_line(strip_cr(line@)) == seq![(pair.0@, pair.1@)],
            None => parse_kv_line(strip_cr(line@)) == Seq::<(Seq<char>, FmVal)>::empty(),
        },
{
    let ghost stripped = strip_cr(line@);
    let end: usize = if line.len() > 0 && line[line.len() - 1] == '\r' {
        line.len() - 1
    } else {
        line.len()
    };
    proof {
        assert(stripped =~= line@.take(end as int));
    }
    let ci = find_char_in(line, 0, end, ':');
    match ci {
        None => {
            proof {
                assert(forall|k: int| 0 <= k < stripped.len() ==> stripped[k] != ':');
                lemma_first_index_of_none(stripped, ':');
            }
            None
        },
        Some(c) => {
            proof {
                assert(stripped[c as int] == ':');
                assert(forall|k: int| 0 <= k < c ==> stripped[k] != ':');
                lemma_first_index_of_is(stripped, ':', c as int);
            }
            let key_chars = trim_range(line, 0, c);
            let raw = trim_range(line, c + 1, end);
            proof {
                assert(line@.subrange(0, c as int) =~= stripped.take(c as int));
                assert(line@.subrange(c + 1, end as int) =~= stripped.skip(c + 1));
            }
            let key = chars_to_string(&key_chars);
            match parse_i64_chars(&raw) {
                Some(n) => Some((key, FmValue::IntValue(n))),
                None => Some((key, FmValue::StringValue(chars_to_string(&raw)))),
            }
        },
    }
}

/// Finds the first closing delimiter of a frontmatter block.
fn find_fm_close(v: &Vec<char>) -> (r: Option<usize>)
    ensures
        match r {
            Some(p) => fm_close_from(v@, 4) == p as int,
            None => fm_close_from(v@, 4) == -1,
        },
{
    let n = v.len();
    if n < 9 {
        proof {
            assert forall|j: int| 4 <= j implies !fm_close_at(v@, j) by {}
            lemma_fm_close_from_none(v@, 4);
        }
        return None;
    }
    let mut p: usize = 4;
    while p <= n - 5
        invariant
            4 <= p <= n,
            n == v@.len(),
            9 <= n,
            forall|j: int| 4 <= j < p ==> !fm_close_at(v@, j),
        decreases n - p,
    {
        if v[p] == '\n' && v[p + 1] == '-' && v[p + 2] == '-' && v[p + 3] == '-' && v[p + 4]
            == '\n' {
            proof {
                assert(fm_close_at(v@, p as int));
                lemma_fm_close_from_is(v@, 4, p as int);
            }
            return Some(p);
        }
        p = p + 1;
    }
    proof {
        assert forall|j: int| 4 <= j implies !fm_close_at(v@, j) by {
            if j + 5 > v@.len() {
            }
        }
        lemma_fm_close_from_none(v@, 4);
    }
    None
}

/// Splits a document's content into its parsed frontmatter and its body.
pub fn parse_frontmatter(content: &str) -> (r: (Frontmatter, String))
    ensures
        r.0@ == fm_pairs_spec(content@),
        r.1@ == fm_body_spec(content@),
{
    let ghost s = content@;
    let v = str_chars(content);
    let has_open: bool = v.len() >= 4 && v[0] == '-' && v[1] == '-' && v[2] == '-' && v[3] == '\n';
    if !has_open {
        let fm = Frontmatter { pairs: Vec::new() };
        proof {
            assert(fm@ =~= Seq::<(Seq<char>, FmVal)>::empty());
        }
        return (fm, content.to_owned());
    }
    let close = find_fm_close(&v);
    match close {
        None => {
            let fm = Frontmatter { pairs: Vec::new() };
            proof {
                assert(fm@ =~= Seq::<(Seq<char>, FmVal)>::empty());
            }
            (fm, content.to_owned())
        },
        Some(p) => {
            proof {
                lemma_fm_close_from(s, 4);
                assert(fm_close_at(s, p as int));
            }
            let ghost region = s.subrange(4, p as int);
            let mut fm = Frontmatter { pairs: Vec::new() };
            let mut pos: usize = 4;
            proof {
                assert(fm@ =~= Seq::<(Seq<char>, FmVal)>::empty());
                assert(s.subrange(pos as int, p as int) =~= region);
            }
            while pos < p
                invariant
                    4 <= pos <= p,
                    p + 5 <= s.len(),
                    v@ == s,
                    parse_kv_region(region) == fm@ + parse_kv_region(
                        s.subrange(pos as int, p as int),
                    ),
                    region == s.subrange(4, p as int),
                decreases p - pos,
            {
                let ghost sub = s.subrange(pos as int, p as int);
                let nl = find_char_in(&v, pos, p, '\n');
                let end: usize = match nl {
                    Some(k) => k,
                    None => p,
                };
                let line = copy_range(&v, pos, end);
                let parsed = parse_line(&line);
                let ghost fm0 = fm@;
                let ghost parsed_view: Option<(Seq<char>, FmVal)> = match parsed {
                    Some(ref pair) => Some((pair.0@, pair.1@)),
                    None => None,
                };
                match parsed {
                    Some(pair) => {
                        let ghost pv = (pair.0@, pair.1@);
                        fm.pairs.push(pair);
                        proof {
                            assert(fm@ =~= fm0.push(pv));
                        }
                    },
                    None => {},
                }
                proof {
                    match nl {
                        Some(k) => {
                            assert(sub[k - pos] == '\n');
                            assert(forall|j: int| 0 <= j < k - pos ==> sub[j] != '\n');
                            lemma_first_index_of_is(sub, '\n', k - pos);
                            assert(sub.take(k - pos) =~= line@);
                            assert(sub.skip(k - pos + 1) =~= s.subrange(k + 1, p as int));
                            assert(parse_kv_region(sub) == parse_kv_line(strip_cr(line@))
                                + parse_kv_region(s.subrange(k + 1, p as int)));
                        },
                        None => {
                            assert(forall|j: int| 0 <= j < sub.len() ==> sub[j] != '\n');
                            lemma_first_index_of_none(sub, '\n');
                            assert(sub =~= line@);
                            assert(parse_kv_region(sub) == parse_kv_line(strip_cr(line@)));
                            assert(s.subrange(p as int, p as int) =~= Seq::<char>::empty());
                            assert(parse_kv_line(strip_cr(line@)) == parse_kv_line(strip_cr(line@))
                                + parse_kv_region(s.subrange(p as int, p as int)));
                        },
                    }
                }
                pos = match nl {
                    Some(k) => k + 1,
                    None => p,
                };
                proof {
                    let rest = parse_kv_region(s.subrange(pos as int, p as int));
                    match parsed_view {
                        Some(pv) => {
                            assert(fm@ =~= fm0.push(pv));
                            assert(parse_kv_line(strip_cr(line@)) == seq![pv]);
                            assert(fm@ + rest =~= fm0 + (seq![pv] + rest));
                        },
                        None => {
                            assert(fm@ + rest =~= fm0 + (Seq::<(Seq<char>, FmVal)>::empty()
                                + rest));
                        },
                    }
                }
            }
            proof {
                assert(s.subrange(p as int, p as int) =~= Seq::<char>::empty());
                assert(fm@ + parse_kv_region(s.subrange(p as int, p as int)) =~= fm@);
                assert(fm@ == fm_pairs_spec(s));
            }
            let body_chars = copy_range(&v, p + 5, v.len());
            let body = chars_to_string(&body_chars);
            proof {
                assert(body@ =~= s.skip(p + 5));
            }
            (fm, body)
        },
    }
}

} // verus!
