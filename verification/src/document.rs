//! The document store's logic: filename sanitization, word counting, the
//! metadata fallback chains applied when a document is read back, and the
//! plans for creating, updating and deleting documents. The surrounding
//! application performs the filesystem calls and hands their results in as
//! plain values.

use vstd::prelude::*;

use crate::errors::StoreError;
use crate::frontmatter::{
    fm_body_spec, fm_int, fm_pairs_spec, fm_str, parse_frontmatter, FmVal,
};
use crate::models::{Document, DocumentV};
use crate::outside::{chars_to_string, new_id, now_timestamp};
use crate::paths::{file_stem, file_stem_spec, join_path, join_path_spec};
use crate::text::{
    find_char_from, is_space_char, lemma_first_index_of_is, lemma_first_index_of_none,
    push_all, push_str_chars, render_i64, render_i64_spec, space_char, str_chars, strip_cr,
    trim_range, trim_spec, first_index_of,
};

verus! {

// ---------------------------------------------------------------------------
// Filename sanitization
// ---------------------------------------------------------------------------

/// Characters that may not appear in a document filename.
pub open spec fn is_forbidden_filename_char(c: char) -> bool {
    c == '/' || c == '\\' || c == ':' || c == '*' || c == '?' || c == '"' || c == '<' || c == '>'
        || c == '|'
}

/// Replacement applied to each character of a title when forming a filename.
pub open spec fn replace_forbidden(c: char) -> char {
    if is_forbidden_filename_char(c) {
        '-'
    } else {
        c
    }
}

/// Each forbidden character replaced by `-`, then surrounding white space
/// trimmed; all other characters kept.
pub open spec fn sanitize_spec(s: Seq<char>) -> Seq<char> {
    trim_spec(s.map_values(|c: char| replace_forbidden(c)))
}

pub fn forbidden_filename_char(c: char) -> (r: bool)
    ensures
        r == is_forbidden_filename_char(c),
{
    c == '/' || c == '\\' || c == ':' || c == '*' || c == '?' || c == '"' || c == '<' || c == '>'
        || c == '|'
}

/// Sanitizes a title into a filename stem.
pub fn sanitize_filename(name: &str) -> (r: String)
    ensures
        r@ == sanitize_spec(name@),
{
    let v = str_chars(name);
    let mut mapped: Vec<char> = Vec::new();
    let mut i: usize = 0;
    proof {
        assert(mapped@ =~= v@.take(0).map_values(|c: char| replace_forbidden(c)));
    }
    while i < v.len()
        invariant
            i <= v@.len(),
            v@ == name@,
            mapped@ == v@.take(i as int).map_values(|c: char| replace_forbidden(c)),
        decreases v@.len() - i,
    {
        let c = v[i];
        if forbidden_filename_char(c) {
            mapped.push('-');
        } else {
            mapped.push(c);
        }
        i = i + 1;
        proof {
            assert(v@.take(i as int).map_values(|c: char| replace_forbidden(c)) =~= v@.take(
                i - 1,
            ).map_values(|c: char| replace_forbidden(c)).push(replace_forbidden(v@[i - 1])));
        }
    }
    proof {
        assert(v@.take(v@.len() as int) =~= v@);
    }
    let trimmed = trim_range(&mapped, 0, mapped.len());
    proof {
        assert(mapped@.subrange(0, mapped@.len() as int) =~= mapped@);
    }
    chars_to_string(&trimmed)
}

// ---------------------------------------------------------------------------
// Word counting
// ---------------------------------------------------------------------------

/// Words seen scanning `s`, given whether the previous character was white
/// space: a word starts at each non-space character that follows a space.
pub open spec fn count_words_from(s: Seq<char>, prev_space: bool) -> nat
    decreases s.len(),
{
    if s.len() == 0 {
        0
    } else {
        (if prev_space && !is_space_char(s[0]) {
            1nat
        } else {
            0nat
        }) + count_words_from(s.drop_first(), is_space_char(s[0]))
    }
}

/// The whitespace-delimited token count of `s`, as `str::split_whitespace`
/// yields tokens.
pub open spec fn word_count_spec(s: Seq<char>) -> nat {
    count_words_from(s, true)
}

/// Counts whitespace-delimited words.
pub fn count_words(text: &str) -> (n: usize)
    ensures
        n as nat == word_count_spec(text@),
{
    let v = str_chars(text);
    let mut n: usize = 0;
    let mut prev: bool = true;
    let mut i: usize = 0;
    proof {
        assert(v@.skip(0) =~= v@);
    }
    while i < v.len()
        invariant
            i <= v@.len(),
            v@ == text@,
            n <= i,
            word_count_spec(text@) == n + count_words_from(v@.skip(i as int), prev),
        decreases v@.len() - i,
    {
        let ghost sub = v@.skip(i as int);
        let sp = space_char(v[i]);
        proof {
            assert(sub[0] == v@[i as int]);
            assert(sub.drop_first() =~= v@.skip(i + 1));
        }
        if prev && !sp {
            n = n + 1;
        }
        prev = sp;
        i = i + 1;
    }
    proof {
        assert(v@.skip(v@.len() as int) =~= Seq::<char>::empty());
    }
    n
}

// ---------------------------------------------------------------------------
// Title derivation
// ---------------------------------------------------------------------------

pub open spec fn key_id() -> Seq<char> {
    seq!['i', 'd']
}

pub open spec fn key_title() -> Seq<char> {
    seq!['t', 'i', 't', 'l', 'e']
}

pub open spec fn key_created() -> Seq<char> {
    seq!['c', 'r', 'e', 'a', 't', 'e', 'd']
}

pub open spec fn untitled_name() -> Seq<char> {
    seq!['U', 'n', 't', 'i', 't', 'l', 'e', 'd']
}

/// Whether a line is a level-1 heading.
pub open spec fn is_heading_line(line: Seq<char>) -> bool {
    line.len() >= 2 && line[0] == '#' && line[1] == ' '
}

/// The line with every leading `# ` removed, as `trim_start_matches` leaves
/// it.
pub open spec fn strip_heading_marks(s: Seq<char>) -> Seq<char>
    decreases s.len(),
{
    if s.len() >= 2 && s[0] == '#' && s[1] == ' ' {
        strip_heading_marks(s.skip(2))
    } else {
        s
    }
}

/// The first heading line of the body, if any.
pub open spec fn first_heading(s: Seq<char>) -> Option<Seq<char>>
    decreases s.len(),
{
    if s.len() == 0 {
        None
    } else {
        let i = first_index_of(s, '\n');
        if 0 <= i && i < s.len() {
            if is_heading_line(strip_cr(s.take(i))) {
                Some(strip_cr(s.take(i)))
            } else {
                first_heading(s.skip(i + 1))
            }
        } else {
            if is_heading_line(strip_cr(s)) {
                Some(strip_cr(s))
            } else {
                None
            }
        }
    }
}

/// The title the body contributes: its first heading line, heading marks
/// stripped, trimmed.
pub open spec fn heading_title(body: Seq<char>) -> Option<Seq<char>> {
    match first_heading(body) {
        Some(line) => Some(trim_spec(strip_heading_marks(line))),
        None => None,
    }
}

/// Finds the body's heading-derived title.
fn find_heading_title(body: &str) -> (r: Option<String>)
    ensures
        match heading_title(body@) {
            Some(t) => r matches Some(x) && x@ == t,
            None => r is None,
        },
{
    let v = str_chars(body);
    let mut pos: usize = 0;
    proof {
        assert(v@.skip(0) =~= v@);
    }
    while pos < v.len()
        invariant
            pos <= v@.len(),
            v@ == body@,
            first_heading(body@) == first_heading(v@.skip(pos as int)),
        decreases v@.len() - pos,
    {
        let ghost sub = v@.skip(pos as int);
        let nl = find_char_from(&v, pos, '\n');
        let end: usize = match nl {
            Some(k) => k,
            None => v.len(),
        };
        proof {
            match nl {
                Some(k) => {
                    assert(sub[k - pos] == '\n');
                    assert(forall|j: int| 0 <= j < k - pos ==> sub[j] != '\n');
                    lemma_first_index_of_is(sub, '\n', k - pos);
                    assert(sub.take(k - pos) =~= v@.subrange(pos as int, k as int));
                },
                None => {
                    assert(forall|j: int| 0 <= j < sub.len() ==> sub[j] != '\n');
                    lemma_first_index_of_none(sub, '\n');
                    assert(sub =~= v@.subrange(pos as int, v@.len() as int));
                },
            }
        }
        let line_end: usize = if end > pos && v[end - 1] == '\r' {
            end - 1
        } else {
            end
        };
        let ghost line = strip_cr(v@.subrange(pos as int, end as int));
        proof {
            assert(line =~= v@.subrange(pos as int, line_end as int));
        }
        if line_end - pos >= 2 && v[pos] == '#' && v[pos + 1] == ' ' {
            proof {
                assert(line[0] == v@[pos as int] && line[1] == v@[pos + 1]);
                assert(is_heading_line(line));
            }
            let mut st: usize = pos;
            while line_end - st >= 2 && v[st] == '#' && v[st + 1] == ' '
                invariant
                    pos <= st <= line_end <= v@.len(),
                    v@ == body@,
                    strip_heading_marks(v@.subrange(pos as int, line_end as int))
                        == strip_heading_marks(v@.subrange(st as int, line_end as int)),
                decreases line_end - st,
            {
                proof {
                    let cur = v@.subrange(st as int, line_end as int);
                    assert(cur[0] == v@[st as int] && cur[1] == v@[st + 1]);
                    assert(cur.skip(2) =~= v@.subrange(st + 2, line_end as int));
                }
                st = st + 2;
            }
            proof {
                let fin = v@.subrange(st as int, line_end as int);
                assert(!(fin.len() >= 2 && fin[0] == '#' && fin[1] == ' ')) by {
                    if fin.len() >= 2 {
                        assert(fin[0] == v@[st as int] && fin[1] == v@[st + 1]);
                    }
                };
                assert(strip_heading_marks(fin) == fin);
            }
            let t = trim_range(&v, st, line_end);
            proof {
                assert(first_heading(sub) == Some(line));
                assert(t@ == trim_spec(strip_heading_marks(line)));
            }
            return Some(chars_to_string(&t));
        }
        proof {
            assert(!is_heading_line(line)) by {
                if line.len() >= 2 {
                    assert(line[0] == v@[pos as int] && line[1] == v@[pos + 1]);
                }
            };
            match nl {
                Some(k) => {
                    assert(sub.skip(k - pos + 1) =~= v@.skip(k + 1));
                    assert(first_heading(sub) == first_heading(v@.skip(k + 1)));
                },
                None => {
                    assert(first_heading(sub) is None);
                    assert(v@.skip(v@.len() as int) =~= Seq::<char>::empty());
                },
            }
        }
        pos = match nl {
            Some(k) => k + 1,
            None => v.len(),
        };
    }
    proof {
        assert(v@.skip(pos as int) =~= Seq::<char>::empty());
    }
    None
}

// ---------------------------------------------------------------------------
// Reading a document back
// ---------------------------------------------------------------------------

/// What the filesystem reported for one file: its text and its timestamps,
/// where the platform offers them, as whole seconds since the Unix epoch.
pub struct FileData {
    pub content: String,
    pub created_secs: Option<i64>,
    pub modified_secs: Option<i64>,
}

/// The outcome of fetching one file from disk.
pub enum ReadOutcome {
    /// The path does not exist.
    Missing,
    /// The path exists but reading it or its metadata failed.
    Unreadable,
    /// The file was read.
    File(FileData),
}

/// The id a read derives: the frontmatter's string `id`, or empty.
pub open spec fn derived_id(pairs: Seq<(Seq<char>, FmVal)>) -> Seq<char> {
    match fm_str(pairs, key_id()) {
        Some(s) => s,
        None => Seq::<char>::empty(),
    }
}

/// The title a read derives: the frontmatter's string `title`, else the
/// body's first heading, else the file stem, else `Untitled`.
pub open spec fn derived_title(
    pairs: Seq<(Seq<char>, FmVal)>,
    body: Seq<char>,
    path: Seq<char>,
) -> Seq<char> {
    match fm_str(pairs, key_title()) {
        Some(t) => t,
        None => match heading_title(body) {
            Some(t) => t,
            None => {
                let stem = file_stem_spec(path);
                if stem.len() == 0 {
                    untitled_name()
                } else {
                    stem
                }
            },
        },
    }
}

/// The creation time a read derives: the frontmatter's integer `created`,
/// else the filesystem's creation time, else 0.
pub open spec fn derived_created_at(
    pairs: Seq<(Seq<char>, FmVal)>,
    fs_created: Option<i64>,
) -> int {
    match fm_int(pairs, key_created()) {
        Some(n) => n,
        None => match fs_created {
            Some(t) => t as int,
            None => 0,
        },
    }
}

/// The record derived from one file's text and timestamps.
pub open spec fn derive_document_spec(
    path: Seq<char>,
    content: Seq<char>,
    fs_created: Option<i64>,
    fs_modified: Option<i64>,
) -> DocumentV {
    let pairs = fm_pairs_spec(content);
    let body = fm_body_spec(content);
    DocumentV {
        id: derived_id(pairs),
        project_id: Seq::<char>::empty(),
        path: path,
        title: derived_title(pairs, body, path),
        content: content,
        word_count: word_count_spec(body),
        created_at: derived_created_at(pairs, fs_created),
        modified_at: match fs_modified {
            Some(t) => t as int,
            None => 0,
        },
        metadata: None,
    }
}

/// Reads a document back from what the filesystem returned for its path.
/// `Missing` is the caller's report that the path does not exist.
pub fn read_document(document_path: &str, outcome: ReadOutcome) -> (r: Result<
    Document,
    StoreError,
>)
    ensures
        outcome is Missing ==> r == Err::<Document, StoreError>(StoreError::NotFound),
        outcome is Unreadable ==> r == Err::<Document, StoreError>(StoreError::IoError),
        (match outcome {
            ReadOutcome::File(f) => r matches Ok(d) && d@ == derive_document_spec(
                document_path@,
                f.content@,
                f.created_secs,
                f.modified_secs,
            ),
            _ => true,
        }),
{
    match outcome {
        ReadOutcome::Missing => Err(StoreError::NotFound),
        ReadOutcome::Unreadable => Err(StoreError::IoError),
        ReadOutcome::File(f) => {
            let ghost pairs = fm_pairs_spec(f.content@);
            let ghost body_spec = fm_body_spec(f.content@);
            let (fm, body) = parse_frontmatter(f.content.as_str());
            proof {
                reveal_strlit("id");
                reveal_strlit("title");
                reveal_strlit("created");
                assert("id"@ =~= key_id());
                assert("title"@ =~= key_title());
                assert("created"@ =~= key_created());
            }
            let id: String = match fm.get_str("id") {
                Some(s) => s,
                None => String::new(),
            };
            let title: String = match fm.get_str("title") {
                Some(t) => t,
                None => match find_heading_title(body.as_str()) {
                    Some(t) => t,
                    None => {
                        let stem = file_stem(document_path);
                        if stem.unicode_len() == 0 {
                            proof {
                                reveal_strlit("Untitled");
                                assert("Untitled"@ =~= untitled_name());
                            }
                            "Untitled".to_owned()
                        } else {
                            stem
                        }
                    },
                },
            };
            let created_at: i64 = match fm.get_int("created") {
                Some(n) => n,
                None => match f.created_secs {
                    Some(t) => t,
                    None => 0,
                },
            };
            let modified_at: i64 = match f.modified_secs {
                Some(t) => t,
                None => 0,
            };
            let word_count = count_words(body.as_str());
            let d = Document {
                id,
                project_id: String::new(),
                path: document_path.to_owned(),
                title,
                content: f.content,
                word_count,
                created_at,
                modified_at,
                metadata: None,
            };
            proof {
                assert(d@.title == derived_title(pairs, body_spec, document_path@));
                assert(d@ == derive_document_spec(
                    document_path@,
                    f.content@,
                    f.created_secs,
                    f.modified_secs,
                ));
            }
            Ok(d)
        },
    }
}

// ---------------------------------------------------------------------------
// Creating a document
// ---------------------------------------------------------------------------

/// The directory a new document lands in.
pub open spec fn document_dir_spec(
    root: Seq<char>,
    category: Seq<char>,
    subcategory: Option<&str>,
) -> Seq<char> {
    match subcategory {
        Some(s) => join_path_spec(join_path_spec(root, category), s@),
        None => join_path_spec(root, category),
    }
}

/// Joins the project root, the category, and the optional subcategory.
pub fn document_target_dir(project_path: &str, category: &str, subcategory: Option<&str>) -> (r:
    String)
    ensures
        r@ == document_dir_spec(project_path@, category@, subcategory),
{
    let dir = join_path(project_path, category);
    match subcategory {
        Some(s) => join_path(dir.as_str(), s),
        None => dir,
    }
}

/// The initial text of a new document: a frontmatter block carrying `id`,
/// `title` and `created`, a blank line, a level-1 heading equal to the
/// title, and a trailing blank line.
pub open spec fn new_document_content_spec(id: Seq<char>, title: Seq<char>, now: int) -> Seq<
    char,
> {
    lit_fm_head() + id + lit_title_key() + title + lit_created_key() + render_i64_spec(now)
        + lit_fm_tail() + title + lit_doc_end()
}

pub open spec fn lit_fm_head() -> Seq<char> {
    seq!['-', '-', '-', '\n', 'i', 'd', ':', ' ']
}

pub open spec fn lit_title_key() -> Seq<char> {
    seq!['\n', 't', 'i', 't', 'l', 'e', ':', ' ']
}

pub open spec fn lit_created_key() -> Seq<char> {
    seq!['\n', 'c', 'r', 'e', 'a', 't', 'e', 'd', ':', ' ']
}

pub open spec fn lit_fm_tail() -> Seq<char> {
    seq!['\n', '-', '-', '-', '\n', '\n', '#', ' ']
}

pub open spec fn lit_doc_end() -> Seq<char> {
    seq!['\n', '\n']
}

/// Renders the initial text of a new document.
pub fn new_document_content(id: &str, title: &str, now: i64) -> (r: String)
    ensures
        r@ == new_document_content_spec(id@, title@, now as int),
{
    let mut out: Vec<char> = Vec::new();
    push_str_chars(&mut out, "---\nid: ");
    proof {
        reveal_strlit("---\nid: ");
        assert(out@ =~= lit_fm_head());
    }
    push_str_chars(&mut out, id);
    let ghost c1 = lit_fm_head() + id@;
    push_str_chars(&mut out, "\ntitle: ");
    proof {
        reveal_strlit("\ntitle: ");
        assert("\ntitle: "@ =~= lit_title_key());
    }
    push_str_chars(&mut out, title);
    let ghost c2 = c1 + lit_title_key() + title@;
    proof {
        assert(out@ =~= c2);
    }
    push_str_chars(&mut out, "\ncreated: ");
    proof {
        reveal_strlit("\ncreated: ");
        assert("\ncreated: "@ =~= lit_created_key());
    }
    let digits = render_i64(now);
    push_all(&mut out, &digits);
    let ghost c3 = c2 + lit_created_key() + render_i64_spec(now as int);
    proof {
        assert(out@ =~= c3);
    }
    push_str_chars(&mut out, "\n---\n\n# ");
    proof {
        reveal_strlit("\n---\n\n# ");
        assert("\n---\n\n# "@ =~= lit_fm_tail());
    }
    push_str_chars(&mut out, title);
    push_str_chars(&mut out, "\n\n");
    proof {
        reveal_strlit("\n\n");
        assert("\n\n"@ =~= lit_doc_end());
        assert(out@ =~= c3 + lit_fm_tail() + title@ + lit_doc_end());
        assert(out@ =~= new_document_content_spec(id@, title@, now as int));
    }
    chars_to_string(&out)
}

// ---------------------------------------------------------------------------
// Reading back what create wrote
// ---------------------------------------------------------------------------

/// Where each part of a fresh document's text starts.
pub open spec fn nc_b2(id: Seq<char>) -> int {
    8 + id.len() as int
}

pub open spec fn nc_b3(id: Seq<char>) -> int {
    nc_b2(id) + 8
}

pub open spec fn nc_b4(id: Seq<char>, title: Seq<char>) -> int {
    nc_b3(id) + title.len()
}

pub open spec fn nc_b5(id: Seq<char>, title: Seq<char>) -> int {
    nc_b4(id, title) + 10
}

pub open spec fn nc_b6(id: Seq<char>, title: Seq<char>, now: int) -> int {
    nc_b5(id, title) + render_i64_spec(now).len()
}

pub open spec fn nc_b7(id: Seq<char>, title: Seq<char>, now: int) -> int {
    nc_b6(id, title, now) + 8
}

pub open spec fn nc_b8(id: Seq<char>, title: Seq<char>, now: int) -> int {
    nc_b7(id, title, now) + title.len()
}

/// The pointwise layout of a fresh document's text.
pub open spec fn nc_layout_facts(id: Seq<char>, title: Seq<char>, now: int) -> bool {
    let s = new_document_content_spec(id, title, now);
    &&& s.len() == nc_b8(id, title, now) + 2
    &&& forall|k: int| 0 <= k < 8 ==> s[k] == #[trigger] lit_fm_head()[k]
    &&& forall|k: int| 0 <= k < id.len() ==> s[8 + k] == #[trigger] id[k]
    &&& forall|k: int| 0 <= k < 8 ==> s[nc_b2(id) + k] == #[trigger] lit_title_key()[k]
    &&& forall|k: int|
        #![trigger title[k]]
        0 <= k < title.len() ==> s[nc_b3(id) + k] == title[k] && s[nc_b7(id, title, now) + k]
            == title[k]
    &&& forall|k: int| 0 <= k < 10 ==> s[nc_b4(id, title) + k] == #[trigger] lit_created_key()[k]
    &&& forall|k: int|
        0 <= k < render_i64_spec(now).len() ==> s[nc_b5(id, title) + k]
            == #[trigger] render_i64_spec(now)[k]
    &&& forall|k: int| 0 <= k < 8 ==> s[nc_b6(id, title, now) + k] == #[trigger] lit_fm_tail()[k]
    &&& forall|k: int| 0 <= k < 2 ==> s[nc_b8(id, title, now) + k] == #[trigger] lit_doc_end()[k]
}

proof fn lemma_nc_layout(id: Seq<char>, title: Seq<char>, now: int)
    ensures
        nc_layout_facts(id, title, now),
{
    let l1 = lit_fm_head();
    let l2 = lit_title_key();
    let l3 = lit_created_key();
    let l4 = lit_fm_tail();
    let l5 = lit_doc_end();
    let d = render_i64_spec(now);
    let p1 = l1;
    let p2 = p1 + id;
    let p3 = p2 + l2;
    let p4 = p3 + title;
    let p5 = p4 + l3;
    let p6 = p5 + d;
    let p7 = p6 + l4;
    let p8 = p7 + title;
    let s = new_document_content_spec(id, title, now);
    assert(s == p8 + l5);
    assert forall|k: int| 0 <= k < 8 implies s[k] == #[trigger] l1[k] by {
        assert(s[k] == p8[k]);
        assert(p8[k] == p7[k]);
        assert(p7[k] == p6[k]);
        assert(p6[k] == p5[k]);
        assert(p5[k] == p4[k]);
        assert(p4[k] == p3[k]);
        assert(p3[k] == p2[k]);
        assert(p2[k] == p1[k]);
    }
    assert forall|k: int| 0 <= k < id.len() implies s[8 + k] == #[trigger] id[k] by {
        let x = 8 + k;
        assert(s[x] == p8[x]);
        assert(p8[x] == p7[x]);
        assert(p7[x] == p6[x]);
        assert(p6[x] == p5[x]);
        assert(p5[x] == p4[x]);
        assert(p4[x] == p3[x]);
        assert(p3[x] == p2[x]);
        assert(p2[x] == id[k]);
    }
    assert forall|k: int| 0 <= k < 8 implies s[nc_b2(id) + k] == #[trigger] l2[k] by {
        let x = nc_b2(id) + k;
        assert(s[x] == p8[x]);
        assert(p8[x] == p7[x]);
        assert(p7[x] == p6[x]);
        assert(p6[x] == p5[x]);
        assert(p5[x] == p4[x]);
        assert(p4[x] == p3[x]);
        assert(p3[x] == l2[k]);
    }
    assert forall|k: int| #![trigger title[k]] 0 <= k < title.len() implies s[nc_b3(id) + k]
        == title[k] && s[nc_b7(id, title, now) + k] == title[k] by {
        let x = nc_b3(id) + k;
        assert(s[x] == p8[x]);
        assert(p8[x] == p7[x]);
        assert(p7[x] == p6[x]);
        assert(p6[x] == p5[x]);
        assert(p5[x] == p4[x]);
        assert(p4[x] == title[k]);
        let y = nc_b7(id, title, now) + k;
        assert(s[y] == p8[y]);
        assert(p8[y] == title[k]);
    }
    assert forall|k: int| 0 <= k < 10 implies s[nc_b4(id, title) + k] == #[trigger] l3[k] by {
        let x = nc_b4(id, title) + k;
        assert(s[x] == p8[x]);
        assert(p8[x] == p7[x]);
        assert(p7[x] == p6[x]);
        assert(p6[x] == p5[x]);
        assert(p5[x] == l3[k]);
    }
    assert forall|k: int| 0 <= k < d.len() implies s[nc_b5(id, title) + k] == #[trigger] d[k] by {
        let x = nc_b5(id, title) + k;
        assert(s[x] == p8[x]);
        assert(p8[x] == p7[x]);
        assert(p7[x] == p6[x]);
        assert(p6[x] == d[k]);
    }
    assert forall|k: int| 0 <= k < 8 implies s[nc_b6(id, title, now) + k] == #[trigger] l4[k] by {
        let x = nc_b6(id, title, now) + k;
        assert(s[x] == p8[x]);
        assert(p8[x] == p7[x]);
        assert(p7[x] == l4[k]);
    }
    assert forall|k: int| 0 <= k < 2 implies s[nc_b8(id, title, now) + k] == #[trigger] l5[k] by {
        let x = nc_b8(id, title, now) + k;
        assert(s[x] == l5[k]);
    }
}

/// A sequence whose ends carry no white space is its own trim.
pub proof fn lemma_trim_fixed(x: Seq<char>)
    requires
        x.len() > 0 ==> !is_space_char(x[0]) && !is_space_char(x[x.len() - 1]),
    ensures
        trim_spec(x) == x,
{
    crate::text::lemma_trim_front_at(x, 0);
    assert(x.skip(0) =~= x);
    crate::text::lemma_trim_back_at(x, x.len() as int);
    assert(x.take(x.len() as int) =~= x);
}

/// Trimming a single leading space off such a sequence yields it back.
pub proof fn lemma_trim_space_prefix(x: Seq<char>)
    requires
        x.len() > 0 ==> !is_space_char(x[0]) && !is_space_char(x[x.len() - 1]),
    ensures
        trim_spec(seq![' '] + x) == x,
{
    let y = seq![' '] + x;
    assert(is_space_char(' '));
    assert(y[0] == ' ');
    crate::text::lemma_trim_front_at(y, 1);
    assert(y.skip(1) =~= x);
    crate::text::lemma_trim_back_at(x, x.len() as int);
    assert(x.take(x.len() as int) =~= x);
}

/// The frontmatter block of a fresh document closes exactly where the
/// rendered text puts its closing delimiter.
#[verifier::rlimit(100)]
proof fn lemma_nc_close(id: Seq<char>, title: Seq<char>, now: int)
    requires
        forall|k: int| #![trigger id[k]] 0 <= k < id.len() ==> id[k] != '\n',
        forall|k: int| #![trigger title[k]] 0 <= k < title.len() ==> title[k] != '\n',
    ensures
        crate::frontmatter::fm_open(new_document_content_spec(id, title, now)),
        crate::frontmatter::fm_close_from(new_document_content_spec(id, title, now), 4) == nc_b6(
            id,
            title,
            now,
        ),
{
    lemma_nc_layout(id, title, now);
    let s = new_document_content_spec(id, title, now);
    let l1 = lit_fm_head();
    let l2 = lit_title_key();
    let l3 = lit_created_key();
    let l4 = lit_fm_tail();
    let d = render_i64_spec(now);
    let b2 = nc_b2(id);
    let b3 = nc_b3(id);
    let b4 = nc_b4(id, title);
    let b5 = nc_b5(id, title);
    let b6 = nc_b6(id, title, now);
    assert(s[0] == l1[0] && s[1] == l1[1] && s[2] == l1[2] && s[3] == l1[3]);
    assert(crate::frontmatter::fm_open(s));
    assert(s[b6] == l4[0] && s[b6 + 1] == l4[1] && s[b6 + 2] == l4[2] && s[b6 + 3] == l4[3] && s[b6
        + 4] == l4[4]);
    assert(crate::frontmatter::fm_close_at(s, b6));
    assert(forall|k: int| #![trigger d[k]] 0 <= k < d.len() ==> d[k] != '\n') by {
        if now < 0 {
            crate::text::lemma_dec_digits_val((-now) as nat);
            assert(d == seq!['-'] + crate::text::dec_digits((-now) as nat));
        } else {
            crate::text::lemma_dec_digits_val(now as nat);
        }
    };
    assert forall|q: int|
        #![trigger crate::frontmatter::fm_close_at(s, q)]
        4 <= q < b6 implies !crate::frontmatter::fm_close_at(s, q) by {
        if crate::frontmatter::fm_close_at(s, q) {
            assert(s[q] == '\n');
            if q < 8 {
                assert(s[q] == l1[q]);
                assert(false);
            } else if q < b2 {
                assert(s[q] == id[q - 8]);
                assert(false);
            } else if q < b3 {
                assert(s[q] == l2[q - b2]);
                if q == b2 {
                    assert(s[q + 1] == l2[1]);
                    assert(s[q + 1] != '-');
                    assert(false);
                } else {
                    assert(false);
                }
            } else if q < b4 {
                assert(s[q] == title[q - b3]);
                assert(false);
            } else if q < b5 {
                assert(s[q] == l3[q - b4]);
                if q == b4 {
                    assert(s[q + 1] == l3[1]);
                    assert(s[q + 1] != '-');
                    assert(false);
                } else {
                    assert(false);
                }
            } else {
                assert(s[q] == d[q - b5]);
                assert(false);
            }
        }
    }
    crate::frontmatter::lemma_fm_close_from_is(s, 4, b6);
}

/// A region of exactly three newline-separated lines parses line by line.
proof fn lemma_parse_kv_region_3(a: Seq<char>, b: Seq<char>, c: Seq<char>)
    requires
        forall|k: int| #![trigger a[k]] 0 <= k < a.len() ==> a[k] != '\n',
        forall|k: int| #![trigger b[k]] 0 <= k < b.len() ==> b[k] != '\n',
        forall|k: int| #![trigger c[k]] 0 <= k < c.len() ==> c[k] != '\n',
        c.len() > 0,
    ensures
        crate::frontmatter::parse_kv_region(a + seq!['\n'] + b + seq!['\n'] + c)
            == crate::frontmatter::parse_kv_line(strip_cr(a)) + (crate::frontmatter::parse_kv_line(
            strip_cr(b),
        ) + crate::frontmatter::parse_kv_line(strip_cr(c))),
{
    let r = a + seq!['\n'] + b + seq!['\n'] + c;
    let al = a.len() as int;
    let bl = b.len() as int;
    assert forall|k: int| 0 <= k < al implies r[k] == #[trigger] a[k] by {
        assert(r[k] == ((a + seq!['\n'] + b + seq!['\n'])[k]));
        assert(((a + seq!['\n'] + b + seq!['\n'])[k]) == ((a + seq!['\n'] + b)[k]));
        assert(((a + seq!['\n'] + b)[k]) == ((a + seq!['\n'])[k]));
    }
    assert(r[al] == '\n') by {
        assert(r[al] == ((a + seq!['\n'] + b + seq!['\n'])[al]));
        assert(((a + seq!['\n'] + b + seq!['\n'])[al]) == ((a + seq!['\n'] + b)[al]));
        assert(((a + seq!['\n'] + b)[al]) == ((a + seq!['\n'])[al]));
    };
    lemma_first_index_of_is(r, '\n', al);
    assert(r.take(al) =~= a);
    let r1 = r.skip(al + 1);
    assert(r1 =~= b + seq!['\n'] + c) by {
        assert forall|k: int| 0 <= k < r1.len() implies r1[k] == ((b + seq!['\n'] + c)[k]) by {
            assert(r1[k] == r[al + 1 + k]);
            if k < bl {
                assert(r[al + 1 + k] == ((a + seq!['\n'] + b + seq!['\n'])[al + 1 + k]));
                assert(((a + seq!['\n'] + b + seq!['\n'])[al + 1 + k]) == ((a + seq!['\n'] + b)[al
                    + 1 + k]));
            } else if k == bl {
                assert(r[al + 1 + k] == ((a + seq!['\n'] + b + seq!['\n'])[al + 1 + k]));
            }
        }
    };
    assert(crate::frontmatter::parse_kv_region(r) == crate::frontmatter::parse_kv_line(strip_cr(a))
        + crate::frontmatter::parse_kv_region(b + seq!['\n'] + c));
    let r2 = b + seq!['\n'] + c;
    assert forall|k: int| 0 <= k < bl implies r2[k] == #[trigger] b[k] by {
        assert(r2[k] == ((b + seq!['\n'])[k]));
    }
    assert(r2[bl] == '\n') by {
        assert(r2[bl] == ((b + seq!['\n'])[bl]));
    };
    lemma_first_index_of_is(r2, '\n', bl);
    assert(r2.take(bl) =~= b);
    assert(r2.skip(bl + 1) =~= c);
    assert(crate::frontmatter::parse_kv_region(r2) == crate::frontmatter::parse_kv_line(strip_cr(b))
        + crate::frontmatter::parse_kv_region(c));
    lemma_first_index_of_none(c, '\n');
    assert(crate::frontmatter::parse_kv_region(c) == crate::frontmatter::parse_kv_line(strip_cr(c)));
}

/// The id line of a fresh document carries the key `id`.
proof fn lemma_nc_line_id(id: Seq<char>)
    ensures
        crate::frontmatter::parse_kv_line(strip_cr(seq!['i', 'd', ':', ' '] + id)).len() == 1,
        crate::frontmatter::parse_kv_line(strip_cr(seq!['i', 'd', ':', ' '] + id))[0].0 == seq![
            'i',
            'd',
        ],
{
    let a = seq!['i', 'd', ':', ' '] + id;
    let line = strip_cr(a);
    assert(a[0] == 'i' && a[1] == 'd' && a[2] == ':');
    assert(line.len() >= 3);
    assert(line[0] == a[0] && line[1] == a[1] && line[2] == a[2]);
    lemma_first_index_of_is(line, ':', 2);
    assert(line.take(2) =~= seq!['i', 'd']);
    lemma_trim_fixed(seq!['i', 'd']);
}

/// The title line of a fresh document carries the title under its key.
proof fn lemma_nc_line_title(title: Seq<char>)
    requires
        title.len() > 0 ==> !is_space_char(title[0]) && !is_space_char(title[title.len() - 1]),
    ensures
        crate::frontmatter::parse_kv_line(
            strip_cr(seq!['t', 'i', 't', 'l', 'e', ':', ' '] + title),
        ) == seq![
            (
                key_title(),
                if crate::text::is_i64_literal(title) {
                    FmVal::Int(crate::text::i64_literal_val(title))
                } else {
                    FmVal::Str(title)
                },
            ),
        ],
{
    let b = seq!['t', 'i', 't', 'l', 'e', ':', ' '] + title;
    assert forall|k: int| 0 <= k < 7 implies b[k] == (seq!['t', 'i', 't', 'l', 'e', ':', ' '][k])
        by {}
    let line = strip_cr(b);
    assert(line == b) by {
        if title.len() > 0 {
            assert(b.last() == title[title.len() - 1]);
            assert(is_space_char('\r'));
        } else {
            assert(b.last() == ' ');
        }
    };
    lemma_first_index_of_is(line, ':', 5);
    assert(line.take(5) =~= seq!['t', 'i', 't', 'l', 'e']);
    lemma_trim_fixed(seq!['t', 'i', 't', 'l', 'e']);
    assert(trim_spec(line.take(5)) =~= key_title());
    assert(line.skip(6) =~= seq![' '] + title);
    lemma_trim_space_prefix(title);
    assert(trim_spec(line.skip(6)) == title);
}

/// The creation-time line of a fresh document carries the key `created`.
proof fn lemma_nc_line_created(now: int)
    ensures
        crate::frontmatter::parse_kv_line(
            strip_cr(seq!['c', 'r', 'e', 'a', 't', 'e', 'd', ':', ' '] + render_i64_spec(now)),
        ).len() == 1,
        crate::frontmatter::parse_kv_line(
            strip_cr(seq!['c', 'r', 'e', 'a', 't', 'e', 'd', ':', ' '] + render_i64_spec(now)),
        )[0].0 == seq!['c', 'r', 'e', 'a', 't', 'e', 'd'],
{
    let d = render_i64_spec(now);
    let c = seq!['c', 'r', 'e', 'a', 't', 'e', 'd', ':', ' '] + d;
    assert(d.len() > 0 && crate::text::is_digit_char(d.last())) by {
        if now < 0 {
            crate::text::lemma_dec_digits_val((-now) as nat);
            assert(d == seq!['-'] + crate::text::dec_digits((-now) as nat));
            assert(d.last() == crate::text::dec_digits((-now) as nat).last());
        } else {
            crate::text::lemma_dec_digits_val(now as nat);
        }
    };
    let line = strip_cr(c);
    assert(line == c) by {
        assert(c.last() == d.last());
    };
    assert forall|k: int| 0 <= k < 9 implies c[k] == (seq![
        'c',
        'r',
        'e',
        'a',
        't',
        'e',
        'd',
        ':',
        ' ',
    ][k]) by {}
    lemma_first_index_of_is(line, ':', 7);
    assert(line.take(7) =~= seq!['c', 'r', 'e', 'a', 't', 'e', 'd']);
    lemma_trim_fixed(seq!['c', 'r', 'e', 'a', 't', 'e', 'd']);
}

/// The frontmatter region of a fresh document is exactly its three
/// `key: value` lines.
#[verifier::rlimit(100)]
proof fn lemma_nc_region(id: Seq<char>, title: Seq<char>, now: int)
    requires
        forall|k: int| #![trigger id[k]] 0 <= k < id.len() ==> id[k] != '\n',
        forall|k: int| #![trigger title[k]] 0 <= k < title.len() ==> title[k] != '\n',
    ensures
        crate::frontmatter::fm_pairs_spec(new_document_content_spec(id, title, now))
            == crate::frontmatter::parse_kv_region(
            (seq!['i', 'd', ':', ' '] + id) + seq!['\n'] + (seq!['t', 'i', 't', 'l', 'e', ':', ' ']
                + title) + seq!['\n'] + (seq!['c', 'r', 'e', 'a', 't', 'e', 'd', ':', ' ']
                + render_i64_spec(now)),
        ),
{
    lemma_nc_layout(id, title, now);
    lemma_nc_close(id, title, now);
    let s = new_document_content_spec(id, title, now);
    let l1 = lit_fm_head();
    let l2 = lit_title_key();
    let l3 = lit_created_key();
    let d = render_i64_spec(now);
    let b3 = nc_b3(id);
    let b4 = nc_b4(id, title);
    let b5 = nc_b5(id, title);
    let b6 = nc_b6(id, title, now);
    let r = s.subrange(4, b6);
    assert(fm_pairs_spec(s) == crate::frontmatter::parse_kv_region(r));
    let aa = seq!['i', 'd', ':', ' '] + id;
    let bb = seq!['t', 'i', 't', 'l', 'e', ':', ' '] + title;
    let cc = seq!['c', 'r', 'e', 'a', 't', 'e', 'd', ':', ' '] + d;
    assert(r =~= aa + seq!['\n'] + bb + seq!['\n'] + cc) by {
        let pat = aa + seq!['\n'] + bb + seq!['\n'] + cc;
        assert forall|k: int| 0 <= k < r.len() implies r[k] == pat[k] by {
            assert(r[k] == s[4 + k]);
            if k < 4 {
                assert(s[4 + k] == l1[4 + k]);
            } else if k < aa.len() {
                assert(s[4 + k] == id[k - 4]);
                assert(aa[k] == id[k - 4]);
            } else if k == aa.len() {
                assert(s[4 + k] == l2[0]);
            } else if k < aa.len() + 1 + 7 {
                assert(s[4 + k] == l2[k - aa.len()]);
            } else if k < aa.len() + 1 + bb.len() {
                assert(4 + k == b3 + (k - aa.len() - 8));
                assert(s[b3 + (k - aa.len() - 8)] == title[k - aa.len() - 8]);
            } else if k == aa.len() + 1 + bb.len() {
                assert(4 + k == b4);
                assert(s[b4] == l3[0]);
            } else if k < aa.len() + 1 + bb.len() + 1 + 9 {
                assert(4 + k == b4 + (k - aa.len() - 1 - bb.len()));
                assert(s[4 + k] == l3[k - aa.len() - 1 - bb.len()]);
            } else {
                assert(4 + k == b5 + (k - (aa.len() + bb.len() + 11)));
                assert(s[b5 + (k - (aa.len() + bb.len() + 11))] == d[k - (aa.len() + bb.len()
                    + 11)]);
            }
            assert(pat[k] == ((aa + seq!['\n'] + bb + seq!['\n'])[k]) || k >= aa.len() + 1
                + bb.len() + 1);
        }
    };
}

/// The frontmatter a fresh document's text parses back to carries the
/// title under its key: as the raw string when it does not read as an
/// integer, and otherwise as a number, which the string lookup passes over.
#[verifier::rlimit(100)]
proof fn lemma_nc_pairs(id: Seq<char>, title: Seq<char>, now: int)
    requires
        forall|k: int| #![trigger id[k]] 0 <= k < id.len() ==> id[k] != '\n',
        forall|k: int| #![trigger title[k]] 0 <= k < title.len() ==> title[k] != '\n',
        title.len() > 0 ==> !is_space_char(title[0]) && !is_space_char(title[title.len() - 1]),
    ensures
        fm_str(fm_pairs_spec(new_document_content_spec(id, title, now)), key_title()) == (
        if crate::text::is_i64_literal(title) {
            None::<Seq<char>>
        } else {
            Some(title)
        }),
{
    lemma_nc_region(id, title, now);
    let s = new_document_content_spec(id, title, now);
    let d = render_i64_spec(now);
    let aa = seq!['i', 'd', ':', ' '] + id;
    let bb = seq!['t', 'i', 't', 'l', 'e', ':', ' '] + title;
    let cc = seq!['c', 'r', 'e', 'a', 't', 'e', 'd', ':', ' '] + d;
    assert(d.len() > 0 && (forall|k: int|
        #![trigger d[k]]
        0 <= k < d.len() ==> crate::text::is_digit_char(d[k]) || d[k] == '-')) by {
        if now < 0 {
            crate::text::lemma_dec_digits_val((-now) as nat);
            assert(d == seq!['-'] + crate::text::dec_digits((-now) as nat));
        } else {
            crate::text::lemma_dec_digits_val(now as nat);
        }
    };
    assert(forall|k: int| #![trigger aa[k]] 0 <= k < aa.len() ==> aa[k] != '\n');
    assert(forall|k: int| #![trigger bb[k]] 0 <= k < bb.len() ==> bb[k] != '\n');
    assert(forall|k: int| #![trigger cc[k]] 0 <= k < cc.len() ==> cc[k] != '\n');
    lemma_parse_kv_region_3(aa, bb, cc);
    lemma_nc_line_id(id);
    lemma_nc_line_title(title);
    lemma_nc_line_created(now);
    let p1 = crate::frontmatter::parse_kv_line(strip_cr(aa))[0];
    let p2 = crate::frontmatter::parse_kv_line(strip_cr(bb))[0];
    let p3 = crate::frontmatter::parse_kv_line(strip_cr(cc))[0];
    let pairs = fm_pairs_spec(s);
    assert(pairs =~= seq![p1, p2, p3]);
    assert(p1.0 != key_title());
    assert(p3.0 != key_title());
    assert(pairs.last() == p3);
    assert(pairs.drop_last() =~= seq![p1, p2]);
    assert(seq![p1, p2].last() == p2);
    assert(seq![p1, p2].drop_last() =~= seq![p1]);
    reveal_with_fuel(crate::frontmatter::fm_lookup, 4);
    assert(crate::frontmatter::fm_lookup(pairs, key_title()) == Some(p2.1));
}

/// When the title reads as an integer, the heading written below the
/// frontmatter still carries it.
proof fn lemma_heading_of_title(title: Seq<char>)
    requires
        forall|k: int| #![trigger title[k]] 0 <= k < title.len() ==> title[k] != '\n',
        title.len() > 0,
        !is_space_char(title[0]) && !is_space_char(title[title.len() - 1]),
        title[0] != '#',
    ensures
        heading_title(seq!['\n', '#', ' '] + title + seq!['\n', '\n']) == Some(title),
{
    let body = seq!['\n', '#', ' '] + title + seq!['\n', '\n'];
    assert(body[0] == '\n') by {
        assert(body[0] == ((seq!['\n', '#', ' '] + title)[0]));
    };
    lemma_first_index_of_is(body, '\n', 0);
    assert(strip_cr(body.take(0)) =~= Seq::<char>::empty());
    assert(!is_heading_line(strip_cr(body.take(0))));
    assert(first_heading(body) == first_heading(body.skip(1)));
    let body2 = body.skip(1);
    let e = 2 + title.len() as int;
    assert(body2 =~= seq!['#', ' '] + title + seq!['\n', '\n']) by {
        assert forall|k: int| 0 <= k < body2.len() implies body2[k] == ((seq!['#', ' '] + title
            + seq!['\n', '\n'])[k]) by {
            assert(body2[k] == body[1 + k]);
            if 1 + k < 3 + title.len() {
                assert(body[1 + k] == ((seq!['\n', '#', ' '] + title)[1 + k]));
                assert(((seq!['#', ' '] + title + seq!['\n', '\n'])[k]) == ((seq!['#', ' ']
                    + title)[k]));
            }
        }
    };
    let b2 = seq!['#', ' '] + title + seq!['\n', '\n'];
    assert(b2[0] == '#' && b2[1] == ' ') by {
        assert(b2[0] == ((seq!['#', ' '] + title)[0]));
        assert(b2[1] == ((seq!['#', ' '] + title)[1]));
    };
    assert(b2[e] == '\n');
    assert forall|j: int| 0 <= j < e implies b2[j] != '\n' by {
        assert(b2[j] == ((seq!['#', ' '] + title)[j]));
        if j >= 2 {
            assert(((seq!['#', ' '] + title)[j]) == title[j - 2]);
        }
    }
    lemma_first_index_of_is(b2, '\n', e);
    let rawline = b2.take(e);
    assert(rawline =~= seq!['#', ' '] + title);
    let line = strip_cr(rawline);
    assert(line == rawline) by {
        assert(rawline.last() == title[title.len() - 1]);
        assert(is_space_char('\r'));
    };
    assert(is_heading_line(line));
    assert(first_heading(b2) == Some(line));
    assert(line.skip(2) =~= title);
    assert(strip_heading_marks(line) == strip_heading_marks(title));
    assert(strip_heading_marks(title) == title);
    lemma_trim_fixed(title);
}

/// The body of a fresh document is a blank line, the heading, and a blank
/// line.
#[verifier::rlimit(100)]
proof fn lemma_nc_body(id: Seq<char>, title: Seq<char>, now: int)
    requires
        forall|k: int| #![trigger id[k]] 0 <= k < id.len() ==> id[k] != '\n',
        forall|k: int| #![trigger title[k]] 0 <= k < title.len() ==> title[k] != '\n',
    ensures
        fm_body_spec(new_document_content_spec(id, title, now)) == seq!['\n', '#', ' '] + title
            + seq!['\n', '\n'],
{
    lemma_nc_close(id, title, now);
    let s = new_document_content_spec(id, title, now);
    let l1 = lit_fm_head();
    let l2 = lit_title_key();
    let l3 = lit_created_key();
    let l4 = lit_fm_tail();
    let l5 = lit_doc_end();
    let d = render_i64_spec(now);
    let p1 = l1;
    let p2 = p1 + id;
    let p3 = p2 + l2;
    let p4 = p3 + title;
    let p5 = p4 + l3;
    let p6 = p5 + d;
    let p7 = p6 + l4;
    let p8 = p7 + title;
    assert(s == p8 + l5);
    let b6 = nc_b6(id, title, now);
    let b7 = nc_b7(id, title, now);
    let b8 = nc_b8(id, title, now);
    assert(p6.len() == b6 && p7.len() == b7 && p8.len() == b8);
    let body = fm_body_spec(s);
    assert(body == s.skip(b6 + 5));
    let pat = seq!['\n', '#', ' '] + title + seq!['\n', '\n'];
    assert(body.len() == pat.len());
    assert forall|k: int| 0 <= k < body.len() implies body[k] == pat[k] by {
        let x = b6 + 5 + k;
        assert(body[k] == s[x]);
        if k < 3 {
            assert(s[x] == p8[x]);
            assert(p8[x] == p7[x]);
            assert(p7[x] == l4[5 + k]);
            assert(pat[k] == ((seq!['\n', '#', ' '] + title)[k]));
        } else if k < 3 + title.len() {
            assert(s[x] == p8[x]);
            assert(p8[x] == title[k - 3]);
            assert(pat[k] == ((seq!['\n', '#', ' '] + title)[k]));
        } else {
            assert(s[x] == l5[k - 3 - title.len()]);
        }
    }
    assert(body =~= pat);
}

/// The title round trip: a document created with a given title reads back
/// with that very title, through the frontmatter when the title is not all
/// digits, and through the written heading when it is. Titles containing a
/// line break, or changed by trimming, do not survive the fallback chain
/// and are left out.
pub proof fn lemma_create_read_title(
    path: Seq<char>,
    id: Seq<char>,
    title: Seq<char>,
    now: int,
    fs_created: Option<i64>,
    fs_modified: Option<i64>,
)
    requires
        forall|k: int| #![trigger id[k]] 0 <= k < id.len() ==> id[k] != '\n',
        forall|k: int| #![trigger title[k]] 0 <= k < title.len() ==> title[k] != '\n',
        title.len() > 0 ==> !is_space_char(title[0]) && !is_space_char(title[title.len() - 1]),
    ensures
        derive_document_spec(
            path,
            new_document_content_spec(id, title, now),
            fs_created,
            fs_modified,
        ).title == title,
{
    lemma_nc_pairs(id, title, now);
    let s = new_document_content_spec(id, title, now);
    let pairs = fm_pairs_spec(s);
    if !crate::text::is_i64_literal(title) {
        assert(fm_str(pairs, key_title()) == Some(title));
    } else {
        assert(fm_str(pairs, key_title()) is None);
        lemma_nc_body(id, title, now);
        assert(title.len() > 0) by {
            assert(crate::text::int_literal_digits(title).len() > 0);
        };
        assert(title[0] != '#') by {
            let dg = crate::text::int_literal_digits(title);
            if title[0] == '+' || title[0] == '-' {
            } else {
                assert(dg == title);
                assert(crate::text::is_digit_char(title[0]));
            }
        };
        lemma_heading_of_title(title);
    }
}

/// Everything the application must do to create one document: the directory
/// to ensure, the record, and the file text to write at the record's path.
pub struct DocumentPlan {
    pub document: Document,
    pub target_dir: String,
    pub file_content: String,
}

/// Plans the creation of a document. `file_exists` is the caller's report of
/// whether the target file path already exists; on collision nothing is
/// written and the existing file is left as it is. The returned record
/// carries empty `content` and a zero word count; the text actually written
/// is `file_content`, and a later read derives the stored fields from it.
pub fn create_document(
    project_path: &str,
    title: &str,
    category: &str,
    subcategory: Option<&str>,
    file_exists: bool,
) -> (r: Result<DocumentPlan, StoreError>)
    ensures
        file_exists ==> r == Err::<DocumentPlan, StoreError>(StoreError::AlreadyExists),
        !file_exists ==> (r matches Ok(plan) && plan.target_dir@ == document_dir_spec(
            project_path@,
            category@,
            subcategory,
        ) && plan.document.path@ == join_path_spec(
            document_dir_spec(project_path@, category@, subcategory),
            sanitize_spec(title@) + seq!['.', 'm', 'd'],
        ) && plan.document.id@.len() == 36 && plan.document.project_id@.len() == 0
            && plan.document.title@ == title@ && plan.document.content@.len() == 0
            && plan.document.word_count == 0 && plan.document.created_at
            == plan.document.modified_at && plan.document.metadata is None && plan.file_content@
            == new_document_content_spec(
            plan.document.id@,
            title@,
            plan.document.created_at as int,
        )),
{
    if file_exists {
        return Err(StoreError::AlreadyExists);
    }
    let dir = document_target_dir(project_path, category, subcategory);
    let mut filename = sanitize_filename(title);
    filename.append(".md");
    proof {
        reveal_strlit(".md");
        assert(filename@ =~= sanitize_spec(title@) + seq!['.', 'm', 'd']);
    }
    let path = join_path(dir.as_str(), filename.as_str());
    let id = new_id();
    let now = now_timestamp();
    let file_content = new_document_content(id.as_str(), title, now);
    let document = Document {
        id,
        project_id: String::new(),
        path,
        title: title.to_owned(),
        content: String::new(),
        word_count: 0,
        created_at: now,
        modified_at: now,
        metadata: None,
    };
    Ok(DocumentPlan { document, target_dir: dir, file_content })
}

// ---------------------------------------------------------------------------
// Updating and deleting
// ---------------------------------------------------------------------------

/// Decides an update: the whole file is replaced with `content` verbatim.
/// Derived fields such as the word count are not recomputed here; callers
/// re-read the document to observe them. `document_exists` is the caller's
/// report of whether the path exists.
pub fn update_document(document_exists: bool, content: &str) -> (r: Result<String, StoreError>)
    ensures
        document_exists ==> (r matches Ok(c) && c@ == content@),
        !document_exists ==> r == Err::<String, StoreError>(StoreError::NotFound),
{
    if document_exists {
        Ok(content.to_owned())
    } else {
        Err(StoreError::NotFound)
    }
}

/// Decides a deletion: allowed exactly when the path exists.
pub fn delete_document(document_exists: bool) -> (r: Result<(), StoreError>)
    ensures
        document_exists ==> r == Ok::<(), StoreError>(()),
        !document_exists ==> r == Err::<(), StoreError>(StoreError::NotFound),
{
    if document_exists {
        Ok(())
    } else {
        Err(StoreError::NotFound)
    }
}

} // verus!
