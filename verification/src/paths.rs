//! Unix-style path handling on plain strings: joining, base names, file
//! stems, the markdown-extension test, and the containment check behind the
//! path-traversal guard. Canonicalization itself is a filesystem operation
//! and stays with the surrounding application.

use vstd::prelude::*;

use crate::errors::StoreError;
use crate::outside::chars_to_string;
use crate::text::{copy_range, find_char_last, last_index_of, str_chars};

verus! {

/// `base` and `name` joined with a single separator, as `Path::join` does
/// for a relative `name` on Unix.
pub open spec fn join_path_spec(base: Seq<char>, name: Seq<char>) -> Seq<char> {
    if base.len() == 0 {
        name
    } else if base.last() == '/' {
        base + name
    } else {
        base + seq!['/'] + name
    }
}

/// Joins a directory path and one relative component.
pub fn join_path(base: &str, name: &str) -> (r: String)
    ensures
        r@ == join_path_spec(base@, name@),
{
    let n: usize = base.unicode_len();
    if n == 0 {
        return name.to_owned();
    }
    let mut r: String = base.to_owned();
    if base.get_char(n - 1) != '/' {
        r.append("/");
        proof {
            reveal_strlit("/");
            assert(r@ =~= base@ + seq!['/']);
        }
    }
    r.append(name);
    proof {
        if base@.last() == '/' {
            assert(r@ =~= base@ + name@);
        } else {
            assert(r@ =~= base@ + seq!['/'] + name@);
        }
    }
    r
}

/// The part of a path after its last separator.
pub open spec fn base_name_spec(p: Seq<char>) -> Seq<char> {
    let i = last_index_of(p, '/');
    if i < 0 {
        p
    } else {
        p.skip(i + 1)
    }
}

/// The base name without its extension: everything before the last dot,
/// unless that dot starts the name.
pub open spec fn file_stem_spec(p: Seq<char>) -> Seq<char> {
    let b = base_name_spec(p);
    let j = last_index_of(b, '.');
    if j <= 0 {
        b
    } else {
        b.take(j)
    }
}

/// Whether the path names a markdown file: its base name has a `.md`
/// extension after a non-empty stem.
pub open spec fn is_markdown_path_spec(p: Seq<char>) -> bool {
    let b = base_name_spec(p);
    let j = last_index_of(b, '.');
    j > 0 && b.skip(j + 1) == seq!['m', 'd']
}

/// The base name of `path` as a fresh character vector.
fn base_name_chars(path: &str) -> (r: Vec<char>)
    ensures
        r@ == base_name_spec(path@),
{
    let v = str_chars(path);
    proof {
        crate::text::lemma_last_index_of(v@, '/');
    }
    match find_char_last(&v, '/') {
        Some(i) => {
            let n: usize = v.len();
            assert(i < n);
            let r = copy_range(&v, i + 1, n);
            proof {
                assert(r@ =~= path@.skip(i + 1));
            }
            r
        },
        None => {
            let r = copy_range(&v, 0, v.len());
            proof {
                assert(r@ =~= path@);
            }
            r
        },
    }
}

/// The file stem of `path`, the fallback document title.
pub fn file_stem(path: &str) -> (r: String)
    ensures
        r@ == file_stem_spec(path@),
{
    let b = base_name_chars(path);
    match find_char_last(&b, '.') {
        Some(j) if j > 0 => {
            let stem = copy_range(&b, 0, j);
            proof {
                assert(stem@ =~= base_name_spec(path@).take(j as int));
            }
            chars_to_string(&stem)
        },
        _ => chars_to_string(&b),
    }
}

/// Whether `path` names a markdown file.
pub fn is_markdown_path(path: &str) -> (r: bool)
    ensures
        r == is_markdown_path_spec(path@),
{
    let b = base_name_chars(path);
    match find_char_last(&b, '.') {
        Some(j) if j > 0 => {
            let ghost ext = b@.skip(j + 1);
            if b.len() - j - 1 == 2 && b[j + 1] == 'm' && b[j + 2] == 'd' {
                proof {
                    assert(ext =~= seq!['m', 'd']);
                }
                true
            } else {
                proof {
                    if ext == seq!['m', 'd'] {
                        assert(ext.len() == 2);
                        assert(ext[0] == 'm' && ext[1] == 'd');
                        assert(b@[j + 1] == 'm' && b@[j + 2] == 'd');
                        assert(false);
                    }
                }
                false
            }
        },
        _ => false,
    }
}

/// Whether `path` equals `base` or lies beneath it, component-wise, both
/// paths canonical.
pub open spec fn is_within_spec(path: Seq<char>, base: Seq<char>) -> bool {
    path == base || (base == seq!['/'] && path.len() > 0 && path[0] == '/') || (path.len()
        > base.len() && path.take(base.len() as int) == base && path[base.len() as int] == '/')
}

/// Containment check on two canonical paths.
pub fn is_within(path: &str, base: &str) -> (r: bool)
    ensures
        r == is_within_spec(path@, base@),
{
    let p = str_chars(path);
    let b = str_chars(base);
    if p.len() == b.len() {
        let mut i: usize = 0;
        let mut eq: bool = true;
        proof {
            assert(p@.take(0) =~= b@.take(0));
        }
        while i < p.len()
            invariant
                i <= p@.len(),
                p@.len() == b@.len(),
                eq == (p@.take(i as int) == b@.take(i as int)),
            decreases p@.len() - i,
        {
            let ghost pi = p@.take(i as int);
            let ghost bi = b@.take(i as int);
            if p[i] != b[i] {
                proof {
                    assert(p@.take(i + 1)[i as int] != b@.take(i + 1)[i as int]);
                }
                eq = false;
            } else {
                proof {
                    assert(p@.take(i + 1) =~= pi.push(p@[i as int]));
                    assert(b@.take(i + 1) =~= bi.push(b@[i as int]));
                    if pi == bi {
                        assert(p@.take(i + 1) =~= b@.take(i + 1));
                    } else {
                        if p@.take(i + 1) == b@.take(i + 1) {
                            assert(pi =~= p@.take(i + 1).take(i as int));
                            assert(bi =~= b@.take(i + 1).take(i as int));
                            assert(false);
                        }
                    }
                }
            }
            i = i + 1;
        }
        proof {
            assert(p@.take(p@.len() as int) =~= p@);
            assert(b@.take(b@.len() as int) =~= b@);
            if p@ == b@ {
                assert(is_within_spec(path@, base@));
            }
        }
        if eq {
            return true;
        }
    }
    // base is the filesystem root
    if b.len() == 1 && b[0] == '/' && p.len() > 0 && p[0] == '/' {
        proof {
            assert(b@ =~= seq!['/']);
        }
        return true;
    }
    proof {
        if b@ == seq!['/'] {
            assert(b@.len() == 1 && b@[0] == '/');
        }
    }
    // proper prefix followed by a separator
    if p.len() > b.len() {
        let mut i: usize = 0;
        while i < b.len()
            invariant
                i <= b@.len() < p@.len(),
                p@ == path@,
                b@ == base@,
                !(b@ == seq!['/'] && p@.len() > 0 && p@[0] == '/'),
                forall|k: int| 0 <= k < i ==> p@[k] == b@[k],
            decreases b@.len() - i,
        {
            if p[i] != b[i] {
                proof {
                    if p@.take(b@.len() as int) == b@ {
                        assert(p@.take(b@.len() as int)[i as int] == b@[i as int]);
                        assert(false);
                    }
                    assert(!is_within_spec(path@, base@));
                }
                return false;
            }
            i = i + 1;
        }
        proof {
            assert(p@.take(b@.len() as int) =~= b@);
        }
        return p[b.len()] == '/';
    }
    proof {
        if is_within_spec(path@, base@) {
            assert(false);
        }
    }
    false
}

/// Accepts a path only when its canonical form stays under the canonical
/// base. The canonical forms come from the filesystem; a missing one means
/// the path could not be resolved.
pub fn validate_path(canonical: Option<String>, canonical_base: Option<String>) -> (r: Result<
    String,
    StoreError,
>)
    ensures
        (match (canonical, canonical_base) {
            (Some(c), Some(b)) => if is_within_spec(c@, b@) {
                r matches Ok(x) && x@ == c@
            } else {
                r == Err::<String, StoreError>(StoreError::PathTraversal)
            },
            _ => r == Err::<String, StoreError>(StoreError::IoError),
        }),
{
    match (canonical, canonical_base) {
        (Some(c), Some(b)) => {
            if is_within(c.as_str(), b.as_str()) {
                Ok(c)
            } else {
                Err(StoreError::PathTraversal)
            }
        },
        _ => Err(StoreError::IoError),
    }
}

} // verus!
