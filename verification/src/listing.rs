//! Listing documents: filtering directory entries down to markdown files,
//! skipping unreadable files, and ordering by modification recency. The
//! surrounding application enumerates directories and reads files; the
//! decisions live here.

use vstd::prelude::*;
use vstd::multiset::Multiset;
use vstd::seq_lib::group_to_multiset_ensures;

use crate::document::{derive_document_spec, read_document, ReadOutcome};
use crate::models::{Document, DocumentV, Project, ProjectV};
use crate::paths::{is_markdown_path, is_markdown_path_spec};

verus! {

broadcast use group_to_multiset_ensures;

/// The views of a sequence of documents.
pub open spec fn doc_views(s: Seq<Document>) -> Seq<DocumentV> {
    s.map_values(|d: Document| d@)
}

/// The views of a sequence of projects.
pub open spec fn proj_views(s: Seq<Project>) -> Seq<ProjectV> {
    s.map_values(|p: Project| p@)
}

/// Sorted by modification time, most recent first.
pub open spec fn docs_sorted_desc(s: Seq<Document>) -> bool {
    forall|i: int, j: int|
        0 <= i < j < s.len() ==> s[i]@.modified_at >= s[j]@.modified_at
}

/// Sorted by modification time, most recent first.
pub open spec fn projects_sorted_desc(s: Seq<Project>) -> bool {
    forall|i: int, j: int|
        0 <= i < j < s.len() ==> s[i]@.modified_at >= s[j]@.modified_at
}

/// Sorts documents by `modified_at`, most recent first; the result is a
/// permutation of the input. Nothing is promised of the order among equal
/// timestamps.
pub fn sort_documents_by_recency(docs: Vec<Document>) -> (r: Vec<Document>)
    ensures
        docs_sorted_desc(r@),
        doc_views(r@).to_multiset() == doc_views(docs@).to_multiset(),
        r@.len() == docs@.len(),
{
    let ghost input = docs@;
    let mut rest = docs;
    let mut out: Vec<Document> = Vec::new();
    proof {
        assert(doc_views(out@) =~= Seq::<DocumentV>::empty());
        assert(doc_views(input) =~= doc_views(rest@) + doc_views(out@).reverse());
        assert(doc_views(rest@) + doc_views(out@) =~= doc_views(input));
    }
    while rest.len() > 0
        invariant
            docs_sorted_desc(out@),
            doc_views(input).to_multiset() == doc_views(rest@).to_multiset().add(
                doc_views(out@).to_multiset(),
            ),
            out@.len() + rest@.len() == input.len(),
        decreases rest@.len(),
    {
        let ghost rest0 = rest@;
        let ghost out0 = out@;
        let d = rest.pop().unwrap();
        proof {
            assert(doc_views(rest0) =~= doc_views(rest@).push(d@));
            assert(doc_views(rest0).to_multiset() == doc_views(rest@).to_multiset().insert(d@));
        }
        let mut j: usize = out.len();
        while j > 0 && out[j - 1].modified_at < d.modified_at
            invariant
                j <= out@.len(),
                out@ == out0,
                forall|k: int| j <= k < out@.len() ==> out@[k]@.modified_at < d@.modified_at,
            decreases j,
        {
            j = j - 1;
        }
        proof {
            assert(j > 0 ==> out@[j - 1]@.modified_at >= d@.modified_at);
        }
        out.insert(j, d);
        proof {
            assert(doc_views(out@) =~= doc_views(out0).insert(j as int, d@));
            assert(doc_views(out@).to_multiset() == doc_views(out0).to_multiset().insert(d@));
            assert(doc_views(rest@).to_multiset().insert(d@).add(doc_views(out0).to_multiset())
                =~= doc_views(rest@).to_multiset().add(doc_views(out0).to_multiset().insert(d@)));
            assert(docs_sorted_desc(out@)) by {
                assert(forall|k: int|
                    0 <= k < out@.len() ==> out@[k] == (if k < j {
                        out0[k]
                    } else if k == j {
                        d
                    } else {
                        out0[k - 1]
                    }));
                assert(forall|a: int, b: int|
                    0 <= a < b < out@.len() ==> out@[a]@.modified_at >= out@[b]@.modified_at) by {
                    assert forall|k: int| 0 <= k < j implies out0[k]@.modified_at
                        >= d@.modified_at by {
                        assert(out0[k]@.modified_at >= out0[j - 1]@.modified_at);
                    };
                };
            };
        }
    }
    proof {
        assert(doc_views(rest@) =~= Seq::<DocumentV>::empty());
        assert(doc_views(rest@).to_multiset().add(doc_views(out@).to_multiset()) =~= doc_views(
            out@,
        ).to_multiset());
    }
    out
}

/// Sorts projects by `modified_at`, most recent first; the result is a
/// permutation of the input. Nothing is promised of the order among equal
/// timestamps.
pub fn sort_projects_by_recency(projects: Vec<Project>) -> (r: Vec<Project>)
    ensures
        projects_sorted_desc(r@),
        proj_views(r@).to_multiset() == proj_views(projects@).to_multiset(),
        r@.len() == projects@.len(),
{
    let ghost input = projects@;
    let mut rest = projects;
    let mut out: Vec<Project> = Vec::new();
    proof {
        assert(proj_views(out@) =~= Seq::<ProjectV>::empty());
        assert(proj_views(rest@) + proj_views(out@) =~= proj_views(input));
    }
    while rest.len() > 0
        invariant
            projects_sorted_desc(out@),
            proj_views(input).to_multiset() == proj_views(rest@).to_multiset().add(
                proj_views(out@).to_multiset(),
            ),
            out@.len() + rest@.len() == input.len(),
        decreases rest@.len(),
    {
        let ghost rest0 = rest@;
        let ghost out0 = out@;
        let d = rest.pop().unwrap();
        proof {
            assert(proj_views(rest0) =~= proj_views(rest@).push(d@));
            assert(proj_views(rest0).to_multiset() == proj_views(rest@).to_multiset().insert(d@));
        }
        let mut j: usize = out.len();
        while j > 0 && out[j - 1].modified_at < d.modified_at
            invariant
                j <= out@.len(),
                out@ == out0,
                forall|k: int| j <= k < out@.len() ==> out@[k]@.modified_at < d@.modified_at,
            decreases j,
        {
            j = j - 1;
        }
        proof {
            assert(j > 0 ==> out@[j - 1]@.modified_at >= d@.modified_at);
        }
        out.insert(j, d);
        proof {
            assert(proj_views(out@) =~= proj_views(out0).insert(j as int, d@));
            assert(proj_views(out@).to_multiset() == proj_views(out0).to_multiset().insert(d@));
            assert(proj_views(rest@).to_multiset().insert(d@).add(proj_views(out0).to_multiset())
                =~= proj_views(rest@).to_multiset().add(proj_views(out0).to_multiset().insert(
                d@,
            )));
            assert(projects_sorted_desc(out@)) by {
                assert(forall|k: int|
                    0 <= k < out@.len() ==> out@[k] == (if k < j {
                        out0[k]
                    } else if k == j {
                        d
                    } else {
                        out0[k - 1]
                    }));
                assert(forall|a: int, b: int|
                    0 <= a < b < out@.len() ==> out@[a]@.modified_at >= out@[b]@.modified_at) by {
                    assert forall|k: int| 0 <= k < j implies out0[k]@.modified_at
                        >= d@.modified_at by {
                        assert(out0[k]@.modified_at >= out0[j - 1]@.modified_at);
                    };
                };
            };
        }
    }
    proof {
        assert(proj_views(rest@) =~= Seq::<ProjectV>::empty());
        assert(proj_views(rest@).to_multiset().add(proj_views(out@).to_multiset()) =~= proj_views(
            out@,
        ).to_multiset());
    }
    out
}

/// One directory entry as the application enumerated it.
pub struct DirEntryInfo {
    pub path: String,
    pub is_file: bool,
}

/// The paths among `entries` that name regular markdown files, in order.
pub open spec fn markdown_entries(entries: Seq<DirEntryInfo>) -> Seq<Seq<char>>
    decreases entries.len(),
{
    if entries.len() == 0 {
        seq![]
    } else {
        markdown_entries(entries.drop_last()) + (if entries.last().is_file
            && is_markdown_path_spec(entries.last().path@) {
            seq![entries.last().path@]
        } else {
            seq![]
        })
    }
}

/// Keeps the regular `.md` files among the entries of one directory.
pub fn markdown_files(entries: Vec<DirEntryInfo>) -> (r: Vec<String>)
    ensures
        r@.map_values(|p: String| p@) == markdown_entries(entries@),
{
    let mut r: Vec<String> = Vec::new();
    let mut rest = entries;
    let ghost input = rest@;
    proof {
        assert(r@.map_values(|p: String| p@) =~= Seq::<Seq<char>>::empty());
        assert(markdown_entries(input) =~= markdown_entries(rest@) + r@.map_values(
            |p: String| p@,
        ));
    }
    while rest.len() > 0
        invariant
            markdown_entries(input) == markdown_entries(rest@) + r@.map_values(|p: String| p@),
        decreases rest@.len(),
    {
        let ghost rest0 = rest@;
        let e = rest.pop().unwrap();
        proof {
            assert(rest@ =~= rest0.drop_last());
            assert(e == rest0.last());
        }
        let ghost r0map = r@.map_values(|p: String| p@);
        if e.is_file && is_markdown_path(e.path.as_str()) {
            let ghost pv = e.path@;
            r.insert(0, e.path);
            proof {
                assert(r@.map_values(|p: String| p@) =~= seq![pv] + r0map);
                assert(markdown_entries(rest0) == markdown_entries(rest@) + seq![pv]);
                assert(markdown_entries(rest@) + (seq![pv] + r0map) =~= (markdown_entries(rest@)
                    + seq![pv]) + r0map);
            }
        } else {
            proof {
                assert(markdown_entries(rest0) == markdown_entries(rest@) + Seq::<
                    Seq<char>,
                >::empty());
                assert(markdown_entries(rest@) + Seq::<Seq<char>>::empty() =~= markdown_entries(
                    rest@,
                ));
            }
        }
    }
    proof {
        assert(markdown_entries(rest@) =~= Seq::<Seq<char>>::empty());
        assert(markdown_entries(rest@) + r@.map_values(|p: String| p@) =~= r@.map_values(
            |p: String| p@,
        ));
    }
    r
}

/// One candidate file of a listing: its path and what the filesystem
/// returned for it.
pub struct DocumentSource {
    pub path: String,
    pub outcome: ReadOutcome,
}

/// The record a source yields, when its file could be fetched.
pub open spec fn source_doc(s: DocumentSource) -> Option<DocumentV> {
    match s.outcome {
        ReadOutcome::File(f) => Some(
            derive_document_spec(s.path@, f.content@, f.created_secs, f.modified_secs),
        ),
        _ => None,
    }
}

/// The records derived from the fetchable sources.
pub open spec fn derived_doc_multiset(sources: Seq<DocumentSource>) -> Multiset<DocumentV>
    decreases sources.len(),
{
    if sources.len() == 0 {
        Multiset::<DocumentV>::empty()
    } else {
        match source_doc(sources.last()) {
            Some(d) => derived_doc_multiset(sources.drop_last()).insert(d),
            None => derived_doc_multiset(sources.drop_last()),
        }
    }
}

/// The paths of the sources that could not be fetched or read.
pub open spec fn skipped_path_multiset(sources: Seq<DocumentSource>) -> Multiset<Seq<char>>
    decreases sources.len(),
{
    if sources.len() == 0 {
        Multiset::<Seq<char>>::empty()
    } else {
        match source_doc(sources.last()) {
            Some(_) => skipped_path_multiset(sources.drop_last()),
            None => skipped_path_multiset(sources.drop_last()).insert(sources.last().path@),
        }
    }
}

/// The result of listing documents: the readable ones sorted by recency, and
/// the paths that had to be skipped, for the caller to warn about.
pub struct DocumentListing {
    pub documents: Vec<Document>,
    pub skipped: Vec<String>,
}

/// Reads every source and collects the documents, skipping per-file
/// failures instead of failing the whole listing; the result is ordered by
/// `modified_at`, most recent first.
pub fn collect_documents(sources: Vec<DocumentSource>) -> (r: DocumentListing)
    ensures
        doc_views(r.documents@).to_multiset() == derived_doc_multiset(sources@),
        docs_sorted_desc(r.documents@),
        r.skipped@.map_values(|p: String| p@).to_multiset() == skipped_path_multiset(sources@),
{
    let ghost input = sources@;
    let mut rest = sources;
    let mut docs: Vec<Document> = Vec::new();
    let mut skipped: Vec<String> = Vec::new();
    proof {
        assert(doc_views(docs@) =~= Seq::<DocumentV>::empty());
        assert(skipped@.map_values(|p: String| p@) =~= Seq::<Seq<char>>::empty());
        assert(derived_doc_multiset(input) =~= derived_doc_multiset(rest@).add(
            doc_views(docs@).to_multiset(),
        ));
        assert(skipped_path_multiset(input) =~= skipped_path_multiset(rest@).add(
            skipped@.map_values(|p: String| p@).to_multiset(),
        ));
    }
    while rest.len() > 0
        invariant
            derived_doc_multiset(input) == derived_doc_multiset(rest@).add(
                doc_views(docs@).to_multiset(),
            ),
            skipped_path_multiset(input) == skipped_path_multiset(rest@).add(
                skipped@.map_values(|p: String| p@).to_multiset(),
            ),
        decreases rest@.len(),
    {
        let ghost rest0 = rest@;
        let s = rest.pop().unwrap();
        proof {
            assert(rest@ =~= rest0.drop_last());
            assert(s == rest0.last());
        }
        let ghost docs0 = doc_views(docs@);
        let ghost skipped0 = skipped@.map_values(|p: String| p@);
        let DocumentSource { path, outcome } = s;
        let ghost is_file = outcome is File;
        match read_document(path.as_str(), outcome) {
            Ok(d) => {
                proof {
                    assert(source_doc(s) == Some(d@));
                }
                docs.push(d);
                proof {
                    assert(doc_views(docs@) =~= docs0.push(
                        derive_document_spec(
                            s.path@,
                            (match s.outcome {
                                ReadOutcome::File(f) => f,
                                _ => arbitrary(),
                            }).content@,
                            (match s.outcome {
                                ReadOutcome::File(f) => f,
                                _ => arbitrary(),
                            }).created_secs,
                            (match s.outcome {
                                ReadOutcome::File(f) => f,
                                _ => arbitrary(),
                            }).modified_secs,
                        ),
                    ));
                    assert(derived_doc_multiset(rest0) == derived_doc_multiset(rest@).insert(
                        doc_views(docs@).last(),
                    ));
                    assert(doc_views(docs@).to_multiset() == docs0.to_multiset().insert(
                        doc_views(docs@).last(),
                    ));
                    assert(derived_doc_multiset(rest@).insert(doc_views(docs@).last()).add(
                        docs0.to_multiset(),
                    ) =~= derived_doc_multiset(rest@).add(docs0.to_multiset().insert(
                        doc_views(docs@).last(),
                    )));
                    assert(skipped_path_multiset(rest0) == skipped_path_multiset(rest@));
                }
            },
            Err(_) => {
                proof {
                    assert(source_doc(s) is None);
                }
                skipped.push(path);
                proof {
                    assert(skipped@.map_values(|p: String| p@) =~= skipped0.push(s.path@));
                    assert(skipped@.map_values(|p: String| p@).to_multiset()
                        == skipped0.to_multiset().insert(s.path@));
                    assert(skipped_path_multiset(rest0) == skipped_path_multiset(rest@).insert(
                        s.path@,
                    ));
                    assert(skipped_path_multiset(rest@).insert(s.path@).add(skipped0.to_multiset())
                        =~= skipped_path_multiset(rest@).add(skipped0.to_multiset().insert(
                        s.path@,
                    )));
                    assert(derived_doc_multiset(rest0) == derived_doc_multiset(rest@));
                }
            },
        }
    }
    proof {
        assert(rest@.len() == 0);
        assert(derived_doc_multiset(rest@) =~= Multiset::<DocumentV>::empty());
        assert(skipped_path_multiset(rest@) =~= Multiset::<Seq<char>>::empty());
        assert(Multiset::<DocumentV>::empty().add(doc_views(docs@).to_multiset()) =~= doc_views(
            docs@,
        ).to_multiset());
        assert(Multiset::<Seq<char>>::empty().add(
            skipped@.map_values(|p: String| p@).to_multiset(),
        ) =~= skipped@.map_values(|p: String| p@).to_multiset());
    }
    let documents = sort_documents_by_recency(docs);
    DocumentListing { documents, skipped }
}

/// Lists the documents of one directory. A directory that does not exist
/// yields an empty listing, never an error; the caller reports `dir_exists`
/// and, when it exists, one source per regular `.md` file in it.
pub fn list_documents_in_dir(dir_exists: bool, sources: Vec<DocumentSource>) -> (r:
    DocumentListing)
    ensures
        !dir_exists ==> r.documents@ =~= Seq::<Document>::empty() && r.skipped@ =~= Seq::<
            String,
        >::empty(),
        dir_exists ==> doc_views(r.documents@).to_multiset() == derived_doc_multiset(sources@)
            && docs_sorted_desc(r.documents@) && r.skipped@.map_values(|p: String| p@).to_multiset()
            == skipped_path_multiset(sources@),
{
    if !dir_exists {
        return DocumentListing { documents: Vec::new(), skipped: Vec::new() };
    }
    collect_documents(sources)
}

/// Lists every document of a project. The caller walks the two top-level
/// category directories recursively and hands one source per `.md` file
/// found, in any order; the result is ordered by recency.
pub fn list_all_documents(sources: Vec<DocumentSource>) -> (r: DocumentListing)
    ensures
        doc_views(r.documents@).to_multiset() == derived_doc_multiset(sources@),
        docs_sorted_desc(r.documents@),
        r.skipped@.map_values(|p: String| p@).to_multiset() == skipped_path_multiset(sources@),
{
    collect_documents(sources)
}

/// The two top-level category directories that `list_all_documents` covers;
/// directories outside them are not visited.
pub fn top_level_categories() -> (r: (&'static str, &'static str))
    ensures
        r.0@ == "WORLD"@,
        r.1@ == "NARRATIVE"@,
{
    ("WORLD", "NARRATIVE")
}

} // verus!
