use aycd_store::document::{
    count_words, create_document, delete_document, new_document_content, read_document,
    sanitize_filename, update_document, FileData, ReadOutcome,
};
use aycd_store::errors::StoreError;
use aycd_store::frontmatter::parse_frontmatter;
use aycd_store::listing::{
    list_all_documents, list_documents_in_dir, markdown_files, sort_documents_by_recency,
    DirEntryInfo, DocumentSource,
};
use aycd_store::models::Document;

fn file_outcome(content: &str, created: Option<i64>, modified: Option<i64>) -> ReadOutcome {
    ReadOutcome::File(FileData {
        content: content.to_string(),
        created_secs: created,
        modified_secs: modified,
    })
}

#[test]
fn test_sanitize_filename() {
    assert_eq!(sanitize_filename("My Novel: Chapter 1"), "My Novel- Chapter 1");
    assert_eq!(sanitize_filename("Test/File"), "Test-File");
}

#[test]
fn test_count_words() {
    assert_eq!(count_words("Hello world"), 2);
    assert_eq!(count_words("  Multiple   spaces  "), 2);
    assert_eq!(count_words(""), 0);
}

#[test]
fn sanitize_replaces_every_forbidden_character() {
    assert_eq!(sanitize_filename(r#"a/b\c:d*e?f"g<h>i|j"#), "a-b-c-d-e-f-g-h-i-j");
    assert_eq!(sanitize_filename("  padded  "), "padded");
    assert_eq!(sanitize_filename(""), "");
}

#[test]
fn new_document_content_has_frontmatter_and_heading() {
    let text = new_document_content("abc-123", "My Story", 42);
    assert_eq!(text, "---\nid: abc-123\ntitle: My Story\ncreated: 42\n---\n\n# My Story\n\n");
}

#[test]
fn created_document_reads_back_with_same_title() {
    let plan = create_document("/p", "Test Chapter", "NARRATIVE", Some("Drafts"), false).unwrap();
    assert_eq!(plan.document.title, "Test Chapter");
    assert_eq!(plan.target_dir, "/p/NARRATIVE/Drafts");
    assert_eq!(plan.document.path, "/p/NARRATIVE/Drafts/Test Chapter.md");
    assert_eq!(plan.document.id.len(), 36);
    assert_eq!(plan.document.project_id, "");
    assert_eq!(plan.document.content, "");
    assert_eq!(plan.document.word_count, 0);
    assert_eq!(plan.document.created_at, plan.document.modified_at);

    let read = read_document(
        &plan.document.path,
        file_outcome(&plan.file_content, None, Some(7)),
    )
    .unwrap();
    assert_eq!(read.title, "Test Chapter");
    assert_eq!(read.id, plan.document.id);
    assert_eq!(read.created_at, plan.document.created_at);
    assert_eq!(read.modified_at, 7);
    assert!(read.path.contains("Test Chapter.md"));
}

#[test]
fn create_document_collision_fails_without_writing() {
    let r = create_document("/p", "Test", "WORLD", None, true);
    assert!(matches!(r, Err(StoreError::AlreadyExists)));
}

#[test]
fn read_document_derives_metadata_from_frontmatter() {
    let content = "---\nid: the-id\ntitle: The Title\ncreated: 99\n---\none two three";
    let d = read_document("/x/file.md", file_outcome(content, Some(5), Some(6))).unwrap();
    assert_eq!(d.id, "the-id");
    assert_eq!(d.title, "The Title");
    assert_eq!(d.created_at, 99);
    assert_eq!(d.modified_at, 6);
    assert_eq!(d.word_count, 3);
    assert_eq!(d.content, content);
    assert_eq!(d.project_id, "");
    assert!(d.metadata.is_none());
}

#[test]
fn read_document_title_falls_back_to_heading_then_stem() {
    // heading fallback
    let d = read_document("/x/notes.md", file_outcome("intro\n# My Heading \nrest", None, None))
        .unwrap();
    assert_eq!(d.title, "My Heading");
    // file stem fallback
    let d = read_document("/x/notes.md", file_outcome("plain body only", None, None)).unwrap();
    assert_eq!(d.title, "notes");
    // last resort
    let d = read_document("", file_outcome("", None, None)).unwrap();
    assert_eq!(d.title, "Untitled");
}

#[test]
fn read_document_timestamp_fallbacks() {
    // no frontmatter value: filesystem creation time, else zero
    let d = read_document("/x/a.md", file_outcome("body", Some(11), None)).unwrap();
    assert_eq!(d.created_at, 11);
    assert_eq!(d.modified_at, 0);
    let d = read_document("/x/a.md", file_outcome("body", None, None)).unwrap();
    assert_eq!(d.created_at, 0);
}

#[test]
fn read_document_missing_and_unreadable() {
    assert!(matches!(
        read_document("/x/a.md", ReadOutcome::Missing),
        Err(StoreError::NotFound)
    ));
    assert!(matches!(
        read_document("/x/a.md", ReadOutcome::Unreadable),
        Err(StoreError::IoError)
    ));
}

#[test]
fn frontmatter_resilience() {
    // no opening delimiter: the whole file is body
    let (fm, body) = parse_frontmatter("title: not frontmatter\njust text");
    assert!(fm.get_str("title").is_none());
    assert_eq!(body, "title: not frontmatter\njust text");
    // unterminated block: the whole file is body
    let (fm, body) = parse_frontmatter("---\nid: x\nno closing");
    assert!(fm.get_str("id").is_none());
    assert_eq!(body, "---\nid: x\nno closing");
    // a non-numeric value in an integer-looking field stays a string
    let (fm, body) = parse_frontmatter("---\ncreated: soon\n---\nrest");
    assert_eq!(fm.get_int("created"), None);
    assert_eq!(fm.get_str("created").unwrap(), "soon");
    assert_eq!(body, "rest");
}

#[test]
fn frontmatter_values_parse_like_integers_when_they_are() {
    let (fm, _) = parse_frontmatter(
        "---\na: 42\nb: -7\nc: +3\nd: 9999999999999999999999\nmalformed line\nb: 8\n---\nx",
    );
    assert_eq!(fm.get_int("a"), Some(42));
    // a later line overwrites an earlier one
    assert_eq!(fm.get_int("b"), Some(8));
    assert_eq!(fm.get_int("c"), Some(3));
    // out of range for i64: kept as a string
    assert_eq!(fm.get_int("d"), None);
    assert_eq!(fm.get_str("d").unwrap(), "9999999999999999999999");
}

#[test]
fn update_and_delete_require_existence() {
    assert_eq!(update_document(true, "new text").unwrap(), "new text");
    assert!(matches!(update_document(false, "x"), Err(StoreError::NotFound)));
    assert!(delete_document(true).is_ok());
    assert!(matches!(delete_document(false), Err(StoreError::NotFound)));
}

#[test]
fn listing_nonexistent_directory_is_empty() {
    let r = list_documents_in_dir(false, Vec::new());
    assert!(r.documents.is_empty());
    assert!(r.skipped.is_empty());
}

fn source(path: &str, content: &str, modified: i64) -> DocumentSource {
    DocumentSource {
        path: path.to_string(),
        outcome: file_outcome(content, None, Some(modified)),
    }
}

#[test]
fn listing_sorts_by_recency_and_skips_failures() {
    let sources = vec![
        source("/d/a.md", "# A\n", 10),
        DocumentSource { path: "/d/bad.md".to_string(), outcome: ReadOutcome::Unreadable },
        source("/d/b.md", "# B\n", 30),
        source("/d/c.md", "# C\n", 20),
    ];
    let r = list_documents_in_dir(true, sources);
    let titles: Vec<&str> = r.documents.iter().map(|d| d.title.as_str()).collect();
    assert_eq!(titles, vec!["B", "C", "A"]);
    assert_eq!(r.skipped, vec!["/d/bad.md".to_string()]);

    let all = list_all_documents(vec![source("/d/x.md", "# X\n", 2), source("/d/y.md", "# Y\n", 5)]);
    let titles: Vec<&str> = all.documents.iter().map(|d| d.title.as_str()).collect();
    assert_eq!(titles, vec!["Y", "X"]);
}

#[test]
fn sort_documents_is_descending_by_modified_at() {
    let mk = |m: i64| Document {
        id: String::new(),
        project_id: String::new(),
        path: String::new(),
        title: String::new(),
        content: String::new(),
        word_count: 0,
        created_at: 0,
        modified_at: m,
        metadata: None,
    };
    let sorted = sort_documents_by_recency(vec![mk(1), mk(9), mk(4), mk(9), mk(0)]);
    let times: Vec<i64> = sorted.iter().map(|d| d.modified_at).collect();
    assert_eq!(times, vec![9, 9, 4, 1, 0]);
}

#[test]
fn markdown_files_keeps_only_md_regular_files() {
    let entries = vec![
        DirEntryInfo { path: "/d/a.md".to_string(), is_file: true },
        DirEntryInfo { path: "/d/sub.md".to_string(), is_file: false },
        DirEntryInfo { path: "/d/b.txt".to_string(), is_file: true },
        DirEntryInfo { path: "/d/.md".to_string(), is_file: true },
        DirEntryInfo { path: "/d/c.md".to_string(), is_file: true },
    ];
    assert_eq!(markdown_files(entries), vec!["/d/a.md".to_string(), "/d/c.md".to_string()]);
}
