use aycd_store::descriptor::{parse_descriptor, render_descriptor};
use aycd_store::errors::StoreError;
use aycd_store::models::Project;
use aycd_store::paths::{file_stem, is_markdown_path, is_within, join_path, validate_path};
use aycd_store::project::{
    create_project, get_projects_root, init_project_structure, list_projects, open_project,
    update_project, FetchResult,
};

fn sample() -> Project {
    Project {
        id: "11111111-2222-3333-4444-555555555555".to_string(),
        name: "My Novel".to_string(),
        path: "/tmp/projects/My Novel".to_string(),
        created_at: 1700000000,
        modified_at: 1700000001,
    }
}

#[test]
fn render_descriptor_is_pretty_printed() {
    let json = render_descriptor(&sample());
    assert_eq!(
        json,
        "{\n  \"id\": \"11111111-2222-3333-4444-555555555555\",\n  \"name\": \"My Novel\",\n  \"path\": \"/tmp/projects/My Novel\",\n  \"createdAt\": 1700000000,\n  \"modifiedAt\": 1700000001\n}"
    );
}

#[test]
fn descriptor_round_trips() {
    let p = sample();
    let back = parse_descriptor(&render_descriptor(&p)).unwrap();
    assert_eq!(back.id, p.id);
    assert_eq!(back.name, p.name);
    assert_eq!(back.path, p.path);
    assert_eq!(back.created_at, p.created_at);
    assert_eq!(back.modified_at, p.modified_at);
}

#[test]
fn descriptor_round_trips_with_escapes_and_negative_times() {
    let p = Project {
        id: "x".to_string(),
        name: "a \"quoted\"\\name\nwith\tcontrol\u{1}chars".to_string(),
        path: "/p".to_string(),
        created_at: -5,
        modified_at: i64::MIN,
    };
    let back = parse_descriptor(&render_descriptor(&p)).unwrap();
    assert_eq!(back.name, p.name);
    assert_eq!(back.created_at, -5);
    assert_eq!(back.modified_at, i64::MIN);
}

#[test]
fn descriptor_reader_accepts_other_layouts() {
    // any order, snake_case spellings, extra white space and unknown fields
    let p = parse_descriptor(
        " { \"modified_at\": 2 , \"name\": \"N\", \"extra\": \"ignored\", \"path\": \"/p\", \"created_at\": 1, \"id\": \"i\" } ",
    )
    .unwrap();
    assert_eq!(p.id, "i");
    assert_eq!(p.name, "N");
    assert_eq!(p.path, "/p");
    assert_eq!(p.created_at, 1);
    assert_eq!(p.modified_at, 2);
    // unicode escapes
    let p = parse_descriptor(
        "{\"id\":\"\\u0041\\u00e9\",\"name\":\"\",\"path\":\"\",\"createdAt\":0,\"modifiedAt\":0}",
    )
    .unwrap();
    assert_eq!(p.id, "A\u{e9}");
}

#[test]
fn descriptor_rejects_malformed_shapes() {
    assert!(parse_descriptor("").is_none());
    assert!(parse_descriptor("not json").is_none());
    assert!(parse_descriptor("{}").is_none());
    // missing field
    assert!(parse_descriptor("{\"id\":\"a\",\"name\":\"b\",\"path\":\"c\",\"createdAt\":1}").is_none());
    // duplicate field, counting both spellings
    assert!(parse_descriptor(
        "{\"id\":\"a\",\"name\":\"b\",\"path\":\"c\",\"createdAt\":1,\"created_at\":1,\"modifiedAt\":2}"
    )
    .is_none());
    // wrong type
    assert!(parse_descriptor(
        "{\"id\":7,\"name\":\"b\",\"path\":\"c\",\"createdAt\":1,\"modifiedAt\":2}"
    )
    .is_none());
    // trailing content
    assert!(parse_descriptor(
        "{\"id\":\"a\",\"name\":\"b\",\"path\":\"c\",\"createdAt\":1,\"modifiedAt\":2} x"
    )
    .is_none());
    // integer out of i64 range
    assert!(parse_descriptor(
        "{\"id\":\"a\",\"name\":\"b\",\"path\":\"c\",\"createdAt\":99999999999999999999,\"modifiedAt\":2}"
    )
    .is_none());
}

#[test]
fn test_create_and_open_project() {
    let plan = create_project("test-novel", "/tmp/aycd_projects", false).unwrap();
    assert_eq!(plan.project.name, "test-novel");
    assert_eq!(plan.project.path, "/tmp/aycd_projects/test-novel");
    assert_eq!(plan.project.id.len(), 36);
    assert_eq!(plan.project.created_at, plan.project.modified_at);

    let dirs = plan.dirs.clone();
    assert_eq!(dirs.len(), 12);
    assert!(dirs.contains(&"/tmp/aycd_projects/test-novel".to_string()));
    assert!(dirs.contains(&"/tmp/aycd_projects/test-novel/WORLD/Cast".to_string()));
    assert!(dirs.contains(&"/tmp/aycd_projects/test-novel/WORLD/Places".to_string()));
    assert!(dirs.contains(&"/tmp/aycd_projects/test-novel/WORLD/Objects".to_string()));
    assert!(dirs.contains(&"/tmp/aycd_projects/test-novel/WORLD/Systems".to_string()));
    assert!(dirs.contains(&"/tmp/aycd_projects/test-novel/WORLD/Lore".to_string()));
    assert!(dirs.contains(&"/tmp/aycd_projects/test-novel/NARRATIVE/Drafts".to_string()));
    assert!(dirs.contains(&"/tmp/aycd_projects/test-novel/NARRATIVE/Final".to_string()));
    assert!(dirs.contains(&"/tmp/aycd_projects/test-novel/NARRATIVE/Research".to_string()));
    assert!(dirs.contains(&"/tmp/aycd_projects/test-novel/NARRATIVE/Planning".to_string()));
    assert!(dirs.contains(&"/tmp/aycd_projects/test-novel/cache".to_string()));
    assert!(dirs.contains(&"/tmp/aycd_projects/test-novel/search".to_string()));
    assert_eq!(plan.descriptor_path, "/tmp/aycd_projects/test-novel/project.json");

    // opening what create wrote yields a record with matching id and name
    let opened = open_project(FetchResult::Content(plan.descriptor_json.clone())).unwrap();
    assert_eq!(opened.id, plan.project.id);
    assert_eq!(opened.name, plan.project.name);
    assert_eq!(opened.path, plan.project.path);
}

#[test]
fn create_project_collision_fails() {
    assert!(matches!(
        create_project("n", "/tmp/base", true),
        Err(StoreError::AlreadyExists)
    ));
}

#[test]
fn open_project_error_kinds() {
    assert!(matches!(open_project(FetchResult::Missing), Err(StoreError::InvalidProject)));
    assert!(matches!(open_project(FetchResult::Unreadable), Err(StoreError::IoError)));
    assert!(matches!(
        open_project(FetchResult::Content("{broken".to_string())),
        Err(StoreError::CorruptDescriptor)
    ));
}

#[test]
fn init_project_structure_lists_the_taxonomy() {
    let dirs = init_project_structure("/r");
    assert_eq!(
        dirs,
        vec![
            "/r".to_string(),
            "/r/WORLD/Cast".to_string(),
            "/r/WORLD/Places".to_string(),
            "/r/WORLD/Objects".to_string(),
            "/r/WORLD/Systems".to_string(),
            "/r/WORLD/Lore".to_string(),
            "/r/NARRATIVE/Drafts".to_string(),
            "/r/NARRATIVE/Final".to_string(),
            "/r/NARRATIVE/Research".to_string(),
            "/r/NARRATIVE/Planning".to_string(),
            "/r/cache".to_string(),
            "/r/search".to_string(),
        ]
    );
}

#[test]
fn list_projects_skips_bad_descriptors_and_sorts() {
    let mk = |name: &str, modified: i64| {
        let p = Project {
            id: "i".to_string(),
            name: name.to_string(),
            path: format!("/r/{}", name),
            created_at: 0,
            modified_at: modified,
        };
        FetchResult::Content(render_descriptor(&p))
    };
    let r = list_projects(
        true,
        vec![
            mk("old", 1),
            FetchResult::Missing,
            mk("new", 9),
            FetchResult::Content("garbage".to_string()),
            mk("mid", 5),
        ],
    );
    let names: Vec<&str> = r.iter().map(|p| p.name.as_str()).collect();
    assert_eq!(names, vec!["new", "mid", "old"]);

    assert!(list_projects(false, Vec::new()).is_empty());
}

#[test]
fn update_project_rewrites_the_descriptor() {
    let p = sample();
    let w = update_project(&p);
    assert_eq!(w.path, "/tmp/projects/My Novel/project.json");
    assert_eq!(w.json, render_descriptor(&p));
}

#[test]
fn projects_root_is_under_home() {
    match get_projects_root() {
        Ok(root) => assert!(root.ends_with("/AYCD/projects")),
        Err(e) => assert!(matches!(e, StoreError::NoHomeDirectory)),
    }
}

#[test]
fn path_helpers() {
    assert_eq!(join_path("/a", "b"), "/a/b");
    assert_eq!(join_path("/a/", "b"), "/a/b");
    assert_eq!(join_path("", "b"), "b");
    assert_eq!(file_stem("/x/notes.md"), "notes");
    assert_eq!(file_stem("/x/.hidden"), ".hidden");
    assert_eq!(file_stem("plain"), "plain");
    assert!(is_markdown_path("/x/a.md"));
    assert!(!is_markdown_path("/x/a.txt"));
    assert!(!is_markdown_path("/x/.md"));
}

#[test]
fn validate_path_guards_traversal() {
    let ok = validate_path(Some("/base/sub/file".to_string()), Some("/base".to_string()));
    assert_eq!(ok.unwrap(), "/base/sub/file");
    assert!(is_within("/base", "/base"));
    assert!(is_within("/base/x", "/"));
    assert!(!is_within("/basement", "/base"));
    assert!(matches!(
        validate_path(Some("/etc/passwd".to_string()), Some("/base".to_string())),
        Err(StoreError::PathTraversal)
    ));
    assert!(matches!(
        validate_path(None, Some("/base".to_string())),
        Err(StoreError::IoError)
    ));
}

#[test]
fn error_messages_are_stable() {
    assert_eq!(StoreError::NotFound.message(), "not found");
    assert_eq!(StoreError::AlreadyExists.message(), "already exists");
    assert_eq!(StoreError::InvalidProject.message(), "not a valid project: descriptor not found");
    assert_eq!(StoreError::CorruptDescriptor.message(), "failed to parse project descriptor");
    assert_eq!(StoreError::PathTraversal.message(), "path traversal attempt detected");
    assert_eq!(StoreError::NoHomeDirectory.message(), "could not determine home directory");
    assert_eq!(StoreError::IoError.message(), "filesystem operation failed");
}
