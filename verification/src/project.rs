//! The project store's logic: the fixed folder taxonomy, creating and
//! opening projects, rewriting descriptors, and listing projects by
//! recency. The surrounding application performs the filesystem calls and
//! hands their results in as plain values.

use vstd::prelude::*;
use vstd::multiset::Multiset;
use vstd::seq_lib::group_to_multiset_ensures;

use crate::descriptor::{parse_descriptor, parse_descriptor_spec, render_descriptor,
    render_descriptor_spec};
use crate::errors::StoreError;
use crate::listing::{proj_views, projects_sorted_desc, sort_projects_by_recency};
use crate::models::{Project, ProjectV};
use crate::outside::{home_dir, new_id, now_timestamp};
use crate::paths::{join_path, join_path_spec};

verus! {

broadcast use group_to_multiset_ensures;

// ---------------------------------------------------------------------------
// The projects root
// ---------------------------------------------------------------------------

/// The default projects root under a given home directory.
pub open spec fn projects_root_spec(home: Seq<char>) -> Seq<char> {
    join_path_spec(join_path_spec(home, "AYCD"@), "projects"@)
}

/// The default projects root under `home`.
pub fn projects_root_of(home: &str) -> (r: String)
    ensures
        r@ == projects_root_spec(home@),
{
    let base = join_path(home, "AYCD");
    join_path(base.as_str(), "projects")
}

/// The fixed default location for projects, under the user's home
/// directory. Fails exactly when the platform reports no home directory.
pub fn get_projects_root() -> (r: Result<String, StoreError>)
    ensures
        r is Err ==> r == Err::<String, StoreError>(StoreError::NoHomeDirectory),
        (r matches Ok(p) ==> exists|home: Seq<char>| p@ == projects_root_spec(home)),
{
    match home_dir() {
        Some(home) => {
            let root = projects_root_of(home.as_str());
            proof {
                assert(root@ == projects_root_spec(home@));
            }
            Ok(root)
        },
        None => Err(StoreError::NoHomeDirectory),
    }
}

// ---------------------------------------------------------------------------
// The taxonomy
// ---------------------------------------------------------------------------

/// Every directory a fresh project contains: the root itself, the two
/// top-level categories with their fixed subfolders, and the two auxiliary
/// directories reserved for future use.
pub open spec fn project_dirs_spec(root: Seq<char>) -> Seq<Seq<char>> {
    seq![
        root,
        join_path_spec(root, "WORLD/Cast"@),
        join_path_spec(root, "WORLD/Places"@),
        join_path_spec(root, "WORLD/Objects"@),
        join_path_spec(root, "WORLD/Systems"@),
        join_path_spec(root, "WORLD/Lore"@),
        join_path_spec(root, "NARRATIVE/Drafts"@),
        join_path_spec(root, "NARRATIVE/Final"@),
        join_path_spec(root, "NARRATIVE/Research"@),
        join_path_spec(root, "NARRATIVE/Planning"@),
        join_path_spec(root, "cache"@),
        join_path_spec(root, "search"@),
    ]
}

/// The directories to create for a new project, parents first; creating
/// each of them (with parents) yields the fixed taxonomy.
pub fn init_project_structure(project_path: &str) -> (r: Vec<String>)
    ensures
        r@.map_values(|s: String| s@) == project_dirs_spec(project_path@),
{
    let mut r: Vec<String> = Vec::new();
    r.push(project_path.to_owned());
    r.push(join_path(project_path, "WORLD/Cast"));
    r.push(join_path(project_path, "WORLD/Places"));
    r.push(join_path(project_path, "WORLD/Objects"));
    r.push(join_path(project_path, "WORLD/Systems"));
    r.push(join_path(project_path, "WORLD/Lore"));
    r.push(join_path(project_path, "NARRATIVE/Drafts"));
    r.push(join_path(project_path, "NARRATIVE/Final"));
    r.push(join_path(project_path, "NARRATIVE/Research"));
    r.push(join_path(project_path, "NARRATIVE/Planning"));
    r.push(join_path(project_path, "cache"));
    r.push(join_path(project_path, "search"));
    proof {
        assert(r@.map_values(|s: String| s@) =~= project_dirs_spec(project_path@));
    }
    r
}

// ---------------------------------------------------------------------------
// Creating a project
// ---------------------------------------------------------------------------

/// Everything the application must do to create one project: the
/// directories to create, the record, and the descriptor file to write.
pub struct ProjectPlan {
    pub project: Project,
    pub dirs: Vec<String>,
    pub descriptor_path: String,
    pub descriptor_json: String,
}

/// Plans the creation of a project under `base_path` (the default projects
/// root, or a custom location). `dir_exists` is the caller's report of
/// whether the project directory already exists; on collision nothing is
/// created.
pub fn create_project(name: &str, base_path: &str, dir_exists: bool) -> (r: Result<
    ProjectPlan,
    StoreError,
>)
    ensures
        dir_exists ==> r == Err::<ProjectPlan, StoreError>(StoreError::AlreadyExists),
        !dir_exists ==> (r matches Ok(plan) && plan.project.path@ == join_path_spec(
            base_path@,
            name@,
        ) && plan.project.name@ == name@ && plan.project.id@.len() == 36
            && plan.project.created_at == plan.project.modified_at && plan.dirs@.map_values(
            |s: String| s@,
        ) == project_dirs_spec(plan.project.path@) && plan.descriptor_path@ == join_path_spec(
            plan.project.path@,
            "project.json"@,
        ) && plan.descriptor_json@ == render_descriptor_spec(plan.project@)),
{
    if dir_exists {
        return Err(StoreError::AlreadyExists);
    }
    let project_path = join_path(base_path, name);
    let dirs = init_project_structure(project_path.as_str());
    let descriptor_path = join_path(project_path.as_str(), "project.json");
    let id = new_id();
    let now = now_timestamp();
    let project = Project {
        id,
        name: name.to_owned(),
        path: project_path,
        created_at: now,
        modified_at: now,
    };
    let descriptor_json = render_descriptor(&project);
    Ok(ProjectPlan { project, dirs, descriptor_path, descriptor_json })
}

// ---------------------------------------------------------------------------
// Opening and updating
// ---------------------------------------------------------------------------

/// The outcome of fetching a project's descriptor file.
pub enum FetchResult {
    /// The descriptor file does not exist.
    Missing,
    /// The descriptor file exists but could not be read.
    Unreadable,
    /// The descriptor file's text.
    Content(String),
}

/// Opens a project from what the filesystem returned for its descriptor
/// file: a missing descriptor means the directory is no project at all, and
/// a descriptor that does not parse is corrupt.
pub fn open_project(descriptor: FetchResult) -> (r: Result<Project, StoreError>)
    ensures
        descriptor is Missing ==> r == Err::<Project, StoreError>(StoreError::InvalidProject),
        descriptor is Unreadable ==> r == Err::<Project, StoreError>(StoreError::IoError),
        (match descriptor {
            FetchResult::Content(c) => match parse_descriptor_spec(c@) {
                Some(pv) => r matches Ok(p) && p@ == pv,
                None => r == Err::<Project, StoreError>(StoreError::CorruptDescriptor),
            },
            _ => true,
        }),
{
    match descriptor {
        FetchResult::Missing => Err(StoreError::InvalidProject),
        FetchResult::Unreadable => Err(StoreError::IoError),
        FetchResult::Content(c) => match parse_descriptor(c.as_str()) {
            Some(p) => Ok(p),
            None => Err(StoreError::CorruptDescriptor),
        },
    }
}

/// What the application must write to persist a project record: its
/// descriptor file's path and new text. The whole record is rewritten; no
/// merge with what is on disk.
pub struct DescriptorWrite {
    pub path: String,
    pub json: String,
}

/// Plans an update of a project's descriptor file.
pub fn update_project(project: &Project) -> (r: DescriptorWrite)
    ensures
        r.path@ == join_path_spec(project.path@, "project.json"@),
        r.json@ == render_descriptor_spec(project@),
{
    let path = join_path(project.path.as_str(), "project.json");
    let json = render_descriptor(project);
    DescriptorWrite { path, json }
}

// ---------------------------------------------------------------------------
// Listing projects
// ---------------------------------------------------------------------------

/// The records among the fetched descriptors that parse; the others are
/// passed over silently.
pub open spec fn parsed_project_multiset(descriptors: Seq<FetchResult>) -> Multiset<ProjectV>
    decreases descriptors.len(),
{
    if descriptors.len() == 0 {
        Multiset::<ProjectV>::empty()
    } else {
        let rest = parsed_project_multiset(descriptors.drop_last());
        match descriptors.last() {
            FetchResult::Content(c) => match parse_descriptor_spec(c@) {
                Some(pv) => rest.insert(pv),
                None => rest,
            },
            _ => rest,
        }
    }
}

/// Lists the projects under the projects root. A root that does not exist
/// yields an empty list, never an error; the caller reports `root_exists`
/// and hands the fetched descriptor of each immediate subdirectory.
/// Descriptors that are missing, unreadable or corrupt are skipped
/// silently; the result is ordered by `modified_at`, most recent first.
pub fn list_projects(root_exists: bool, descriptors: Vec<FetchResult>) -> (r: Vec<Project>)
    ensures
        !root_exists ==> r@ =~= Seq::<Project>::empty(),
        root_exists ==> proj_views(r@).to_multiset() == parsed_project_multiset(descriptors@)
            && projects_sorted_desc(r@),
{
    if !root_exists {
        return Vec::new();
    }
    let ghost input = descriptors@;
    let mut rest = descriptors;
    let mut projects: Vec<Project> = Vec::new();
    proof {
        assert(proj_views(projects@) =~= Seq::<ProjectV>::empty());
        assert(parsed_project_multiset(input) =~= parsed_project_multiset(rest@).add(
            proj_views(projects@).to_multiset(),
        ));
    }
    while rest.len() > 0
        invariant
            parsed_project_multiset(input) == parsed_project_multiset(rest@).add(
                proj_views(projects@).to_multiset(),
            ),
        decreases rest@.len(),
    {
        let ghost rest0 = rest@;
        let d = rest.pop().unwrap();
        proof {
            assert(rest@ =~= rest0.drop_last());
            assert(d == rest0.last());
        }
        let ghost projs0 = proj_views(projects@);
        let ghost was_parsed: Option<ProjectV> = match d {
            FetchResult::Content(ref c) => parse_descriptor_spec(c@),
            _ => None,
        };
        match open_project(d) {
            Ok(p) => {
                proof {
                    assert(was_parsed == Some(p@));
                    assert(parsed_project_multiset(rest0) == parsed_project_multiset(rest@).insert(
                        p@,
                    ));
                }
                let ghost pv = p@;
                projects.push(p);
                proof {
                    assert(proj_views(projects@) =~= projs0.push(pv));
                    assert(proj_views(projects@).to_multiset() == projs0.to_multiset().insert(pv));
                    assert(parsed_project_multiset(rest@).insert(pv).add(projs0.to_multiset())
                        =~= parsed_project_multiset(rest@).add(projs0.to_multiset().insert(pv)));
                }
            },
            Err(_) => {
                proof {
                    assert(was_parsed is None);
                    assert(parsed_project_multiset(rest0) == parsed_project_multiset(rest@));
                }
            },
        }
    }
    proof {
        assert(parsed_project_multiset(rest@) =~= Multiset::<ProjectV>::empty());
        assert(Multiset::<ProjectV>::empty().add(proj_views(projects@).to_multiset())
            =~= proj_views(projects@).to_multiset());
    }
    sort_projects_by_recency(projects)
}

} // verus!
