//! The records the store works with: projects and documents, with their
//! mathematical views.

use vstd::prelude::*;

verus! {

/// A writing project: a directory tree on disk identified by its descriptor
/// file.
#[derive(Clone, Debug)]
pub struct Project {
    /// Opaque unique id, generated at creation, immutable thereafter.
    pub id: String,
    /// Display name chosen by the caller at creation.
    pub name: String,
    /// Absolute location of the project root.
    pub path: String,
    /// Creation time, seconds since the Unix epoch.
    pub created_at: i64,
    /// Last modification time, seconds since the Unix epoch.
    pub modified_at: i64,
}

/// Mathematical view of a [`Project`].
pub struct ProjectV {
    pub id: Seq<char>,
    pub name: Seq<char>,
    pub path: Seq<char>,
    pub created_at: int,
    pub modified_at: int,
}

impl View for Project {
    type V = ProjectV;

    open spec fn view(&self) -> ProjectV {
        ProjectV {
            id: self.id@,
            name: self.name@,
            path: self.path@,
            created_at: self.created_at as int,
            modified_at: self.modified_at as int,
        }
    }
}

/// The two top-level content categories of a project.
#[derive(Clone, Copy, Debug, PartialEq, Eq, Structural)]
pub enum DocumentType {
    World,
    Narrative,
}

/// A markdown document backed by a single file.
#[derive(Clone, Debug)]
pub struct Document {
    /// Opaque unique id, embedded in the file's frontmatter.
    pub id: String,
    /// Logical owner reference; may be empty when the caller supplies none.
    pub project_id: String,
    /// Absolute location of the backing file; the document's true identity.
    pub path: String,
    /// Human-readable name, derived with a fallback chain on read.
    pub title: String,
    /// Full raw text of the backing file, frontmatter included.
    pub content: String,
    /// Whitespace-delimited token count of the body text.
    pub word_count: usize,
    /// Creation time, seconds since the Unix epoch.
    pub created_at: i64,
    /// Last modification time, seconds since the Unix epoch.
    pub modified_at: i64,
    /// Free-form structured payload, reserved; not populated by the current
    /// read and create paths.
    pub metadata: Option<String>,
}

/// Mathematical view of a [`Document`].
pub struct DocumentV {
    pub id: Seq<char>,
    pub project_id: Seq<char>,
    pub path: Seq<char>,
    pub title: Seq<char>,
    pub content: Seq<char>,
    pub word_count: nat,
    pub created_at: int,
    pub modified_at: int,
    pub metadata: Option<Seq<char>>,
}

impl View for Document {
    type V = DocumentV;

    open spec fn view(&self) -> DocumentV {
        DocumentV {
            id: self.id@,
            project_id: self.project_id@,
            path: self.path@,
            title: self.title@,
            content: self.content@,
            word_count: self.word_count as nat,
            created_at: self.created_at as int,
            modified_at: self.modified_at as int,
            metadata: match self.metadata {
                Some(ref m) => Some(m@),
                None => None,
            },
        }
    }
}

} // verus!
