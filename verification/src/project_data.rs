//! The project: its metadata, identity and the time of its last change.

use vstd::prelude::*;
use crate::clock::now_millis;

verus! {

/// The file-format version this library writes into new projects.
pub open spec fn version_text() -> Seq<char> {
    "0.1.0"@
}

/// The file-format version this library writes into new projects.
pub fn current_version() -> (r: &'static str)
    ensures
        r@ == version_text(),
{
    "0.1.0"
}

/// Whether `c` is a lowercase hexadecimal digit.
pub open spec fn is_lower_hex(c: char) -> bool {
    ('0' <= c && c <= '9') || ('a' <= c && c <= 'f')
}

/// The text of a version-4 UUID in hyphenated lowercase form
/// (`xxxxxxxx-xxxx-4xxx-Nxxx-xxxxxxxxxxxx`, `N` one of `8`, `9`, `a`, `b`).
pub open spec fn is_uuid_v4_text(s: Seq<char>) -> bool {
    &&& s.len() == 36
    &&& forall|i: int|
        0 <= i < 36 ==> if i == 8 || i == 13 || i == 18 || i == 23 {
            s[i] == '-'
        } else {
            is_lower_hex(#[trigger] s[i])
        }
    &&& s[14] == '4'
    &&& (s[19] == '8' || s[19] == '9' || s[19] == 'a' || s[19] == 'b')
}

/// A fresh random identifier, from `uuid::Uuid::new_v4().to_string()`: the crate sets the
/// version nibble to 4 and the variant bits to `10`, and formats the value hyphenated in
/// lowercase hexadecimal. The value itself is random.
#[verifier::external_body]
fn new_uuid_v4() -> (s: String)
    ensures
        is_uuid_v4_text(s@),
{
    uuid::Uuid::new_v4().to_string()
}

/// A copy of an optional string.
pub fn clone_opt(o: &Option<String>) -> (r: Option<String>)
    ensures
        r == *o,
{
    match o {
        Some(s) => Some(s.clone()),
        None => None,
    }
}

/// A nextbom project and its properties.
#[derive(Debug, Clone)]
pub struct Project {
    /// Unique identifier for the project (UUID v4).
    pub uuid: String,
    /// Project title.
    pub title: Option<String>,
    /// Path to the linked parts database.
    pub database_path: Option<String>,
    /// Identifier of the project-specific alternative parts set.
    pub project_specifics: Option<String>,
    /// Name of the engineer responsible for the project.
    pub engineer: Option<String>,
    /// Latest BOM version string.
    pub latest_bom_version: Option<String>,
    /// Assembly variant used for the last BOM created from this project.
    pub design_variant: Option<String>,
    /// Path to an `.xlsx` template for the exported BOM.
    pub bom_template_path: Option<String>,
    /// Timestamp of the last change (Unix timestamp in milliseconds, UTC).
    pub last_change: i64,
    /// Schema version: the file-format version the project was created with.
    pub schema: String,
}

/// A snapshot of the project state as shown to the user interface.
#[derive(Debug, Clone)]
pub struct ProjectState {
    /// The open project, if any.
    pub project: Option<Project>,
    /// Whether the open project differs from the last saved file.
    pub has_unsaved_changes: bool,
}

impl Project {
    /// `self` and `other` agree on everything but the time of the last change.
    pub open spec fn same_but_time(self, other: Project) -> bool {
        &&& self.uuid == other.uuid
        &&& self.title == other.title
        &&& self.database_path == other.database_path
        &&& self.project_specifics == other.project_specifics
        &&& self.engineer == other.engineer
        &&& self.latest_bom_version == other.latest_bom_version
        &&& self.design_variant == other.design_variant
        &&& self.bom_template_path == other.bom_template_path
        &&& self.schema == other.schema
    }

    /// Creates a new project with a fresh identifier, no metadata, the current file-format
    /// version and the current time as its last change.
    pub fn new() -> (p: Self)
        ensures
            is_uuid_v4_text(p.uuid@),
            p.title is None,
            p.database_path is None,
            p.project_specifics is None,
            p.engineer is None,
            p.latest_bom_version is None,
            p.design_variant is None,
            p.bom_template_path is None,
            p.schema@ == version_text(),
    {
        let uuid = new_uuid_v4();
        Project::created(uuid, now_millis())
    }

    /// A new project with identifier `uuid`, no metadata, the current file-format version and
    /// `now` (milliseconds since the Unix epoch) as its last change.
    pub fn created(uuid: String, now: i64) -> (p: Self)
        ensures
            p.uuid == uuid,
            p.title is None,
            p.database_path is None,
            p.project_specifics is None,
            p.engineer is None,
            p.latest_bom_version is None,
            p.design_variant is None,
            p.bom_template_path is None,
            p.last_change == now,
            p.schema@ == version_text(),
    {
        Project {
            uuid,
            title: None,
            database_path: None,
            project_specifics: None,
            engineer: None,
            latest_bom_version: None,
            design_variant: None,
            bom_template_path: None,
            last_change: now,
            schema: String::from_str(current_version()),
        }
    }

    /// A copy of this project.
    pub fn clone_project(&self) -> (r: Self)
        ensures
            r == *self,
    {
        Project {
            uuid: self.uuid.clone(),
            title: clone_opt(&self.title),
            database_path: clone_opt(&self.database_path),
            project_specifics: clone_opt(&self.project_specifics),
            engineer: clone_opt(&self.engineer),
            latest_bom_version: clone_opt(&self.latest_bom_version),
            design_variant: clone_opt(&self.design_variant),
            bom_template_path: clone_opt(&self.bom_template_path),
            last_change: self.last_change,
            schema: self.schema.clone(),
        }
    }

    /// Sets the time of the last change to now.
    pub fn touch(&mut self)
        ensures
            final(self).same_but_time(*old(self)),
    {
        self.touch_at(now_millis());
    }

    /// Sets the time of the last change to `now` (milliseconds since the Unix epoch).
    pub fn touch_at(&mut self, now: i64)
        ensures
            *final(self) == (Project { last_change: now, ..*old(self) }),
    {
        self.last_change = now;
    }

    /// This project with one change made, the time of the last change aside.
    pub open spec fn changed(self, change: ProjectEdit) -> Project {
        match change {
            ProjectEdit::Title(t) => Project { title: Some(t), ..self },
            ProjectEdit::DatabasePath(p) => Project { database_path: Some(p), ..self },
            ProjectEdit::ProjectSpecifics(s) => Project { project_specifics: Some(s), ..self },
            ProjectEdit::Engineer(e) => Project { engineer: Some(e), ..self },
            ProjectEdit::LatestBomVersion(v) => Project { latest_bom_version: Some(v), ..self },
            ProjectEdit::DesignVariant(d) => Project { design_variant: Some(d), ..self },
            ProjectEdit::BomTemplate(p) => Project { bom_template_path: p, ..self },
        }
    }

    /// Makes one change and records `now` (milliseconds since the Unix epoch) as the time of
    /// the last change.
    pub fn apply_change(&mut self, change: ProjectEdit, now: i64)
        ensures
            *final(self) == (Project { last_change: now, ..old(self).changed(change) }),
    {
        match change {
            ProjectEdit::Title(t) => self.title = Some(t),
            ProjectEdit::DatabasePath(p) => self.database_path = Some(p),
            ProjectEdit::ProjectSpecifics(s) => self.project_specifics = Some(s),
            ProjectEdit::Engineer(e) => self.engineer = Some(e),
            ProjectEdit::LatestBomVersion(v) => self.latest_bom_version = Some(v),
            ProjectEdit::DesignVariant(d) => self.design_variant = Some(d),
            ProjectEdit::BomTemplate(p) => self.bom_template_path = p,
        }
        self.touch_at(now);
    }

    /// Sets the project title and updates the time of the last change.
    pub fn set_title(&mut self, title: String)
        ensures
            final(self).same_but_time(Project { title: Some(title), ..*old(self) }),
    {
        self.apply_change(ProjectEdit::Title(title), now_millis());
    }

    /// Sets the parts database path and updates the time of the last change.
    pub fn set_database_path(&mut self, path: String)
        ensures
            final(self).same_but_time(Project { database_path: Some(path), ..*old(self) }),
    {
        self.apply_change(ProjectEdit::DatabasePath(path), now_millis());
    }

    /// Sets the project-specifics identifier and updates the time of the last change.
    pub fn set_project_specifics(&mut self, project_specifics: String)
        ensures
            final(self).same_but_time(
                Project { project_specifics: Some(project_specifics), ..*old(self) },
            ),
    {
        self.apply_change(ProjectEdit::ProjectSpecifics(project_specifics), now_millis());
    }

    /// Sets the engineer name and updates the time of the last change.
    pub fn set_engineer(&mut self, engineer: String)
        ensures
            final(self).same_but_time(Project { engineer: Some(engineer), ..*old(self) }),
    {
        self.apply_change(ProjectEdit::Engineer(engineer), now_millis());
    }

    /// Sets the latest BOM version and updates the time of the last change.
    pub fn set_latest_bom_version(&mut self, version: String)
        ensures
            final(self).same_but_time(Project { latest_bom_version: Some(version), ..*old(self) }),
    {
        self.apply_change(ProjectEdit::LatestBomVersion(version), now_millis());
    }

    /// Sets the design variant and updates the time of the last change.
    pub fn set_design_variant(&mut self, design_variant: String)
        ensures
            final(self).same_but_time(Project { design_variant: Some(design_variant), ..*old(self) }),
    {
        self.apply_change(ProjectEdit::DesignVariant(design_variant), now_millis());
    }

    /// Sets or clears the BOM template path and updates the time of the last change.
    pub fn set_bom_template_path(&mut self, path: Option<String>)
        ensures
            final(self).same_but_time(Project { bom_template_path: path, ..*old(self) }),
    {
        self.apply_change(ProjectEdit::BomTemplate(path), now_millis());
    }
}

/// A project edit: which field changes to what.
pub enum ProjectEdit {
    Title(String),
    Engineer(String),
    ProjectSpecifics(String),
    DesignVariant(String),
    DatabasePath(String),
    BomTemplate(Option<String>),
    LatestBomVersion(String),
}

} // verus!
