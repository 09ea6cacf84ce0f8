//! The application state and the decisions of the commands that read and change it.
//!
//! Each command of the application is split: the part that reads and changes the state stands
//! here, and returns the snapshot that the application then announces; dialogs, files and
//! events stay with the application.

use vstd::prelude::*;
use crate::commands::{check_schema_compatibility, incompatible_message, invalid_schema_message, major_version};
use crate::clock::now_millis;
use crate::project_data::{clone_opt, is_uuid_v4_text, version_text, Project, ProjectState};
pub use crate::project_data::ProjectEdit;
use crate::recent_projects::{added, without_path, RecentProject, RecentProjects};
use crate::text::concat;

verus! {

/// All mutable state held by the application.
pub struct AppStateInner {
    /// The project currently open in the application, or `None` if no project is loaded.
    pub current_project: Option<Project>,
    /// Absolute file path of the open project, or `None` if the project has never been saved.
    pub current_project_path: Option<String>,
    /// `true` when the in-memory project differs from the last saved file.
    pub has_unsaved_changes: bool,
    /// Path of a CSV file selected by the user but not yet written to a working file.
    pub pending_csv_path: Option<String>,
    /// Path of the working file created from the pending CSV file.
    pub pending_nextbom_path: Option<String>,
    /// Recently opened projects.
    pub recent_projects: RecentProjects,
}

/// Where a project is to be saved.
#[derive(Debug)]
pub enum SaveTarget {
    /// Ask the user, proposing this file name.
    Ask(String),
    /// Save to the project's existing path.
    Existing(String),
}

/// The message for a command that needs an open project.
pub open spec fn no_project_message() -> Seq<char> {
    "No project currently open"@
}

/// The message for a command that needs a linked parts database.
pub open spec fn no_database_message() -> Seq<char> {
    "No parts database linked to this project"@
}

/// `Some(s)` for a non-empty `s`, `None` otherwise.
pub open spec fn non_empty(o: Option<String>) -> Option<String> {
    match o {
        Some(s) => if s@.len() > 0 {
            Some(s)
        } else {
            None
        },
        None => None,
    }
}

/// The file name proposed for saving a project with this title.
pub open spec fn project_file_name(title: Option<String>) -> Seq<char> {
    match title {
        Some(t) => t@ + ".nbp"@,
        None => "untitled.nbp"@,
    }
}

/// The project in the snapshot is a copy of the open one.
pub open spec fn snapshot_of(st: AppStateInner, snap: ProjectState) -> bool {
    snap.project == st.current_project && snap.has_unsaved_changes == st.has_unsaved_changes
}

/// `a` and `b` agree on everything but the open project and the unsaved flag.
pub open spec fn same_files(a: AppStateInner, b: AppStateInner) -> bool {
    &&& a.current_project_path == b.current_project_path
    &&& a.pending_csv_path == b.pending_csv_path
    &&& a.pending_nextbom_path == b.pending_nextbom_path
    &&& a.recent_projects == b.recent_projects
}

impl AppStateInner {
    /// The state at start-up: nothing open, and the given recent-projects list.
    pub fn new(recent_projects: RecentProjects) -> (s: Self)
        ensures
            s.current_project is None,
            s.current_project_path is None,
            !s.has_unsaved_changes,
            s.pending_csv_path is None,
            s.pending_nextbom_path is None,
            s.recent_projects == recent_projects,
    {
        AppStateInner {
            current_project: None,
            current_project_path: None,
            has_unsaved_changes: false,
            pending_csv_path: None,
            pending_nextbom_path: None,
            recent_projects,
        }
    }

    /// A snapshot of the open project and the unsaved-changes flag.
    pub fn project_state(&self) -> (snap: ProjectState)
        ensures
            snapshot_of(*self, snap),
    {
        let project = match &self.current_project {
            Some(p) => Some(p.clone_project()),
            None => None,
        };
        ProjectState { project, has_unsaved_changes: self.has_unsaved_changes }
    }

    /// Creates a new project and makes it the open one, unsaved and without a file path.
    ///
    /// `title` is always set; the other fields are set only when given and non-empty.
    pub fn create_project(
        &mut self,
        title: String,
        engineer: Option<String>,
        project_specifics: Option<String>,
        design_variant: Option<String>,
        database_path: Option<String>,
        bom_template_path: Option<String>,
    ) -> (snap: ProjectState)
        ensures
            final(self).current_project matches Some(p) && {
                &&& is_uuid_v4_text(p.uuid@)
                &&& p.schema@ == version_text()
                &&& p.title == Some(title)
                &&& p.engineer == non_empty(engineer)
                &&& p.project_specifics == non_empty(project_specifics)
                &&& p.design_variant == non_empty(design_variant)
                &&& p.database_path == non_empty(database_path)
                &&& p.bom_template_path == non_empty(bom_template_path)
                &&& p.latest_bom_version is None
            },
            final(self).current_project_path is None,
            final(self).has_unsaved_changes,
            final(self).pending_csv_path == old(self).pending_csv_path,
            final(self).pending_nextbom_path == old(self).pending_nextbom_path,
            final(self).recent_projects == old(self).recent_projects,
            snapshot_of(*final(self), snap),
    {
        let mut project = Project::new();
        project.set_title(title);
        if let Some(eng) = engineer {
            if eng.as_str().unicode_len() > 0 {
                project.set_engineer(eng);
            }
        }
        if let Some(specs) = project_specifics {
            if specs.as_str().unicode_len() > 0 {
                project.set_project_specifics(specs);
            }
        }
        if let Some(variant) = design_variant {
            if variant.as_str().unicode_len() > 0 {
                project.set_design_variant(variant);
            }
        }
        if let Some(db_path) = database_path {
            if db_path.as_str().unicode_len() > 0 {
                project.set_database_path(db_path);
            }
        }
        if let Some(tmpl_path) = bom_template_path {
            if tmpl_path.as_str().unicode_len() > 0 {
                project.set_bom_template_path(Some(tmpl_path));
            }
        }
        self.current_project = Some(project);
        self.current_project_path = None;
        self.has_unsaved_changes = true;
        self.project_state()
    }

    /// Closes the open project: no project, no path, nothing unsaved.
    pub fn close_project(&mut self) -> (snap: ProjectState)
        ensures
            final(self).current_project is None,
            final(self).current_project_path is None,
            !final(self).has_unsaved_changes,
            final(self).pending_csv_path == old(self).pending_csv_path,
            final(self).pending_nextbom_path == old(self).pending_nextbom_path,
            final(self).recent_projects == old(self).recent_projects,
            snapshot_of(*final(self), snap),
    {
        self.current_project = None;
        self.current_project_path = None;
        self.has_unsaved_changes = false;
        self.project_state()
    }

    /// Applies an edit to the open project and marks it unsaved; refused when no project is
    /// open, and then nothing changes.
    pub fn edit_project(&mut self, edit: ProjectEdit) -> (r: Result<ProjectState, String>)
        ensures
            same_files(*final(self), *old(self)),
            match old(self).current_project {
                None => {
                    &&& r matches Err(e) && e@ == no_project_message()
                    &&& *final(self) == *old(self)
                },
                Some(p) => {
                    &&& final(self).current_project matches Some(q) && q.same_but_time(p.changed(edit))
                    &&& final(self).has_unsaved_changes
                    &&& r matches Ok(snap) && snapshot_of(*final(self), snap)
                },
            },
    {
        match self.current_project.as_mut() {
            None => {
                return Err(String::from_str("No project currently open"));
            },
            Some(project) => {
                project.apply_change(edit, now_millis());
            },
        }
        self.has_unsaved_changes = true;
        Ok(self.project_state())
    }

    /// Makes a project read from `path` the open one, if its schema is compatible: the
    /// project is then saved at `path`, and `path` moves to the front of the recent list.
    /// An incompatible project changes nothing.
    pub fn open_loaded_project(&mut self, project: Project, path: String) -> (r: Result<
        ProjectState,
        String,
    >)
        ensures
            match major_version(project.schema@) {
                None => {
                    &&& *final(self) == *old(self)
                    &&& r matches Err(e) && e@ == invalid_schema_message(project.schema@)
                },
                Some(m) => if Some(m) == major_version(version_text()) {
                    &&& final(self).current_project == Some(project)
                    &&& final(self).current_project_path == Some(path)
                    &&& !final(self).has_unsaved_changes
                    &&& final(self).pending_csv_path == old(self).pending_csv_path
                    &&& final(self).pending_nextbom_path == old(self).pending_nextbom_path
                    &&& added(old(self).recent_projects, final(self).recent_projects, path@, project.title)
                    &&& (old(self).recent_projects.wf() ==> final(self).recent_projects.wf())
                    &&& r matches Ok(snap) && snapshot_of(*final(self), snap)
                } else {
                    &&& *final(self) == *old(self)
                    &&& r matches Err(e) && e@ == incompatible_message(project.schema@)
                },
            },
    {
        match check_schema_compatibility(project.schema.as_str()) {
            Err(e) => {
                return Err(e);
            },
            Ok(()) => {},
        }
        let title = clone_opt(&project.title);
        self.current_project = Some(project);
        self.current_project_path = Some(path.clone());
        self.has_unsaved_changes = false;
        self.recent_projects.add(path, title);
        Ok(self.project_state())
    }

    /// Forgets `path` in the recent list (its project file is gone); returns the new list.
    pub fn forget_recent(&mut self, path: &str) -> (items: Vec<RecentProject>)
        ensures
            final(self).recent_projects.items@ == without_path(
                old(self).recent_projects.items@,
                path@,
            ),
            final(self).recent_projects.max_items == old(self).recent_projects.max_items,
            items@ == final(self).recent_projects.items@,
            final(self).current_project == old(self).current_project,
            final(self).current_project_path == old(self).current_project_path,
            final(self).has_unsaved_changes == old(self).has_unsaved_changes,
            final(self).pending_csv_path == old(self).pending_csv_path,
            final(self).pending_nextbom_path == old(self).pending_nextbom_path,
    {
        self.recent_projects.remove(path);
        self.recent_items()
    }

    /// Empties the recent list; returns the new (empty) list.
    pub fn clear_recent(&mut self) -> (items: Vec<RecentProject>)
        ensures
            final(self).recent_projects.items@.len() == 0,
            final(self).recent_projects.max_items == old(self).recent_projects.max_items,
            items@.len() == 0,
            final(self).current_project == old(self).current_project,
            final(self).current_project_path == old(self).current_project_path,
            final(self).has_unsaved_changes == old(self).has_unsaved_changes,
            final(self).pending_csv_path == old(self).pending_csv_path,
            final(self).pending_nextbom_path == old(self).pending_nextbom_path,
    {
        self.recent_projects.clear();
        self.recent_items()
    }

    /// A copy of the recent list, most recent first.
    pub fn recent_items(&self) -> (items: Vec<RecentProject>)
        ensures
            items@ == self.recent_projects.items@,
    {
        let mut items: Vec<RecentProject> = Vec::new();
        let mut i: usize = 0;
        while i < self.recent_projects.items.len()
            invariant
                i <= self.recent_projects.items@.len(),
                items@ == self.recent_projects.items@.take(i as int),
            decreases self.recent_projects.items@.len() - i,
        {
            items.push(self.recent_projects.items[i].clone_entry());
            i += 1;
            assert(items@ =~= self.recent_projects.items@.take(i as int));
        }
        assert(self.recent_projects.items@.take(i as int) =~= self.recent_projects.items@);
        items
    }

    /// Where the open project is to be saved: asked of the user, under the title and
    /// `.nbp` (or `untitled.nbp`), when `save_as` is set or the project has no path; its
    /// path otherwise. Refused when no project is open.
    pub fn save_target(&self, save_as: bool) -> (r: Result<SaveTarget, String>)
        ensures
            match self.current_project {
                None => r matches Err(e) && e@ == no_project_message(),
                Some(p) => match self.current_project_path {
                    Some(path) if !save_as => r == Ok::<SaveTarget, String>(SaveTarget::Existing(path)),
                    _ => r matches Ok(SaveTarget::Ask(name)) && name@ == project_file_name(p.title),
                },
            },
    {
        let project = match &self.current_project {
            None => {
                return Err(String::from_str("No project currently open"));
            },
            Some(p) => p,
        };
        if !save_as {
            if let Some(path) = &self.current_project_path {
                return Ok(SaveTarget::Existing(path.clone()));
            }
        }
        let name = match &project.title {
            Some(t) => concat(t.as_str(), ".nbp"),
            None => String::from_str("untitled.nbp"),
        };
        Ok(SaveTarget::Ask(name))
    }

    /// Records that the open project was written to `path`: that is now its path, nothing
    /// is unsaved, and `path` moves to the front of the recent list with the project title.
    pub fn record_saved(&mut self, path: String) -> (snap: ProjectState)
        ensures
            final(self).current_project == old(self).current_project,
            final(self).current_project_path == Some(path),
            !final(self).has_unsaved_changes,
            final(self).pending_csv_path == old(self).pending_csv_path,
            final(self).pending_nextbom_path == old(self).pending_nextbom_path,
            added(
                old(self).recent_projects,
                final(self).recent_projects,
                path@,
                match old(self).current_project {
                    Some(p) => p.title,
                    None => None,
                },
            ),
            old(self).recent_projects.wf() ==> final(self).recent_projects.wf(),
            snapshot_of(*final(self), snap),
    {
        self.current_project_path = Some(path.clone());
        self.has_unsaved_changes = false;
        let title = match &self.current_project {
            Some(p) => clone_opt(&p.title),
            None => None,
        };
        self.recent_projects.add(path, title);
        self.project_state()
    }

    /// Remembers the CSV file chosen for the next working file.
    pub fn set_pending_csv(&mut self, path: String)
        ensures
            final(self).pending_csv_path == Some(path),
            final(self).current_project == old(self).current_project,
            final(self).current_project_path == old(self).current_project_path,
            final(self).has_unsaved_changes == old(self).has_unsaved_changes,
            final(self).pending_nextbom_path == old(self).pending_nextbom_path,
            final(self).recent_projects == old(self).recent_projects,
    {
        self.pending_csv_path = Some(path);
    }

    /// The CSV file chosen for the next working file; refused when none was chosen.
    pub fn pending_csv(&self) -> (r: Result<String, String>)
        ensures
            match self.pending_csv_path {
                Some(p) => r == Ok::<String, String>(p),
                None => r matches Err(e) && e@ == "No CSV loaded"@,
            },
    {
        match &self.pending_csv_path {
            Some(p) => Ok(p.clone()),
            None => Err(String::from_str("No CSV loaded")),
        }
    }

    /// The engineer recorded in a new working file: the open project's, or empty.
    pub fn engineer_for_bom(&self) -> (e: String)
        ensures
            e@ == match self.current_project {
                Some(p) => match p.engineer {
                    Some(x) => x@,
                    None => Seq::<char>::empty(),
                },
                None => Seq::<char>::empty(),
            },
    {
        match &self.current_project {
            Some(p) => match &p.engineer {
                Some(x) => x.clone(),
                None => String::new(),
            },
            None => String::new(),
        }
    }

    /// Records that a working file was created at `nextbom_path` with `design_variant`: the
    /// open project, if any, keeps the variant for next time and becomes unsaved, and the
    /// working file becomes the pending one. Returns the snapshot to announce, if a project
    /// is open.
    pub fn record_nextbom_created(&mut self, design_variant: String, nextbom_path: String) -> (r:
        Option<ProjectState>)
        ensures
            final(self).pending_nextbom_path == Some(nextbom_path),
            final(self).current_project_path == old(self).current_project_path,
            final(self).pending_csv_path == old(self).pending_csv_path,
            final(self).recent_projects == old(self).recent_projects,
            match old(self).current_project {
                None => {
                    &&& r is None
                    &&& final(self).current_project is None
                    &&& final(self).has_unsaved_changes == old(self).has_unsaved_changes
                },
                Some(p) => {
                    &&& final(self).current_project matches Some(q) && q.same_but_time(
                        Project { design_variant: Some(design_variant), ..p },
                    )
                    &&& final(self).has_unsaved_changes
                    &&& r matches Some(snap) && snapshot_of(*final(self), snap)
                },
            },
    {
        let r = match self.current_project.as_mut() {
            Some(project) => {
                project.set_design_variant(design_variant);
                None
            },
            None => Some(()),
        };
        let snap = if r.is_none() {
            self.has_unsaved_changes = true;
            Some(self.project_state())
        } else {
            None
        };
        self.pending_nextbom_path = Some(nextbom_path);
        match snap {
            Some(s) => Some(ProjectState { project: s.project, has_unsaved_changes: true }),
            None => None,
        }
    }

    /// The parts database linked to the open project; refused when no project is open or no
    /// database is linked.
    pub fn parts_database_path(&self) -> (r: Result<String, String>)
        ensures
            match self.current_project {
                None => r matches Err(e) && e@ == no_project_message(),
                Some(p) => match p.database_path {
                    None => r matches Err(e) && e@ == no_database_message(),
                    Some(d) => r == Ok::<String, String>(d),
                },
            },
    {
        match &self.current_project {
            None => Err(String::from_str("No project currently open")),
            Some(p) => match &p.database_path {
                None => Err(String::from_str("No parts database linked to this project")),
                Some(d) => Ok(d.clone()),
            },
        }
    }

    /// What a resolution needs: the linked parts database, the project-specifics identifier,
    /// and the working file from the first step when `use_pending` is set (`None` when the
    /// user is to pick one). Refused when no project is open, no database is linked, or the
    /// pending working file is asked for and there is none.
    pub fn resolution_inputs(&self, use_pending: bool) -> (r: Result<
        (String, Option<String>, Option<String>),
        String,
    >)
        ensures
            match self.current_project {
                None => r matches Err(e) && e@ == no_project_message(),
                Some(p) => match p.database_path {
                    None => r matches Err(e) && e@ == no_database_message(),
                    Some(d) => if use_pending {
                        match self.pending_nextbom_path {
                            None => r matches Err(e) && e@
                                == "No NextBOM file from step 1 available"@,
                            Some(n) => r == Ok::<(String, Option<String>, Option<String>), String>(
                                (d, p.project_specifics, Some(n)),
                            ),
                        }
                    } else {
                        r == Ok::<(String, Option<String>, Option<String>), String>(
                            (d, p.project_specifics, None),
                        )
                    },
                },
            },
    {
        let project = match &self.current_project {
            None => {
                return Err(String::from_str("No project currently open"));
            },
            Some(p) => p,
        };
        let db_path = match &project.database_path {
            None => {
                return Err(String::from_str("No parts database linked to this project"));
            },
            Some(d) => d.clone(),
        };
        let specifics = clone_opt(&project.project_specifics);
        if use_pending {
            match &self.pending_nextbom_path {
                None => Err(String::from_str("No NextBOM file from step 1 available")),
                Some(n) => Ok((db_path, specifics, Some(n.clone()))),
            }
        } else {
            Ok((db_path, specifics, None))
        }
    }

    /// The BOM template of the open project, if any.
    pub fn template_path(&self) -> (r: Option<String>)
        ensures
            r == match self.current_project {
                Some(p) => p.bom_template_path,
                None => None,
            },
    {
        match &self.current_project {
            Some(p) => clone_opt(&p.bom_template_path),
            None => None,
        }
    }
}

} // verus!
