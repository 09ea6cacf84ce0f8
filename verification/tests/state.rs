use nextbom::project_data::{Project, ProjectState};
use nextbom::recent_projects::RecentProjects;
use nextbom::state::{AppStateInner, ProjectEdit, SaveTarget};

fn fresh() -> AppStateInner {
    AppStateInner::new(RecentProjects::new(6))
}

#[test]
fn create_project_sets_only_non_empty_fields() {
    let mut st = fresh();
    let snap: ProjectState = st.create_project(
        "Board".into(),
        Some("".into()),
        Some("2025".into()),
        None,
        Some("/db.nextdb".into()),
        Some("".into()),
    );
    let p = snap.project.unwrap();
    assert_eq!(p.title.as_deref(), Some("Board"));
    assert_eq!(p.engineer, None);
    assert_eq!(p.project_specifics.as_deref(), Some("2025"));
    assert_eq!(p.database_path.as_deref(), Some("/db.nextdb"));
    assert_eq!(p.bom_template_path, None);
    assert_eq!(p.schema, "0.1.0");
    assert_eq!(p.uuid.len(), 36);
    assert_eq!(&p.uuid[14..15], "4");
    assert!(["8", "9", "a", "b"].contains(&&p.uuid[19..20]));
    assert_eq!(p.uuid.matches('-').count(), 4);
    assert!(snap.has_unsaved_changes);
    assert!(st.current_project_path.is_none());
}

#[test]
fn edits_need_an_open_project() {
    let mut st = fresh();
    let err = st.edit_project(ProjectEdit::Title("x".into())).err().unwrap();
    assert_eq!(err, "No project currently open");
    assert!(!st.has_unsaved_changes);
}

#[test]
fn edits_change_one_field_and_mark_unsaved() {
    let mut st = fresh();
    st.create_project("T".into(), None, None, None, None, None);
    st.has_unsaved_changes = false;
    let snap = st.edit_project(ProjectEdit::Engineer("Ann".into())).unwrap();
    let p = snap.project.unwrap();
    assert_eq!(p.engineer.as_deref(), Some("Ann"));
    assert_eq!(p.title.as_deref(), Some("T"));
    assert!(snap.has_unsaved_changes);
    st.edit_project(ProjectEdit::BomTemplate(Some("/t.xlsx".into()))).unwrap();
    assert_eq!(st.template_path().as_deref(), Some("/t.xlsx"));
    st.edit_project(ProjectEdit::BomTemplate(None)).unwrap();
    assert_eq!(st.template_path(), None);
}

#[test]
fn save_target_asks_under_title_or_uses_path() {
    let mut st = fresh();
    assert!(st.save_target(false).is_err());
    st.create_project("My Board".into(), None, None, None, None, None);
    match st.save_target(false).unwrap() {
        SaveTarget::Ask(name) => assert_eq!(name, "My Board.nbp"),
        SaveTarget::Existing(_) => panic!("expected a dialog"),
    }
    let snap = st.record_saved("/p/board.nbp".into());
    assert!(!snap.has_unsaved_changes);
    assert_eq!(st.recent_projects.items[0].file_path, "/p/board.nbp");
    assert_eq!(st.recent_projects.items[0].title.as_deref(), Some("My Board"));
    match st.save_target(false).unwrap() {
        SaveTarget::Existing(p) => assert_eq!(p, "/p/board.nbp"),
        SaveTarget::Ask(_) => panic!("expected the existing path"),
    }
    assert!(matches!(st.save_target(true).unwrap(), SaveTarget::Ask(_)));
}

#[test]
fn opening_checks_the_schema() {
    let mut st = fresh();
    let mut p = Project::new();
    p.schema = "1.0.0".into();
    assert!(st.open_loaded_project(p, "/p/x.nbp".into()).unwrap_err().contains("Incompatible"));
    assert!(st.current_project.is_none());
    assert!(st.recent_projects.items.is_empty());
    let mut q = Project::new();
    q.set_title("Q".into());
    let snap = st.open_loaded_project(q, "/p/q.nbp".into()).unwrap();
    assert!(!snap.has_unsaved_changes);
    assert_eq!(st.current_project_path.as_deref(), Some("/p/q.nbp"));
    assert_eq!(st.recent_items()[0].title.as_deref(), Some("Q"));
    let items = st.forget_recent("/p/q.nbp");
    assert!(items.is_empty());
}

#[test]
fn resolution_inputs_follow_the_project() {
    let mut st = fresh();
    assert_eq!(st.resolution_inputs(false).unwrap_err(), "No project currently open");
    st.create_project("T".into(), None, Some("2025".into()), None, None, None);
    assert_eq!(st.resolution_inputs(false).unwrap_err(), "No parts database linked to this project");
    st.edit_project(ProjectEdit::DatabasePath("/db".into())).unwrap();
    assert_eq!(st.resolution_inputs(true).unwrap_err(), "No NextBOM file from step 1 available");
    let snap = st.record_nextbom_created("lite".into(), "/w.nextbom".into()).unwrap();
    assert_eq!(snap.project.unwrap().design_variant.as_deref(), Some("lite"));
    let (db, specifics, pending) = st.resolution_inputs(true).unwrap();
    assert_eq!(db, "/db");
    assert_eq!(specifics.as_deref(), Some("2025"));
    assert_eq!(pending.as_deref(), Some("/w.nextbom"));
    assert_eq!(st.parts_database_path().unwrap(), "/db");
}

#[test]
fn pending_csv_and_engineer() {
    let mut st = fresh();
    assert_eq!(st.pending_csv().unwrap_err(), "No CSV loaded");
    st.set_pending_csv("/a.csv".into());
    assert_eq!(st.pending_csv().unwrap(), "/a.csv");
    assert_eq!(st.engineer_for_bom(), "");
    assert!(st.record_nextbom_created("v".into(), "/x".into()).is_none());
    st.create_project("T".into(), Some("Eve".into()), None, None, None, None);
    assert_eq!(st.engineer_for_bom(), "Eve");
    let snap = st.close_project();
    assert!(snap.project.is_none());
    assert_eq!(st.clear_recent().len(), 0);
}

#[test]
fn project_changes_record_the_time_given() {
    let mut p = Project::created("6f1c2d3e-0000-4000-8000-000000000000".into(), 11);
    assert_eq!(p.last_change, 11);
    assert!(p.title.is_none() && p.engineer.is_none());
    p.apply_change(ProjectEdit::Title("T".into()), 20);
    assert_eq!(p.title.as_deref(), Some("T"));
    assert_eq!(p.last_change, 20);
    p.apply_change(ProjectEdit::LatestBomVersion("4".into()), 30);
    assert_eq!(p.latest_bom_version.as_deref(), Some("4"));
    assert_eq!(p.title.as_deref(), Some("T"));
    assert_eq!(p.last_change, 30);
    p.apply_change(ProjectEdit::BomTemplate(None), 31);
    assert!(p.bom_template_path.is_none());
    p.touch_at(40);
    assert_eq!(p.last_change, 40);
    assert_eq!(p.uuid, "6f1c2d3e-0000-4000-8000-000000000000");
}
