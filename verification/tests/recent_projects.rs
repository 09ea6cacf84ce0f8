use nextbom::recent_projects::{RecentProject, RecentProjects};

#[test]
fn add_new_project_appears_at_front() {
    let mut rp = RecentProjects::new(10);
    rp.add("/projects/a.json".into(), Some("Alpha".into()));
    rp.add("/projects/b.json".into(), Some("Beta".into()));

    assert_eq!(rp.get_items().len(), 2);
    assert_eq!(rp.get_items()[0].file_path, "/projects/b.json");
    assert_eq!(rp.get_items()[1].file_path, "/projects/a.json");
}

#[test]
fn add_existing_project_moves_to_front_and_updates_title() {
    let mut rp = RecentProjects::new(10);
    rp.add("/projects/a.json".into(), Some("Alpha".into()));
    rp.add("/projects/b.json".into(), Some("Beta".into()));
    // Re-open "a" with a new title
    rp.add("/projects/a.json".into(), Some("Alpha Renamed".into()));

    assert_eq!(rp.get_items().len(), 2);
    assert_eq!(rp.get_items()[0].file_path, "/projects/a.json");
    assert_eq!(rp.get_items()[0].title.as_deref(), Some("Alpha Renamed"));
    assert_eq!(rp.get_items()[1].file_path, "/projects/b.json");
}

#[test]
fn add_existing_project_preserves_title_when_new_title_is_none() {
    let mut rp = RecentProjects::new(10);
    rp.add("/projects/a.json".into(), Some("Alpha".into()));
    rp.add("/projects/b.json".into(), Some("Beta".into()));
    rp.add("/projects/a.json".into(), None);

    assert_eq!(rp.get_items()[0].title.as_deref(), Some("Alpha"));
}

#[test]
fn max_items_is_enforced() {
    let mut rp = RecentProjects::new(3);
    for i in 0..5 {
        rp.add(format!("/projects/{}.json", i), None);
    }
    assert_eq!(rp.get_items().len(), 3);
    // Most recent (index 4) should be at front
    assert_eq!(rp.get_items()[0].file_path, "/projects/4.json");
}

#[test]
fn remove_deletes_matching_entry() {
    let mut rp = RecentProjects::new(10);
    rp.add("/projects/a.json".into(), None);
    rp.add("/projects/b.json".into(), None);
    rp.remove("/projects/a.json");

    assert_eq!(rp.get_items().len(), 1);
    assert_eq!(rp.get_items()[0].file_path, "/projects/b.json");
}

#[test]
fn remove_nonexistent_path_is_a_noop() {
    let mut rp = RecentProjects::new(10);
    rp.add("/projects/a.json".into(), None);
    rp.remove("/does/not/exist.json");
    assert_eq!(rp.get_items().len(), 1);
}

#[test]
fn clear_empties_list() {
    let mut rp = RecentProjects::new(10);
    rp.add("/projects/a.json".into(), None);
    rp.add("/projects/b.json".into(), None);
    rp.clear();
    assert!(rp.get_items().is_empty());
}

#[test]
fn re_adding_keeps_paths_distinct_and_length() {
    let mut rp = RecentProjects::new(3);
    rp.add("/p/a".into(), None);
    rp.add("/p/b".into(), None);
    rp.add("/p/c".into(), None);
    rp.add("/p/b".into(), Some("B".into()));
    let paths: Vec<&str> = rp.get_items().iter().map(|r| r.file_path.as_str()).collect();
    assert_eq!(paths, vec!["/p/b", "/p/c", "/p/a"]);
}

#[test]
fn zero_capacity_keeps_nothing_new() {
    let mut rp = RecentProjects::new(0);
    rp.add("/p/a".into(), None);
    assert!(rp.get_items().is_empty());
}

#[test]
fn default_keeps_ten() {
    let mut rp = RecentProjects::default();
    for i in 0..12 {
        rp.add(format!("/p/{}", i), None);
    }
    assert_eq!(rp.max_items, 10);
    assert_eq!(rp.get_items().len(), 10);
    assert_eq!(rp.get_items()[9].file_path, "/p/2");
}

#[test]
fn removing_a_newly_added_path_restores_the_list() {
    let mut rp = RecentProjects::new(5);
    rp.add("/a.nbp".to_string(), Some("A".to_string()));
    rp.add("/b.nbp".to_string(), None);
    let before: Vec<String> = rp.items.iter().map(|p| p.file_path.clone()).collect();
    rp.add("/c.nbp".to_string(), Some("C".to_string()));
    rp.remove("/c.nbp");
    let after: Vec<String> = rp.items.iter().map(|p| p.file_path.clone()).collect();
    assert_eq!(after, before);
    assert_eq!(rp.items[0].title, None);
    assert_eq!(rp.items[1].title, Some("A".to_string()));
}

#[test]
fn add_at_records_the_time_and_keeps_recent_first() {
    let mut rp = RecentProjects::new(3);
    rp.add_at("/p/a".into(), None, 100);
    rp.add_at("/p/b".into(), Some("B".into()), 200);
    rp.add_at("/p/c".into(), None, 300);
    rp.add_at("/p/a".into(), Some("A".into()), 400);
    let items = rp.get_items();
    assert_eq!(items.iter().map(|i| i.file_path.as_str()).collect::<Vec<_>>(), vec!["/p/a", "/p/c", "/p/b"]);
    assert_eq!(items.iter().map(|i| i.last_opened).collect::<Vec<_>>(), vec![400, 300, 200]);
    assert_eq!(items[0].title.as_deref(), Some("A"));
    rp.add_at("/p/d".into(), None, 500);
    let items = rp.get_items();
    assert_eq!(items.iter().map(|i| i.last_opened).collect::<Vec<_>>(), vec![500, 400, 300]);
    assert_eq!(items[2].file_path, "/p/c");
}

#[test]
fn entry_time_is_the_one_given() {
    let mut e = RecentProject::opened_at("/p/x".into(), Some("X".into()), 7);
    assert_eq!(e.last_opened, 7);
    e.touch_at(9);
    assert_eq!(e.last_opened, 9);
    assert_eq!(e.file_path, "/p/x");
    assert_eq!(e.title.as_deref(), Some("X"));
}
