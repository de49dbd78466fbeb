use study_tracker::models::{CreateProject, ManualStudySession, StoreError};
use study_tracker::store::Store;

fn cp(name: &str) -> CreateProject {
    CreateProject { name: name.to_string() }
}

fn manual(project_id: i64, start: i64, end: i64, desc: Option<&str>) -> ManualStudySession {
    ManualStudySession {
        project_id,
        start_time: start,
        end_time: end,
        description: desc.map(|d| d.to_string()),
    }
}

#[test]
fn create_project_assigns_ids_and_rejects_duplicates() {
    let mut store = Store::new();
    let p1 = store.create_project(&cp("Algorithms")).unwrap();
    assert_eq!(p1.id, Some(1));
    assert_eq!(p1.name, "Algorithms");
    let p2 = store.create_project(&cp("Compilers")).unwrap();
    assert_eq!(p2.id, Some(2));
    let dup = store.create_project(&cp("Algorithms"));
    assert_eq!(dup.unwrap_err(), StoreError::ConstraintViolation);
    // the failed insert changed nothing
    assert_eq!(store.get_all_projects().len(), 2);
}

#[test]
fn get_project_distinguishes_absence() {
    let mut store = Store::new();
    assert!(store.get_project(1).is_none());
    store.create_project(&cp("Reading")).unwrap();
    let found = store.get_project(1).unwrap();
    assert_eq!(found.id, Some(1));
    assert_eq!(found.name, "Reading");
    assert!(store.get_project(2).is_none());
}

#[test]
fn list_projects_is_ordered_by_name() {
    let mut store = Store::new();
    store.create_project(&cp("Botany")).unwrap();
    store.create_project(&cp("Algebra")).unwrap();
    store.create_project(&cp("Chemistry")).unwrap();
    let names: Vec<String> = store.get_all_projects().into_iter().map(|p| p.name).collect();
    assert_eq!(names, vec!["Algebra".to_string(), "Botany".to_string(), "Chemistry".to_string()]);
}

#[test]
fn update_project_renames_and_guards_unique_names() {
    let mut store = Store::new();
    store.create_project(&cp("Old")).unwrap();
    store.create_project(&cp("Taken")).unwrap();
    assert_eq!(store.update_project(1, &cp("New")).unwrap(), 1);
    assert_eq!(store.get_project(1).unwrap().name, "New");
    assert_eq!(
        store.update_project(1, &cp("Taken")).unwrap_err(),
        StoreError::ConstraintViolation
    );
    // renaming a missing project touches no row, even to a taken name
    assert_eq!(store.update_project(99, &cp("Taken")).unwrap(), 0);
}

#[test]
fn delete_project_cascades_to_sessions() {
    let mut store = Store::new();
    store.create_project(&cp("Kept")).unwrap();
    store.create_project(&cp("Doomed")).unwrap();
    store.add_manual_study_session(&manual(2, 100, 200, Some("a"))).unwrap();
    store.add_manual_study_session(&manual(1, 300, 400, None)).unwrap();
    store.add_manual_study_session(&manual(2, 500, 600, None)).unwrap();

    assert_eq!(store.delete_project(2), 1);
    assert!(store.get_project(2).is_none());
    let left = store.get_all_study_sessions().unwrap();
    assert_eq!(left.len(), 1);
    assert_eq!(left[0].project_id, 1);
    // deleting again affects nothing
    assert_eq!(store.delete_project(2), 0);
}

#[test]
fn clock_in_succeeds_when_idle_and_session_is_active() {
    let mut store = Store::new();
    store.create_project(&cp("Focus")).unwrap();
    assert!(!store.has_active_session());
    let s = store.clock_in(1, None).unwrap();
    assert_eq!(s.id, Some(1));
    assert_eq!(s.project_id, 1);
    assert!(s.end_time.is_none());
    assert!(store.has_active_session());
}

#[test]
fn clock_in_conflicts_while_a_session_is_active() {
    let mut store = Store::new();
    store.create_project(&cp("Focus")).unwrap();
    let first = store.clock_in(1, None).unwrap();
    let second = store.clock_in(1, None);
    assert_eq!(second.unwrap_err(), StoreError::Conflict);
    // the pre-existing active session is unchanged
    let active = store.get_active_study_session().unwrap().unwrap();
    assert_eq!(active.id, first.id);
    assert_eq!(active.start_time, first.start_time);
    assert!(active.end_time.is_none());
}

#[test]
fn clock_in_requires_an_existing_project() {
    let mut store = Store::new();
    assert_eq!(store.clock_in(7, None).unwrap_err(), StoreError::ConstraintViolation);
}

#[test]
fn clock_out_sets_end_after_start_and_is_not_repeatable() {
    let mut store = Store::new();
    store.create_project(&cp("Focus")).unwrap();
    let s = store.clock_in_at(1, 1_000, None).unwrap();
    let sid = s.id.unwrap();
    assert_eq!(store.clock_out_at(sid, 1_500), 1);
    let closed = store.get_study_session(sid).unwrap().unwrap();
    assert_eq!(closed.end_time, Some(1_500));
    assert!(closed.end_time.unwrap() >= closed.start_time);
    // the second clock-out on the same id affects zero rows
    assert_eq!(store.clock_out_at(sid, 1_600), 0);
    // and on a missing id likewise
    assert_eq!(store.clock_out_at(99, 1_600), 0);
}

#[test]
fn manual_session_round_trips_through_storage() {
    let mut store = Store::new();
    store.create_project(&cp("Piano")).unwrap();
    let written = store
        .add_manual_study_session(&manual(1, 1_704_103_200, 1_704_108_600, Some("scales")))
        .unwrap();
    let sid = written.id.unwrap();
    let read = store.get_study_session(sid).unwrap().unwrap();
    assert_eq!(read.project_id, 1);
    assert_eq!(read.start_time, 1_704_103_200);
    assert_eq!(read.end_time, Some(1_704_108_600));
    assert_eq!(read.description.as_deref(), Some("scales"));
}

#[test]
fn manual_session_requires_an_existing_project() {
    let mut store = Store::new();
    assert_eq!(
        store.add_manual_study_session(&manual(3, 1, 2, None)).unwrap_err(),
        StoreError::ConstraintViolation
    );
}

#[test]
fn sessions_list_newest_first() {
    let mut store = Store::new();
    store.create_project(&cp("A")).unwrap();
    store.create_project(&cp("B")).unwrap();
    store.add_manual_study_session(&manual(1, 200, 250, None)).unwrap();
    store.add_manual_study_session(&manual(2, 600, 650, None)).unwrap();
    store.add_manual_study_session(&manual(1, 400, 450, None)).unwrap();

    let all = store.get_all_study_sessions().unwrap();
    let starts: Vec<i64> = all.iter().map(|s| s.start_time).collect();
    assert_eq!(starts, vec![600, 400, 200]);

    let for_one = store.get_study_sessions_for_project(1).unwrap();
    let starts1: Vec<i64> = for_one.iter().map(|s| s.start_time).collect();
    assert_eq!(starts1, vec![400, 200]);
    assert!(for_one.iter().all(|s| s.project_id == 1));
}

#[test]
fn update_session_rewrites_every_field() {
    let mut store = Store::new();
    store.create_project(&cp("A")).unwrap();
    store.create_project(&cp("B")).unwrap();
    store.add_manual_study_session(&manual(1, 100, 200, Some("before"))).unwrap();
    assert_eq!(store.update_study_session(1, &manual(2, 300, 400, Some("after"))).unwrap(), 1);
    let s = store.get_study_session(1).unwrap().unwrap();
    assert_eq!(s.project_id, 2);
    assert_eq!(s.start_time, 300);
    assert_eq!(s.end_time, Some(400));
    assert_eq!(s.description.as_deref(), Some("after"));
    // an unknown id touches nothing
    assert_eq!(store.update_study_session(9, &manual(2, 1, 2, None)).unwrap(), 0);
    // an unknown project id is a constraint violation
    assert_eq!(
        store.update_study_session(1, &manual(9, 1, 2, None)).unwrap_err(),
        StoreError::ConstraintViolation
    );
}

#[test]
fn delete_session_reports_affected_rows() {
    let mut store = Store::new();
    store.create_project(&cp("A")).unwrap();
    store.add_manual_study_session(&manual(1, 100, 200, None)).unwrap();
    assert_eq!(store.delete_study_session(1), 1);
    assert!(store.get_study_session(1).unwrap().is_none());
    assert_eq!(store.delete_study_session(1), 0);
}

#[test]
fn active_session_is_the_most_recent_open_one() {
    let mut store = Store::new();
    store.create_project(&cp("A")).unwrap();
    assert!(store.get_active_study_session().unwrap().is_none());
    store.start_session_at(1, 1_000, None).unwrap();
    // a closed manual session later than the open one does not win
    store.add_manual_study_session(&manual(1, 2_000, 2_100, None)).unwrap();
    let active = store.get_active_study_session().unwrap().unwrap();
    assert_eq!(active.id, Some(1));
    assert_eq!(active.start_time, 1_000);
    assert!(active.end_time.is_none());
}
