use study_tracker::api::{
    clock_out_api, delete_project_api, delete_session_api, get_project_api, get_session_api,
    parse_id, start_session_api, update_project_api, update_session_api,
};
use study_tracker::models::{CreateProject, ManualStudySession, StoreError};
use study_tracker::store::Store;

fn cp(name: &str) -> CreateProject {
    CreateProject { name: name.to_string() }
}

#[test]
fn parse_id_accepts_decimal_digits_only() {
    assert_eq!(parse_id("0").unwrap(), 0);
    assert_eq!(parse_id("123").unwrap(), 123);
    assert_eq!(parse_id("9223372036854775807").unwrap(), i64::MAX);
    assert_eq!(parse_id("").unwrap_err(), StoreError::BadRequest);
    assert_eq!(parse_id("abc").unwrap_err(), StoreError::BadRequest);
    assert_eq!(parse_id("-5").unwrap_err(), StoreError::BadRequest);
    assert_eq!(parse_id("12x").unwrap_err(), StoreError::BadRequest);
    // one past the largest id overflows and is rejected
    assert_eq!(parse_id("9223372036854775808").unwrap_err(), StoreError::BadRequest);
}

#[test]
fn status_codes_match_the_route_table() {
    assert_eq!(StoreError::NotFound.status_code(), 404);
    assert_eq!(StoreError::ConstraintViolation.status_code(), 500);
    assert_eq!(StoreError::Conflict.status_code(), 409);
    assert_eq!(StoreError::BadRequest.status_code(), 400);
    assert_eq!(StoreError::StorageFailure.status_code(), 500);
}

#[test]
fn project_lookup_maps_absence_to_not_found() {
    let mut store = Store::new();
    assert_eq!(get_project_api(&store, 1).unwrap_err(), StoreError::NotFound);
    store.create_project(&cp("A")).unwrap();
    assert_eq!(get_project_api(&store, 1).unwrap().name, "A");
}

#[test]
fn update_project_echoes_the_written_entity() {
    let mut store = Store::new();
    store.create_project(&cp("Old")).unwrap();
    let p = update_project_api(&mut store, 1, &cp("New")).unwrap();
    assert_eq!(p.id, Some(1));
    assert_eq!(p.name, "New");
    // the echoed name is the one actually persisted
    assert_eq!(store.get_project(1).unwrap().name, "New");
    assert_eq!(
        update_project_api(&mut store, 9, &cp("X")).unwrap_err(),
        StoreError::NotFound
    );
}

#[test]
fn delete_apis_report_not_found_on_missing_ids() {
    let mut store = Store::new();
    assert_eq!(delete_project_api(&mut store, 1).unwrap_err(), StoreError::NotFound);
    assert_eq!(delete_session_api(&mut store, 1).unwrap_err(), StoreError::NotFound);
    store.create_project(&cp("A")).unwrap();
    store
        .add_manual_study_session(&ManualStudySession {
            project_id: 1,
            start_time: 10,
            end_time: 20,
            description: None,
        })
        .unwrap();
    assert!(delete_session_api(&mut store, 1).is_ok());
    assert!(delete_project_api(&mut store, 1).is_ok());
}

#[test]
fn start_session_rejects_a_bad_path_parameter() {
    let mut store = Store::new();
    store.create_project(&cp("A")).unwrap();
    assert_eq!(
        start_session_api(&mut store, "not-a-number").unwrap_err(),
        StoreError::BadRequest
    );
    let s = start_session_api(&mut store, "1").unwrap();
    assert_eq!(s.project_id, 1);
    assert!(s.end_time.is_none());
}

#[test]
fn scenario_clock_cycle_over_the_api() {
    // create "Algorithms", start a session, see it active, hit the
    // conflict, clock out, and see no session active any more
    let mut store = Store::new();
    let project = store.create_project(&cp("Algorithms")).unwrap();
    let pid = project.id.unwrap();

    let started = start_session_api(&mut store, "1").unwrap();
    assert_eq!(started.project_id, pid);

    let active = store.get_active_study_session().unwrap().unwrap();
    assert_eq!(active.id, started.id);

    let again = start_session_api(&mut store, "1").unwrap_err();
    assert_eq!(again, StoreError::Conflict);
    assert_eq!(again.status_code(), 409);

    clock_out_api(&mut store, started.id.unwrap()).unwrap();
    assert!(store.get_active_study_session().unwrap().is_none());

    // clocking the same session out again is "not found or already closed"
    assert_eq!(
        clock_out_api(&mut store, started.id.unwrap()).unwrap_err(),
        StoreError::NotFound
    );
}

#[test]
fn scenario_manual_session_fields_match_exactly() {
    // the timestamps are 2024-01-01T10:00:00Z and 2024-01-01T11:30:00Z
    let start = chrono::DateTime::parse_from_rfc3339("2024-01-01T10:00:00Z")
        .unwrap()
        .timestamp();
    let end = chrono::DateTime::parse_from_rfc3339("2024-01-01T11:30:00Z")
        .unwrap()
        .timestamp();
    assert_eq!(start, 1_704_103_200);
    assert_eq!(end, 1_704_108_600);

    let mut store = Store::new();
    store.create_project(&cp("Algorithms")).unwrap();
    let written = store
        .add_manual_study_session(&ManualStudySession {
            project_id: 1,
            start_time: start,
            end_time: end,
            description: Some("chapter three".to_string()),
        })
        .unwrap();

    let fetched = get_session_api(&store, written.id.unwrap()).unwrap();
    assert_eq!(fetched.project_id, 1);
    assert_eq!(fetched.start_time, start);
    assert_eq!(fetched.end_time, Some(end));
    assert_eq!(fetched.description.as_deref(), Some("chapter three"));
}

#[test]
fn update_session_echoes_the_written_entity() {
    let mut store = Store::new();
    store.create_project(&cp("A")).unwrap();
    store
        .add_manual_study_session(&ManualStudySession {
            project_id: 1,
            start_time: 5,
            end_time: 6,
            description: None,
        })
        .unwrap();
    let payload = ManualStudySession {
        project_id: 1,
        start_time: 50,
        end_time: 60,
        description: Some("rewritten".to_string()),
    };
    let echoed = update_session_api(&mut store, 1, &payload).unwrap();
    assert_eq!(echoed.id, Some(1));
    assert_eq!(echoed.start_time, 50);
    assert_eq!(echoed.end_time, Some(60));
    assert_eq!(echoed.description.as_deref(), Some("rewritten"));
    assert_eq!(
        update_session_api(&mut store, 9, &payload).unwrap_err(),
        StoreError::NotFound
    );
}
