use sponsor_sync::sponsor_time::SponsorTime;
use sponsor_sync::sponsor_time_error::SponsorTimeError;
use sponsor_sync::store::StoreModel;

fn record(id: &str, video_id: &str) -> SponsorTime {
    SponsorTime {
        id: id.to_string(),
        video_id: video_id.to_string(),
        start_time: "1.0".to_string(),
        end_time: "2.0".to_string(),
    }
}

#[test]
fn ensure_schema_is_idempotent_and_keeps_rows() {
    let mut s = StoreModel::new();
    s.ensure_schema();
    assert!(s.table && s.index);
    s.insert(&record("u1", "v1")).unwrap();
    s.ensure_schema();
    assert!(s.table && s.index);
    assert_eq!(s.rows.len(), 1);
}

#[test]
fn reset_then_ensure_leaves_schema_present_and_empty() {
    let mut s = StoreModel::new();
    s.ensure_schema();
    s.insert(&record("u1", "v1")).unwrap();
    s.insert(&record("u2", "v2")).unwrap();
    s.reset_schema();
    assert!(!s.table && !s.index);
    s.ensure_schema();
    assert!(s.table && s.index);
    assert_eq!(s.rows.len(), 0);
    assert!(s.get_all_ids().is_empty());
    assert!(!s.contains_id("u1"));
}

#[test]
fn insert_reports_one_affected_row_and_is_visible() {
    let mut s = StoreModel::new();
    s.ensure_schema();
    assert_eq!(s.insert(&record("u1", "v1")).unwrap(), 1);
    assert!(s.contains_id("u1"));
    assert!(!s.contains_id("u2"));
    assert_eq!(s.get_all_ids(), vec!["u1".to_string()]);
}

#[test]
fn duplicate_insert_is_a_structured_error_and_changes_nothing() {
    let mut s = StoreModel::new();
    s.ensure_schema();
    s.insert(&record("u1", "v1")).unwrap();
    match s.insert(&record("u1", "other")) {
        Err(SponsorTimeError::DatabaseError(Some(m))) => {
            assert_eq!(m, "duplicate key");
        }
        _ => panic!("expected a database error with a message"),
    }
    assert_eq!(s.rows.len(), 1);
    assert_eq!(s.rows[0].video_id, "v1");
}

#[test]
fn insert_stores_the_extracted_subject_identifier() {
    let mut s = StoreModel::new();
    s.ensure_schema();
    s.insert(&record("u1", "https://example.com/watch?v=abc123"))
        .unwrap();
    assert_eq!(s.rows[0].video_id, "abc123");
    assert_eq!(s.rows[0].id, "u1");
    assert_eq!(s.rows[0].start_time, "1.0");
}
