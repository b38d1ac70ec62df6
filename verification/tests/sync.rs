use sponsor_sync::add_current;
use sponsor_sync::oracle::IdSet;
use sponsor_sync::sponsor_time::SponsorTime;
use sponsor_sync::sponsor_time_error::{SponsorTimeError, SyncError};
use sponsor_sync::store::StoreModel;
use sponsor_sync::sync::{classify, ignored_noun, resolve_database_url, run, Decision};

fn lines(v: &[&str]) -> Vec<String> {
    v.iter().map(|s| s.to_string()).collect()
}

fn snapshot() -> Vec<String> {
    lines(&[
        "videoID,startTime,endTime,UUID",
        "vid1,1.0,2.0,uuid1",
        "vid2,0.0,0.0,uuid2",
    ])
}

#[test]
fn end_to_end_one_insert_one_ignored() {
    let mut store = StoreModel::new();
    let report = run(snapshot(), &mut store, false, false).unwrap();
    assert_eq!(store.rows.len(), 1);
    assert_eq!(store.rows[0].id, "uuid1");
    assert_eq!(store.rows[0].video_id, "vid1");
    assert_eq!(report.ignored.len(), 1);
    assert_eq!(report.ignored[0].0.id, "uuid2");
    assert!(matches!(
        report.ignored[0].1,
        SponsorTimeError::InvalidInterval
    ));
    assert_eq!(report.processed, 1);
    assert_eq!(report.total, 3);
}

#[test]
fn a_second_run_adds_no_rows() {
    let mut store = StoreModel::new();
    run(snapshot(), &mut store, false, false).unwrap();
    let after_once = store.rows.len();
    let report = run(snapshot(), &mut store, false, false).unwrap();
    assert_eq!(store.rows.len(), after_once);
    assert_eq!(report.processed, 1);
    assert!(report.ignored.len() == 1);
}

#[test]
fn a_second_run_adds_no_rows_with_bulk_preload() {
    let mut store = StoreModel::new();
    run(snapshot(), &mut store, false, true).unwrap();
    let after_once = store.rows.len();
    run(snapshot(), &mut store, false, true).unwrap();
    assert_eq!(store.rows.len(), after_once);
}

#[test]
fn both_strategies_leave_the_same_rows() {
    let mut a = StoreModel::new();
    let mut b = StoreModel::new();
    run(snapshot(), &mut a, false, false).unwrap();
    run(snapshot(), &mut b, false, true).unwrap();
    assert_eq!(a.rows.len(), b.rows.len());
    for k in 0..a.rows.len() {
        assert_eq!(a.rows[k].id, b.rows[k].id);
        assert_eq!(a.rows[k].video_id, b.rows[k].video_id);
    }
}

#[test]
fn both_strategies_answer_membership_alike() {
    let mut store = StoreModel::new();
    run(snapshot(), &mut store, false, false).unwrap();
    let pre = IdSet::from_ids(store.get_all_ids());
    for cand in ["uuid1", "uuid2", "uuid3", ""] {
        assert_eq!(pre.contains(cand), store.contains_id(cand));
    }
}

#[test]
fn reset_flag_discards_earlier_rows() {
    let mut store = StoreModel::new();
    run(snapshot(), &mut store, false, false).unwrap();
    let report = run(snapshot(), &mut store, true, false).unwrap();
    assert_eq!(store.rows.len(), 1);
    assert_eq!(report.processed, 1);
}

#[test]
fn a_bad_header_fails_before_any_row() {
    let mut store = StoreModel::new();
    let r = run(
        lines(&["videoID,startTime", "vid1,1.0,2.0,uuid1"]),
        &mut store,
        false,
        false,
    );
    match r {
        Err(SyncError::SchemaMismatch(names)) => {
            assert_eq!(names, vec!["id".to_string(), "end_time".to_string()]);
        }
        _ => panic!("expected a schema mismatch"),
    }
    assert!(store.table && store.index);
    assert_eq!(store.rows.len(), 0);
}

#[test]
fn an_empty_snapshot_misses_every_header_field() {
    let mut store = StoreModel::new();
    let r = run(Vec::new(), &mut store, false, false);
    match r {
        Err(SyncError::SchemaMismatch(names)) => {
            assert_eq!(names.len(), 4);
        }
        _ => panic!("expected a schema mismatch"),
    }
}

#[test]
fn a_stale_snapshot_duplicate_lands_in_the_ledger() {
    let dup = lines(&[
        "videoID,startTime,endTime,UUID",
        "vid1,1.0,2.0,uuid1",
        "vid1,3.0,4.0,uuid1",
    ]);
    let mut bulk = StoreModel::new();
    let report = run(dup.clone(), &mut bulk, false, true).unwrap();
    assert_eq!(bulk.rows.len(), 1);
    assert_eq!(report.ignored.len(), 1);
    match &report.ignored[0].1 {
        SponsorTimeError::DatabaseError(Some(m)) => assert_eq!(m, "duplicate key"),
        _ => panic!("expected a database error"),
    }
    let mut per_record = StoreModel::new();
    let report = run(dup, &mut per_record, false, false).unwrap();
    assert_eq!(per_record.rows.len(), 1);
    assert_eq!(report.ignored.len(), 0);
    assert_eq!(report.processed, 2);
}

#[test]
fn classify_follows_the_decision_order() {
    let sentinel = SponsorTime {
        id: "u".to_string(),
        video_id: "v".to_string(),
        start_time: "0".to_string(),
        end_time: "0.000".to_string(),
    };
    assert!(matches!(
        classify(&sentinel, true),
        Decision::InvalidInterval
    ));
    let real = SponsorTime {
        id: "u".to_string(),
        video_id: "v".to_string(),
        start_time: "1.0".to_string(),
        end_time: "2.0".to_string(),
    };
    assert!(matches!(classify(&real, true), Decision::AlreadyPresent));
    assert!(matches!(classify(&real, false), Decision::Insert));
}

#[test]
fn explicit_connection_string_wins() {
    let r = resolve_database_url(Some("a".to_string()), Some("b".to_string()));
    assert_eq!(r.unwrap(), "a");
    let r = resolve_database_url(None, Some("b".to_string()));
    assert_eq!(r.unwrap(), "b");
    let r = resolve_database_url(None, None);
    assert!(matches!(r, Err(SyncError::MissingDatabaseUrl)));
}

#[test]
fn progress_is_reported_on_the_fixed_cadence() {
    let mut current = 99_998usize;
    assert!(!add_current(&mut current, 500_000));
    assert_eq!(current, 99_999);
    assert!(add_current(&mut current, 500_000));
    assert_eq!(current, 100_000);
    assert!(!add_current(&mut current, 500_000));
}

#[test]
fn the_summary_noun_is_pluralized() {
    assert_eq!(ignored_noun(0), "items");
    assert_eq!(ignored_noun(1), "item");
    assert_eq!(ignored_noun(2), "items");
}
