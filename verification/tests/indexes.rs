use sponsor_sync::indexes::Indexes;
use sponsor_sync::sponsor_time_error::SyncError;

#[test]
fn resolves_all_four_in_standard_order() {
    let ix = Indexes::new("videoID,startTime,endTime,UUID").unwrap();
    assert_eq!(ix.video_id, 0);
    assert_eq!(ix.start_time, 1);
    assert_eq!(ix.end_time, 2);
    assert_eq!(ix.id, 3);
}

#[test]
fn resolves_all_four_in_any_order_with_extra_columns() {
    let ix = Indexes::new("votes,UUID,locked,endTime,videoID,startTime,category").unwrap();
    assert_eq!(ix.id, 1);
    assert_eq!(ix.end_time, 3);
    assert_eq!(ix.video_id, 4);
    assert_eq!(ix.start_time, 5);
}

#[test]
fn later_duplicate_column_wins() {
    let ix = Indexes::new("UUID,videoID,startTime,endTime,UUID").unwrap();
    assert_eq!(ix.id, 4);
    assert_eq!(ix.video_id, 1);
}

#[test]
fn header_matching_is_case_sensitive() {
    let r = Indexes::new("videoid,startTime,endTime,UUID");
    match r {
        Err(SyncError::SchemaMismatch(names)) => {
            assert_eq!(names, vec!["video_id".to_string()]);
        }
        _ => panic!("expected a schema mismatch"),
    }
}

#[test]
fn missing_fields_are_all_named_in_order() {
    let r = Indexes::new("votes,startTime,category");
    match r {
        Err(SyncError::SchemaMismatch(names)) => {
            assert_eq!(
                names,
                vec![
                    "id".to_string(),
                    "video_id".to_string(),
                    "end_time".to_string()
                ]
            );
        }
        _ => panic!("expected a schema mismatch"),
    }
}

#[test]
fn empty_header_misses_everything() {
    let r = Indexes::new("");
    match r {
        Err(SyncError::SchemaMismatch(names)) => {
            assert_eq!(names.len(), 4);
            assert_eq!(names[0], "id");
            assert_eq!(names[1], "video_id");
            assert_eq!(names[2], "start_time");
            assert_eq!(names[3], "end_time");
        }
        _ => panic!("expected a schema mismatch"),
    }
}

#[test]
fn empty_positions_are_the_sentinel() {
    let e = Indexes::empty();
    assert_eq!(e.id, usize::MAX);
    assert_eq!(e.video_id, usize::MAX);
    assert_eq!(e.start_time, usize::MAX);
    assert_eq!(e.end_time, usize::MAX);
    let all = e.get_all_invalid().unwrap();
    assert_eq!(all, vec!["id", "video_id", "start_time", "end_time"]);
}

#[test]
fn fully_resolved_has_no_invalid_fields() {
    let ix = Indexes::new("UUID,videoID,startTime,endTime").unwrap();
    assert!(ix.get_all_invalid().is_none());
}
