use sponsor_sync::sponsor_time::SponsorTime;

fn record_with_video_id(v: &str) -> SponsorTime {
    SponsorTime {
        id: "u1".to_string(),
        video_id: v.to_string(),
        start_time: "1.0".to_string(),
        end_time: "2.0".to_string(),
    }
}

#[test]
fn url_subject_yields_its_v_parameter() {
    let t = record_with_video_id("https://example.com/watch?v=abc123");
    assert_eq!(t.get_video_id(), "abc123");
}

#[test]
fn bare_subject_is_kept_verbatim() {
    let t = record_with_video_id("abc123");
    assert_eq!(t.get_video_id(), "abc123");
}

#[test]
fn url_without_v_parameter_is_kept_verbatim() {
    let t = record_with_video_id("https://example.com/watch?x=abc123");
    assert_eq!(t.get_video_id(), "https://example.com/watch?x=abc123");
}

#[test]
fn non_https_url_is_kept_verbatim() {
    let t = record_with_video_id("http://example.com/watch?v=abc123");
    assert_eq!(t.get_video_id(), "http://example.com/watch?v=abc123");
}

#[test]
fn the_v_parameter_is_percent_decoded() {
    let t = record_with_video_id("https://example.com/watch?a=1&v=a%20b&z=2");
    assert_eq!(t.get_video_id(), "a b");
}

#[test]
fn sentinel_is_both_timestamps_zero() {
    let zero = SponsorTime {
        id: "u".to_string(),
        video_id: "v".to_string(),
        start_time: "0.0".to_string(),
        end_time: "0".to_string(),
    };
    assert!(zero.is_sentinel());
    let half = SponsorTime {
        id: "u".to_string(),
        video_id: "v".to_string(),
        start_time: "0.0".to_string(),
        end_time: "2.0".to_string(),
    };
    assert!(!half.is_sentinel());
}
