use dict_admin::table::delete_outcome;
use dict_admin::user_online::{OnlineModel, OnlineTable};

fn session(id: &str, token: &str, name: &str) -> OnlineModel {
    OnlineModel {
        id: id.to_string(),
        token_id: token.to_string(),
        user_name: name.to_string(),
        ipaddr: "127.0.0.1".to_string(),
        login_location: "local".to_string(),
        browser: "firefox".to_string(),
        os: "linux".to_string(),
        login_time: 1704067200,
    }
}

fn sample() -> OnlineTable {
    let mut t = OnlineTable::new();
    t.record(session("s1", "tok-a", "alice"));
    t.record(session("s2", "tok-b", "bob"));
    t.record(session("s3", "tok-a", "alice"));
    t.record(session("s4", "tok-c", "carol"));
    t
}

#[test]
fn deleting_sessions_counts_only_the_ids_that_existed() {
    let mut t = sample();
    let n = t.delete(&vec!["s2".to_string(), "missing".to_string(), "s4".to_string()]);
    assert_eq!(n, 2);
    assert_eq!(t.session_count(), 2);
    assert_eq!(delete_outcome(n), Ok(2));
}

#[test]
fn deleting_no_matching_session_reports_zero() {
    let mut t = sample();
    let n = t.delete(&vec!["nope".to_string()]);
    assert_eq!(n, 0);
    assert_eq!(t.session_count(), 4);
    assert!(delete_outcome(n).is_err());
}

#[test]
fn log_out_removes_every_session_of_the_token() {
    let mut t = sample();
    let n = t.log_out("tok-a");
    assert_eq!(n, 2);
    assert_eq!(t.session_count(), 2);
    // Logging out again removes nothing.
    assert_eq!(t.log_out("tok-a"), 0);
    assert_eq!(t.session_count(), 2);
}
