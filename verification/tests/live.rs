use okf::live::{is_affected, page_is_affected, react_to_message, LiveSession, SocketAction, SocketEvent};

fn paths(v: &[&str]) -> Vec<String> {
    v.iter().map(|s| s.to_string()).collect()
}

#[test]
fn affected_paths_match_by_containment() {
    assert!(is_affected("", "anything"));
    assert!(is_affected("api", ""));
    assert!(is_affected("/api/", "api"));
    assert!(is_affected("api", "api/rest-api"));
    assert!(is_affected("api/rest-api", "api"));
    assert!(!is_affected("api", "apiary"));
    assert!(!is_affected("api/rest-api", "api/auth"));
}

#[test]
fn affection_is_symmetric() {
    for (a, b) in [("api", "api/x"), ("a/b", "a/c"), ("", "z"), ("x", "xy")] {
        assert_eq!(is_affected(a, b), is_affected(b, a));
    }
}

#[test]
fn page_affected_by_any_path() {
    assert!(page_is_affected("/api/rest-api", &paths(&["overview", "api"])));
    assert!(!page_is_affected("/api/rest-api", &paths(&["overview", "api/auth"])));
    assert!(!page_is_affected("/api/rest-api", &Vec::new()));
    assert!(page_is_affected("/", &paths(&["x"])));
}

#[test]
fn session_sends_changes_for_the_watched_path() {
    let mut session = LiveSession::new();
    let none = session.step(SocketEvent::Change(paths(&["a"])));
    assert!(matches!(none, SocketAction::Wait));

    let r = session.step(SocketEvent::Text("{\"type\":\"watch\",\"path\":\"\"}".to_string()));
    assert!(matches!(r, SocketAction::Wait));
    assert_eq!(session.watched.as_deref(), Some(""));

    match session.step(SocketEvent::Change(paths(&["a"]))) {
        SocketAction::Send(text) => {
            let v: serde_json::Value = serde_json::from_str(&text).unwrap();
            assert_eq!(v["type"], "change");
            assert_eq!(v["path"], "");
            assert_eq!(v["paths"][0], "a");
        }
        other => panic!("expected a change message, got {other:?}"),
    }
}

#[test]
fn session_ignores_unrelated_changes_and_bad_frames() {
    let mut session = LiveSession::new();
    session.step(SocketEvent::Text("{\"type\":\"watch\",\"path\":\"api\"}".to_string()));
    assert_eq!(session.watched.as_deref(), Some("api"));
    assert!(matches!(session.step(SocketEvent::Change(paths(&["overview"]))), SocketAction::Wait));

    session.step(SocketEvent::Text("not json".to_string()));
    session.step(SocketEvent::Text("{\"type\":\"other\",\"path\":\"x\"}".to_string()));
    assert_eq!(session.watched.as_deref(), Some("api"));

    session.step(SocketEvent::Text("{\"type\":\"watch\"}".to_string()));
    assert!(session.watched.is_none());

    assert!(matches!(session.step(SocketEvent::Other), SocketAction::Wait));
    assert!(matches!(session.step(SocketEvent::Closed), SocketAction::Stop));
}

#[test]
fn pages_react_to_change_messages() {
    let msg = "{\"type\":\"change\",\"path\":\"\",\"paths\":[\"api/rest-api\",3]}";
    let r = react_to_message(msg, "/api/rest-api");
    assert!(r.reload_tree && r.reload_page);
    let r = react_to_message(msg, "/overview");
    assert!(r.reload_tree && !r.reload_page);
    let r = react_to_message("{\"type\":\"hello\"}", "/");
    assert!(!r.reload_tree && !r.reload_page);
    let r = react_to_message("garbage", "/");
    assert!(!r.reload_tree && !r.reload_page);
}

#[test]
fn watchers_of_a_concept_hear_about_its_file() {
    let changed = vec![vec!["api".to_string(), "rest-api.md".to_string()]];
    let affected = okf::bundle::affected_paths(&changed);
    assert_eq!(affected, vec!["api/rest-api".to_string()]);
    assert!(page_is_affected("api/rest-api", &affected));
    assert!(page_is_affected("/api/", &affected));
    assert!(!page_is_affected("/overview", &affected));
}
