use phrase_router::utterance::{detect_request, intent_path, session_id, session_path, SESSION_ID_LEN};

fn is_safe(c: char) -> bool {
    c.is_ascii_alphanumeric() || c == '_' || c == '-'
}

#[test]
fn session_id_has_ten_safe_symbols() {
    for _ in 0..50 {
        let id = session_id();
        assert_eq!(id.chars().count(), SESSION_ID_LEN);
        assert_eq!(id.chars().count(), 10);
        assert!(id.chars().all(is_safe));
    }
}

#[test]
fn session_ids_differ() {
    assert_ne!(session_id(), session_id());
}

#[test]
fn session_path_names_project_and_session() {
    assert_eq!(session_path("my-project", "abc123"), "projects/my-project/agent/sessions/abc123");
    assert_eq!(session_path("", ""), "projects//agent/sessions/");
}

#[test]
fn intent_path_names_project_and_intent() {
    assert_eq!(intent_path("my-project", "i-9"), "projects/my-project/agent/intents/i-9");
}

#[test]
fn detect_request_defaults_to_english() {
    let request = detect_request("p", "give him an L", None);
    assert_eq!(request.text, "give him an L");
    assert_eq!(request.language_code, "en");
    assert!(request.session.starts_with("projects/p/agent/sessions/"));
    let id = &request.session["projects/p/agent/sessions/".len()..];
    assert_eq!(id.chars().count(), 10);
    assert!(id.chars().all(is_safe));
}

#[test]
fn detect_request_keeps_a_given_language() {
    let request = detect_request("p", "bonjour", Some("fr"));
    assert_eq!(request.language_code, "fr");
}
