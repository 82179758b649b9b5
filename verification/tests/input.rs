use claude_statusline::input::{
    status_from_parsed, status_from_raw, ContextWindow, Model, RawInput, Repo, StatusInput,
    Workspace,
};

fn empty_raw() -> RawInput {
    RawInput { context_window: None, workspace: None, model: None }
}

fn s(text: &str) -> Option<String> {
    Some(text.to_string())
}

fn parse(input: &str, raw: RawInput) -> StatusInput {
    status_from_parsed(input, Some(raw)).expect("non-blank input that decoded")
}

fn window(total: Option<u64>, size: Option<u64>) -> RawInput {
    RawInput {
        context_window: Some(ContextWindow { total_input_tokens: total, context_window_size: size }),
        workspace: None,
        model: None,
    }
}

fn workspace(repo: Option<Repo>, current_dir: Option<String>) -> RawInput {
    RawInput { context_window: None, workspace: Some(Workspace { repo, current_dir }), model: None }
}

// ── Input (top-level) ───────────────────────────────────────────

#[test]
fn empty_input_returns_none() {
    assert!(status_from_parsed("", None).is_none());
    assert!(status_from_parsed("", Some(empty_raw())).is_none());
}

#[test]
fn whitespace_only_input_returns_none() {
    assert!(status_from_parsed("   \n\t  ", None).is_none());
    assert!(status_from_parsed("   \n\t  ", Some(empty_raw())).is_none());
}

#[test]
fn malformed_json_returns_none() {
    assert!(status_from_parsed("{not json}", None).is_none());
}

#[test]
fn valid_json_all_fields() {
    let raw = RawInput {
        context_window: Some(ContextWindow {
            total_input_tokens: Some(1000),
            context_window_size: Some(200000),
        }),
        workspace: Some(Workspace {
            repo: Some(Repo { owner: s("acme"), name: s("widgets") }),
            current_dir: s("/home/user/widgets"),
        }),
        model: Some(Model { display_name: s("Sonnet 4") }),
    };
    let result = parse("{...}", raw);
    assert_eq!(result.token_usage, Some((1000, 200000)));
    assert_eq!(result.directory_label, "acme/widgets");
    assert_eq!(result.model_name.as_deref(), Some("Sonnet 4"));
}

// ── Input.ContextWindow ─────────────────────────────────────────

#[test]
fn context_window_both_fields_present() {
    let result = status_from_raw(window(Some(500), Some(100000)));
    assert_eq!(result.token_usage, Some((500, 100000)));
}

#[test]
fn context_window_missing_total_input_tokens() {
    let result = status_from_raw(window(None, Some(100000)));
    assert!(result.token_usage.is_none());
}

#[test]
fn context_window_missing_context_window_size() {
    let result = status_from_raw(window(Some(500), None));
    assert!(result.token_usage.is_none());
}

#[test]
fn context_window_null_fields() {
    let result = status_from_raw(window(None, None));
    assert!(result.token_usage.is_none());
}

#[test]
fn context_window_absent() {
    let result = status_from_raw(empty_raw());
    assert!(result.token_usage.is_none());
}

// ── Input.Workspace ─────────────────────────────────────────────

#[test]
fn workspace_repo_owner_and_name() {
    let raw = workspace(Some(Repo { owner: s("acme"), name: s("widgets") }), s("/somewhere"));
    assert_eq!(status_from_raw(raw).directory_label, "acme/widgets");
}

#[test]
fn workspace_repo_missing_owner_falls_back_to_current_dir() {
    let raw = workspace(Some(Repo { owner: None, name: s("widgets") }), s("/home/user/project"));
    assert_eq!(status_from_raw(raw).directory_label, "project");
}

#[test]
fn workspace_repo_missing_name_falls_back_to_current_dir() {
    let raw = workspace(Some(Repo { owner: s("acme"), name: None }), s("/home/user/project"));
    assert_eq!(status_from_raw(raw).directory_label, "project");
}

#[test]
fn workspace_repo_empty_owner_falls_back_to_current_dir() {
    let raw = workspace(Some(Repo { owner: s(""), name: s("widgets") }), s("/home/user/project"));
    assert_eq!(status_from_raw(raw).directory_label, "project");
    let raw = workspace(Some(Repo { owner: s("acme"), name: s("") }), None);
    assert_eq!(status_from_raw(raw).directory_label, "");
}

#[test]
fn workspace_no_repo_uses_current_dir_basename() {
    let raw = workspace(None, s("/home/user/project"));
    assert_eq!(status_from_raw(raw).directory_label, "project");
}

#[test]
fn workspace_no_repo_no_current_dir() {
    let raw = workspace(None, None);
    assert_eq!(status_from_raw(raw).directory_label, "");
}

#[test]
fn workspace_absent() {
    assert_eq!(status_from_raw(empty_raw()).directory_label, "");
}

#[test]
fn current_dir_basename_extraction() {
    let raw = workspace(None, s("/home/user/deep/nested/project"));
    assert_eq!(status_from_raw(raw).directory_label, "project");
}

#[test]
fn current_dir_root_path() {
    let raw = workspace(None, s("/"));
    assert_eq!(status_from_raw(raw).directory_label, "");
}

#[test]
fn current_dir_trailing_slash() {
    let raw = workspace(None, s("/home/user/project/"));
    assert_eq!(status_from_raw(raw).directory_label, "project");
}

// ── Input.Model ─────────────────────────────────────────────────

fn with_model(display_name: Option<String>) -> RawInput {
    RawInput { context_window: None, workspace: None, model: Some(Model { display_name }) }
}

#[test]
fn model_with_display_name() {
    let result = status_from_raw(with_model(s("Opus 4")));
    assert_eq!(result.model_name.as_deref(), Some("Opus 4"));
}

#[test]
fn input_model_absent() {
    assert!(status_from_raw(empty_raw()).model_name.is_none());
}

#[test]
fn model_display_name_null() {
    assert!(status_from_raw(with_model(None)).model_name.is_none());
}

#[test]
fn model_display_name_empty_is_dropped() {
    assert!(status_from_raw(with_model(s(""))).model_name.is_none());
}
