use claude_statusline::input::{
    status_from_raw, ContextWindow, Model, RawInput, Repo, StatusInput, Workspace,
};
use claude_statusline::segments::{
    directory_segment, format_git_branch, format_venv, git_branch_segment_from, model_segment,
    status_line, token_segment, venv_segment_from,
};

// Helper to build a StatusInput for tests
fn make_input(
    token_usage: Option<(u64, u64)>,
    directory_label: &str,
    model_name: Option<&str>,
) -> StatusInput {
    StatusInput {
        token_usage,
        directory_label: directory_label.to_string(),
        model_name: model_name.map(|s| s.to_string()),
    }
}

// ── token_segment ──────────────────────────────────────────────────

#[test]
fn token_absent_returns_empty() {
    let input = make_input(None, "", None);
    assert_eq!(token_segment(&input), "");
}

#[test]
fn token_under_60k_cyan() {
    let input = make_input(Some((50_000, 200_000)), "", None);
    assert_eq!(token_segment(&input), "\x1b[0;36m50.0k/200.0k\x1b[0m ");
}

#[test]
fn token_at_60k_yellow() {
    let input = make_input(Some((60_000, 200_000)), "", None);
    assert_eq!(token_segment(&input), "\x1b[0;33m60.0k/200.0k\x1b[0m ");
}

#[test]
fn token_75k_yellow() {
    let input = make_input(Some((75_000, 200_000)), "", None);
    assert_eq!(token_segment(&input), "\x1b[0;33m75.0k/200.0k\x1b[0m ");
}

#[test]
fn token_at_99999_yellow() {
    let input = make_input(Some((99_999, 200_000)), "", None);
    assert!(token_segment(&input).starts_with("\x1b[0;33m"));
}

#[test]
fn token_at_100k_red() {
    let input = make_input(Some((100_000, 200_000)), "", None);
    assert_eq!(token_segment(&input), "\x1b[0;31m100.0k/200.0k\x1b[0m ");
}

#[test]
fn token_150k_red() {
    let input = make_input(Some((150_000, 200_000)), "", None);
    assert_eq!(token_segment(&input), "\x1b[0;31m150.0k/200.0k\x1b[0m ");
}

#[test]
fn token_segment_has_trailing_space() {
    let input = make_input(Some((1_000, 200_000)), "", None);
    let result = token_segment(&input);
    assert!(result.ends_with("\x1b[0m "), "expected trailing space after reset");
}

#[test]
fn token_color_boundaries() {
    let color = |used: u64| token_segment(&make_input(Some((used, 1)), "", None));
    assert!(color(0).starts_with("\x1b[0;36m0/1"));
    assert!(color(59_999).starts_with("\x1b[0;36m"));
    assert!(color(60_000).starts_with("\x1b[0;33m"));
    assert!(color(99_999).starts_with("\x1b[0;33m"));
    assert!(color(100_000).starts_with("\x1b[0;31m"));
    assert!(color(u64::MAX).starts_with("\x1b[0;31m"));
}

// ── directory_segment ──────────────────────────────────────────────

#[test]
fn directory_with_label() {
    let input = make_input(None, "owner/name", None);
    assert_eq!(directory_segment(&input), "\x1b[0;34mowner/name\x1b[0m");
}

#[test]
fn directory_empty_label() {
    let input = make_input(None, "", None);
    assert_eq!(directory_segment(&input), "\x1b[0;34m\x1b[0m");
}

// ── format_git_branch (helper) ─────────────────────────────────────

#[test]
fn git_branch_non_empty() {
    assert_eq!(format_git_branch("main"), "\x1b[0;32m (main)\x1b[0m");
}

#[test]
fn git_branch_empty() {
    assert_eq!(format_git_branch(""), "");
}

#[test]
fn git_branch_feature_branch() {
    assert_eq!(
        format_git_branch("feature/cool-stuff"),
        "\x1b[0;32m (feature/cool-stuff)\x1b[0m"
    );
}

#[test]
fn git_output_is_trimmed_and_checked() {
    assert_eq!(git_branch_segment_from(true, b"main\n".to_vec()), "\x1b[0;32m (main)\x1b[0m");
    assert_eq!(git_branch_segment_from(true, b"  dev \r\n".to_vec()), "\x1b[0;32m (dev)\x1b[0m");
    assert_eq!(git_branch_segment_from(false, b"main\n".to_vec()), "");
    assert_eq!(git_branch_segment_from(true, b" \n".to_vec()), "");
    assert_eq!(git_branch_segment_from(true, vec![]), "");
    // not UTF-8: treated as no output
    assert_eq!(git_branch_segment_from(true, vec![0x66, 0xff, 0x0a]), "");
    assert_eq!(
        git_branch_segment_from(true, "zmiana-ł\n".as_bytes().to_vec()),
        "\x1b[0;32m (zmiana-ł)\x1b[0m"
    );
}

// ── format_venv (helper) ───────────────────────────────────────────

#[test]
fn venv_with_path() {
    assert_eq!(format_venv("/home/user/.venvs/myenv"), "\x1b[0;33m (myenv) \x1b[0m");
}

#[test]
fn venv_empty_path() {
    assert_eq!(format_venv(""), "");
}

#[test]
fn venv_trailing_slash() {
    assert_eq!(format_venv("/home/user/.venvs/myenv/"), "\x1b[0;33m (myenv) \x1b[0m");
}

#[test]
fn venv_simple_name() {
    assert_eq!(format_venv("venv"), "\x1b[0;33m (venv) \x1b[0m");
}

#[test]
fn venv_from_environment_value() {
    assert_eq!(venv_segment_from(None), "");
    assert_eq!(venv_segment_from(Some(String::new())), "");
    assert_eq!(
        venv_segment_from(Some("/opt/envs/tools".to_string())),
        "\x1b[0;33m (tools) \x1b[0m"
    );
    assert_eq!(venv_segment_from(Some("/".to_string())), "\x1b[0;33m () \x1b[0m");
}

// ── model_segment ──────────────────────────────────────────────────

#[test]
fn model_with_name() {
    let input = make_input(None, "", Some("Sonnet 4"));
    assert_eq!(model_segment(&input), "\x1b[0;36m [Sonnet 4]\x1b[0m");
}

#[test]
fn segments_model_absent() {
    let input = make_input(None, "", None);
    assert_eq!(model_segment(&input), "");
}

// ── the whole line ─────────────────────────────────────────────────

#[test]
fn status_line_orders_segments() {
    let input = make_input(Some((50_000, 200_000)), "acme/widgets", Some("Sonnet 4"));
    let git = format_git_branch("main");
    let venv = format_venv("/envs/py");
    assert_eq!(
        status_line(&input, &git, &venv),
        "\x1b[0;36m50.0k/200.0k\x1b[0m \x1b[0;34macme/widgets\x1b[0m\x1b[0;32m (main)\x1b[0m\x1b[0;33m (py) \x1b[0m\x1b[0;36m [Sonnet 4]\x1b[0m"
    );
    let bare = make_input(None, "", None);
    assert_eq!(status_line(&bare, "", ""), "\x1b[0;34m\x1b[0m");
}

#[test]
fn whole_line_from_a_payload() {
    let raw = RawInput {
        context_window: Some(ContextWindow {
            total_input_tokens: Some(50_000),
            context_window_size: Some(200_000),
        }),
        workspace: Some(Workspace {
            repo: Some(Repo { owner: Some("acme".to_string()), name: Some("widgets".to_string()) }),
            current_dir: None,
        }),
        model: Some(Model { display_name: Some("Sonnet 4".to_string()) }),
    };
    let line = status_line(&status_from_raw(raw), "", "");
    assert_eq!(
        line,
        "\x1b[0;36m50.0k/200.0k\x1b[0m \x1b[0;34macme/widgets\x1b[0m\x1b[0;36m [Sonnet 4]\x1b[0m"
    );
    assert!(!line.ends_with('\n'));

    let empty = RawInput { context_window: None, workspace: None, model: None };
    assert_eq!(status_line(&status_from_raw(empty), "", ""), "\x1b[0;34m\x1b[0m");

    let no_tokens = RawInput {
        context_window: None,
        workspace: Some(Workspace { repo: None, current_dir: Some("/home/user/myproject".to_string()) }),
        model: None,
    };
    let line = status_line(&status_from_raw(no_tokens), "", "");
    assert_eq!(line, "\x1b[0;34mmyproject\x1b[0m");
}
