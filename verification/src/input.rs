//! The status payload: the shape of the JSON read off stdin, and the
//! [`StatusInput`] that the segments are rendered from.

use vstd::prelude::*;

use crate::util::{basename, path_basename, trim_whitespace, trimmed};

verus! {

/// Parsed status input produced from the JSON read off stdin.
pub struct StatusInput {
    /// Used-token count and window-size, both present or both absent.
    pub token_usage: Option<(u64, u64)>,
    pub directory_label: String,
    pub model_name: Option<String>,
}

/// The contents of a [`StatusInput`], its strings taken as characters.
pub struct StatusFields {
    pub token_usage: Option<(u64, u64)>,
    pub directory_label: Seq<char>,
    pub model_name: Option<Seq<char>>,
}

/// The characters of an optional string.
pub open spec fn opt_chars(s: Option<String>) -> Option<Seq<char>> {
    match s {
        Some(s) => Some(s@),
        None => None,
    }
}

impl View for StatusInput {
    type V = StatusFields;

    open spec fn view(&self) -> StatusFields {
        StatusFields {
            token_usage: self.token_usage,
            directory_label: self.directory_label@,
            model_name: opt_chars(self.model_name),
        }
    }
}

/// The `context_window` object of the payload.
pub struct ContextWindow {
    pub total_input_tokens: Option<u64>,
    pub context_window_size: Option<u64>,
}

/// The `workspace.repo` object of the payload.
pub struct Repo {
    pub owner: Option<String>,
    pub name: Option<String>,
}

/// The `workspace` object of the payload.
pub struct Workspace {
    pub repo: Option<Repo>,
    pub current_dir: Option<String>,
}

/// The `model` object of the payload.
pub struct Model {
    pub display_name: Option<String>,
}

/// The payload as it was decoded, every field optional.
pub struct RawInput {
    pub context_window: Option<ContextWindow>,
    pub workspace: Option<Workspace>,
    pub model: Option<Model>,
}

/// Token usage: present only when both counts are.
pub open spec fn token_usage_of(cw: Option<ContextWindow>) -> Option<(u64, u64)> {
    match cw {
        Some(cw) => match (cw.total_input_tokens, cw.context_window_size) {
            (Some(used), Some(total)) => Some((used, total)),
            _ => None,
        },
        None => None,
    }
}

/// `owner/name` when the repo has both, non-empty.
pub open spec fn repo_label(repo: Option<Repo>) -> Option<Seq<char>> {
    match repo {
        Some(repo) => match (repo.owner, repo.name) {
            (Some(owner), Some(name)) => if owner@.len() > 0 && name@.len() > 0 {
                Some(owner@ + seq!['/'] + name@)
            } else {
                None
            },
            _ => None,
        },
        None => None,
    }
}

/// The directory label: `owner/name` of the repo, else the basename of the
/// current directory, else empty.
pub open spec fn directory_label_of(ws: Option<Workspace>) -> Seq<char> {
    match ws {
        Some(ws) => match repo_label(ws.repo) {
            Some(label) => label,
            None => match ws.current_dir {
                Some(dir) => basename(dir@),
                None => Seq::empty(),
            },
        },
        None => Seq::empty(),
    }
}

/// The model's display name, when there is one and it is not empty.
pub open spec fn model_name_of(model: Option<Model>) -> Option<Seq<char>> {
    match model {
        Some(model) => match model.display_name {
            Some(name) => if name@.len() > 0 {
                Some(name@)
            } else {
                None
            },
            None => None,
        },
        None => None,
    }
}

/// The status fields that a decoded payload stands for.
pub open spec fn status_of(raw: RawInput) -> StatusFields {
    StatusFields {
        token_usage: token_usage_of(raw.context_window),
        directory_label: directory_label_of(raw.workspace),
        model_name: model_name_of(raw.model),
    }
}

/// The decoded payload's fields carried into the status: both token counts
/// when both are present (any values), else none; `owner/name` when both
/// are non-empty, else the basename of the current directory, else empty; a
/// non-empty display name as the model name, else none.
pub proof fn law_status_from_payload_fields(raw: RawInput)
    ensures
        ({
            let status = status_of(raw);
            let cw = raw.context_window.unwrap();
            let both_counts = raw.context_window is Some && cw.total_input_tokens is Some
                && cw.context_window_size is Some;
            &&& both_counts ==> status.token_usage == Some(
                (cw.total_input_tokens.unwrap(), cw.context_window_size.unwrap()),
            )
            &&& !both_counts ==> status.token_usage is None
        }),
        ({
            let status = status_of(raw);
            let ws = raw.workspace.unwrap();
            let repo = ws.repo.unwrap();
            let owner = repo.owner.unwrap()@;
            let name = repo.name.unwrap()@;
            let full_repo = raw.workspace is Some && ws.repo is Some && repo.owner is Some
                && repo.name is Some && owner.len() > 0 && name.len() > 0;
            &&& full_repo ==> status.directory_label == owner + seq!['/'] + name
            &&& raw.workspace is Some && !full_repo && ws.current_dir is Some
                ==> status.directory_label == basename(ws.current_dir.unwrap()@)
            &&& raw.workspace is Some && !full_repo && ws.current_dir is None
                ==> status.directory_label.len() == 0
            &&& raw.workspace is None ==> status.directory_label.len() == 0
        }),
        ({
            let status = status_of(raw);
            let m = raw.model.unwrap();
            let named = raw.model is Some && m.display_name is Some
                && m.display_name.unwrap()@.len() > 0;
            &&& named ==> status.model_name == Some(m.display_name.unwrap()@)
            &&& !named ==> status.model_name is None
        }),
{
}

/// `owner/name`, or `None` unless the repo names both, non-empty.
fn label_from_repo(repo: Option<Repo>) -> (r: Option<String>)
    ensures
        opt_chars(r) == repo_label(repo),
{
    match repo {
        Some(repo) => match (repo.owner, repo.name) {
            (Some(owner), Some(name)) => {
                if !owner.as_str().is_empty() && !name.as_str().is_empty() {
                    let mut label: String = owner;
                    proof {
                        reveal_strlit("/");
                    }
                    label.append("/");
                    label.append(name.as_str());
                    Some(label)
                } else {
                    None
                }
            },
            _ => None,
        },
        None => None,
    }
}

/// The [`StatusInput`] that a decoded payload stands for.
pub fn status_from_raw(raw: RawInput) -> (r: StatusInput)
    ensures
        r@ == status_of(raw),
{
    let token_usage: Option<(u64, u64)> = match raw.context_window {
        Some(cw) => match (cw.total_input_tokens, cw.context_window_size) {
            (Some(used), Some(total)) => Some((used, total)),
            _ => None,
        },
        None => None,
    };
    let directory_label: String = match raw.workspace {
        Some(ws) => match label_from_repo(ws.repo) {
            Some(label) => label,
            None => match ws.current_dir {
                Some(dir) => String::from_str(path_basename(dir.as_str())),
                None => String::new(),
            },
        },
        None => String::new(),
    };
    let model_name: Option<String> = match raw.model {
        Some(model) => match model.display_name {
            Some(name) => if name.as_str().is_empty() {
                None
            } else {
                Some(name)
            },
            None => None,
        },
        None => None,
    };
    StatusInput { token_usage, directory_label, model_name }
}

/// Parse the payload `input`, given what decoding it as JSON produced
/// (`None` when it is not JSON of the payload's shape).
///
/// Returns `None` when the input is empty or only whitespace, or when the
/// JSON is malformed: the status line is then left out.
pub fn status_from_parsed(input: &str, parsed: Option<RawInput>) -> (r: Option<StatusInput>)
    ensures
        trimmed(input@).len() == 0 ==> r is None,
        trimmed(input@).len() > 0 ==> (r is Some <==> parsed is Some),
        r matches Some(status) ==> parsed matches Some(raw) && status@ == status_of(raw),
{
    if trim_whitespace(input).is_empty() {
        return None;
    }
    match parsed {
        Some(raw) => Some(status_from_raw(raw)),
        None => None,
    }
}

} // verus!
