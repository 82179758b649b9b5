//! The coloured segments of the status line and the line itself.

use vstd::prelude::*;

use crate::format_tokens::{format_tokens, formatted_tokens};
use crate::input::{opt_chars, StatusFields, StatusInput};
use crate::util::{
    basename, law_basename_ignores_trailing_slash, path_basename, trim_whitespace, trimmed,
};
use vstd::utf8::{decode_utf8, valid_utf8};

verus! {

// ANSI color codes
pub const RED: &'static str = "\x1b[0;31m";

pub const YELLOW: &'static str = "\x1b[0;33m";

pub const CYAN: &'static str = "\x1b[0;36m";

pub const BLUE: &'static str = "\x1b[0;34m";

pub const GREEN: &'static str = "\x1b[0;32m";

pub const RESET: &'static str = "\x1b[0m";

/// The color of the token segment: red from 100,000 used tokens, yellow
/// from 60,000, cyan below.
pub open spec fn usage_color(used: u64) -> Seq<char> {
    if used >= 100_000 {
        RED@
    } else if used >= 60_000 {
        YELLOW@
    } else {
        CYAN@
    }
}

/// What `token_segment` renders for the given usage.
pub open spec fn token_segment_text(usage: Option<(u64, u64)>) -> Seq<char> {
    match usage {
        Some((used, total)) => usage_color(used) + formatted_tokens(used as nat) + seq!['/']
            + formatted_tokens(total as nat) + RESET@ + seq![' '],
        None => Seq::empty(),
    }
}

/// What `directory_segment` renders for the given label.
pub open spec fn directory_segment_text(label: Seq<char>) -> Seq<char> {
    BLUE@ + label + RESET@
}

/// What `format_git_branch` renders for the given branch name.
pub open spec fn git_branch_text(branch: Seq<char>) -> Seq<char> {
    if branch.len() == 0 {
        Seq::empty()
    } else {
        GREEN@ + seq![' ', '('] + branch + seq![')'] + RESET@
    }
}

/// What `format_venv` renders for the given virtual environment path.
pub open spec fn venv_text(path: Seq<char>) -> Seq<char> {
    if path.len() == 0 {
        Seq::empty()
    } else {
        YELLOW@ + seq![' ', '('] + basename(path) + seq![')', ' '] + RESET@
    }
}

/// What `model_segment` renders for the given model name.
pub open spec fn model_segment_text(name: Option<Seq<char>>) -> Seq<char> {
    match name {
        Some(name) => CYAN@ + seq![' ', '['] + name + seq![']'] + RESET@,
        None => Seq::empty(),
    }
}

/// The branch segment for what `git rev-parse --abbrev-ref HEAD` printed:
/// empty unless the command succeeded; output that is not UTF-8 counts as
/// empty; surrounding whitespace is removed.
pub open spec fn git_output_text(succeeded: bool, stdout: Seq<u8>) -> Seq<char> {
    if succeeded {
        git_branch_text(
            trimmed(
                if valid_utf8(stdout) {
                    decode_utf8(stdout)
                } else {
                    Seq::empty()
                },
            ),
        )
    } else {
        Seq::empty()
    }
}

/// The venv segment for the value of `VIRTUAL_ENV` (`None` when unset).
pub open spec fn venv_value_text(value: Option<Seq<char>>) -> Seq<char> {
    match value {
        Some(path) => venv_text(path),
        None => Seq::empty(),
    }
}

/// The whole status line: tokens, directory, branch, venv, model.
pub open spec fn status_line_text(input: StatusFields, git: Seq<char>, venv: Seq<char>) -> Seq<
    char,
> {
    token_segment_text(input.token_usage) + directory_segment_text(input.directory_label) + git
        + venv + model_segment_text(input.model_name)
}

/// The token segment is present exactly when both token counts are, and
/// then ends with a reset followed by a space.
pub proof fn law_token_segment_present_iff_counts(usage: Option<(u64, u64)>)
    ensures
        token_segment_text(usage).len() > 0 <==> usage is Some,
        usage is Some ==> token_segment_text(usage) == token_segment_text(usage).subrange(
            0,
            token_segment_text(usage).len() - 1 - RESET@.len(),
        ) + RESET@ + seq![' '],
{
    if let Some((used, total)) = usage {
        let text = token_segment_text(usage);
        let head = usage_color(used) + formatted_tokens(used as nat) + seq!['/'] + formatted_tokens(
            total as nat,
        );
        assert(text == head + RESET@ + seq![' ']);
        assert(text.subrange(0, text.len() - 1 - RESET@.len()) =~= head);
    }
}

/// A trailing slash on the virtual environment path does not change its
/// segment.
pub proof fn law_venv_ignores_trailing_slash(path: Seq<char>)
    requires
        path.len() > 0,
    ensures
        venv_text(path.push('/')) == venv_text(path),
{
    law_basename_ignores_trailing_slash(path);
}

/// The token segment's colour by band of used tokens: red from 100,000 on,
/// yellow from 60,000 to 99,999, cyan below 60,000; after the colour come
/// `used/total`, a reset and a space. No counts, no segment.
pub proof fn law_token_colour_bands(used: u64, total: u64)
    ensures
        used >= 100_000 ==> token_segment_text(Some((used, total))) == RED@ + formatted_tokens(
            used as nat,
        ) + seq!['/'] + formatted_tokens(total as nat) + RESET@ + seq![' '],
        60_000 <= used < 100_000 ==> token_segment_text(Some((used, total))) == YELLOW@
            + formatted_tokens(used as nat) + seq!['/'] + formatted_tokens(total as nat) + RESET@
            + seq![' '],
        used < 60_000 ==> token_segment_text(Some((used, total))) == CYAN@ + formatted_tokens(
            used as nat,
        ) + seq!['/'] + formatted_tokens(total as nat) + RESET@ + seq![' '],
        token_segment_text(None) == Seq::<char>::empty(),
{
}

/// The directory segment is the whole label between blue and a reset.
pub proof fn law_directory_segment_holds_label(label: Seq<char>)
    ensures
        directory_segment_text(label).len() == BLUE@.len() + label.len() + RESET@.len(),
        directory_segment_text(label).subrange(0, BLUE@.len() as int) == BLUE@,
        directory_segment_text(label).subrange(
            BLUE@.len() as int,
            BLUE@.len() as int + label.len(),
        ) == label,
{
    let text = directory_segment_text(label);
    assert(text.subrange(0, BLUE@.len() as int) =~= BLUE@);
    assert(text.subrange(BLUE@.len() as int, BLUE@.len() as int + label.len()) =~= label);
}

/// A non-empty branch name is shown whole, as green ` (branch)` and a
/// reset; an empty one gives no segment.
pub proof fn law_git_branch_holds_name(branch: Seq<char>)
    ensures
        branch.len() == 0 ==> git_branch_text(branch) == Seq::<char>::empty(),
        branch.len() > 0 ==> git_branch_text(branch) == GREEN@ + seq![' ', '('] + branch + seq![')']
            + RESET@,
        branch.len() > 0 ==> git_branch_text(branch).len() == GREEN@.len() + branch.len() + 3
            + RESET@.len(),
        branch.len() > 0 ==> git_branch_text(branch).subrange(
            GREEN@.len() as int + 2,
            GREEN@.len() as int + 2 + branch.len(),
        ) == branch,
{
    if branch.len() > 0 {
        let text = git_branch_text(branch);
        assert(text.subrange(GREEN@.len() as int + 2, GREEN@.len() as int + 2 + branch.len()) =~= branch);
    }
}

/// For every non-empty path the venv segment is present and holds the
/// path's basename whole: yellow, ` (`, the basename, `) `, a reset. Only an
/// empty path gives no segment.
pub proof fn law_venv_holds_basename(path: Seq<char>)
    ensures
        path.len() == 0 ==> venv_text(path) == Seq::<char>::empty(),
        path.len() > 0 ==> venv_text(path) == YELLOW@ + seq![' ', '('] + basename(path) + seq![
            ')',
            ' ',
        ] + RESET@,
        path.len() > 0 ==> venv_text(path).len() == YELLOW@.len() + basename(path).len() + 4
            + RESET@.len(),
        path.len() > 0 ==> venv_text(path).subrange(
            YELLOW@.len() as int + 2,
            YELLOW@.len() as int + 2 + basename(path).len(),
        ) == basename(path),
{
    if path.len() > 0 {
        let text = venv_text(path);
        let b = basename(path);
        assert(text.subrange(YELLOW@.len() as int + 2, YELLOW@.len() as int + 2 + b.len()) =~= b);
    }
}

/// A present model name is shown whole, whatever its length: cyan, ` [`,
/// the name, `]`, a reset. No name, no segment.
pub proof fn law_model_segment_holds_name(name: Seq<char>)
    ensures
        model_segment_text(Some(name)) == CYAN@ + seq![' ', '['] + name + seq![']'] + RESET@,
        model_segment_text(Some(name)).len() == CYAN@.len() + name.len() + 3 + RESET@.len(),
        model_segment_text(Some(name)).subrange(
            CYAN@.len() as int + 2,
            CYAN@.len() as int + 2 + name.len(),
        ) == name,
        model_segment_text(None) == Seq::<char>::empty(),
{
    let text = model_segment_text(Some(name));
    assert(text.subrange(CYAN@.len() as int + 2, CYAN@.len() as int + 2 + name.len()) =~= name);
}

/// The branch segment from git's output: nothing unless git succeeded and
/// printed UTF-8; otherwise the printed text without surrounding whitespace,
/// whole, between green ` (` and `)` and a reset, or nothing when that text
/// is empty.
pub proof fn law_git_output_segment(succeeded: bool, stdout: Seq<u8>)
    ensures
        !succeeded ==> git_output_text(succeeded, stdout) == Seq::<char>::empty(),
        succeeded && !valid_utf8(stdout) ==> git_output_text(succeeded, stdout) == Seq::<
            char,
        >::empty(),
        succeeded && valid_utf8(stdout) && trimmed(decode_utf8(stdout)).len() == 0
            ==> git_output_text(succeeded, stdout) == Seq::<char>::empty(),
        succeeded && valid_utf8(stdout) && trimmed(decode_utf8(stdout)).len() > 0
            ==> git_output_text(succeeded, stdout) == GREEN@ + seq![' ', '('] + trimmed(
            decode_utf8(stdout),
        ) + seq![')'] + RESET@,
{
    if succeeded && !valid_utf8(stdout) {
        assert(trimmed(Seq::<char>::empty()) =~= Seq::<char>::empty());
    }
}

/// The venv segment from `$VIRTUAL_ENV`: nothing when it is unset or empty,
/// else the basename of its value, whole, between yellow ` (` and `) ` and a
/// reset.
pub proof fn law_venv_value_segment(value: Option<Seq<char>>)
    ensures
        value is None ==> venv_value_text(value) == Seq::<char>::empty(),
        value is Some && value.unwrap().len() == 0 ==> venv_value_text(value) == Seq::<
            char,
        >::empty(),
        value is Some && value.unwrap().len() > 0 ==> venv_value_text(value) == YELLOW@ + seq![
            ' ',
            '(',
        ] + basename(value.unwrap()) + seq![')', ' '] + RESET@,
{
}

/// The status line is the token, directory, git, venv and model segments
/// one after the other, for every git and venv string: each given segment
/// stands whole at its place, whatever the others are (an empty git segment
/// does not drop the venv segment).
pub proof fn law_status_line_concatenates(input: StatusFields, git: Seq<char>, venv: Seq<char>)
    ensures
        ({
            let tok = token_segment_text(input.token_usage);
            let dir = directory_segment_text(input.directory_label);
            let model = model_segment_text(input.model_name);
            let line = status_line_text(input, git, venv);
            &&& line == tok + dir + git + venv + model
            &&& line.len() == tok.len() + dir.len() + git.len() + venv.len() + model.len()
            &&& line.subrange(0, tok.len() as int) == tok
            &&& line.subrange(tok.len() as int, tok.len() as int + dir.len()) == dir
            &&& line.subrange(tok.len() as int + dir.len(), tok.len() as int + dir.len() + git.len()) == git
            &&& line.subrange(
                tok.len() as int + dir.len() + git.len(),
                tok.len() as int + dir.len() + git.len() + venv.len(),
            ) == venv
            &&& line.subrange(
                tok.len() as int + dir.len() + git.len() + venv.len(),
                line.len() as int,
            ) == model
        }),
{
    let tok = token_segment_text(input.token_usage);
    let dir = directory_segment_text(input.directory_label);
    let model = model_segment_text(input.model_name);
    let line = status_line_text(input, git, venv);
    assert(line =~= tok + dir + git + venv + model);
    let a = tok.len() as int;
    let b = a + dir.len();
    let c = b + git.len();
    let d = c + venv.len();
    assert(line.subrange(0, a) =~= tok);
    assert(line.subrange(a, b) =~= dir);
    assert(line.subrange(b, c) =~= git);
    assert(line.subrange(c, d) =~= venv);
    assert(line.subrange(d, line.len() as int) =~= model);
}

/// Render the token usage segment: `{used}/{total}` colored by usage level,
/// followed by a reset and a trailing space.
/// Returns empty string when token counts are absent.
pub fn token_segment(input: &StatusInput) -> (r: String)
    ensures
        r@ == token_segment_text(input@.token_usage),
{
    match input.token_usage {
        Some((used, total)) => {
            let color: &str = if used >= 100_000 {
                RED
            } else if used >= 60_000 {
                YELLOW
            } else {
                CYAN
            };
            let mut r: String = String::from_str(color);
            let used_text: String = format_tokens(used);
            let total_text: String = format_tokens(total);
            proof {
                reveal_strlit("/");
                reveal_strlit(" ");
            }
            r.append(used_text.as_str());
            r.append("/");
            r.append(total_text.as_str());
            r.append(RESET);
            r.append(" ");
            assert(r@ =~= token_segment_text(input@.token_usage));
            r
        },
        None => String::new(),
    }
}

/// Render the directory label colored blue.
pub fn directory_segment(input: &StatusInput) -> (r: String)
    ensures
        r@ == directory_segment_text(input@.directory_label),
{
    let mut r: String = String::from_str(BLUE);
    r.append(input.directory_label.as_str());
    r.append(RESET);
    r
}

/// Format a trimmed git branch name into the colored segment string.
/// Returns empty string if the branch name is empty.
pub fn format_git_branch(branch: &str) -> (r: String)
    ensures
        r@ == git_branch_text(branch@),
{
    if branch.is_empty() {
        return String::new();
    }
    let mut r: String = String::from_str(GREEN);
    proof {
        reveal_strlit(" (");
        reveal_strlit(")");
    }
    r.append(" (");
    r.append(branch);
    r.append(")");
    r.append(RESET);
    assert(r@ =~= git_branch_text(branch@));
    r
}

/// `String::from_utf8`: the string is returned exactly when the bytes are
/// well-formed UTF-8, and then holds the characters that they encode.
#[verifier::external_body]
fn utf8_to_string(bytes: Vec<u8>) -> (r: Option<String>)
    ensures
        r is Some <==> valid_utf8(bytes@),
        r matches Some(s) ==> s@ == decode_utf8(bytes@),
{
    String::from_utf8(bytes).ok()
}

/// The git branch segment from the outcome of
/// `git -c core.fsmonitor=false rev-parse --abbrev-ref HEAD`: whether it
/// exited successfully and what it wrote to stdout.
/// Returns empty string if git failed or printed nothing but whitespace.
pub fn git_branch_segment_from(succeeded: bool, stdout: Vec<u8>) -> (r: String)
    ensures
        r@ == git_output_text(succeeded, stdout@),
{
    if !succeeded {
        return String::new();
    }
    let branch: String = match utf8_to_string(stdout) {
        Some(text) => text,
        None => String::new(),
    };
    format_git_branch(trim_whitespace(branch.as_str()))
}

/// Format a VIRTUAL_ENV path into the colored segment string.
/// Returns empty string if the path is empty.
pub fn format_venv(venv_path: &str) -> (r: String)
    ensures
        r@ == venv_text(venv_path@),
{
    if venv_path.is_empty() {
        return String::new();
    }
    let name: &str = path_basename(venv_path);
    let mut r: String = String::from_str(YELLOW);
    proof {
        reveal_strlit(" (");
        reveal_strlit(") ");
    }
    r.append(" (");
    r.append(name);
    r.append(") ");
    r.append(RESET);
    assert(r@ =~= venv_text(venv_path@));
    r
}

/// The virtual environment segment for the value of `$VIRTUAL_ENV`
/// (`None` when it is unset).
/// Returns empty string if the variable is unset or empty.
pub fn venv_segment_from(value: Option<String>) -> (r: String)
    ensures
        r@ == venv_value_text(opt_chars(value)),
{
    match value {
        Some(path) => format_venv(path.as_str()),
        None => String::new(),
    }
}

/// Render the model name segment: ` [{name}]` colored cyan.
/// Returns empty string when the model name is absent.
pub fn model_segment(input: &StatusInput) -> (r: String)
    ensures
        r@ == model_segment_text(input@.model_name),
{
    match &input.model_name {
        Some(name) => {
            let mut r: String = String::from_str(CYAN);
            proof {
                reveal_strlit(" [");
                reveal_strlit("]");
            }
            r.append(" [");
            r.append(name.as_str());
            r.append("]");
            r.append(RESET);
            assert(r@ =~= model_segment_text(input@.model_name));
            r
        },
        None => String::new(),
    }
}

/// The status line for `input`, with the git branch and virtual environment
/// segments already rendered: the segments in order, with nothing between
/// them and no trailing newline.
pub fn status_line(input: &StatusInput, git_segment: &str, venv_segment: &str) -> (r: String)
    ensures
        r@ == status_line_text(input@, git_segment@, venv_segment@),
{
    let mut r: String = token_segment(input);
    let directory: String = directory_segment(input);
    let model: String = model_segment(input);
    r.append(directory.as_str());
    r.append(git_segment);
    r.append(venv_segment);
    r.append(model.as_str());
    assert(r@ =~= status_line_text(input@, git_segment@, venv_segment@));
    r
}

} // verus!
