//! Sessions as the command line shows them.

use vstd::prelude::*;

use crate::text::{optional_string, same_text};

verus! {

/// Labels of sessions are cut to this length.
pub const TRUNCATED_DESC_LENGTH: usize = 60;

/// What the commands need to know of a session.
pub struct SessionInfo {
    pub id: String,
    pub name: String,
    /// The directory that the session works in.
    pub working_dir: String,
    /// When the session last changed, for people.
    pub updated_at: String,
    /// When the session last changed, in any unit.
    pub updated_at_key: i128,
}

/// The part of `path` below the directory `base`, as `std::path::Path::strip_prefix` gives it.
pub uninterp spec fn path_below(path: Seq<char>, base: Seq<char>) -> Option<Seq<char>>;

/// Calls `std::path::Path::strip_prefix`: the result depends on the two paths alone.
#[verifier::external_body]
fn strip_prefix(path: &str, base: &str) -> (below: Option<String>)
    ensures
        optional_string(below) == path_below(path@, base@),
{
    std::path::Path::new(path).strip_prefix(base).ok().map(|p| p.display().to_string())
}

/// `path` with a tilde for the home directory, if it lies `below` that.
pub open spec fn tilde_form(path: Seq<char>, below: Option<Seq<char>>) -> Seq<char> {
    match below {
        Some(rest) => "~/"@ + rest,
        None => path,
    }
}

/// `path` with a tilde for the home directory, if it lies `below` that.
pub fn with_tilde(path: &str, below: &Option<String>) -> (shown: String)
    ensures
        shown@ == tilde_form(path@, optional_string(*below)),
{
    match below {
        Some(rest) => {
            let mut shown = "~/".to_string();
            shown.append(rest.as_str());
            shown
        },
        None => path.to_string(),
    }
}

/// How `path` is shown to someone with that home directory.
pub open spec fn shown_path(path: Seq<char>, home: Option<Seq<char>>) -> Seq<char> {
    tilde_form(
        path,
        match home {
            Some(home) => path_below(path, home),
            None => None,
        },
    )
}

/// How `path` is shown to someone with that home directory: with a tilde for it.
pub fn display_path_with_tilde(path: &str, home: &Option<String>) -> (shown: String)
    ensures
        shown@ == shown_path(path@, optional_string(*home)),
{
    let below = match home {
        Some(home) => strip_prefix(path, home.as_str()),
        None => None,
    };
    with_tilde(path, &below)
}

/// The description of a session of that name.
pub open spec fn description(name: Seq<char>) -> Seq<char> {
    if name == ""@ {
        "(no name)"@
    } else {
        name
    }
}

/// The description of a session of that name.
pub fn describe(name: &str) -> (desc: String)
    ensures
        desc@ == description(name@),
{
    if same_text(name, "") {
        "(no name)".to_string()
    } else {
        name.to_string()
    }
}

/// How writing a line went.
pub enum WriteOutcome<E> {
    Written,
    /// The reader has gone away.
    BrokenPipe,
    Failed(E),
}

/// Whether to go on writing: a reader that has gone away is no error, but ends the output.
pub fn write_line_or_broken_pipe_ok<E>(outcome: WriteOutcome<E>) -> (go_on: Result<bool, E>)
    ensures
        go_on == (match outcome {
            WriteOutcome::Written => Ok::<bool, E>(true),
            WriteOutcome::BrokenPipe => Ok::<bool, E>(false),
            WriteOutcome::Failed(e) => Err::<bool, E>(e),
        }),
{
    match outcome {
        WriteOutcome::Written => Ok(true),
        WriteOutcome::BrokenPipe => Ok(false),
        WriteOutcome::Failed(e) => Err(e),
    }
}

/// A path below the home directory shows with a tilde and a slash before the rest of it; any other
/// shows as it is, and so does every path where no home directory is known.
pub proof fn paths_show_with_tilde(path: Seq<char>, home: Seq<char>)
    ensures
        shown_path(path, None) == path,
        path_below(path, home) is None ==> shown_path(path, Some(home)) == path,
        path_below(path, home) is Some ==> shown_path(path, Some(home)) == seq!['~', '/']
            + path_below(path, home)->0,
{
    reveal_strlit("~/");
    assert("~/"@ =~= seq!['~', '/']);
}

/// A session with a name is described by it, and one without is said to have none.
pub proof fn names_describe(name: Seq<char>)
    ensures
        name.len() > 0 ==> description(name) == name,
        name.len() == 0 ==> description(name) == "(no name)"@,
{
    reveal_strlit("");
    if name.len() == 0 {
        assert(name =~= ""@);
    }
}

/// Where a session has a name, people see that name.
pub proof fn people_see_names(name: &str, desc: String)
    requires
        call_ensures(describe, (name,), desc),
    ensures
        name@.len() > 0 ==> desc@ == name@,
        name@.len() == 0 ==> desc@ == "(no name)"@,
{
    names_describe(name@);
}

/// Output goes on after a line that was written, ends quietly when the reader has gone away, and
/// fails with what went wrong otherwise.
pub proof fn readers_may_go_away<E>(outcome: WriteOutcome<E>, go_on: Result<bool, E>)
    requires
        call_ensures(write_line_or_broken_pipe_ok::<E>, (outcome,), go_on),
    ensures
        outcome is Written ==> go_on == Ok::<bool, E>(true),
        outcome is BrokenPipe ==> go_on == Ok::<bool, E>(false),
        outcome is Failed ==> go_on == Err::<bool, E>(outcome->0),
{
}

} // verus!
