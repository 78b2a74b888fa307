//! Removing sessions.

use vstd::prelude::*;

use crate::ordered_map::{
    distinct_keys, has_key, key_at, lookup, lookup_after_with, with, OrderedMap,
};
use crate::session::SessionInfo;
use crate::text::{same_text, texts};

verus! {

#[verifier::external_type_specification]
#[verifier::external_body]
pub struct ExRegex(regex::Regex);

#[verifier::external_type_specification]
#[verifier::external_body]
pub struct ExRegexError(regex::Error);

/// The pattern that a regular expression made by [`compile`] was made from.
pub uninterp spec fn pattern_of(re: regex::Regex) -> Seq<char>;

/// Whether the regular expression that [`compile`] makes of that pattern matches anywhere in
/// `text`, as `regex::Regex::is_match` tells.
pub uninterp spec fn pattern_matches(pattern: Seq<char>, text: Seq<char>) -> bool;

/// `e` is an error with which `regex::Regex::new` refuses that pattern.
pub uninterp spec fn refused_for(e: regex::Error, pattern: Seq<char>) -> bool;

/// Calls `regex::Regex::new`: it makes a regular expression of the pattern, or refuses that very
/// pattern with an error. Which patterns it refuses is left unsaid: that also depends on how much
/// memory the compiled form takes on the machine.
#[verifier::external_body]
fn compile(pattern: &str) -> (compiled: Result<regex::Regex, regex::Error>)
    ensures
        match compiled {
            Ok(re) => pattern_of(re) == pattern@,
            Err(e) => refused_for(e, pattern@),
        },
{
    regex::Regex::new(pattern)
}

/// Calls `regex::Regex::is_match`: for a regular expression made by [`compile`], the result depends
/// on the pattern and the text alone.
#[verifier::external_body]
fn is_match(re: &regex::Regex, text: &str) -> (found: bool)
    ensures
        found == pattern_matches(pattern_of(*re), text@),
{
    re.is_match(text)
}

/// What a removal asks for.
pub enum RemovalRequest {
    ById(String),
    ByName(String),
    ByPattern(String),
    Interactive,
}

/// What a removal asks for: an id counts before a name, a name before a pattern.
pub fn removal_request(
    session_id: Option<String>,
    name: Option<String>,
    regex_string: Option<String>,
) -> (request: RemovalRequest)
    ensures
        request == (match (session_id, name, regex_string) {
            (Some(id), _, _) => RemovalRequest::ById(id),
            (None, Some(name), _) => RemovalRequest::ByName(name),
            (None, None, Some(pattern)) => RemovalRequest::ByPattern(pattern),
            (None, None, None) => RemovalRequest::Interactive,
        }),
{
    match session_id {
        Some(id) => RemovalRequest::ById(id),
        None => match name {
            Some(name) => RemovalRequest::ByName(name),
            None => match regex_string {
                Some(pattern) => RemovalRequest::ByPattern(pattern),
                None => RemovalRequest::Interactive,
            },
        },
    }
}

/// Why nothing can be removed.
pub enum RemovalError {
    IdNotFound(String),
    NameNotFound(String),
    InvalidPattern { pattern: String, cause: regex::Error },
    NoSessions,
}

impl RemovalError {
    /// What to tell people.
    pub open spec fn text(self) -> Seq<char> {
        match self {
            RemovalError::IdNotFound(id) => "Session ID '"@ + id@ + "' not found."@,
            RemovalError::NameNotFound(name) => "Session with name '"@ + name@ + "' not found."@,
            RemovalError::InvalidPattern { pattern, .. } => "Invalid regex pattern '"@ + pattern@
                + "'"@,
            RemovalError::NoSessions => "No sessions found."@,
        }
    }

    /// What to tell people.
    pub fn message(&self) -> (message: String)
        ensures
            message@ == self.text(),
    {
        match self {
            RemovalError::IdNotFound(id) => quoted("Session ID '", id.as_str(), "' not found."),
            RemovalError::NameNotFound(name) => quoted(
                "Session with name '",
                name.as_str(),
                "' not found.",
            ),
            RemovalError::InvalidPattern { pattern, .. } => quoted(
                "Invalid regex pattern '",
                pattern.as_str(),
                "'",
            ),
            RemovalError::NoSessions => "No sessions found.".to_string(),
        }
    }
}

fn quoted(before: &str, text: &str, after: &str) -> (all: String)
    ensures
        all@ == before@ + text@ + after@,
{
    let mut all = before.to_string();
    all.append(text);
    all.append(after);
    all
}

/// Removal by id: of the session that was found, if any.
pub fn select_by_id<S>(id: &str, found: Option<S>) -> (selected: Result<S, RemovalError>)
    ensures
        match selected {
            Ok(session) => found == Some(session),
            Err(RemovalError::IdNotFound(wanted)) => found is None && wanted@ == id@,
            Err(_) => false,
        },
{
    match found {
        Some(session) => Ok(session),
        None => Err(RemovalError::IdNotFound(id.to_string())),
    }
}

/// No session has that name.
pub open spec fn none_named(sessions: Seq<SessionInfo>, name: Seq<char>) -> bool {
    forall|i: int| 0 <= i < sessions.len() ==> (#[trigger] sessions[i]).name@ != name
}

/// Removal by name: of the first session of that name.
pub fn select_by_name(name: &str, sessions: &Vec<SessionInfo>) -> (selected: Result<
    usize,
    RemovalError,
>)
    ensures
        match selected {
            Ok(i) => {
                &&& i < sessions@.len()
                &&& sessions@[i as int].name@ == name@
                &&& forall|j: int| 0 <= j < i ==> (#[trigger] sessions@[j]).name@ != name@
            },
            Err(RemovalError::NameNotFound(wanted)) => {
                &&& wanted@ == name@
                &&& forall|j: int|
                    0 <= j < sessions@.len() ==> (#[trigger] sessions@[j]).name@ != name@
            },
            Err(_) => false,
        },
        selected is Ok ==> none_named(sessions@.take(selected->Ok_0 as int), name@),
        selected is Err ==> none_named(sessions@, name@),
{
    let mut i: usize = 0;
    while i < sessions.len()
        invariant
            i <= sessions@.len(),
            forall|j: int| 0 <= j < i ==> (#[trigger] sessions@[j]).name@ != name@,
        decreases sessions@.len() - i,
    {
        if same_text(sessions[i].name.as_str(), name) {
            return Ok(i);
        }
        i = i + 1;
    }
    Err(RemovalError::NameNotFound(name.to_string()))
}

/// The sessions among the first `n` whose ids match the pattern, in order.
pub open spec fn matching(sessions: Seq<SessionInfo>, pattern: Seq<char>, n: nat) -> Seq<usize>
    decreases n,
{
    if n == 0 {
        Seq::empty()
    } else {
        let before = matching(sessions, pattern, (n - 1) as nat);
        if pattern_matches(pattern, sessions[n - 1].id@) {
            before.push((n - 1) as usize)
        } else {
            before
        }
    }
}

/// The sessions whose ids match.
pub fn sessions_matching(re: &regex::Regex, sessions: &Vec<SessionInfo>) -> (selected: Vec<usize>)
    ensures
        selected@ == matching(sessions@, pattern_of(*re), sessions@.len()),
{
    let mut selected: Vec<usize> = Vec::new();
    let mut i: usize = 0;
    while i < sessions.len()
        invariant
            i <= sessions@.len(),
            selected@ == matching(sessions@, pattern_of(*re), i as nat),
        decreases sessions@.len() - i,
    {
        if is_match(re, sessions[i].id.as_str()) {
            selected.push(i);
        }
        i = i + 1;
    }
    selected
}

/// What became of compiling a pattern, in the terms of a removal.
pub fn compiled_pattern(pattern: &str, compiled: Result<regex::Regex, regex::Error>) -> (result:
    Result<regex::Regex, RemovalError>)
    ensures
        match compiled {
            Ok(re) => result == Ok::<regex::Regex, RemovalError>(re),
            Err(e) => match result {
                Err(RemovalError::InvalidPattern { pattern: p, cause }) => p@ == pattern@ && cause
                    == e,
                _ => false,
            },
        },
{
    match compiled {
        Ok(re) => Ok(re),
        Err(e) => Err(RemovalError::InvalidPattern { pattern: pattern.to_string(), cause: e }),
    }
}

/// Compiles a pattern.
pub fn compile_pattern(pattern: &str) -> (result: Result<regex::Regex, RemovalError>)
    ensures
        match result {
            Ok(re) => pattern_of(re) == pattern@,
            Err(RemovalError::InvalidPattern { pattern: p, cause }) => p@ == pattern@
                && refused_for(cause, pattern@),
            Err(_) => false,
        },
{
    compiled_pattern(pattern, compile(pattern))
}

/// Removal by pattern: of all sessions whose ids match.
pub fn select_by_pattern(pattern: &str, sessions: &Vec<SessionInfo>) -> (selected: Result<
    Vec<usize>,
    RemovalError,
>)
    ensures
        match selected {
            Ok(indices) => indices@ == matching(sessions@, pattern@, sessions@.len()),
            Err(RemovalError::InvalidPattern { pattern: p, cause }) => p@ == pattern@
                && refused_for(cause, pattern@),
            Err(_) => false,
        },
{
    match compile_pattern(pattern) {
        Ok(re) => Ok(sessions_matching(&re, sessions)),
        Err(e) => Err(e),
    }
}

/// What follows the selection of sessions.
pub enum RemovalNext {
    Stop,
    /// Print that line, then stop.
    Say(String),
    /// Ask whether to go on.
    Confirm,
}

/// What follows when a request selects that many sessions.
pub fn after_selection(request: &RemovalRequest, count: usize) -> (next: RemovalNext)
    ensures
        match next {
            RemovalNext::Confirm => count > 0,
            RemovalNext::Say(line) => count == 0 && match *request {
                RemovalRequest::ByPattern(pattern) => line@ == "Regex string '"@ + pattern@
                    + "' does not match any sessions"@,
                _ => false,
            },
            RemovalNext::Stop => count == 0 && !(*request is ByPattern),
        },
{
    if count > 0 {
        return RemovalNext::Confirm;
    }
    match request {
        RemovalRequest::ByPattern(pattern) => RemovalNext::Say(
            quoted("Regex string '", pattern.as_str(), "' does not match any sessions"),
        ),
        _ => RemovalNext::Stop,
    }
}

/// A removal by pattern takes exactly the sessions whose ids match, each once and in order.
pub proof fn matching_selects(sessions: Seq<SessionInfo>, pattern: Seq<char>, n: nat)
    requires
        n <= sessions.len() <= usize::MAX,
    ensures
        forall|i: int|
            0 <= i < n ==> (matching(sessions, pattern, n).contains(i as usize)
                <==> pattern_matches(pattern, (#[trigger] sessions[i]).id@)),
        forall|a: int|
            0 <= a < matching(sessions, pattern, n).len() ==> (#[trigger] matching(
                sessions,
                pattern,
                n,
            )[a]) < n,
        forall|a: int, b: int|
            0 <= a < b < matching(sessions, pattern, n).len() ==> (#[trigger] matching(
                sessions,
                pattern,
                n,
            )[a]) < (#[trigger] matching(sessions, pattern, n)[b]),
    decreases n,
{
    if n > 0 {
        let m = (n - 1) as nat;
        matching_selects(sessions, pattern, m);
        let before = matching(sessions, pattern, m);
        let all = matching(sessions, pattern, n);
        assert forall|i: int| 0 <= i < n implies (all.contains(i as usize) <==> pattern_matches(
            pattern,
            (#[trigger] sessions[i]).id@,
        )) by {
            if i < m {
                if before.contains(i as usize) {
                    let a = choose|a: int| 0 <= a < before.len() && before[a] == i as usize;
                    assert(all[a] == i as usize);
                }
                if all.contains(i as usize) {
                    let a = choose|a: int| 0 <= a < all.len() && all[a] == i as usize;
                    assert(a < before.len());
                    assert(before[a] == i as usize);
                }
            } else {
                if pattern_matches(pattern, sessions[i].id@) {
                    assert(all[all.len() - 1] == i as usize);
                } else if all.contains(i as usize) {
                    let a = choose|a: int| 0 <= a < all.len() && all[a] == i as usize;
                    assert(before[a] < m);
                }
            }
        }
    }
}

// ── picking ──────────────────────────────────────────────────────────────────
/// The row for a session in a menu.
pub open spec fn removal_row(session: SessionInfo, desc: Seq<char>) -> Seq<char> {
    session.updated_at@ + " - "@ + desc + " ("@ + session.id@ + ")"@
}

/// The rows for sessions with those descriptions.
pub open spec fn removal_rows(sessions: Seq<SessionInfo>, descs: Seq<Seq<char>>) -> Seq<Seq<char>> {
    Seq::new(sessions.len(), |i: int| removal_row(sessions[i], descs[i]))
}

/// A menu of those rows: every text once, standing for the last row with that text.
pub open spec fn menu_of(rows: Seq<Seq<char>>) -> Seq<(Seq<char>, usize)>
    decreases rows.len(),
{
    if rows.len() == 0 {
        Seq::empty()
    } else {
        with(menu_of(rows.drop_last()), rows.last(), (rows.len() - 1) as usize)
    }
}

/// The sessions for the texts that were picked; a text that is not in the menu stands for none.
pub open spec fn picked(menu: Seq<(Seq<char>, usize)>, chosen: Seq<Seq<char>>) -> Seq<usize>
    decreases chosen.len(),
{
    if chosen.len() == 0 {
        Seq::empty()
    } else {
        match lookup(menu, chosen.last()) {
            Some(i) => picked(menu, chosen.drop_last()).push(i),
            None => picked(menu, chosen.drop_last()),
        }
    }
}

/// A menu of sessions to remove.
pub struct RemovalMenu {
    rows: OrderedMap<usize>,
}

impl View for RemovalMenu {
    type V = Seq<(Seq<char>, usize)>;

    closed spec fn view(&self) -> Seq<(Seq<char>, usize)> {
        self.rows@
    }
}

impl RemovalMenu {
    /// No text occurs twice.
    pub open spec fn wf(&self) -> bool {
        distinct_keys(self@)
    }

    /// A menu of `sessions` with those descriptions.
    pub fn new(sessions: &Vec<SessionInfo>, descs: &Vec<String>) -> (menu: Self)
        requires
            descs@.len() == sessions@.len(),
        ensures
            menu.wf(),
            menu@ == menu_of(removal_rows(sessions@, texts(descs@))),
    {
        let mut rows: OrderedMap<usize> = OrderedMap::new();
        let mut i: usize = 0;
        let ghost all = removal_rows(sessions@, texts(descs@));
        while i < sessions.len()
            invariant
                i <= sessions@.len(),
                descs@.len() == sessions@.len(),
                all == removal_rows(sessions@, texts(descs@)),
                rows.wf(),
                rows@ == menu_of(all.take(i as int)),
            decreases sessions@.len() - i,
        {
            let mut row = sessions[i].updated_at.clone();
            row.append(" - ");
            row.append(descs[i].as_str());
            row.append(" (");
            row.append(sessions[i].id.as_str());
            row.append(")");
            proof {
                assert(all.take(i + 1).drop_last() =~= all.take(i as int));
                assert(all.take(i + 1).last() == row@);
            }
            rows.insert(row, i);
            i = i + 1;
        }
        assert(all.take(i as int) =~= all);
        RemovalMenu { rows }
    }

    /// The texts to choose from.
    pub fn items(&self) -> (items: Vec<String>)
        ensures
            texts(items@) == self@.map_values(|row: (Seq<char>, usize)| row.0),
    {
        let mut items: Vec<String> = Vec::new();
        let mut i: usize = 0;
        while i < self.rows.len()
            invariant
                i <= self.rows@.len(),
                items@.len() == i,
                forall|k: int| 0 <= k < i ==> (#[trigger] items@[k])@ == self.rows@[k].0,
            decreases self.rows@.len() - i,
        {
            items.push(self.rows.key(i));
            i = i + 1;
        }
        assert(texts(items@) =~= self@.map_values(|row: (Seq<char>, usize)| row.0));
        items
    }

    /// The sessions for the texts that were picked.
    pub fn pick(&self, chosen: &Vec<String>) -> (selected: Vec<usize>)
        requires
            self.wf(),
        ensures
            selected@ == picked(self@, texts(chosen@)),
    {
        let mut selected: Vec<usize> = Vec::new();
        let mut i: usize = 0;
        let ghost all = texts(chosen@);
        while i < chosen.len()
            invariant
                i <= chosen@.len(),
                self.wf(),
                all == texts(chosen@),
                selected@ == picked(self@, all.take(i as int)),
            decreases chosen@.len() - i,
        {
            proof {
                assert(all.take(i + 1).drop_last() =~= all.take(i as int));
                assert(all.take(i + 1).last() == chosen@[i as int]@);
            }
            match self.rows.get(chosen[i].as_str()) {
                Some(index) => {
                    selected.push(*index);
                },
                None => {},
            }
            i = i + 1;
        }
        assert(all.take(i as int) =~= all);
        selected
    }
}

/// There must be a session for people to choose from.
pub fn require_sessions(sessions: &Vec<SessionInfo>) -> (result: Result<(), RemovalError>)
    ensures
        match result {
            Ok(()) => sessions@.len() > 0,
            Err(RemovalError::NoSessions) => sessions@.len() == 0,
            Err(_) => false,
        },
{
    if sessions.len() == 0 {
        Err(RemovalError::NoSessions)
    } else {
        Ok(())
    }
}

/// What people are asked about the sessions to remove.
pub enum RemovalPrompt {
    /// Print that line; nothing is selected.
    Nothing(String),
    /// Let them pick from that menu.
    Pick(RemovalMenu),
}

/// Asks people to pick from `sessions` with those descriptions, if there are any.
pub fn prompt_interactive_session_removal(sessions: &Vec<SessionInfo>, descs: &Vec<String>) -> (prompt:
    RemovalPrompt)
    requires
        descs@.len() == sessions@.len(),
    ensures
        match prompt {
            RemovalPrompt::Nothing(line) => sessions@.len() == 0 && line@
                == "No sessions to delete."@,
            RemovalPrompt::Pick(menu) => {
                &&& sessions@.len() > 0
                &&& menu.wf()
                &&& menu@ == menu_of(removal_rows(sessions@, texts(descs@)))
            },
        },
{
    if sessions.len() == 0 {
        RemovalPrompt::Nothing("No sessions to delete.".to_string())
    } else {
        RemovalPrompt::Pick(RemovalMenu::new(sessions, descs))
    }
}

/// Every row of the menu is the row of the session that it stands for, and every session's row is
/// in the menu.
pub proof fn menu_stands_for_rows(rows: Seq<Seq<char>>)
    requires
        rows.len() <= usize::MAX,
    ensures
        distinct_keys(menu_of(rows)),
        forall|text: Seq<char>|
            (match #[trigger] lookup(menu_of(rows), text) {
                Some(i) => i < rows.len() && rows[i as int] == text,
                None => !rows.contains(text),
            }),
    decreases rows.len(),
{
    let menu = menu_of(rows);
    if rows.len() == 0 {
        assert forall|text: Seq<char>|
            (match #[trigger] lookup(menu, text) {
                Some(i) => i < rows.len() && rows[i as int] == text,
                None => !rows.contains(text),
            }) by {
            if has_key(menu, text) {
                let i = choose|i: int| key_at(menu, text, i);
                assert(key_at(menu, text, i));
            }
        }
    } else {
        let rest = rows.drop_last();
        let before = menu_of(rest);
        menu_stands_for_rows(rest);
        lookup_after_with(before, rows.last(), (rows.len() - 1) as usize, rows.last());
        assert forall|text: Seq<char>|
            (match #[trigger] lookup(menu, text) {
                Some(i) => i < rows.len() && rows[i as int] == text,
                None => !rows.contains(text),
            }) by {
            lookup_after_with(before, rows.last(), (rows.len() - 1) as usize, text);
            if text != rows.last() {
                assert(lookup(menu, text) == lookup(before, text));
                match lookup(before, text) {
                    Some(i) => {
                        assert(rest[i as int] == text);
                    },
                    None => {
                        if rows.contains(text) {
                            let k = choose|k: int| 0 <= k < rows.len() && rows[k] == text;
                            assert(rest[k] == text);
                        }
                    },
                }
            } else {
                assert(rows[rows.len() - 1] == text);
            }
        }
    }
}

/// The rows of two sessions differ if their ids do, as long as ids hold no bracket.
pub proof fn rows_tell_sessions_apart(
    a: SessionInfo,
    a_desc: Seq<char>,
    b: SessionInfo,
    b_desc: Seq<char>,
)
    requires
        !a.id@.contains('('),
        !b.id@.contains('('),
        removal_row(a, a_desc) == removal_row(b, b_desc),
    ensures
        a.id@ == b.id@,
{
    reveal_strlit(" (");
    reveal_strlit(")");
    let x = removal_row(a, a_desc);
    let y = removal_row(b, b_desc);
    let n = x.len();
    let p = n - a.id@.len() - 2;
    let q = n - b.id@.len() - 2;
    assert(x[p] == '(');
    assert(y[q] == '(');
    if p < q {
        assert(x[q] == a.id@[q - p - 1]);
        assert(a.id@.contains('('));
    }
    if q < p {
        assert(y[p] == b.id@[p - q - 1]);
        assert(b.id@.contains('('));
    }
    assert(a.id@ =~= x.subrange(p + 1, n - 1));
    assert(b.id@ =~= y.subrange(q + 1, n - 1));
}

// ── removing ─────────────────────────────────────────────────────────────────
/// One step of a removal.
pub enum RemovalStep {
    /// Remove the session of that id, then print that line.
    Remove { id: String, then: String },
    Print(String),
}

/// Removing the session of that id.
pub open spec fn removes(step: RemovalStep, id: Seq<char>) -> bool {
    match step {
        RemovalStep::Remove { id: removed, then } => removed@ == id && then@ == "Session `"@ + id
            + "` removed."@,
        RemovalStep::Print(_) => false,
    }
}

/// Every number in `selected` is the number of a session.
pub open spec fn in_range(sessions: Seq<SessionInfo>, selected: Seq<usize>) -> bool {
    forall|k: int| 0 <= k < selected.len() ==> #[trigger] selected[k] < sessions.len()
}

/// The lines that announce the sessions to remove.
pub open spec fn announcement(sessions: Seq<SessionInfo>, selected: Seq<usize>) -> Seq<Seq<char>> {
    seq!["The following sessions will be removed:"@] + Seq::new(
        selected.len(),
        |k: int|
            "- "@ + sessions[selected[k] as int].id@ + " "@ + sessions[selected[k] as int].name@,
    )
}

/// The lines that announce the sessions to remove.
pub fn announce_removal(sessions: &Vec<SessionInfo>, selected: &Vec<usize>) -> (lines: Vec<String>)
    requires
        in_range(sessions@, selected@),
    ensures
        texts(lines@) == announcement(sessions@, selected@),
{
    let mut lines: Vec<String> = Vec::new();
    lines.push("The following sessions will be removed:".to_string());
    let mut k: usize = 0;
    let ghost all = announcement(sessions@, selected@);
    assert(texts(lines@) =~= all.take(1));
    while k < selected.len()
        invariant
            k <= selected@.len(),
            in_range(sessions@, selected@),
            all == announcement(sessions@, selected@),
            texts(lines@) == all.take(k + 1),
        decreases selected@.len() - k,
    {
        let ghost before = texts(lines@);
        assert(selected@[k as int] < sessions@.len());
        let session = &sessions[selected[k]];
        let mut line = "- ".to_string();
        line.append(session.id.as_str());
        line.append(" ");
        line.append(session.name.as_str());
        assert(all[k + 1] == line@);
        lines.push(line);
        assert(texts(lines@) =~= before.push(line@));
        k = k + 1;
        assert(texts(lines@) =~= all.take(k + 1));
    }
    assert(all.take(k + 1) =~= all);
    lines
}

/// The steps of a removal: every selected session is removed, in order, if that was confirmed;
/// otherwise nothing is removed.
pub fn remove_sessions(
    sessions: &Vec<SessionInfo>,
    selected: &Vec<usize>,
    confirmed: bool,
) -> (steps: Vec<RemovalStep>)
    requires
        in_range(sessions@, selected@),
    ensures
        if confirmed {
            &&& steps@.len() == selected@.len()
            &&& forall|k: int|
                0 <= k < selected@.len() ==> removes(
                    #[trigger] steps@[k],
                    sessions@[selected@[k] as int].id@,
                )
        } else {
            &&& steps@.len() == 1
            &&& match steps@[0] {
                RemovalStep::Print(line) => line@ == "Skipping deletion of the sessions."@,
                RemovalStep::Remove { .. } => false,
            }
        },
{
    let mut steps: Vec<RemovalStep> = Vec::new();
    if !confirmed {
        steps.push(RemovalStep::Print("Skipping deletion of the sessions.".to_string()));
        return steps;
    }
    let mut k: usize = 0;
    while k < selected.len()
        invariant
            k <= selected@.len(),
            in_range(sessions@, selected@),
            steps@.len() == k,
            forall|j: int|
                0 <= j < k ==> removes(
                    #[trigger] steps@[j],
                    sessions@[selected@[j] as int].id@,
                ),
        decreases selected@.len() - k,
    {
        assert(selected@[k as int] < sessions@.len());
        let id = sessions[selected[k]].id.clone();
        let then = quoted("Session `", id.as_str(), "` removed.");
        steps.push(RemovalStep::Remove { id, then });
        k = k + 1;
    }
    steps
}

/// Picking rows of a menu gives numbers of sessions.
pub proof fn picked_are_sessions(rows: Seq<Seq<char>>, chosen: Seq<Seq<char>>)
    requires
        rows.len() <= usize::MAX,
    ensures
        forall|k: int|
            0 <= k < picked(menu_of(rows), chosen).len() ==> (#[trigger] picked(
                menu_of(rows),
                chosen,
            )[k]) < rows.len(),
    decreases chosen.len(),
{
    if chosen.len() > 0 {
        menu_stands_for_rows(rows);
        picked_are_sessions(rows, chosen.drop_last());
        let menu = menu_of(rows);
        let before = picked(menu, chosen.drop_last());
        let all = picked(menu, chosen);
        assert forall|k: int| 0 <= k < all.len() implies #[trigger] all[k] < rows.len() by {
            if k < before.len() {
                assert(all[k] == before[k]);
            } else {
                assert(lookup(menu, chosen.last()) == Some(all[k]));
            }
        }
    }
}

/// Picks are looked up one by one, in the order in which they were made.
pub proof fn picks_are_looked_up_one_by_one(
    menu: Seq<(Seq<char>, usize)>,
    a: Seq<Seq<char>>,
    b: Seq<Seq<char>>,
    text: Seq<char>,
)
    ensures
        picked(menu, a + b) == picked(menu, a) + picked(menu, b),
        lookup(menu, text) is Some ==> picked(menu, seq![text]) == seq![lookup(menu, text)->0],
        lookup(menu, text) is None ==> picked(menu, seq![text]).len() == 0,
    decreases b.len(),
{
    assert(seq![text].drop_last() =~= Seq::<Seq<char>>::empty());
    assert(picked(menu, Seq::<Seq<char>>::empty()) =~= Seq::<usize>::empty());
    if let Some(i) = lookup(menu, text) {
        assert(picked(menu, seq![text]) =~= seq![i]);
    }
    if b.len() == 0 {
        assert(a + b =~= a);
        assert(picked(menu, a) + picked(menu, b) =~= picked(menu, a));
    } else {
        picks_are_looked_up_one_by_one(menu, a, b.drop_last(), text);
        assert((a + b).drop_last() =~= a + b.drop_last());
        assert((a + b).last() == b.last());
        assert(picked(menu, a + b) =~= picked(menu, a) + picked(menu, b));
    }
}

/// Where no two rows are the same, the menu shows the rows in their order, and each stands for
/// the session that it was made of.
pub proof fn different_rows_all_show(rows: Seq<Seq<char>>)
    requires
        rows.len() <= usize::MAX,
        rows.no_duplicates(),
    ensures
        menu_of(rows).len() == rows.len(),
        forall|i: int|
            0 <= i < rows.len() ==> (#[trigger] menu_of(rows)[i]).0 == rows[i] && menu_of(rows)[i].1
                == i,
    decreases rows.len(),
{
    if rows.len() > 0 {
        let rest = rows.drop_last();
        assert(rest.no_duplicates()) by {
            assert forall|i: int, j: int|
                0 <= i < rest.len() && 0 <= j < rest.len() && i != j implies rest[i] != rest[j] by {
                assert(rest[i] == rows[i] && rest[j] == rows[j]);
            }
        }
        different_rows_all_show(rest);
        let before = menu_of(rest);
        if has_key(before, rows.last()) {
            let i = choose|i: int| key_at(before, rows.last(), i);
            assert(key_at(before, rows.last(), i));
            assert(before[i].0 == rest[i]);
            assert(rows[i] == rows[rows.len() - 1]);
        }
        assert forall|i: int| 0 <= i < rows.len() implies (#[trigger] menu_of(rows)[i]).0 == rows[i]
            && menu_of(rows)[i].1 == i by {
            if i < rest.len() {
                assert(menu_of(rows)[i] == before[i]);
                assert(rest[i] == rows[i]);
            }
        }
    }
}

/// A text that several rows have stands for the last of them.
pub proof fn last_of_equal_rows_counts(rows: Seq<Seq<char>>, text: Seq<char>, j: int)
    requires
        rows.len() <= usize::MAX,
        0 <= j < rows.len(),
        rows[j] == text,
    ensures
        lookup(menu_of(rows), text) is Some,
        lookup(menu_of(rows), text)->0 >= j,
        lookup(menu_of(rows), text)->0 < rows.len(),
        rows[lookup(menu_of(rows), text)->0 as int] == text,
    decreases rows.len(),
{
    menu_stands_for_rows(rows);
    assert(rows.contains(text));
    let rest = rows.drop_last();
    menu_stands_for_rows(rest);
    lookup_after_with(menu_of(rest), rows.last(), (rows.len() - 1) as usize, text);
    if text != rows.last() {
        assert(rest[j] == text);
        last_of_equal_rows_counts(rest, text, j);
    }
}

/// The row of a session tells when it last changed, what it is about, and its id.
pub proof fn rows_tell_of_sessions(sessions: Seq<SessionInfo>, descs: Seq<Seq<char>>, i: int)
    requires
        0 <= i < sessions.len(),
    ensures
        removal_rows(sessions, descs).len() == sessions.len(),
        removal_rows(sessions, descs)[i] == sessions[i].updated_at@ + " - "@ + descs[i] + " ("@
            + sessions[i].id@ + ")"@,
{
}

/// What is announced is what is selected, in that order, each session by its id and its name.
pub proof fn every_removal_is_announced(
    sessions: Seq<SessionInfo>,
    selected: Seq<usize>,
    k: int,
)
    requires
        in_range(sessions, selected),
        0 <= k < selected.len(),
    ensures
        selected[k] < sessions.len(),
        announcement(sessions, selected).len() == selected.len() + 1,
        announcement(sessions, selected)[0] == "The following sessions will be removed:"@,
        announcement(sessions, selected)[k + 1] == "- "@ + sessions[selected[k] as int].id@ + " "@
            + sessions[selected[k] as int].name@,
{
}

/// A step that removes a session removes that one and says so; other steps remove none.
pub proof fn steps_remove_one_session(step: RemovalStep, id: Seq<char>, line: String)
    requires
        removes(step, id),
    ensures
        step is Remove,
        step->id@ == id,
        step->then@ == "Session `"@ + id + "` removed."@,
        !removes(RemovalStep::Print(line), id),
{
}

/// Why nothing can be removed is told with what was asked for.
pub proof fn removal_errors_name_their_cause(asked: String, cause: regex::Error)
    ensures
        RemovalError::IdNotFound(asked).text() == "Session ID '"@ + asked@ + "' not found."@,
        RemovalError::NameNotFound(asked).text() == "Session with name '"@ + asked@
            + "' not found."@,
        (RemovalError::InvalidPattern { pattern: asked, cause }).text()
            == "Invalid regex pattern '"@ + asked@ + "'"@,
        RemovalError::NoSessions.text() == "No sessions found."@,
{
}

// ── what the operations do ───────────────────────────────────────────────────
/// An id counts before a name, a name before a pattern, and without any of them people are asked.
pub proof fn requests_are_ranked(
    session_id: Option<String>,
    name: Option<String>,
    pattern: Option<String>,
    request: RemovalRequest,
)
    requires
        call_ensures(removal_request, (session_id, name, pattern), request),
    ensures
        session_id is Some ==> request == RemovalRequest::ById(session_id->0),
        session_id is None && name is Some ==> request == RemovalRequest::ByName(name->0),
        session_id is None && name is None && pattern is Some ==> request
            == RemovalRequest::ByPattern(pattern->0),
        session_id is None && name is None && pattern is None ==> request is Interactive,
{
}

/// A removal by pattern selects exactly the sessions whose ids match, each once and in order.
pub proof fn patterns_select_by_id(
    pattern: &str,
    sessions: &Vec<SessionInfo>,
    selected: Result<Vec<usize>, RemovalError>,
    i: usize,
)
    requires
        call_ensures(select_by_pattern, (pattern, sessions), selected),
        sessions@.len() <= usize::MAX,
        i < sessions@.len(),
    ensures
        selected is Ok ==> (selected->Ok_0@.contains(i) <==> pattern_matches(
            pattern@,
            sessions@[i as int].id@,
        )),
        selected is Ok ==> forall|a: int, b: int|
            0 <= a < b < selected->Ok_0@.len() ==> (#[trigger] selected->Ok_0@[a]) < (
            #[trigger] selected->Ok_0@[b]),
        selected is Err ==> selected->Err_0.text() == "Invalid regex pattern '"@ + pattern@ + "'"@,
{
    matching_selects(sessions@, pattern@, sessions@.len());
    if selected is Ok {
        assert(selected->Ok_0@ == matching(sessions@, pattern@, sessions@.len()));
        assert(selected->Ok_0@.contains(i as int as usize) <==> pattern_matches(
            pattern@,
            sessions@[i as int].id@,
        ));
    }
}

/// Whoever picks the row of a session from a menu gets that session, where no two rows are the
/// same.
pub proof fn picking_a_row_gives_its_session(
    sessions: &Vec<SessionInfo>,
    descs: &Vec<String>,
    menu: RemovalMenu,
    chosen: &Vec<String>,
    selected: Vec<usize>,
    i: usize,
)
    requires
        descs@.len() == sessions@.len() <= usize::MAX,
        call_ensures(RemovalMenu::new, (sessions, descs), menu),
        call_ensures(RemovalMenu::pick, (&menu, chosen), selected),
        i < sessions@.len(),
        removal_rows(sessions@, texts(descs@)).no_duplicates(),
        chosen@.len() == 1,
        chosen@[0]@ == sessions@[i as int].updated_at@ + " - "@ + descs@[i as int]@ + " ("@
            + sessions@[i as int].id@ + ")"@,
    ensures
        selected@ == seq![i],
{
    let rows = removal_rows(sessions@, texts(descs@));
    let text = chosen@[0]@;
    assert(texts(descs@)[i as int] == descs@[i as int]@);
    assert(rows[i as int] == text);
    last_of_equal_rows_counts(rows, text, i as int);
    let found = lookup(menu_of(rows), text)->0;
    assert(rows[found as int] == rows[i as int]);
    assert(texts(chosen@) =~= seq![text]);
    picks_are_looked_up_one_by_one(menu@, Seq::empty(), seq![text], text);
}

/// Nothing is removed unless that was confirmed; then every session that was selected is, and no
/// other, in the order of the selection.
pub proof fn only_confirmed_sessions_go(
    sessions: &Vec<SessionInfo>,
    selected: &Vec<usize>,
    confirmed: bool,
    steps: Vec<RemovalStep>,
    k: int,
)
    requires
        call_ensures(remove_sessions, (sessions, selected, confirmed), steps),
        0 <= k < steps@.len(),
    ensures
        !confirmed ==> steps@.len() == 1 && steps@[k] is Print,
        confirmed ==> steps@.len() == selected@.len() && steps@[k] is Remove && steps@[k]->id@
            == sessions@[selected@[k] as int].id@,
{
    if confirmed {
        assert(removes(steps@[k], sessions@[selected@[k] as int].id@));
    }
}

/// After a selection people are asked to confirm, unless nothing was selected: then a pattern is
/// said to match nothing, and anything else just ends.
pub proof fn selections_are_confirmed(request: &RemovalRequest, count: usize, next: RemovalNext)
    requires
        call_ensures(after_selection, (request, count), next),
    ensures
        count > 0 <==> next is Confirm,
        count == 0 && *request is ByPattern ==> match next {
            RemovalNext::Say(line) => line@ == "Regex string '"@ + request->ByPattern_0@
                + "' does not match any sessions"@,
            _ => false,
        },
        count == 0 && !(*request is ByPattern) ==> next is Stop,
{
}

/// A removal by id takes the session that was found, and says which id was not found otherwise.
pub proof fn ids_select_what_was_found<S>(
    id: &str,
    found: Option<S>,
    selected: Result<S, RemovalError>,
)
    requires
        call_ensures(select_by_id::<S>, (id, found), selected),
    ensures
        found is Some ==> selected is Ok && selected->Ok_0 == found->0,
        found is None ==> selected is Err && selected->Err_0.text() == "Session ID '"@ + id@
            + "' not found."@,
{
}

/// A removal by name takes the first session of that name, and fails only if there is none.
pub proof fn names_select_their_session(
    name: &str,
    sessions: &Vec<SessionInfo>,
    selected: Result<usize, RemovalError>,
    i: int,
)
    requires
        call_ensures(select_by_name, (name, sessions), selected),
    ensures
        selected is Ok ==> selected->Ok_0 < sessions@.len() && sessions@[selected->Ok_0 as int].name@
            == name@,
        0 <= i < sessions@.len() && sessions@[i].name@ == name@ ==> selected is Ok && selected->Ok_0
            <= i,
        selected is Err ==> selected->Err_0.text() == "Session with name '"@ + name@
            + "' not found."@,
{
    if selected is Ok && 0 <= i < selected->Ok_0 {
        assert(sessions@.take(selected->Ok_0 as int)[i] == sessions@[i]);
    }
}

/// Before sessions are removed, each of them is announced by its id and its name.
pub proof fn announcements_name_sessions(
    sessions: &Vec<SessionInfo>,
    selected: &Vec<usize>,
    lines: Vec<String>,
    k: int,
)
    requires
        call_ensures(announce_removal, (sessions, selected), lines),
    ensures
        lines@.len() == selected@.len() + 1,
        lines@[0]@ == "The following sessions will be removed:"@,
        0 <= k < selected@.len() ==> lines@[k + 1]@ == "- "@ + sessions@[selected@[k] as int].id@
            + " "@ + sessions@[selected@[k] as int].name@,
{
    let all = texts(lines@);
    assert(all.len() == lines@.len());
    assert(all[0] == lines@[0]@);
    if 0 <= k < selected@.len() {
        assert(all[k + 1] == lines@[k + 1]@);
    }
}

/// People are asked to pick exactly if there is a session to pick.
pub proof fn people_pick_if_there_is_a_choice(
    sessions: &Vec<SessionInfo>,
    descs: &Vec<String>,
    prompt: RemovalPrompt,
    result: Result<(), RemovalError>,
)
    requires
        call_ensures(prompt_interactive_session_removal, (sessions, descs), prompt),
        call_ensures(require_sessions, (sessions,), result),
    ensures
        sessions@.len() > 0 <==> prompt is Pick,
        sessions@.len() > 0 <==> result is Ok,
        result is Err ==> result->Err_0 is NoSessions,
{
}

} // verus!
