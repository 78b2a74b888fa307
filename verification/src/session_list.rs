//! Listing sessions.

use vstd::prelude::*;

use crate::session::{display_path_with_tilde, shown_path, SessionInfo};
use crate::text::{
    contains_text, has_infix, occurring_is_standing_between, optional_str, optional_string,
    same_text, texts,
};

verus! {

/// The text that `str::to_lowercase` makes of `s`.
pub uninterp spec fn lowercase(s: Seq<char>) -> Seq<char>;

/// Calls `str::to_lowercase`: the result depends on the text alone.
#[verifier::external_body]
fn to_lowercase(s: &str) -> (lower: String)
    ensures
        lower@ == lowercase(s@),
{
    s.to_lowercase()
}

/// Session `i` of `sessions` works in a directory whose path contains `pattern`, whatever the
/// case of the letters.
pub open spec fn works_in(sessions: Seq<SessionInfo>, pattern: Seq<char>, i: int) -> bool {
    has_infix(lowercase(sessions[i].working_dir@), lowercase(pattern))
}

/// Which sessions are listed.
pub open spec fn listed(sessions: Seq<SessionInfo>, working_dir: Option<Seq<char>>) -> Seq<bool> {
    Seq::new(
        sessions.len(),
        |i: int|
            match working_dir {
                Some(pattern) => works_in(sessions, pattern, i),
                None => true,
            },
    )
}

/// The times at which the sessions last changed.
pub open spec fn change_times(sessions: Seq<SessionInfo>) -> Seq<int> {
    sessions.map_values(|s: SessionInfo| s.updated_at_key as int)
}

/// Entry `i` comes before entry `j` in a listing by time; equal times keep their order.
pub open spec fn comes_before(times: Seq<int>, ascending: bool, i: int, j: int) -> bool {
    if times[i] == times[j] {
        i < j
    } else if ascending {
        times[i] < times[j]
    } else {
        times[i] > times[j]
    }
}

/// `order` lists exactly the entries that are kept, each once, by time.
pub open spec fn is_listing(
    times: Seq<int>,
    keep: Seq<bool>,
    ascending: bool,
    order: Seq<usize>,
) -> bool {
    &&& forall|a: int|
        0 <= a < order.len() ==> (#[trigger] order[a]) < times.len() && keep[order[a] as int]
    &&& forall|i: int| 0 <= i < times.len() && #[trigger] keep[i] ==> order.contains(i as usize)
    &&& forall|a: int, b: int|
        0 <= a < b < order.len() ==> comes_before(
            times,
            ascending,
            #[trigger] order[a] as int,
            #[trigger] order[b] as int,
        )
}

/// There is only one such listing.
pub proof fn listing_is_unique(
    times: Seq<int>,
    keep: Seq<bool>,
    ascending: bool,
    x: Seq<usize>,
    y: Seq<usize>,
)
    requires
        is_listing(times, keep, ascending, x),
        is_listing(times, keep, ascending, y),
        times.len() == keep.len(),
        times.len() <= usize::MAX,
    ensures
        x == y,
{
    let n = if x.len() < y.len() { x.len() } else { y.len() };
    assert forall|a: int| 0 <= a < n implies x[a] == y[a] by {
        agree_up_to(times, keep, ascending, x, y, a);
    }
    if x.len() < y.len() {
        let i = y[x.len() as int];
        assert(keep[i as int]);
        assert(x.contains(i));
        let k = choose|k: int| 0 <= k < x.len() && x[k] == i;
        assert(y[k] == i);
    }
    if y.len() < x.len() {
        let i = x[y.len() as int];
        assert(keep[i as int]);
        assert(y.contains(i));
        let k = choose|k: int| 0 <= k < y.len() && y[k] == i;
        assert(x[k] == i);
    }
    assert(x =~= y);
}

proof fn agree_up_to(
    times: Seq<int>,
    keep: Seq<bool>,
    ascending: bool,
    x: Seq<usize>,
    y: Seq<usize>,
    a: int,
)
    requires
        is_listing(times, keep, ascending, x),
        is_listing(times, keep, ascending, y),
        times.len() == keep.len(),
        times.len() <= usize::MAX,
        0 <= a < x.len(),
        a < y.len(),
    ensures
        x[a] == y[a],
    decreases a,
{
    assert forall|k: int| 0 <= k < a implies x[k] == y[k] by {
        agree_up_to(times, keep, ascending, x, y, k);
    }
    assert(keep[x[a] as int]);
    assert(keep[y[a] as int]);
    assert(y.contains(x[a]));
    assert(x.contains(y[a]));
    let p = choose|p: int| 0 <= p < y.len() && y[p] == x[a];
    let q = choose|q: int| 0 <= q < x.len() && x[q] == y[a];
    if x[a] != y[a] {
        if p < a {
            assert(x[p] == x[a]);
            assert(comes_before(times, ascending, x[p] as int, x[a] as int));
        }
        if q < a {
            assert(y[q] == y[a]);
            assert(comes_before(times, ascending, y[q] as int, y[a] as int));
        }
        assert(comes_before(times, ascending, y[a] as int, y[p] as int));
        assert(comes_before(times, ascending, x[a] as int, x[q] as int));
    }
}

/// The first `limit` entries of a listing, or all of them.
pub open spec fn limited(order: Seq<usize>, limit: Option<usize>) -> Seq<usize> {
    match limit {
        Some(n) => if n < order.len() {
            order.take(n as int)
        } else {
            order
        },
        None => order,
    }
}

fn precedes(sessions: &Vec<SessionInfo>, ascending: bool, i: usize, j: usize) -> (first: bool)
    requires
        i < sessions@.len(),
        j < sessions@.len(),
    ensures
        first == comes_before(change_times(sessions@), ascending, i as int, j as int),
{
    let a: i128 = sessions[i].updated_at_key;
    let b: i128 = sessions[j].updated_at_key;
    if a == b {
        i < j
    } else if ascending {
        a < b
    } else {
        a > b
    }
}

/// The entries that are kept, by time.
pub fn order_sessions(sessions: &Vec<SessionInfo>, keep: &Vec<bool>, ascending: bool) -> (order: Vec<
    usize,
>)
    requires
        keep@.len() == sessions@.len(),
    ensures
        is_listing(change_times(sessions@), keep@, ascending, order@),
{
    let mut order: Vec<usize> = Vec::new();
    let ghost times = change_times(sessions@);
    let mut n: usize = 0;
    while n < sessions.len()
        invariant
            n <= sessions@.len(),
            keep@.len() == sessions@.len(),
            times == change_times(sessions@),
            is_listing(times.take(n as int), keep@.take(n as int), ascending, order@),
        decreases sessions@.len() - n,
    {
        let ghost t0 = times.take(n as int);
        let ghost t1 = times.take(n + 1);
        let ghost k0 = keep@.take(n as int);
        let ghost k1 = keep@.take(n + 1);
        let ghost before = order@;
        assert forall|a: int| 0 <= a < before.len() implies #[trigger] before[a] < n by {
            assert(before[a] < t0.len());
        }
        if keep[n] {
            let mut at: usize = order.len();
            while at > 0 && precedes(sessions, ascending, n, order[at - 1])
                invariant
                    at <= order@.len(),
                    n < sessions@.len(),
                    order@ == before,
                    times == change_times(sessions@),
                    forall|a: int| 0 <= a < before.len() ==> #[trigger] before[a] < n,
                    forall|a: int|
                        at <= a < before.len() ==> comes_before(
                            times,
                            ascending,
                            n as int,
                            #[trigger] before[a] as int,
                        ),
                decreases at,
            {
                at = at - 1;
            }
            order.insert(at, n);
            proof {
                assert forall|a: int| 0 <= a < at implies comes_before(
                    times,
                    ascending,
                    #[trigger] before[a] as int,
                    n as int,
                ) by {
                    let last = before[at - 1] as int;
                    assert(!comes_before(times, ascending, n as int, last));
                    assert(before[at - 1] < n);
                    if a < at - 1 {
                        assert(comes_before(t0, ascending, before[a] as int, last));
                        assert(before[a] < n);
                    }
                }
                insertion_keeps_listing(times, keep@, ascending, before, n, at as int, order@);
            }
        } else {
            proof {
                skipping_keeps_listing(times, keep@, ascending, before, n);
            }
        }
        n = n + 1;
    }
    assert(times.take(n as int) =~= times);
    assert(keep@.take(n as int) =~= keep@);
    order
}

proof fn skipping_keeps_listing(
    times: Seq<int>,
    keep: Seq<bool>,
    ascending: bool,
    order: Seq<usize>,
    n: usize,
)
    requires
        n < times.len(),
        keep.len() == times.len(),
        !keep[n as int],
        is_listing(times.take(n as int), keep.take(n as int), ascending, order),
    ensures
        is_listing(times.take(n + 1), keep.take(n + 1), ascending, order),
{
    let t0 = times.take(n as int);
    let t1 = times.take(n + 1);
    let k0 = keep.take(n as int);
    let k1 = keep.take(n + 1);
    assert forall|a: int| 0 <= a < order.len() implies (#[trigger] order[a]) < t1.len()
        && k1[order[a] as int] by {
        assert(k0[order[a] as int]);
    }
    assert forall|i: int| 0 <= i < t1.len() && #[trigger] k1[i] implies order.contains(
        i as usize,
    ) by {
        assert(i != n);
        assert(k0[i]);
    }
    assert forall|a: int, b: int| 0 <= a < b < order.len() implies comes_before(
        t1,
        ascending,
        #[trigger] order[a] as int,
        #[trigger] order[b] as int,
    ) by {
        assert(comes_before(t0, ascending, order[a] as int, order[b] as int));
        assert(order[a] < t0.len() && order[b] < t0.len());
    }
}

proof fn insertion_keeps_listing(
    times: Seq<int>,
    keep: Seq<bool>,
    ascending: bool,
    before: Seq<usize>,
    n: usize,
    at: int,
    after: Seq<usize>,
)
    requires
        n < times.len(),
        keep.len() == times.len(),
        times.len() <= usize::MAX,
        keep[n as int],
        0 <= at <= before.len(),
        after == before.insert(at, n),
        is_listing(times.take(n as int), keep.take(n as int), ascending, before),
        forall|a: int|
            0 <= a < at ==> comes_before(times, ascending, #[trigger] before[a] as int, n as int),
        forall|a: int|
            at <= a < before.len() ==> comes_before(
                times,
                ascending,
                n as int,
                #[trigger] before[a] as int,
            ),
    ensures
        is_listing(times.take(n + 1), keep.take(n + 1), ascending, after),
{
    let t0 = times.take(n as int);
    let t1 = times.take(n + 1);
    let k0 = keep.take(n as int);
    let k1 = keep.take(n + 1);
    let old_at = |a: int| if a < at { a } else { a - 1 };
    assert forall|a: int| 0 <= a < after.len() && a != at implies #[trigger] after[a]
        == before[old_at(a)] by {}
    assert(after[at] == n);
    assert forall|a: int| 0 <= a < before.len() implies (#[trigger] before[a]) < n
        && k0[before[a] as int] by {
        assert(before[a] < t0.len());
    }
    assert forall|a: int| 0 <= a < after.len() implies (#[trigger] after[a]) < t1.len()
        && k1[after[a] as int] by {
        if a != at {
            assert(after[a] == before[old_at(a)]);
            assert(k0[before[old_at(a)] as int]);
        }
    }
    assert forall|i: int| 0 <= i < t1.len() && #[trigger] k1[i] implies after.contains(
        i as usize,
    ) by {
        if i < n {
            assert(k0[i]);
            assert(before.contains(i as usize));
            let a = choose|a: int| 0 <= a < before.len() && before[a] == i as usize;
            assert(after[if a < at { a } else { a + 1 }] == i as usize);
        } else {
            assert(after[at] == i as usize);
        }
    }
    assert forall|a: int, b: int| 0 <= a < b < after.len() implies comes_before(
        t1,
        ascending,
        #[trigger] after[a] as int,
        #[trigger] after[b] as int,
    ) by {
        if a == at {
            assert(after[b] == before[old_at(b)]);
            assert(comes_before(times, ascending, n as int, before[b - 1] as int));
            assert(before[b - 1] < n);
        } else if b == at {
            assert(after[a] == before[a]);
            assert(comes_before(times, ascending, before[a] as int, n as int));
            assert(before[a] < n);
        } else {
            let x = old_at(a);
            let y = old_at(b);
            assert(after[a] == before[x]);
            assert(after[b] == before[y]);
            assert(comes_before(t0, ascending, before[x] as int, before[y] as int));
            assert(before[x] < n && before[y] < n);
        }
    }
}

/// Which sessions work in a directory that contains `working_dir`; without one, all.
pub fn filter_by_dir(sessions: &Vec<SessionInfo>, working_dir: Option<&str>) -> (keep: Vec<bool>)
    ensures
        keep@ == listed(sessions@, optional_str(working_dir)),
{
    let mut keep: Vec<bool> = Vec::new();
    let lower = match working_dir {
        Some(pattern) => to_lowercase(pattern),
        None => String::new(),
    };
    let mut i: usize = 0;
    while i < sessions.len()
        invariant
            i <= sessions@.len(),
            working_dir is Some ==> lower@ == lowercase(working_dir->0@),
            keep@ == listed(sessions@, optional_str(working_dir)).take(i as int),
        decreases sessions@.len() - i,
    {
        let kept = match working_dir {
            Some(_) => {
                let dir = to_lowercase(sessions[i].working_dir.as_str());
                contains_text(dir.as_str(), lower.as_str())
            },
            None => true,
        };
        let ghost before = keep@;
        keep.push(kept);
        i = i + 1;
        assert(keep@ =~= listed(sessions@, optional_str(working_dir)).take(i as int));
    }
    assert(keep@ =~= listed(sessions@, optional_str(working_dir)));
    keep
}

/// The line for a session.
pub open spec fn session_line(session: SessionInfo, home: Option<Seq<char>>) -> Seq<char> {
    session.id@ + " - "@ + session.name@ + " - "@ + session.updated_at@ + " - "@ + shown_path(
        session.working_dir@,
        home,
    )
}

fn format_session(session: &SessionInfo, home: &Option<String>) -> (line: String)
    ensures
        line@ == session_line(*session, optional_string(*home)),
{
    let mut line = session.id.clone();
    line.append(" - ");
    line.append(session.name.as_str());
    line.append(" - ");
    line.append(session.updated_at.as_str());
    line.append(" - ");
    line.append(display_path_with_tilde(session.working_dir.as_str(), home).as_str());
    line
}

/// The lines for the sessions in that order.
pub open spec fn session_lines(
    sessions: Seq<SessionInfo>,
    order: Seq<usize>,
    home: Option<Seq<char>>,
) -> Seq<Seq<char>> {
    if order.len() == 0 {
        seq!["No sessions found"@]
    } else {
        seq!["Available sessions:"@] + Seq::new(
            order.len(),
            |a: int| session_line(sessions[order[a] as int], home),
        )
    }
}

/// The lines for the sessions in that order.
pub fn list_lines(sessions: &Vec<SessionInfo>, order: &Vec<usize>, home: &Option<String>) -> (lines:
    Vec<String>)
    requires
        forall|a: int| 0 <= a < order@.len() ==> #[trigger] order@[a] < sessions@.len(),
    ensures
        texts(lines@) == session_lines(sessions@, order@, optional_string(*home)),
{
    let mut lines: Vec<String> = Vec::new();
    if order.len() == 0 {
        lines.push("No sessions found".to_string());
        assert(texts(lines@) =~= seq!["No sessions found"@]);
        return lines;
    }
    lines.push("Available sessions:".to_string());
    let mut a: usize = 0;
    let ghost wanted = session_lines(sessions@, order@, optional_string(*home));
    assert(texts(lines@) =~= wanted.take(1));
    while a < order.len()
        invariant
            a <= order@.len(),
            order@.len() > 0,
            wanted == session_lines(sessions@, order@, optional_string(*home)),
            forall|k: int| 0 <= k < order@.len() ==> #[trigger] order@[k] < sessions@.len(),
            texts(lines@) == wanted.take(a + 1),
        decreases order@.len() - a,
    {
        let ghost before = texts(lines@);
        assert(order@[a as int] < sessions@.len());
        let line = format_session(&sessions[order[a]], home);
        assert(wanted[a + 1] == line@);
        lines.push(line);
        assert(texts(lines@) =~= before.push(line@));
        a = a + 1;
        assert(texts(lines@) =~= wanted.take(a + 1));
    }
    assert(wanted.take(a + 1) =~= wanted);
    lines
}

/// What a listing puts out: the sessions as JSON, in that order, or lines of text.
pub enum ListOutput {
    Json(Vec<usize>),
    Lines(Vec<String>),
}

/// What is put out for a listing in that order.
pub open spec fn is_output(
    output: ListOutput,
    sessions: Seq<SessionInfo>,
    format: Seq<char>,
    order: Seq<usize>,
    home: Option<Seq<char>>,
) -> bool {
    match output {
        ListOutput::Json(shown) => format == "json"@ && shown@ == order,
        ListOutput::Lines(lines) => format != "json"@ && texts(lines@) == session_lines(
            sessions,
            order,
            home,
        ),
    }
}

/// Puts out the sessions that are kept: by time, at most `limit` of them.
pub fn output_sessions(
    sessions: &Vec<SessionInfo>,
    keep: &Vec<bool>,
    format: &str,
    ascending: bool,
    limit: Option<usize>,
    home: &Option<String>,
) -> (output: ListOutput)
    requires
        keep@.len() == sessions@.len(),
    ensures
        exists|order: Seq<usize>|
            #[trigger] is_listing(change_times(sessions@), keep@, ascending, order) && is_output(
                output,
                sessions@,
                format@,
                limited(order, limit),
                optional_string(*home),
            ),
{
    let mut order = order_sessions(sessions, keep, ascending);
    let ghost all = order@;
    match limit {
        Some(n) => {
            order.truncate(n);
        },
        None => {},
    }
    assert(order@ =~= limited(all, limit));
    proof {
        assert forall|a: int| 0 <= a < order@.len() implies #[trigger] order@[a]
            < sessions@.len() by {
            assert(all[a] < change_times(sessions@).len());
        }
    }
    if same_text(format, "json") {
        ListOutput::Json(order)
    } else {
        ListOutput::Lines(list_lines(sessions, &order, home))
    }
}

/// Lists the sessions that work in a directory that contains `working_dir`, by the time of their
/// last change, at most `limit` of them.
pub fn handle_session_list(
    sessions: &Vec<SessionInfo>,
    format: &str,
    ascending: bool,
    working_dir: Option<&str>,
    limit: Option<usize>,
    home: &Option<String>,
) -> (output: ListOutput)
    ensures
        exists|order: Seq<usize>|
            #[trigger] is_listing(
                change_times(sessions@),
                listed(sessions@, optional_str(working_dir)),
                ascending,
                order,
            ) && is_output(
                output,
                sessions@,
                format@,
                limited(order, limit),
                optional_string(*home),
            ),
{
    let keep = filter_by_dir(sessions, working_dir);
    output_sessions(sessions, &keep, format, ascending, limit, home)
}

/// Listing newest first is listing oldest first in reverse, where no two of the listed sessions
/// changed at the same time.
pub proof fn descending_reverses_ascending(times: Seq<int>, keep: Seq<bool>, order: Seq<usize>)
    requires
        is_listing(times, keep, true, order),
        times.len() == keep.len(),
        forall|i: int, j: int|
            0 <= i < times.len() && 0 <= j < times.len() && i != j && keep[i] && keep[j]
                ==> #[trigger] times[i] != #[trigger] times[j],
    ensures
        is_listing(times, keep, false, order.reverse()),
{
    let r = order.reverse();
    assert forall|a: int| 0 <= a < r.len() implies (#[trigger] r[a]) < times.len()
        && keep[r[a] as int] by {
        assert(r[a] == order[order.len() - 1 - a]);
    }
    assert forall|i: int| 0 <= i < times.len() && #[trigger] keep[i] implies r.contains(
        i as usize,
    ) by {
        assert(order.contains(i as usize));
        let a = choose|a: int| 0 <= a < order.len() && order[a] == i as usize;
        assert(r[order.len() - 1 - a] == i as usize);
    }
    assert forall|a: int, b: int| 0 <= a < b < r.len() implies comes_before(
        times,
        false,
        #[trigger] r[a] as int,
        #[trigger] r[b] as int,
    ) by {
        let x = order.len() - 1 - b;
        let y = order.len() - 1 - a;
        assert(r[a] == order[y] && r[b] == order[x]);
        assert(comes_before(times, true, order[x] as int, order[y] as int));
    }
}

/// A listing holds exactly the sessions that are kept, none twice, from the one that changed first
/// to the one that changed last, or the other way round; of sessions that changed at the same time
/// the one that came first stays first.
pub proof fn listings_are_by_time(
    times: Seq<int>,
    keep: Seq<bool>,
    ascending: bool,
    order: Seq<usize>,
    i: usize,
)
    requires
        times.len() == keep.len() <= usize::MAX,
        is_listing(times, keep, ascending, order),
        i < times.len(),
    ensures
        order.contains(i) <==> keep[i as int],
        forall|a: int, b: int|
            0 <= a < b < order.len() ==> {
                let x = #[trigger] order[a] as int;
                let y = #[trigger] order[b] as int;
                &&& x != y
                &&& 0 <= x < times.len()
                &&& 0 <= y < times.len()
                &&& ascending ==> times[x] <= times[y]
                &&& !ascending ==> times[x] >= times[y]
                &&& times[x] == times[y] ==> x < y
            },
{
    if keep[i as int] {
        assert(order.contains(i as int as usize));
    }
    assert forall|a: int, b: int| 0 <= a < b < order.len() implies {
        let x = #[trigger] order[a] as int;
        let y = #[trigger] order[b] as int;
        &&& x != y
        &&& 0 <= x < times.len()
        &&& 0 <= y < times.len()
        &&& ascending ==> times[x] <= times[y]
        &&& !ascending ==> times[x] >= times[y]
        &&& times[x] == times[y] ==> x < y
    } by {
        assert(comes_before(times, ascending, order[a] as int, order[b] as int));
        assert(order[a] < times.len() && order[b] < times.len());
    }
}

/// A limit keeps the beginning of a listing, as much of it as is allowed.
pub proof fn limits_keep_the_beginning(order: Seq<usize>, limit: usize)
    ensures
        limited(order, None) == order,
        limited(order, Some(limit)).is_prefix_of(order),
        limit <= order.len() ==> limited(order, Some(limit)).len() == limit,
        limit > order.len() ==> limited(order, Some(limit)).len() == order.len(),
{
    assert(limited(order, Some(limit)) =~= order.subrange(
        0,
        limited(order, Some(limit)).len() as int,
    ));
}

/// A session is kept exactly if the path of its directory contains what is looked for, with all
/// letters made small on both sides; without anything to look for every session is kept. Sessions
/// are listed by the time of their own last change.
pub proof fn listed_by_directory(
    sessions: Seq<SessionInfo>,
    pattern: Seq<char>,
    before: Seq<char>,
    after: Seq<char>,
    i: int,
)
    requires
        0 <= i < sessions.len(),
    ensures
        listed(sessions, None).len() == sessions.len(),
        listed(sessions, Some(pattern)).len() == sessions.len(),
        listed(sessions, None)[i],
        lowercase(sessions[i].working_dir@) == before + lowercase(pattern) + after ==> listed(
            sessions,
            Some(pattern),
        )[i],
        listed(sessions, Some(pattern))[i] ==> has_infix(
            lowercase(sessions[i].working_dir@),
            lowercase(pattern),
        ),
        change_times(sessions).len() == sessions.len(),
        change_times(sessions)[i] == sessions[i].updated_at_key,
{
    occurring_is_standing_between(before, lowercase(pattern), after, Seq::empty(), 0);
}

/// A listing in lines has a title and then a line for each session in that order, with its id,
/// its name, the time of its last change and its directory; one without sessions says so.
pub proof fn lines_name_each_session(
    sessions: Seq<SessionInfo>,
    order: Seq<usize>,
    home: Option<Seq<char>>,
    a: int,
)
    requires
        0 <= a < order.len(),
    ensures
        session_lines(sessions, Seq::empty(), home) == seq!["No sessions found"@],
        session_lines(sessions, order, home).len() == order.len() + 1,
        session_lines(sessions, order, home)[0] == "Available sessions:"@,
        ({
            let s = sessions[order[a] as int];
            session_lines(sessions, order, home)[a + 1] == s.id@ + " - "@ + s.name@ + " - "@
                + s.updated_at@ + " - "@ + shown_path(s.working_dir@, home)
        }),
{
}

/// A listing as JSON holds exactly the sessions that were asked for, none twice, from the one that
/// changed first to the one that changed last or the other way round, and no more than the limit
/// allows; without a limit it holds all of them.
pub proof fn json_listings_are_by_time(
    sessions: &Vec<SessionInfo>,
    format: &str,
    ascending: bool,
    working_dir: Option<&str>,
    limit: Option<usize>,
    home: &Option<String>,
    output: ListOutput,
    i: usize,
)
    requires
        call_ensures(
            handle_session_list,
            (sessions, format, ascending, working_dir, limit, home),
            output,
        ),
        i < sessions@.len() <= usize::MAX,
    ensures
        format@ == "json"@ <==> output is Json,
        output is Json ==> {
            let shown = output->Json_0@;
            &&& limit is Some ==> shown.len() <= limit->0
            &&& limit is None ==> (shown.contains(i) <==> (working_dir is Some ==> has_infix(
                lowercase(sessions@[i as int].working_dir@),
                lowercase(working_dir->0@),
            )))
            &&& shown.contains(i) && working_dir is Some ==> has_infix(
                lowercase(sessions@[i as int].working_dir@),
                lowercase(working_dir->0@),
            )
            &&& forall|a: int, b: int|
                0 <= a < b < shown.len() ==> {
                    let x = #[trigger] shown[a] as int;
                    let y = #[trigger] shown[b] as int;
                    &&& x != y
                    &&& ascending ==> sessions@[x].updated_at_key <= sessions@[y].updated_at_key
                    &&& !ascending ==> sessions@[x].updated_at_key >= sessions@[y].updated_at_key
                    &&& sessions@[x].updated_at_key == sessions@[y].updated_at_key ==> x < y
                }
        },
{
    let times = change_times(sessions@);
    let keep = listed(sessions@, optional_str(working_dir));
    let order = choose|order: Seq<usize>|
        #[trigger] is_listing(times, keep, ascending, order) && is_output(
            output,
            sessions@,
            format@,
            limited(order, limit),
            optional_string(*home),
        );
    listings_are_by_time(times, keep, ascending, order, i);
    if output is Json {
        let shown = output->Json_0@;
        assert(shown == limited(order, limit));
        assert forall|a: int, b: int| 0 <= a < b < shown.len() implies {
            let x = #[trigger] shown[a] as int;
            let y = #[trigger] shown[b] as int;
            &&& x != y
            &&& ascending ==> sessions@[x].updated_at_key <= sessions@[y].updated_at_key
            &&& !ascending ==> sessions@[x].updated_at_key >= sessions@[y].updated_at_key
            &&& sessions@[x].updated_at_key == sessions@[y].updated_at_key ==> x < y
        } by {
            assert(order[a] == shown[a] && order[b] == shown[b]);
            let x = order[a] as int;
            let y = order[b] as int;
            assert(times[x] == sessions@[x].updated_at_key);
            assert(times[y] == sessions@[y].updated_at_key);
        }
        if shown.contains(i) {
            let a = choose|a: int| 0 <= a < shown.len() && shown[a] == i;
            assert(order[a] == i);
            assert(order.contains(i));
        }
    }
}

/// A listing in lines has a title and then a line for each session that a listing as JSON holds;
/// one without sessions says so.
pub proof fn line_listings_match(
    sessions: &Vec<SessionInfo>,
    order: &Vec<usize>,
    home: &Option<String>,
    lines: Vec<String>,
    a: int,
)
    requires
        call_ensures(list_lines, (sessions, order, home), lines),
    ensures
        order@.len() == 0 ==> texts(lines@) == seq!["No sessions found"@],
        order@.len() > 0 ==> lines@.len() == order@.len() + 1 && lines@[0]@
            == "Available sessions:"@,
        0 <= a < order@.len() ==> {
            let s = sessions@[order@[a] as int];
            lines@[a + 1]@ == s.id@ + " - "@ + s.name@ + " - "@ + s.updated_at@ + " - "@
                + shown_path(s.working_dir@, optional_string(*home))
        },
{
    let all = texts(lines@);
    assert(all.len() == lines@.len());
    if order@.len() > 0 {
        assert(all[0] == lines@[0]@);
    }
    if 0 <= a < order@.len() {
        lines_name_each_session(sessions@, order@, optional_string(*home), a);
        assert(all[a + 1] == lines@[a + 1]@);
    }
}

} // verus!
