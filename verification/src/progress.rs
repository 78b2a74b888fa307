//! Progress files of delegates: where they lie, how they are named, and what is written to them.
//!
//! A file is named `<key>.<ms>.ndjson`, or `<key>.<task>.<ms>.ndjson` for a delegate that runs in
//! the background, where `ms` is the time of its creation in milliseconds since the Unix epoch.
//! It holds one event per line.

use vstd::prelude::*;

use crate::clock::{is_reading, now_ms};
use crate::decimal::{
    all_digits, decimal, decimal_denotes, parse_u64, parsed_u64, parsing_undoes_decimal, to_decimal,
};
use crate::sanitize::{
    is_clean, sanitize_summary, sanitized, sanitized_is_clean, summaries_keep_their_words, words,
};
use crate::text::{
    contains_text, from_chars, has_infix, join, join_texts, occurs_at, optional_str, starts_with, texts, to_chars,
};

verus! {

/// Files are swept when they are older than this.
pub const MAX_AGE_MS: u64 = 3_600_000;

/// `part` below the directory `base`; an absolute `part` stands for itself.
pub open spec fn joined(base: Seq<char>, part: Seq<char>) -> Seq<char> {
    if part.len() > 0 && part[0] == '/' {
        part
    } else if base.len() == 0 || base.last() == '/' {
        base + part
    } else {
        base + seq!['/'] + part
    }
}

/// `part` below the directory `base`; an absolute `part` stands for itself.
pub fn join_path(base: &str, part: &str) -> (path: String)
    ensures
        path@ == joined(base@, part@),
{
    let p = to_chars(part);
    if p.len() > 0 && p[0] == '/' {
        return part.to_string();
    }
    let b = to_chars(base);
    let mut path = base.to_string();
    if b.len() > 0 && b[b.len() - 1] != '/' {
        path.push('/');
        assert(path@ =~= base@ + seq!['/']);
    }
    path.append(part);
    path
}

/// The directory that holds user state when none is configured.
pub open spec fn default_state_dir(home: Option<Seq<char>>) -> Seq<char> {
    match home {
        Some(home) => joined(home, ".local/state"@),
        None => joined("/tmp"@, ".local/state"@),
    }
}

/// The directory of the progress files.
pub open spec fn progress_dir_of(
    state_home: Option<Seq<char>>,
    home: Option<Seq<char>>,
) -> Seq<char> {
    match state_home {
        Some(dir) => joined(dir, "goose/subagent-progress"@),
        None => joined(default_state_dir(home), "goose/subagent-progress"@),
    }
}

/// The directory of the progress files: below the configured state directory, else below the
/// home directory, else below `/tmp`.
pub fn progress_dir(state_home: Option<&str>, home: Option<&str>) -> (dir: String)
    ensures
        dir@ == progress_dir_of(optional_str(state_home), optional_str(home)),
{
    let base = match state_home {
        Some(dir) => dir.to_string(),
        None => match home {
            Some(home) => join_path(home, ".local/state"),
            None => join_path("/tmp", ".local/state"),
        },
    };
    join_path(base.as_str(), "goose/subagent-progress")
}

// ── names ────────────────────────────────────────────────────────────────────
/// The name of the file of the delegate `key`, created at `ms`.
pub open spec fn file_name(key: Seq<char>, ms: u64) -> Seq<char> {
    key + "."@ + decimal(ms as nat) + ".ndjson"@
}

/// The name of the file of the background task `task` of the delegate `key`, created at `ms`.
pub open spec fn file_name_async(key: Seq<char>, task: Seq<char>, ms: u64) -> Seq<char> {
    key + "."@ + task + "."@ + decimal(ms as nat) + ".ndjson"@
}

/// The name of the file of the delegate `key`, created at `ms`.
pub fn progress_filename_at(key: &str, ms: u64) -> (name: String)
    ensures
        name@ == file_name(key@, ms),
{
    let mut name = key.to_string();
    name.append(".");
    name.append(to_decimal(ms).as_str());
    name.append(".ndjson");
    name
}

/// A name for a new file of the delegate `key`, with the current time.
pub fn progress_filename(key: &str) -> (name: String)
    ensures
        exists|ms: u64| is_reading(ms) && name@ == #[trigger] file_name(key@, ms),
{
    let ms: u64 = now_ms();
    progress_filename_at(key, ms)
}

/// The name of the file of the background task `task_id` of the delegate `corr_key`.
pub fn progress_filename_async_at(corr_key: &str, task_id: &str, ms: u64) -> (name: String)
    ensures
        name@ == file_name_async(corr_key@, task_id@, ms),
{
    let mut name = corr_key.to_string();
    name.append(".");
    name.append(task_id);
    name.append(".");
    name.append(to_decimal(ms).as_str());
    name.append(".ndjson");
    name
}

/// A name that can be found by the delegate's key and by its task, with the current time.
pub fn progress_filename_async(corr_key: &str, task_id: &str) -> (name: String)
    ensures
        exists|ms: u64| is_reading(ms) && name@ == #[trigger] file_name_async(corr_key@, task_id@, ms),
{
    let ms: u64 = now_ms();
    progress_filename_async_at(corr_key, task_id, ms)
}

/// Where the last dot of `s` stands, or -1.
pub open spec fn last_dot(s: Seq<char>) -> int
    decreases s.len(),
{
    if s.len() == 0 {
        -1
    } else if s.last() == '.' {
        s.len() - 1
    } else {
        last_dot(s.drop_last())
    }
}

/// The name of a file without its extension. A dot at the beginning starts no extension.
pub open spec fn stem(name: Seq<char>) -> Seq<char> {
    let dot = last_dot(name);
    if dot <= 0 || name == seq!['.', '.'] {
        name
    } else {
        name.take(dot)
    }
}

/// The time in the name of a file: what stands behind the last dot of its stem.
pub open spec fn timestamp(name: Seq<char>) -> Option<u64> {
    let s = stem(name);
    parsed_u64(s.skip(last_dot(s) + 1))
}

proof fn last_dot_facts(s: Seq<char>)
    ensures
        -1 <= last_dot(s) < s.len(),
        last_dot(s) >= 0 ==> s[last_dot(s)] == '.',
        forall|i: int| last_dot(s) < i < s.len() ==> s[i] != '.',
    decreases s.len(),
{
    if s.len() > 0 && s.last() != '.' {
        last_dot_facts(s.drop_last());
        assert forall|i: int| last_dot(s) < i < s.len() implies s[i] != '.' by {
            if i < s.len() - 1 {
                assert(s.drop_last()[i] == s[i]);
            }
        }
    }
}

proof fn last_dot_is(s: Seq<char>, p: int)
    requires
        0 <= p < s.len(),
        s[p] == '.',
        forall|i: int| p < i < s.len() ==> s[i] != '.',
    ensures
        last_dot(s) == p,
{
    last_dot_facts(s);
}

/// The position behind the last dot of `chars[..end]`.
fn after_last_dot(chars: &Vec<char>, end: usize) -> (start: usize)
    requires
        end <= chars@.len(),
    ensures
        start == last_dot(chars@.take(end as int)) + 1,
{
    let ghost s = chars@.take(end as int);
    let mut i: usize = end;
    assert(s.take(end as int) =~= s);
    while i > 0
        invariant
            i <= end <= chars@.len(),
            s == chars@.take(end as int),
            last_dot(s) == last_dot(s.take(i as int)),
        decreases i,
    {
        assert(s.take(i as int).drop_last() =~= s.take(i - 1));
        assert(s.take(i as int).last() == chars@[i - 1]);
        if chars[i - 1] == '.' {
            return i;
        }
        i = i - 1;
    }
    0
}

/// The characters of the stem of `name`.
fn stem_chars(name: &str) -> (chars: Vec<char>)
    ensures
        chars@ == stem(name@),
{
    let all = to_chars(name);
    assert(all@.take(all@.len() as int) =~= all@);
    let start: usize = after_last_dot(&all, all.len());
    if start <= 1 || (all.len() == 2 && all[0] == '.' && all[1] == '.') {
        proof {
            if all@.len() == 2 && all@[0] == '.' && all@[1] == '.' {
                assert(all@ =~= seq!['.', '.']);
            }
        }
        return all;
    }
    proof {
        last_dot_facts(all@);
    }
    let dotted = from_chars(&all, 0, start - 1);
    assert(name@.subrange(0, start - 1) =~= name@.take(start - 1));
    to_chars(dotted.as_str())
}

/// The time in the name of a file.
pub fn file_timestamp(name: &str) -> (ms: Option<u64>)
    ensures
        ms == timestamp(name@),
{
    let s = stem_chars(name);
    assert(s@.take(s@.len() as int) =~= s@);
    let start: usize = after_last_dot(&s, s.len());
    proof {
        last_dot_facts(s@);
    }
    parse_u64(&s, start)
}

proof fn digits_have_no_dot(n: nat)
    ensures
        forall|i: int| 0 <= i < decimal(n).len() ==> decimal(n)[i] != '.',
{
    decimal_denotes(n);
    assert forall|i: int| 0 <= i < decimal(n).len() implies decimal(n)[i] != '.' by {
        assert(all_digits(decimal(n)));
    }
}

/// What the parts of a name with a time in it are.
proof fn named_parts(head: Seq<char>, ms: u64)
    requires
        head.len() > 0,
        head.last() == '.',
    ensures
        stem(head + decimal(ms as nat) + ".ndjson"@) == head + decimal(ms as nat),
        timestamp(head + decimal(ms as nat) + ".ndjson"@) == Some(ms),
{
    reveal_strlit(".ndjson");
    let d = decimal(ms as nat);
    let ext = ".ndjson"@;
    let name = head + d + ext;
    let s = head + d;
    digits_have_no_dot(ms as nat);
    decimal_denotes(ms as nat);
    assert(name.len() == s.len() + 7);
    assert forall|i: int| s.len() < i < name.len() implies name[i] != '.' by {
        assert(name[i] == ext[i - s.len()]);
    }
    assert(name[s.len() as int] == ext[0]);
    last_dot_is(name, s.len() as int);
    assert(name.take(s.len() as int) =~= s);
    assert(name != seq!['.', '.']);
    assert forall|i: int| head.len() - 1 < i < s.len() implies s[i] != '.' by {
        assert(s[i] == d[i - head.len()]);
    }
    last_dot_is(s, head.len() - 1);
    assert(s.skip(head.len() as int) =~= d);
    parsing_undoes_decimal(ms);
}

/// The time at which a file is created can be read back from its name.
pub proof fn timestamp_is_read_back(key: Seq<char>, task: Seq<char>, ms: u64)
    ensures
        timestamp(file_name(key, ms)) == Some(ms),
        timestamp(file_name_async(key, task, ms)) == Some(ms),
{
    reveal_strlit(".");
    named_parts(key + "."@, ms);
    named_parts(key + "."@ + task + "."@, ms);
}

// ── sweeping ─────────────────────────────────────────────────────────────────
/// Whether a file of that name is too old at time `now`.
pub open spec fn is_stale(name: Seq<char>, now: u64) -> bool {
    match timestamp(name) {
        Some(ms) => ms + MAX_AGE_MS < now,
        None => false,
    }
}

/// The stale ones of `names`, in order.
pub open spec fn stale(names: Seq<Seq<char>>, now: u64) -> Seq<Seq<char>> {
    names.filter(|name: Seq<char>| is_stale(name, now))
}

/// The files to remove at time `now` from a directory that lists `names`.
pub fn sweep_old_files_at(names: &Vec<String>, now: u64) -> (old: Vec<String>)
    ensures
        texts(old@) == stale(texts(names@), now),
{
    let cutoff: u64 = if now > MAX_AGE_MS { now - MAX_AGE_MS } else { 0 };
    let mut old: Vec<String> = Vec::new();
    let mut i: usize = 0;
    let ghost p = |name: Seq<char>| is_stale(name, now);
    assert(texts(names@).take(0).filter(p) =~= Seq::empty()) by {
        reveal(Seq::filter);
    }
    while i < names.len()
        invariant
            i <= names@.len(),
            cutoff == if now > MAX_AGE_MS { now - MAX_AGE_MS } else { 0 },
            p == (|name: Seq<char>| is_stale(name, now)),
            texts(old@) == texts(names@).take(i as int).filter(p),
        decreases names@.len() - i,
    {
        let ghost list = texts(names@);
        let ghost before = texts(old@);
        proof {
            assert(list.take(i + 1).drop_last() =~= list.take(i as int));
            assert(list.take(i + 1).last() == names@[i as int]@);
            reveal(Seq::filter);
        }
        match file_timestamp(names[i].as_str()) {
            Some(ms) => {
                if ms < cutoff {
                    old.push(names[i].clone());
                    assert(texts(old@) =~= before.push(names@[i as int]@));
                }
            },
            None => {},
        }
        i = i + 1;
    }
    assert(texts(names@).take(i as int) =~= texts(names@));
    old
}

/// The files to remove from a directory that lists `names`: those that are stale by the clock.
pub fn sweep_old_files(names: &Vec<String>) -> (old: Vec<String>)
    ensures
        exists|now: u64| is_reading(now) && texts(old@) == #[trigger] stale(texts(names@), now),
{
    let now: u64 = now_ms();
    sweep_old_files_at(names, now)
}

/// A file is not swept before it is an hour old, and always after.
pub proof fn files_live_for_an_hour(key: Seq<char>, task: Seq<char>, ms: u64, now: u64)
    ensures
        is_stale(file_name(key, ms), now) == (now - ms > 3_600_000),
        is_stale(file_name_async(key, task, ms), now) == (now - ms > 3_600_000),
{
    timestamp_is_read_back(key, task, ms);
}

// ── finding ──────────────────────────────────────────────────────────────────
/// A file of that name belongs to `key`: to a delegate of that key or to a task of that name.
pub open spec fn belongs_to(name: Seq<char>, key: Seq<char>) -> bool {
    occurs_at(name, key + "."@, 0) || has_infix(stem(name), "."@ + key + "."@)
}

/// A file of that name belongs to `key` and was created at `not_before_ms` or later.
pub open spec fn qualifies(name: Seq<char>, key: Seq<char>, not_before_ms: u64) -> bool {
    &&& belongs_to(name, key)
    &&& timestamp(name) is Some
    &&& timestamp(name)->0 >= not_before_ms
}

/// `names[i]` is the newest that qualifies, and the first one of those that are equally new.
pub open spec fn is_newest(
    names: Seq<Seq<char>>,
    key: Seq<char>,
    not_before_ms: u64,
    i: int,
) -> bool {
    &&& 0 <= i < names.len()
    &&& qualifies(names[i], key, not_before_ms)
    &&& forall|j: int|
        0 <= j < names.len() && qualifies(#[trigger] names[j], key, not_before_ms) ==> timestamp(
            names[j],
        )->0 <= timestamp(names[i])->0
    &&& forall|j: int|
        0 <= j < i && qualifies(#[trigger] names[j], key, not_before_ms) ==> timestamp(
            names[j],
        )->0 < timestamp(names[i])->0
}

/// None of `names` belongs to `key` and was created at `not_before_ms` or later.
pub open spec fn none_qualifies(
    names: Seq<Seq<char>>,
    key: Seq<char>,
    not_before_ms: u64,
) -> bool {
    forall|i: int| 0 <= i < names.len() ==> !qualifies(#[trigger] names[i], key, not_before_ms)
}

/// The newest of `names` that belongs to `key` and was created at `not_before_ms` or later.
pub fn find_progress_file(names: &Vec<String>, key: &str, not_before_ms: u64) -> (found: Option<
    String,
>)
    ensures
        match found {
            Some(name) => exists|i: int|
                #[trigger] is_newest(texts(names@), key@, not_before_ms, i) && name@
                    == names@[i]@,
            None => forall|i: int|
                0 <= i < names@.len() ==> !qualifies(
                    (#[trigger] names@[i])@,
                    key@,
                    not_before_ms,
                ),
        },
        found is None ==> none_qualifies(texts(names@), key@, not_before_ms),
{
    let mut prefix = key.to_string();
    prefix.append(".");
    let mut infix = ".".to_string();
    infix.append(key);
    infix.append(".");
    let mut best: Option<(u64, usize)> = None;
    let mut i: usize = 0;
    let ghost list = texts(names@);
    while i < names.len()
        invariant
            i <= names@.len(),
            list == texts(names@),
            prefix@ == key@ + "."@,
            infix@ == "."@ + key@ + "."@,
            match best {
                Some(b) => {
                    &&& is_newest(list.take(i as int), key@, not_before_ms, b.1 as int)
                    &&& timestamp(list[b.1 as int]) == Some(b.0)
                },
                None => forall|j: int|
                    0 <= j < i ==> !qualifies(#[trigger] list[j], key@, not_before_ms),
            },
        decreases names@.len() - i,
    {
        let name = names[i].as_str();
        let stem_text = stem_of(name);
        let ghost before = list.take(i as int);
        let ghost after = list.take(i + 1);
        assert(list[i as int] == name@);
        assert(forall|j: int| 0 <= j < i ==> before[j] == list[j]);
        assert(forall|j: int| 0 <= j <= i ==> after[j] == list[j]);
        let mut newer = false;
        let ghost earlier = best;
        if starts_with(name, prefix.as_str()) || contains_text(stem_text.as_str(), infix.as_str()) {
            match file_timestamp(name) {
                Some(ms) => {
                    let later = match best {
                        Some(b) => ms > b.0,
                        None => true,
                    };
                    if ms >= not_before_ms && later {
                        newer = true;
                        best = Some((ms, i));
                    }
                },
                None => {},
            }
        }
        proof {
            if newer {
                assert forall|j: int|
                    0 <= j < i && qualifies(#[trigger] after[j], key@, not_before_ms) implies timestamp(
                    after[j],
                )->0 < timestamp(after[i as int])->0 by {
                    assert(qualifies(before[j], key@, not_before_ms));
                    assert(qualifies(list[j], key@, not_before_ms));
                }
                assert(is_newest(after, key@, not_before_ms, i as int));
            } else {
                match best {
                    Some(b) => {
                        assert forall|j: int|
                            0 <= j < after.len() && qualifies(
                                #[trigger] after[j],
                                key@,
                                not_before_ms,
                            ) implies timestamp(after[j])->0 <= timestamp(
                            after[b.1 as int],
                        )->0 by {
                            if j < i {
                                assert(qualifies(before[j], key@, not_before_ms));
                            }
                        }
                        assert forall|j: int|
                            0 <= j < b.1 && qualifies(
                                #[trigger] after[j],
                                key@,
                                not_before_ms,
                            ) implies timestamp(after[j])->0 < timestamp(after[b.1 as int])->0 by {
                            assert(qualifies(before[j], key@, not_before_ms));
                        }
                        assert(is_newest(after, key@, not_before_ms, b.1 as int));
                    },
                    None => {},
                }
            }
        }
        i = i + 1;
    }
    assert(list.take(i as int) =~= list);
    match best {
        Some(b) => Some(names[b.1].clone()),
        None => {
            assert forall|j: int| 0 <= j < names@.len() implies !qualifies(
                (#[trigger] names@[j])@,
                key@,
                not_before_ms,
            ) by {
                assert(list[j] == names@[j]@);
            }
            None
        },
    }
}

/// The stem of `name`.
fn stem_of(name: &str) -> (s: String)
    ensures
        s@ == stem(name@),
{
    let chars = stem_chars(name);
    let s = from_chars(&chars, 0, chars.len());
    assert(s@ =~= chars@);
    s
}

/// A file is found by the key of its delegate from the time of its creation on.
pub proof fn found_by_key(key: Seq<char>, ms: u64, not_before_ms: u64)
    requires
        not_before_ms <= ms,
    ensures
        qualifies(file_name(key, ms), key, not_before_ms),
{
    timestamp_is_read_back(key, key, ms);
    let name = file_name(key, ms);
    assert(name.subrange(0, (key + "."@).len() as int) =~= key + "."@);
    assert(occurs_at(name, key + "."@, 0));
}

/// The file of a background task is found by the key of its delegate and by its task, from the
/// time of its creation on.
pub proof fn found_by_key_and_task(key: Seq<char>, task: Seq<char>, ms: u64, not_before_ms: u64)
    requires
        not_before_ms <= ms,
    ensures
        qualifies(file_name_async(key, task, ms), key, not_before_ms),
        qualifies(file_name_async(key, task, ms), task, not_before_ms),
{
    reveal_strlit(".");
    timestamp_is_read_back(key, task, ms);
    let name = file_name_async(key, task, ms);
    assert(name.subrange(0, (key + "."@).len() as int) =~= key + "."@);
    assert(occurs_at(name, key + "."@, 0));
    let head = key + "."@ + task + "."@;
    named_parts(head, ms);
    let s = stem(name);
    let infix = "."@ + task + "."@;
    assert(s == head + decimal(ms as nat));
    assert(s.subrange(key.len() as int, (key.len() + infix.len()) as int) =~= infix);
    assert(occurs_at(s, infix, key.len() as int));
}

// ── events ───────────────────────────────────────────────────────────────────
/// What happens to a delegate; `ts` is in milliseconds since the Unix epoch.
#[derive(Debug)]
pub enum ProgressEvent {
    Start {
        ts: u64,
        /// A label for people.
        name: Option<String>,
        subagent_session_id: Option<String>,
    },
    Tool {
        ts: u64,
        tool_name: String,
        summary: Option<String>,
        /// Tool calls so far.
        tool_count: Option<u32>,
        /// Turns so far.
        turn_count: Option<u32>,
    },
    Done { ts: u64 },
}

impl ProgressEvent {
    /// When the event happens.
    pub open spec fn time(self) -> u64 {
        match self {
            ProgressEvent::Start { ts, .. } => ts,
            ProgressEvent::Tool { ts, .. } => ts,
            ProgressEvent::Done { ts } => ts,
        }
    }

    /// The event that a delegate starts at `ts`.
    pub fn start_at(ts: u64, name: Option<String>, subagent_session_id: Option<String>) -> (event:
        Self)
        ensures
            event == (ProgressEvent::Start { ts, name, subagent_session_id }),
    {
        ProgressEvent::Start { ts, name, subagent_session_id }
    }

    /// The event that a delegate starts now.
    pub fn start(name: Option<String>, subagent_session_id: Option<String>) -> (event: Self)
        ensures
            event == (ProgressEvent::Start { ts: event.time(), name, subagent_session_id }),
            is_reading(event.time()),
    {
        let ts: u64 = now_ms();
        Self::start_at(ts, name, subagent_session_id)
    }

    /// The event that a tool is called at `ts`.
    pub fn tool_at(
        ts: u64,
        tool_name: String,
        summary: Option<String>,
        tool_count: Option<u32>,
        turn_count: Option<u32>,
    ) -> (event: Self)
        ensures
            event == (ProgressEvent::Tool { ts, tool_name, summary, tool_count, turn_count }),
    {
        ProgressEvent::Tool { ts, tool_name, summary, tool_count, turn_count }
    }

    /// The event that a tool is called now.
    pub fn tool(
        tool_name: String,
        summary: Option<String>,
        tool_count: Option<u32>,
        turn_count: Option<u32>,
    ) -> (event: Self)
        ensures
            event == (ProgressEvent::Tool {
                ts: event.time(),
                tool_name,
                summary,
                tool_count,
                turn_count,
            }),
            is_reading(event.time()),
    {
        let ts: u64 = now_ms();
        Self::tool_at(ts, tool_name, summary, tool_count, turn_count)
    }

    /// The event that a delegate is done at `ts`.
    pub fn done_at(ts: u64) -> (event: Self)
        ensures
            event == (ProgressEvent::Done { ts }),
    {
        ProgressEvent::Done { ts }
    }

    /// The event that a delegate is done now.
    pub fn done() -> (event: Self)
        ensures
            event == (ProgressEvent::Done { ts: event.time() }),
            is_reading(event.time()),
    {
        let ts: u64 = now_ms();
        Self::done_at(ts)
    }
}

// ── text ─────────────────────────────────────────────────────────────────────
/// The line for a tool call; without a summary it is the name of the tool alone.
pub open spec fn tool_line(tool_name: Seq<char>, summary: Option<String>) -> Seq<char> {
    match summary {
        Some(s) => if s@.len() == 0 {
            "→ "@ + tool_name
        } else {
            "→ "@ + tool_name + ": "@ + s@
        },
        None => "→ "@ + tool_name,
    }
}

/// The lines for the tool calls among `events`, in order.
pub open spec fn progress_lines(events: Seq<ProgressEvent>) -> Seq<Seq<char>>
    decreases events.len(),
{
    if events.len() == 0 {
        Seq::empty()
    } else {
        let before = progress_lines(events.drop_last());
        match events.last() {
            ProgressEvent::Tool { tool_name, summary, .. } => before.push(
                tool_line(tool_name@, summary),
            ),
            _ => before,
        }
    }
}

/// The text for `events`: one line for every tool call.
pub open spec fn progress_text(events: Seq<ProgressEvent>) -> Seq<char> {
    join(progress_lines(events), "\n"@)
}

fn format_tool_line(tool_name: &str, summary: &Option<String>) -> (line: String)
    ensures
        line@ == tool_line(tool_name@, *summary),
{
    let mut line = "→ ".to_string();
    line.append(tool_name);
    match summary {
        Some(s) => {
            if !s.as_str().is_empty() {
                line.append(": ");
                line.append(s.as_str());
            }
        },
        None => {},
    }
    line
}

/// Turns events into text for people: one line for every tool call.
pub fn format_progress_lines(events: &[ProgressEvent]) -> (text: String)
    ensures
        text@ == progress_text(events@),
{
    let mut lines: Vec<String> = Vec::new();
    let mut i: usize = 0;
    assert(texts(lines@) =~= progress_lines(events@.take(0)));
    while i < events.len()
        invariant
            i <= events@.len(),
            texts(lines@) == progress_lines(events@.take(i as int)),
        decreases events@.len() - i,
    {
        let ghost before = texts(lines@);
        proof {
            assert(events@.take(i + 1).drop_last() =~= events@.take(i as int));
            assert(events@.take(i + 1).last() == events@[i as int]);
        }
        match &events[i] {
            ProgressEvent::Tool { tool_name, summary, .. } => {
                let line = format_tool_line(tool_name.as_str(), summary);
                lines.push(line);
                assert(texts(lines@) =~= before.push(line@));
            },
            _ => {},
        }
        i = i + 1;
    }
    assert(events@.take(i as int) =~= events@);
    join_texts(&lines, "\n")
}

proof fn tool_line_shows(tool_name: Seq<char>, summary: Option<String>)
    ensures
        tool_line(tool_name, summary).len() > 0,
{
    reveal_strlit("→ ");
}

/// A further event leaves the text so far as it is, and a tool call adds to it.
pub proof fn text_only_grows(events: Seq<ProgressEvent>, event: ProgressEvent)
    ensures
        progress_text(events).is_prefix_of(progress_text(events.push(event))),
        event is Tool ==> progress_text(events).len() < progress_text(events.push(event)).len(),
        !(event is Tool) ==> progress_text(events) == progress_text(events.push(event)),
{
    let all = events.push(event);
    assert(all.drop_last() =~= events);
    let before = progress_lines(events);
    match event {
        ProgressEvent::Tool { tool_name, summary, .. } => {
            let line = tool_line(tool_name@, summary);
            tool_line_shows(tool_name@, summary);
            let after = progress_lines(all);
            assert(after =~= before.push(line));
            assert(after.drop_last() =~= before);
            let text = progress_text(events);
            if before.len() == 0 {
                assert(text.is_prefix_of(progress_text(all)));
            } else {
                assert(progress_text(all) == text + "\n"@ + line);
                assert(progress_text(all).take(text.len() as int) =~= text);
            }
        },
        _ => {},
    }
}

/// The lines of events in a row are the lines of the first ones and then those of the others.
pub proof fn lines_of_both(a: Seq<ProgressEvent>, b: Seq<ProgressEvent>)
    ensures
        progress_lines(a + b) == progress_lines(a) + progress_lines(b),
    decreases b.len(),
{
    if b.len() == 0 {
        assert(a + b =~= a);
        assert(progress_lines(a) + progress_lines(b) =~= progress_lines(a));
    } else {
        lines_of_both(a, b.drop_last());
        assert((a + b).drop_last() =~= a + b.drop_last());
        assert((a + b).last() == b.last());
        assert(progress_lines(a + b) =~= progress_lines(a) + progress_lines(b));
    }
}

/// A piece of a text that is extended stays a piece of it.
proof fn infix_of_extended(hay: Seq<char>, tail: Seq<char>, needle: Seq<char>)
    requires
        has_infix(hay, needle),
    ensures
        has_infix(hay + tail, needle),
{
    let i = choose|i: int| #[trigger] occurs_at(hay, needle, i);
    assert(occurs_at(hay, needle, i));
    assert((hay + tail).subrange(i, i + needle.len()) =~= hay.subrange(i, i + needle.len()));
    assert(occurs_at(hay + tail, needle, i));
}

/// Every tool call among the events has its line in the text.
pub proof fn every_tool_call_shows(events: Seq<ProgressEvent>, i: int)
    requires
        0 <= i < events.len(),
    ensures
        match events[i] {
            ProgressEvent::Tool { tool_name, summary, .. } => has_infix(
                progress_text(events),
                tool_line(tool_name@, summary),
            ),
            _ => true,
        },
    decreases events.len(),
{
    let rest = events.drop_last();
    let last = events.last();
    assert(events =~= rest.push(last));
    text_only_grows(rest, last);
    let text = progress_text(events);
    if i == events.len() - 1 {
        match last {
            ProgressEvent::Tool { tool_name, summary, .. } => {
                let line = tool_line(tool_name@, summary);
                let lines = progress_lines(events);
                assert(lines.last() == line);
                let at = text.len() - line.len();
                if lines.len() == 1 {
                    assert(text == line);
                } else {
                    assert(text == join(lines.drop_last(), "\n"@) + "\n"@ + line);
                }
                assert(text.subrange(at, at + line.len()) =~= line);
                assert(occurs_at(text, line, at));
            },
            _ => {},
        }
    } else {
        every_tool_call_shows(rest, i);
        let before = progress_text(rest);
        assert(text =~= before + text.skip(before.len() as int));
        match events[i] {
            ProgressEvent::Tool { tool_name, summary, .. } => {
                infix_of_extended(
                    before,
                    text.skip(before.len() as int),
                    tool_line(tool_name@, summary),
                );
            },
            _ => {},
        }
    }
}

// ── writing ──────────────────────────────────────────────────────────────────
/// An event and the file to append it to.
pub struct ProgressRecord {
    pub path: String,
    pub event: ProgressEvent,
}

/// Writes the progress of one delegate.
pub struct ProgressWriter {
    /// The file that the events go to.
    pub path: String,
}

impl ProgressWriter {
    /// A writer for the delegate `key` whose file is created at `ms` in `dir`.
    pub fn new_at(dir: &str, key: &str, ms: u64) -> (writer: Self)
        ensures
            writer.path@ == joined(dir@, file_name(key@, ms)),
    {
        let name = progress_filename_at(key, ms);
        ProgressWriter { path: join_path(dir, name.as_str()) }
    }

    /// A writer for the delegate `key` whose file is created now in `dir`.
    pub fn new(dir: &str, key: &str) -> (writer: Self)
        ensures
            exists|ms: u64|
                is_reading(ms) && writer.path@ == joined(dir@, #[trigger] file_name(key@, ms)),
    {
        let ms: u64 = now_ms();
        Self::new_at(dir, key, ms)
    }

    /// A writer for a background task whose file is created at `ms` in `dir`.
    pub fn new_async_at(dir: &str, corr_key: &str, task_id: &str, ms: u64) -> (writer: Self)
        ensures
            writer.path@ == joined(dir@, file_name_async(corr_key@, task_id@, ms)),
    {
        let name = progress_filename_async_at(corr_key, task_id, ms);
        ProgressWriter { path: join_path(dir, name.as_str()) }
    }

    /// A writer for a background task whose file is created now in `dir`.
    pub fn new_async(dir: &str, corr_key: &str, task_id: &str) -> (writer: Self)
        ensures
            exists|ms: u64|
                is_reading(ms) && writer.path@ == joined(
                    dir@,
                    #[trigger] file_name_async(corr_key@, task_id@, ms),
                ),
    {
        let ms: u64 = now_ms();
        Self::new_async_at(dir, corr_key, task_id, ms)
    }

    fn record(&self, event: ProgressEvent) -> (record: ProgressRecord)
        ensures
            record.path@ == self.path@,
            record.event == event,
    {
        ProgressRecord { path: self.path.clone(), event }
    }

    /// Records that the delegate starts.
    pub fn write_start(
        &self,
        name: Option<String>,
        subagent_session_id: Option<String>,
    ) -> (record: ProgressRecord)
        ensures
            record.path@ == self.path@,
            record.event == (ProgressEvent::Start {
                ts: record.event.time(),
                name,
                subagent_session_id,
            }),
            is_reading(record.event.time()),
    {
        self.record(ProgressEvent::start(name, subagent_session_id))
    }

    /// Records a tool call. The summary goes to the file in a form that fits on one line.
    pub fn write_tool(
        &self,
        tool_name: &str,
        summary: Option<&str>,
        tool_count: Option<u32>,
        turn_count: Option<u32>,
    ) -> (record: ProgressRecord)
        ensures
            record.path@ == self.path@,
            match record.event {
                ProgressEvent::Tool { ts, tool_name: n, summary: s, tool_count: c, turn_count: t } => {
                    &&& n@ == tool_name@
                    &&& c == tool_count
                    &&& t == turn_count
                    &&& match summary {
                        Some(text) => s is Some && s->0@ == sanitized(text@, usize::MAX as nat)
                            && is_clean(s->0@),
                        None => s is None,
                    }
                },
                _ => false,
            },
            is_reading(record.event.time()),
    {
        let clean = match summary {
            Some(text) => {
                proof {
                    sanitized_is_clean(text@, usize::MAX as nat);
                }
                Some(sanitize_summary(text, usize::MAX))
            },
            None => None,
        };
        self.record(ProgressEvent::tool(tool_name.to_string(), clean, tool_count, turn_count))
    }

    /// Records that the delegate is done.
    pub fn write_done(&self) -> (record: ProgressRecord)
        ensures
            record.path@ == self.path@,
            record.event == (ProgressEvent::Done { ts: record.event.time() }),
            is_reading(record.event.time()),
    {
        self.record(ProgressEvent::done())
    }
}

// ── what belongs to whom ─────────────────────────────────────────────────────
/// No dot in `s`.
pub open spec fn dotless(s: Seq<char>) -> bool {
    forall|i: int| 0 <= i < s.len() ==> #[trigger] s[i] != '.'
}

/// A name that begins with a dotless part and a dot begins with no other such part.
proof fn first_part_is_unique(name: Seq<char>, part: Seq<char>, rest: Seq<char>, k: Seq<char>)
    requires
        name == part + "."@ + rest,
        dotless(part),
        dotless(k),
        occurs_at(name, k + "."@, 0),
    ensures
        k == part,
{
    reveal_strlit(".");
    let n = part.len() as int;
    let m = k.len() as int;
    let begin = name.subrange(0, m + 1);
    assert(begin == k + "."@);
    assert(name[n] == '.');
    assert(begin[m] == '.');
    if m < n {
        assert(name[m] == part[m]);
    } else if m > n {
        assert(begin[n] == k[n]);
        assert(name[n] == begin[n]);
    } else {
        assert forall|i: int| 0 <= i < n implies k[i] == part[i] by {
            assert(begin[i] == k[i]);
            assert(name[i] == part[i]);
        }
        assert(k =~= part);
    }
}

/// Files of others are not found: the file of a delegate belongs to that delegate alone, and the
/// file of a background task to its delegate and its task alone, whenever it was created and
/// whatever time is asked for.
pub proof fn files_of_others_are_not_found(
    key: Seq<char>,
    task: Seq<char>,
    k: Seq<char>,
    ms: u64,
    not_before_ms: u64,
)
    requires
        dotless(key),
        dotless(task),
        dotless(k),
    ensures
        k != key ==> !qualifies(file_name(key, ms), k, not_before_ms),
        k != key && k != task ==> !qualifies(file_name_async(key, task, ms), k, not_before_ms),
{
    reveal_strlit(".");
    let d = decimal(ms as nat);
    digits_have_no_dot(ms as nat);
    let infix = "."@ + k + "."@;
    // A file of the delegate.
    let name = file_name(key, ms);
    let s = key + "."@ + d;
    named_parts(key + "."@, ms);
    assert(name =~= key + "."@ + (d + ".ndjson"@));
    if occurs_at(name, k + "."@, 0) {
        first_part_is_unique(name, key, d + ".ndjson"@, k);
    }
    if has_infix(s, infix) {
        let i = choose|i: int| #[trigger] occurs_at(s, infix, i);
        assert(occurs_at(s, infix, i));
        let found = s.subrange(i, i + infix.len());
        assert(found[0] == '.' && found[k.len() as int + 1] == '.');
        only_dot(key, d, i);
        only_dot(key, d, i + k.len() + 1);
    }
    // A file of the background task.
    let name = file_name_async(key, task, ms);
    let s = key + "."@ + task + "."@ + d;
    named_parts(key + "."@ + task + "."@, ms);
    let rest = task + "."@ + d + ".ndjson"@;
    assert(name =~= key + "."@ + rest);
    if occurs_at(name, k + "."@, 0) {
        first_part_is_unique(name, key, rest, k);
    }
    if has_infix(s, infix) {
        let i = choose|i: int| #[trigger] occurs_at(s, infix, i);
        assert(occurs_at(s, infix, i));
        let found = s.subrange(i, i + infix.len());
        let j = i + k.len() + 1;
        assert(found[0] == '.' && found[k.len() as int + 1] == '.');
        assert(s[i] == '.' && s[j] == '.');
        two_dots(key, task, d, i);
        two_dots(key, task, d, j);
        if k.len() == task.len() {
            assert forall|a: int| 0 <= a < k.len() implies k[a] == task[a] by {
                assert(found[a + 1] == infix[a + 1]);
                assert(infix[a + 1] == k[a]);
                assert(s[key.len() + 1 + a] == task[a]);
            }
            assert(k =~= task);
        }
    }
}

proof fn only_dot(a: Seq<char>, b: Seq<char>, i: int)
    requires
        dotless(a),
        dotless(b),
        0 <= i < (a + "."@ + b).len(),
        (a + "."@ + b)[i] == '.',
    ensures
        i == a.len(),
{
    reveal_strlit(".");
    if i < a.len() {
        assert((a + "."@ + b)[i] == a[i]);
    } else if i > a.len() {
        assert((a + "."@ + b)[i] == b[i - a.len() - 1]);
    }
}

proof fn two_dots(a: Seq<char>, b: Seq<char>, c: Seq<char>, i: int)
    requires
        dotless(a),
        dotless(b),
        dotless(c),
        0 <= i < (a + "."@ + b + "."@ + c).len(),
        (a + "."@ + b + "."@ + c)[i] == '.',
    ensures
        i == a.len() || i == a.len() + 1 + b.len(),
{
    reveal_strlit(".");
    let s = a + "."@ + b + "."@ + c;
    if i < a.len() {
        assert(s[i] == a[i]);
    } else if a.len() < i < a.len() + 1 + b.len() {
        assert(s[i] == b[i - a.len() - 1]);
    } else if i > a.len() + 1 + b.len() {
        assert(s[i] == c[i - a.len() - b.len() - 2]);
    }
}

/// A file that qualifies carries a time in its name that is not too early.
pub proof fn found_files_are_recent(name: Seq<char>, key: Seq<char>, not_before_ms: u64)
    requires
        qualifies(name, key, not_before_ms),
    ensures
        timestamp(name) is Some,
        timestamp(name)->0 >= not_before_ms,
        occurs_at(name, key + "."@, 0) || has_infix(name, "."@ + key + "."@),
{
    last_dot_facts(name);
    if !occurs_at(name, key + "."@, 0) {
        let s = stem(name);
        assert(name =~= s + name.skip(s.len() as int));
        infix_of_extended(s, name.skip(s.len() as int), "."@ + key + "."@);
    }
}

/// The file that is found is one of those listed, belongs to the key, and none that qualifies is
/// newer; an earlier one in the listing is older.
pub proof fn found_file_is_newest(
    names: Seq<Seq<char>>,
    key: Seq<char>,
    not_before_ms: u64,
    i: int,
    j: int,
)
    requires
        is_newest(names, key, not_before_ms, i),
        0 <= j < names.len(),
        qualifies(names[j], key, not_before_ms),
    ensures
        0 <= i < names.len(),
        qualifies(names[i], key, not_before_ms),
        timestamp(names[i])->0 >= timestamp(names[j])->0,
        j < i ==> timestamp(names[i])->0 > timestamp(names[j])->0,
{
}

// ── what names tell ──────────────────────────────────────────────────────────
/// The stem is what stands before the last dot; without a dot, or with one at the beginning only,
/// it is the whole name.
pub proof fn stem_ends_at_last_dot(front: Seq<char>, extension: Seq<char>)
    requires
        dotless(extension),
        front.len() > 0,
        !(front == seq!['.'] && extension.len() == 0),
    ensures
        stem(front + seq!['.'] + extension) == front,
        stem(extension) == extension,
        stem(seq!['.'] + extension) == seq!['.'] + extension,
{
    let name = front + seq!['.'] + extension;
    let n = front.len() as int;
    assert forall|i: int| n < i < name.len() implies name[i] != '.' by {
        assert(name[i] == extension[i - n - 1]);
    }
    last_dot_is(name, n);
    assert(name.take(n) =~= front);
    if name == seq!['.', '.'] {
        assert(name.len() == 2);
        assert(front =~= seq![name[0]]);
    }
    last_dot_facts(extension);
    let hidden = seq!['.'] + extension;
    assert forall|i: int| 0 < i < hidden.len() implies hidden[i] != '.' by {
        assert(hidden[i] == extension[i - 1]);
    }
    last_dot_is(hidden, 0);
}

/// The time in a name is the number between the last two dots, and there is none where nothing
/// else than a number stands there.
pub proof fn time_stands_between_last_dots(
    front: Seq<char>,
    number: Seq<char>,
    extension: Seq<char>,
)
    requires
        dotless(number),
        dotless(extension),
        number.len() > 0 || extension.len() > 0 || front.len() > 0,
    ensures
        timestamp(front + seq!['.'] + number + seq!['.'] + extension) == parsed_u64(number),
{
    let s = front + seq!['.'] + number;
    let name = s + seq!['.'] + extension;
    let n = s.len() as int;
    assert forall|i: int| n < i < name.len() implies name[i] != '.' by {
        assert(name[i] == extension[i - n - 1]);
    }
    last_dot_is(name, n);
    assert(name.take(n) =~= s);
    if name == seq!['.', '.'] {
        assert(name.len() == 2);
    }
    let p = front.len() as int;
    assert forall|i: int| p < i < s.len() implies s[i] != '.' by {
        assert(s[i] == number[i - p - 1]);
    }
    last_dot_is(s, p);
    assert(s.skip(p + 1) =~= number);
}

/// Different delegates and different times give different names.
pub proof fn names_differ(a: Seq<char>, m: u64, b: Seq<char>, n: u64)
    requires
        file_name(a, m) == file_name(b, n),
    ensures
        a == b,
        m == n,
{
    timestamp_is_read_back(a, a, m);
    timestamp_is_read_back(b, b, n);
    let tail = "."@ + decimal(m as nat) + ".ndjson"@;
    assert(file_name(a, m) =~= a + tail);
    assert(file_name(b, n) =~= b + tail);
    assert(a =~= file_name(a, m).take(file_name(a, m).len() - tail.len()));
    assert(b =~= file_name(b, n).take(file_name(b, n).len() - tail.len()));
}

/// A name begins with the key and ends with the extension.
pub proof fn names_show_their_parts(key: Seq<char>, task: Seq<char>, ms: u64)
    ensures
        (key + "."@).is_prefix_of(file_name(key, ms)),
        (key + "."@ + task + "."@).is_prefix_of(file_name_async(key, task, ms)),
        ".ndjson"@.is_suffix_of(file_name(key, ms)),
        ".ndjson"@.is_suffix_of(file_name_async(key, task, ms)),
{
    let e = ".ndjson"@;
    let x = file_name(key, ms);
    let y = file_name_async(key, task, ms);
    assert(x.subrange(0, (key + "."@).len() as int) =~= key + "."@);
    assert(y.subrange(0, (key + "."@ + task + "."@).len() as int) =~= key + "."@ + task + "."@);
    assert(x.subrange(x.len() - e.len(), x.len() as int) =~= e);
    assert(y.subrange(y.len() - e.len(), y.len() as int) =~= e);
}

// ── what is swept ────────────────────────────────────────────────────────────
/// A file is stale exactly if its name carries a time more than an hour ago.
pub proof fn stale_means_over_an_hour(name: Seq<char>, now: u64)
    ensures
        is_stale(name, now) <==> timestamp(name) is Some && now - timestamp(name)->0 > 3_600_000,
{
}

/// Sweeping looks at every file by itself: of one file, and of files in a row.
pub proof fn sweeping_is_file_by_file(
    a: Seq<Seq<char>>,
    b: Seq<Seq<char>>,
    name: Seq<char>,
    now: u64,
)
    ensures
        stale(a + b, now) == stale(a, now) + stale(b, now),
        stale(seq![name], now) == (if is_stale(name, now) {
            seq![name]
        } else {
            Seq::empty()
        }),
    decreases b.len(),
{
    reveal(Seq::filter);
    let p = |n: Seq<char>| is_stale(n, now);
    assert(seq![name].drop_last() =~= Seq::<Seq<char>>::empty());
    assert(Seq::<Seq<char>>::empty().filter(p) =~= Seq::<Seq<char>>::empty());
    if is_stale(name, now) {
        assert(Seq::<Seq<char>>::empty().push(name) =~= seq![name]);
    }
    if b.len() == 0 {
        assert(a + b =~= a);
        assert(stale(a, now) + stale(b, now) =~= stale(a, now));
    } else {
        sweeping_is_file_by_file(a, b.drop_last(), name, now);
        assert((a + b).drop_last() =~= a + b.drop_last());
        assert((a + b).last() == b.last());
        assert(stale(a + b, now) =~= stale(a, now) + stale(b, now));
    }
}

// ── what events say ──────────────────────────────────────────────────────────
/// One tool call gives one line, with an arrow, the name of the tool and its summary, if it has
/// one; other events give none.
pub proof fn line_of_one_event(event: ProgressEvent)
    ensures
        match event {
            ProgressEvent::Tool { tool_name, summary, .. } => {
                &&& progress_lines(seq![event]).len() == 1
                &&& match summary {
                    Some(s) => if s@.len() > 0 {
                        progress_lines(seq![event])[0] == "→ "@ + tool_name@ + ": "@ + s@
                    } else {
                        progress_lines(seq![event])[0] == "→ "@ + tool_name@
                    },
                    None => progress_lines(seq![event])[0] == "→ "@ + tool_name@,
                }
            },
            _ => progress_lines(seq![event]).len() == 0,
        },
{
    assert(seq![event].drop_last() =~= Seq::<ProgressEvent>::empty());
    assert(progress_lines(Seq::<ProgressEvent>::empty()) =~= Seq::<Seq<char>>::empty());
}

/// The text is the lines, one under the other.
pub proof fn text_is_lines(events: Seq<ProgressEvent>)
    ensures
        progress_text(events) == join(progress_lines(events), seq!['\n']),
{
    reveal_strlit("\n");
    assert("\n"@ =~= seq!['\n']);
}

// ── where files lie ──────────────────────────────────────────────────────────
/// A path below a directory is the directory, one slash and the rest; a rest that starts at the
/// root stands for itself.
pub proof fn joining_adds_one_slash(base: Seq<char>, part: Seq<char>)
    ensures
        part.len() > 0 && part[0] == '/' ==> joined(base, part) == part,
        !(part.len() > 0 && part[0] == '/') && base.len() > 0 && base.last() != '/' ==> joined(
            base,
            part,
        ) == base.push('/') + part,
        !(part.len() > 0 && part[0] == '/') && base.len() > 0 && base.last() == '/' ==> joined(
            base,
            part,
        ) == base + part,
        !(part.len() > 0 && part[0] == '/') && base.len() == 0 ==> joined(base, part) == part,
{
    assert(base + seq!['/'] + part =~= base.push('/') + part);
    if base.len() == 0 {
        assert(base + part =~= part);
    }
}

/// The configured directory counts before the home directory, and that before `/tmp`; the progress
/// files lie in a fixed place below.
pub proof fn directory_is_configured(dir: Seq<char>, home: Seq<char>, any: Option<Seq<char>>)
    ensures
        progress_dir_of(Some(dir), any) == joined(dir, "goose/subagent-progress"@),
        progress_dir_of(None, Some(home)) == joined(
            joined(home, ".local/state"@),
            "goose/subagent-progress"@,
        ),
        progress_dir_of(None, None) == progress_dir_of(None, Some("/tmp"@)),
{
}

/// What is found for a key is one of the files that are there, is not too old, and is never the
/// file of another delegate and another task, even if their names begin or end alike.
pub proof fn finding_leaves_out_files_of_others(
    names: &Vec<String>,
    k: &str,
    not_before_ms: u64,
    found: Option<String>,
    key: Seq<char>,
    task: Seq<char>,
    ms: u64,
)
    requires
        call_ensures(find_progress_file, (names, k, not_before_ms), found),
        found is Some,
        dotless(key),
        dotless(task),
        dotless(k@),
    ensures
        texts(names@).contains(found->0@),
        found->0@ == file_name(key, ms) ==> k@ == key && ms >= not_before_ms,
        found->0@ == file_name_async(key, task, ms) ==> (k@ == key || k@ == task) && ms
            >= not_before_ms,
{
    let i = choose|i: int|
        #[trigger] is_newest(texts(names@), k@, not_before_ms, i) && found->0@ == names@[i]@;
    assert(texts(names@)[i] == found->0@);
    files_of_others_are_not_found(key, task, k@, ms, not_before_ms);
    timestamp_is_read_back(key, task, ms);
}

/// A file that was created in time is found by its delegate and by its task, unless a newer one is.
pub proof fn finding_takes_the_newest(
    names: &Vec<String>,
    k: &str,
    not_before_ms: u64,
    found: Option<String>,
    key: Seq<char>,
    task: Seq<char>,
    ms: u64,
    j: int,
)
    requires
        call_ensures(find_progress_file, (names, k, not_before_ms), found),
        0 <= j < names@.len(),
        ms >= not_before_ms,
        (names@[j]@ == file_name(key, ms) && k@ == key) || (names@[j]@ == file_name_async(
            key,
            task,
            ms,
        ) && (k@ == key || k@ == task)),
    ensures
        found is Some,
        timestamp(found->0@) is Some,
        timestamp(found->0@)->0 >= ms,
{
    found_by_key(key, ms, not_before_ms);
    found_by_key_and_task(key, task, ms, not_before_ms);
    timestamp_is_read_back(key, task, ms);
    assert(texts(names@)[j] == names@[j]@);
    assert(qualifies(names@[j]@, k@, not_before_ms));
    let i = choose|i: int|
        #[trigger] is_newest(texts(names@), k@, not_before_ms, i) && found->0@ == names@[i]@;
    found_file_is_newest(texts(names@), k@, not_before_ms, i, j);
    assert(texts(names@)[i] == found->0@);
}

/// What is swept are files that are there, and of these exactly the stale ones.
pub proof fn stale_files_are_swept(names: Seq<Seq<char>>, now: u64, name: Seq<char>)
    ensures
        stale(names, now).contains(name) <==> names.contains(name) && is_stale(name, now),
    decreases names.len(),
{
    reveal(Seq::filter);
    if names.len() > 0 {
        let rest = names.drop_last();
        stale_files_are_swept(rest, now, name);
        let before = stale(rest, now);
        let after = stale(names, now);
        assert(after == (if is_stale(names.last(), now) {
            before.push(names.last())
        } else {
            before
        }));
        if before.contains(name) {
            let k = choose|k: int| 0 <= k < before.len() && before[k] == name;
            assert(after[k] == name);
        }
        if after.contains(name) {
            let k = choose|k: int| 0 <= k < after.len() && after[k] == name;
            if k < before.len() {
                assert(before[k] == name);
                assert(before.contains(name));
            } else {
                assert(names[names.len() - 1] == name);
            }
        }
        if rest.contains(name) {
            let k = choose|k: int| 0 <= k < rest.len() && rest[k] == name;
            assert(names[k] == name);
        }
        if names.contains(name) {
            let k = choose|k: int| 0 <= k < names.len() && names[k] == name;
            if k < rest.len() {
                assert(rest[k] == name);
            } else if is_stale(name, now) {
                assert(after[after.len() - 1] == name);
            }
        }
    } else {
        assert(stale(names, now) =~= Seq::<Seq<char>>::empty());
    }
}

/// Sweeping removes a progress file exactly if it was created more than an hour ago.
pub proof fn sweeping_takes_old_files(
    names: &Vec<String>,
    now: u64,
    old_names: Vec<String>,
    key: Seq<char>,
    task: Seq<char>,
    ms: u64,
)
    requires
        call_ensures(sweep_old_files_at, (names, now), old_names),
    ensures
        texts(names@).contains(file_name(key, ms)) ==> (texts(old_names@).contains(
            file_name(key, ms),
        ) <==> now - ms > 60 * 60 * 1000),
        texts(names@).contains(file_name_async(key, task, ms)) ==> (texts(old_names@).contains(
            file_name_async(key, task, ms),
        ) <==> now - ms > 60 * 60 * 1000),
{
    stale_files_are_swept(texts(names@), now, file_name(key, ms));
    stale_files_are_swept(texts(names@), now, file_name_async(key, task, ms));
    files_live_for_an_hour(key, task, ms, now);
}

/// A writer writes to a file below its directory that is found by the key of its delegate, and by
/// its task if it has one.
pub proof fn written_files_are_found(
    dir: &str,
    key: &str,
    task: &str,
    ms: u64,
    writer: ProgressWriter,
    task_writer: ProgressWriter,
    not_before_ms: u64,
)
    requires
        call_ensures(ProgressWriter::new_at, (dir, key, ms), writer),
        call_ensures(ProgressWriter::new_async_at, (dir, key, task, ms), task_writer),
        dir@.len() > 0,
        dir@.last() != '/',
        key@.len() > 0,
        key@[0] != '/',
        not_before_ms <= ms,
    ensures
        writer.path@ == dir@.push('/') + file_name(key@, ms),
        qualifies(file_name(key@, ms), key@, not_before_ms),
        task_writer.path@ == dir@.push('/') + file_name_async(key@, task@, ms),
        qualifies(file_name_async(key@, task@, ms), key@, not_before_ms),
        qualifies(file_name_async(key@, task@, ms), task@, not_before_ms),
{
    found_by_key(key@, ms, not_before_ms);
    found_by_key_and_task(key@, task@, ms, not_before_ms);
    assert(file_name(key@, ms)[0] == key@[0]);
    assert(file_name_async(key@, task@, ms)[0] == key@[0]);
    joining_adds_one_slash(dir@, file_name(key@, ms));
    joining_adds_one_slash(dir@, file_name_async(key@, task@, ms));
}

/// A key belongs to a file exactly as a whole part of its name: the file is found if the key is the
/// part before the time, or the first part, whatever the other parts are.
pub proof fn whole_parts_are_found(
    front: Seq<char>,
    key: Seq<char>,
    number: Seq<char>,
    extension: Seq<char>,
    not_before_ms: u64,
)
    requires
        dotless(number),
        dotless(extension),
        parsed_u64(number) is Some,
        parsed_u64(number)->0 >= not_before_ms,
    ensures
        qualifies(
            front + seq!['.'] + key + seq!['.'] + number + seq!['.'] + extension,
            key,
            not_before_ms,
        ),
        qualifies(
            key + seq!['.'] + front + seq!['.'] + number + seq!['.'] + extension,
            key,
            not_before_ms,
        ),
{
    reveal_strlit(".");
    assert("."@ =~= seq!['.']);
    let dot = seq!['.'];
    let name = front + dot + key + dot + number + dot + extension;
    let s = front + dot + key + dot + number;
    assert(name =~= (front + dot + key) + dot + number + dot + extension);
    assert(number.len() > 0);
    time_stands_between_last_dots(front + dot + key, number, extension);
    assert(name =~= s + dot + extension);
    assert(s.len() > 1);
    stem_ends_at_last_dot(s, extension);
    let infix = "."@ + key + "."@;
    assert(s.subrange(front.len() as int, (front.len() + infix.len()) as int) =~= infix);
    assert(occurs_at(s, infix, front.len() as int));
    let first = key + dot + front + dot + number + dot + extension;
    assert(first =~= (key + dot + front) + dot + number + dot + extension);
    time_stands_between_last_dots(key + dot + front, number, extension);
    assert(first.subrange(0, (key + "."@).len() as int) =~= key + "."@);
    assert(occurs_at(first, key + "."@, 0));
}

/// A record of a tool call goes to the file of its writer and holds what was reported; of the
/// summary it holds all words, with single spaces between them.
pub proof fn records_hold_what_was_reported(
    writer: &ProgressWriter,
    tool_name: &str,
    summary: Option<&str>,
    tool_count: Option<u32>,
    turn_count: Option<u32>,
    record: ProgressRecord,
)
    requires
        call_ensures(
            ProgressWriter::write_tool,
            (writer, tool_name, summary, tool_count, turn_count),
            record,
        ),
    ensures
        record.path@ == writer.path@,
        match record.event {
            ProgressEvent::Tool { tool_name: n, summary: s, tool_count: c, turn_count: t, .. } => {
                &&& n@ == tool_name@
                &&& c == tool_count
                &&& t == turn_count
                &&& s is Some == summary is Some
                &&& summary is Some && join(words(summary->0@), seq![' ']).len() <= usize::MAX
                    ==> s->0@ == join(words(summary->0@), seq![' '])
            },
            _ => false,
        },
{
    if let Some(text) = summary {
        summaries_keep_their_words(text@, usize::MAX as nat);
    }
}

/// The beginning and the end of a delegate go to the file of its writer.
pub proof fn beginning_and_end_are_recorded(
    writer: &ProgressWriter,
    name: Option<String>,
    session_id: Option<String>,
    start: ProgressRecord,
    done: ProgressRecord,
)
    requires
        call_ensures(ProgressWriter::write_start, (writer, name, session_id), start),
        call_ensures(ProgressWriter::write_done, (writer,), done),
    ensures
        start.path@ == writer.path@,
        done.path@ == writer.path@,
        start.event is Start,
        start.event->name == name,
        start.event->subagent_session_id == session_id,
        done.event is Done,
{
}

/// The text of events is made of one line for each tool call, with an arrow, the name of the tool
/// and its summary if it has one; and events in a row give their lines in a row.
pub proof fn formatted_events_are_lines(events: &[ProgressEvent], text: String, i: int)
    requires
        call_ensures(format_progress_lines, (events,), text),
        0 <= i < events@.len(),
    ensures
        text@ == join(progress_lines(events@), seq!['\n']),
        match events@[i] {
            ProgressEvent::Tool { tool_name, summary, .. } => if summary is Some
                && summary->0@.len() > 0 {
                has_infix(text@, "→ "@ + tool_name@ + ": "@ + summary->0@)
            } else {
                has_infix(text@, "→ "@ + tool_name@)
            },
            _ => true,
        },
{
    text_is_lines(events@);
    every_tool_call_shows(events@, i);
}

/// The name of a new file tells when it was created, and it is found by its delegate and its task
/// from then on, and by no one else.
pub proof fn names_of_files_tell_their_time(
    key: &str,
    task: &str,
    ms: u64,
    name: String,
    task_name: String,
    written_name: &str,
    time: Option<u64>,
    k: Seq<char>,
)
    requires
        call_ensures(progress_filename_at, (key, ms), name),
        call_ensures(progress_filename_async_at, (key, task, ms), task_name),
        written_name@ == name@ || written_name@ == task_name@,
        call_ensures(file_timestamp, (written_name,), time),
    ensures
        time == Some(ms),
        qualifies(name@, key@, ms),
        qualifies(task_name@, key@, ms),
        qualifies(task_name@, task@, ms),
        dotless(key@) && dotless(task@) && dotless(k) && k != key@ && k != task@ ==> !qualifies(
            name@,
            k,
            ms,
        ) && !qualifies(task_name@, k, ms),
{
    timestamp_is_read_back(key@, task@, ms);
    found_by_key(key@, ms, ms);
    found_by_key_and_task(key@, task@, ms, ms);
    if dotless(key@) && dotless(task@) && dotless(k) {
        files_of_others_are_not_found(key@, task@, k, ms, ms);
    }
}

/// Progress files lie in a fixed place below the state directory, which is the configured one, else
/// one below the home directory, else one below `/tmp`.
pub proof fn files_lie_below_the_state_directory(
    state_home: Option<&str>,
    home: Option<&str>,
    dir: String,
)
    requires
        call_ensures(progress_dir, (state_home, home), dir),
    ensures
        state_home is Some ==> dir@ == joined(state_home->0@, "goose/subagent-progress"@),
        state_home is None && home is Some ==> dir@ == joined(
            joined(home->0@, ".local/state"@),
            "goose/subagent-progress"@,
        ),
        state_home is None && home is None ==> dir@ == joined(
            joined("/tmp"@, ".local/state"@),
            "goose/subagent-progress"@,
        ),
{
}

} // verus!
