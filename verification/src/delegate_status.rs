//! The status lines that show what running delegates are doing.

use std::time::Instant;

use vstd::prelude::*;

use crate::clock::{is_age_of, seconds_since};
use crate::decimal::{decimal, decimal_denotes, is_digit, to_decimal};
use crate::sanitize::{is_control, sanitize_summary, sanitized, sanitized_is_clean};
use crate::text::{from_chars, join, join_texts, texts, to_chars};

verus! {

/// The frames of the spinner, one after the other.
pub const SPINNER_FRAMES: [&'static str; 10] = [
    "⠋",
    "⠙",
    "⠹",
    "⠸",
    "⠼",
    "⠴",
    "⠦",
    "⠧",
    "⠇",
    "⠏",
];

/// Number of delegates that get a line of their own.
pub const MAX_VISIBLE: usize = 7;

/// Number of characters shown of a tool summary.
pub const TOOL_CHARS: usize = 60;

/// What is shown of one delegate.
#[derive(Debug)]
pub struct DelegateState {
    pub name: String,
    pub current_tool: Option<String>,
    pub tool_count: usize,
    pub turn_count: Option<u32>,
    pub started_at: Instant,
}

/// The contents of a [`DelegateState`].
pub struct DelegateModel {
    pub name: Seq<char>,
    pub current_tool: Option<Seq<char>>,
    pub tool_count: usize,
    pub turn_count: Option<u32>,
    pub started_at: Instant,
}

impl View for DelegateState {
    type V = DelegateModel;

    open spec fn view(&self) -> DelegateModel {
        DelegateModel {
            name: self.name@,
            current_tool: match self.current_tool {
                Some(t) => Some(t@),
                None => None,
            },
            tool_count: self.tool_count,
            turn_count: self.turn_count,
            started_at: self.started_at,
        }
    }
}

impl Clone for DelegateState {
    fn clone(&self) -> (copy: Self)
        ensures
            copy@ == self@,
    {
        DelegateState {
            name: self.name.clone(),
            current_tool: match &self.current_tool {
                Some(tool) => Some(tool.clone()),
                None => None,
            },
            tool_count: self.tool_count,
            turn_count: self.turn_count,
            started_at: self.started_at,
        }
    }
}

/// The columns that `console::measure_text_width` counts for a text.
pub uninterp spec fn text_width(text: Seq<char>) -> usize;

/// Calls `console::measure_text_width`: the width depends on the text alone, and an ellipsis is
/// one column wide.
#[verifier::external_body]
pub(crate) fn measure_text_width(text: &str) -> (width: usize)
    ensures
        width == text_width(text@),
        text@ == seq!['…'] ==> width == 1,
{
    console::measure_text_width(text)
}

/// The longest beginning of `line` that fits in `max_width` columns with an ellipsis after it,
/// with that ellipsis.
pub open spec fn cut_to_width(line: Seq<char>, max_width: usize) -> Seq<char>
    decreases line.len(),
{
    if line.len() == 0 || text_width(line.push('…')) <= max_width {
        line.push('…')
    } else {
        cut_to_width(line.drop_last(), max_width)
    }
}

/// `line` made to fit in `max_width` columns; a width of zero means no limit.
pub open spec fn fit_to_width(line: Seq<char>, max_width: usize) -> Seq<char> {
    if max_width == 0 || text_width(line) <= max_width {
        line
    } else {
        cut_to_width(line, max_width)
    }
}

/// Cuts `line` so that it fits in `max_width` columns.
pub fn truncate_to_width(line: String, max_width: usize) -> (fitted: String)
    ensures
        fitted@ == fit_to_width(line@, max_width),
        max_width > 0 ==> text_width(fitted@) <= max_width,
{
    if max_width == 0 || measure_text_width(line.as_str()) <= max_width {
        return line;
    }
    let chars = to_chars(line.as_str());
    let mut end: usize = chars.len();
    assert(line@.take(end as int) =~= line@);
    loop
        invariant
            chars@ == line@,
            end <= chars.len(),
            max_width > 0,
            cut_to_width(line@, max_width) == cut_to_width(line@.take(end as int), max_width),
            fit_to_width(line@, max_width) == cut_to_width(line@, max_width),
        decreases end,
    {
        let mut candidate = from_chars(&chars, 0, end);
        candidate.push('…');
        assert(candidate@ =~= line@.take(end as int).push('…'));
        let width: usize = measure_text_width(candidate.as_str());
        if end == 0 {
            assert(candidate@ =~= seq!['…']);
        }
        if width <= max_width {
            return candidate;
        }
        assert(line@.take(end as int).drop_last() =~= line@.take(end - 1));
        end = end - 1;
    }
}

/// `n` and `word`, with an `s` after the word unless `n` is one.
pub open spec fn counted(n: nat, word: Seq<char>) -> Seq<char> {
    decimal(n) + " "@ + word + if n == 1 {
        ""@
    } else {
        "s"@
    }
}

/// The part of the line that tells the number of turns, if it is known.
pub open spec fn turns_part(turn_count: Option<u32>) -> Seq<char> {
    match turn_count {
        Some(turns) => " · "@ + counted(turns as nat, "turn"@),
        None => Seq::empty(),
    }
}

/// Tool calls, turns if known, and seconds.
pub open spec fn entry_stats(d: DelegateModel, seconds: u64) -> Seq<char> {
    counted(d.tool_count as nat, "tool"@) + turns_part(d.turn_count) + " · "@ + decimal(
        seconds as nat,
    ) + "s"@
}

/// The part of the line that names the tool in use, if there is one.
pub open spec fn tool_part(current_tool: Option<Seq<char>>) -> Seq<char> {
    match current_tool {
        Some(tool) => " \""@ + sanitized(tool, TOOL_CHARS as nat) + "\""@,
        None => Seq::empty(),
    }
}

/// `s` with a space for every line break.
pub open spec fn on_one_line(s: Seq<char>) -> Seq<char> {
    s.map_values(
        |c: char|
            if c == '\n' || c == '\r' {
                ' '
            } else {
                c
            },
    )
}

/// The spinner frame for `spinner_idx`.
pub open spec fn frame(spinner_idx: usize) -> Seq<char> {
    SPINNER_FRAMES@[(spinner_idx % 10) as int]@
}

/// The line of a delegate that has run for `seconds`, before it is made to fit.
pub open spec fn entry_text(d: DelegateModel, seconds: u64, spinner_idx: usize) -> Seq<char> {
    frame(spinner_idx) + " "@ + on_one_line(d.name) + ":"@ + tool_part(d.current_tool) + " · "@
        + entry_stats(d, seconds)
}

/// The line of a delegate that has run for `seconds`.
pub open spec fn entry_line(
    d: DelegateModel,
    seconds: u64,
    spinner_idx: usize,
    max_width: usize,
) -> Seq<char> {
    fit_to_width(entry_text(d, seconds, spinner_idx), max_width)
}

fn counted_text(n: u64, word: &str) -> (out: String)
    ensures
        out@ == counted(n as nat, word@),
{
    let mut out = to_decimal(n);
    out.append(" ");
    out.append(word);
    if n != 1 {
        out.append("s");
    } else {
        out.append("");
    }
    out
}

fn turns_text(turn_count: Option<u32>) -> (out: String)
    ensures
        out@ == turns_part(turn_count),
{
    match turn_count {
        Some(turns) => {
            let mut out = " · ".to_string();
            out.append(counted_text(turns as u64, "turn").as_str());
            out
        },
        None => String::new(),
    }
}

fn stats_text(state: &DelegateState, elapsed: u64) -> (out: String)
    ensures
        out@ == entry_stats(state@, elapsed),
{
    let mut out = counted_text(state.tool_count as u64, "tool");
    out.append(turns_text(state.turn_count).as_str());
    out.append(" · ");
    out.append(to_decimal(elapsed).as_str());
    out.append("s");
    out
}

fn tool_text(state: &DelegateState) -> (out: String)
    ensures
        out@ == tool_part(state@.current_tool),
{
    match &state.current_tool {
        Some(tool) => {
            let mut out = " \"".to_string();
            out.append(sanitize_summary(tool.as_str(), TOOL_CHARS).as_str());
            out.append("\"");
            out
        },
        None => String::new(),
    }
}

fn name_text(name: &str) -> (out: String)
    ensures
        out@ == on_one_line(name@),
{
    let chars = to_chars(name);
    let mut out = String::new();
    let mut i: usize = 0;
    while i < chars.len()
        invariant
            chars@ == name@,
            i <= chars@.len(),
            out@ == on_one_line(name@).take(i as int),
        decreases chars@.len() - i,
    {
        let c = chars[i];
        out.push(if c == '\n' || c == '\r' { ' ' } else { c });
        i = i + 1;
        assert(out@ =~= on_one_line(name@).take(i as int));
    }
    assert(out@ =~= on_one_line(name@));
    out
}

/// Builds the line of a delegate that has run for `elapsed` seconds.
pub fn compose_entry_line_at(
    state: &DelegateState,
    elapsed: u64,
    spinner_idx: usize,
    max_width: usize,
) -> (line: String)
    ensures
        line@ == entry_line(state@, elapsed, spinner_idx, max_width),
        max_width > 0 ==> text_width(line@) <= max_width,
{
    let mut line = SPINNER_FRAMES[spinner_idx % 10].to_string();
    line.append(" ");
    line.append(name_text(state.name.as_str()).as_str());
    line.append(":");
    line.append(tool_text(state).as_str());
    line.append(" · ");
    line.append(stats_text(state, elapsed).as_str());
    truncate_to_width(line, max_width)
}

/// Builds the line of a delegate as it stands now.
pub fn compose_entry_line(state: &DelegateState, spinner_idx: usize, max_width: usize) -> (line:
    String)
    ensures
        exists|seconds: u64|
            is_age_of(state@.started_at, seconds) && line@ == #[trigger] entry_line(
                state@,
                seconds,
                spinner_idx,
                max_width,
            ),
        max_width > 0 ==> text_width(line@) <= max_width,
{
    let elapsed: u64 = seconds_since(&state.started_at);
    compose_entry_line_at(state, elapsed, spinner_idx, max_width)
}

/// Each of `ages` is the whole seconds from the start of the delegate at its place to some instant.
pub open spec fn are_ages_of(delegates: Seq<DelegateModel>, ages: Seq<u64>) -> bool {
    forall|i: int| 0 <= i < ages.len() ==> is_age_of(delegates[i].started_at, #[trigger] ages[i])
}

/// The contents of a list of delegates.
pub open spec fn models(states: Seq<&DelegateState>) -> Seq<DelegateModel> {
    states.map_values(|s: &DelegateState| s@)
}

/// The last line of a block that leaves out `hidden` delegates.
pub open spec fn footer(hidden: nat) -> Seq<char> {
    "  … and "@ + decimal(hidden) + " more"@
}

/// The lines of a block: one for each of the first delegates, and a footer that counts the rest.
/// `ages` tells for how many seconds each delegate has run.
pub open spec fn status_block(
    delegates: Seq<DelegateModel>,
    ages: Seq<u64>,
    spinner_idx: usize,
    max_width: usize,
) -> Seq<Seq<char>> {
    if delegates.len() > MAX_VISIBLE {
        entry_lines(delegates, ages, MAX_VISIBLE as nat, spinner_idx, max_width).push(
            footer((delegates.len() - MAX_VISIBLE) as nat),
        )
    } else {
        entry_lines(delegates, ages, delegates.len(), spinner_idx, max_width)
    }
}

/// The lines of the first `n` delegates.
pub open spec fn entry_lines(
    delegates: Seq<DelegateModel>,
    ages: Seq<u64>,
    n: nat,
    spinner_idx: usize,
    max_width: usize,
) -> Seq<Seq<char>> {
    Seq::new(n, |i: int| entry_line(delegates[i], ages[i], spinner_idx, max_width))
}

/// Builds the block of `states`, of which each has run for as many seconds as `ages` says.
pub fn compose_status_block_at(
    states: &[&DelegateState],
    ages: &Vec<u64>,
    spinner_idx: usize,
    max_width: usize,
) -> (block: Vec<String>)
    requires
        ages@.len() == states@.len(),
    ensures
        texts(block@) == status_block(models(states@), ages@, spinner_idx, max_width),
        block@.len() == (if states@.len() > MAX_VISIBLE {
            MAX_VISIBLE + 1
        } else {
            states@.len() as int
        }),
        max_width > 0 ==> forall|i: int|
            0 <= i < block@.len() && i < MAX_VISIBLE ==> text_width((#[trigger] block@[i])@)
                <= max_width,
{
    let mut block: Vec<String> = Vec::new();
    let total: usize = states.len();
    let visible: usize = if total > MAX_VISIBLE { MAX_VISIBLE } else { total };
    let mut i: usize = 0;
    while i < visible
        invariant
            i <= visible <= total,
            total == states@.len(),
            ages@.len() == states@.len(),
            texts(block@) == entry_lines(
                models(states@),
                ages@,
                i as nat,
                spinner_idx,
                max_width,
            ),
            block@.len() == i,
            max_width > 0 ==> forall|k: int|
                0 <= k < block@.len() ==> text_width((#[trigger] block@[k])@) <= max_width,
        decreases visible - i,
    {
        let ghost before = texts(block@);
        let line = compose_entry_line_at(states[i], ages[i], spinner_idx, max_width);
        assert(models(states@)[i as int] == states@[i as int]@);
        block.push(line);
        assert(texts(block@) =~= before.push(line@));
        i = i + 1;
        assert(before.push(line@) =~= entry_lines(
            models(states@),
            ages@,
            i as nat,
            spinner_idx,
            max_width,
        ));
    }
    if total > MAX_VISIBLE {
        let mut last = "  … and ".to_string();
        last.append(to_decimal((total - MAX_VISIBLE) as u64).as_str());
        last.append(" more");
        let ghost before = texts(block@);
        block.push(last);
        assert(texts(block@) =~= before.push(last@));
        assert(texts(block@) =~= status_block(models(states@), ages@, spinner_idx, max_width));
    }
    block
}

/// For how many seconds each of `states` has run.
fn ages_of(states: &[&DelegateState]) -> (ages: Vec<u64>)
    ensures
        ages@.len() == states@.len(),
        are_ages_of(models(states@), ages@),
{
    let mut ages: Vec<u64> = Vec::new();
    let mut i: usize = 0;
    while i < states.len()
        invariant
            i <= states@.len(),
            ages@.len() == i,
            are_ages_of(models(states@), ages@),
        decreases states@.len() - i,
    {
        ages.push(seconds_since(&states[i].started_at));
        i = i + 1;
    }
    ages
}

/// Builds the block of `states` as they stand now: a line for each of the first
/// [`MAX_VISIBLE`], in order, and a footer if there are more.
pub fn compose_status_block(
    states: &[&DelegateState],
    spinner_idx: usize,
    max_width: usize,
) -> (block: Vec<String>)
    ensures
        exists|ages: Seq<u64>|
            ages.len() == states@.len() && are_ages_of(models(states@), ages) && texts(block@) == #[trigger] status_block(
                models(states@),
                ages,
                spinner_idx,
                max_width,
            ),
        block@.len() == (if states@.len() > MAX_VISIBLE {
            MAX_VISIBLE + 1
        } else {
            states@.len() as int
        }),
        max_width > 0 ==> forall|i: int|
            0 <= i < block@.len() && i < MAX_VISIBLE ==> text_width((#[trigger] block@[i])@)
                <= max_width,
{
    let ages = ages_of(states);
    compose_status_block_at(states, &ages, spinner_idx, max_width)
}

/// The lines of the block on one line, with ` | ` between them.
pub fn compose_status_line(
    states: &[&DelegateState],
    spinner_idx: usize,
    max_width: usize,
) -> (line: String)
    ensures
        exists|ages: Seq<u64>|
            ages.len() == states@.len() && are_ages_of(models(states@), ages) && line@ == join(
                #[trigger] status_block(models(states@), ages, spinner_idx, max_width),
                " | "@,
            ),
{
    let block = compose_status_block(states, spinner_idx, max_width);
    join_texts(&block, " | ")
}

/// No line break in `s`.
pub open spec fn single_line(s: Seq<char>) -> bool {
    forall|i: int| 0 <= i < s.len() ==> #[trigger] s[i] != '\n' && s[i] != '\r'
}

proof fn single_line_concat(a: Seq<char>, b: Seq<char>)
    requires
        single_line(a),
        single_line(b),
    ensures
        single_line(a + b),
{
}

proof fn decimal_is_single_line(n: nat)
    ensures
        single_line(decimal(n)),
{
    decimal_denotes(n);
    let s = decimal(n);
    assert forall|i: int| 0 <= i < s.len() implies #[trigger] s[i] != '\n' && s[i] != '\r' by {
        assert(is_digit(s[i]));
    }
}

proof fn counted_is_single_line(n: nat, word: Seq<char>)
    requires
        single_line(word),
    ensures
        single_line(counted(n, word)),
{
    reveal_strlit(" ");
    reveal_strlit("s");
    reveal_strlit("");
    decimal_is_single_line(n);
    assert(single_line(" "@));
    assert(single_line("s"@));
    assert(single_line(""@));
}

proof fn frame_is_single_line(spinner_idx: usize)
    ensures
        single_line(frame(spinner_idx)),
{
    reveal_strlit("⠋");
    reveal_strlit("⠙");
    reveal_strlit("⠹");
    reveal_strlit("⠸");
    reveal_strlit("⠼");
    reveal_strlit("⠴");
    reveal_strlit("⠦");
    reveal_strlit("⠧");
    reveal_strlit("⠇");
    reveal_strlit("⠏");
    let k = (spinner_idx % 10) as int;
    assert(k == 0 || k == 1 || k == 2 || k == 3 || k == 4 || k == 5 || k == 6 || k == 7 || k == 8
        || k == 9);
}

proof fn cut_is_single_line(line: Seq<char>, max_width: usize)
    requires
        single_line(line),
    ensures
        single_line(cut_to_width(line, max_width)),
    decreases line.len(),
{
    if line.len() == 0 || text_width(line.push('…')) <= max_width {
    } else {
        cut_is_single_line(line.drop_last(), max_width);
    }
}

/// The line of a delegate has no line break, whatever its name and its tool summary hold.
pub proof fn entry_line_is_single_line(
    d: DelegateModel,
    seconds: u64,
    spinner_idx: usize,
    max_width: usize,
)
    ensures
        single_line(entry_line(d, seconds, spinner_idx, max_width)),
{
    reveal_strlit(" ");
    reveal_strlit(":");
    reveal_strlit("s");
    reveal_strlit(" · ");
    reveal_strlit("tool");
    reveal_strlit("turn");
    reveal_strlit(" \"");
    reveal_strlit("\"");
    assert(single_line(" "@) && single_line(":"@) && single_line("s"@) && single_line(" · "@));
    assert(single_line("tool"@) && single_line("turn"@));
    assert(single_line(" \""@) && single_line("\""@));
    frame_is_single_line(spinner_idx);
    decimal_is_single_line(seconds as nat);
    counted_is_single_line(d.tool_count as nat, "tool"@);
    assert(single_line(turns_part(d.turn_count))) by {
        if let Some(turns) = d.turn_count {
            counted_is_single_line(turns as nat, "turn"@);
            single_line_concat(" · "@, counted(turns as nat, "turn"@));
        }
    }
    assert(single_line(tool_part(d.current_tool))) by {
        if let Some(tool) = d.current_tool {
            sanitized_is_clean(tool, TOOL_CHARS as nat);
            let t = sanitized(tool, TOOL_CHARS as nat);
            assert forall|i: int| 0 <= i < t.len() implies #[trigger] t[i] != '\n' && t[i]
                != '\r' by {
                assert(!is_control(t[i]));
            }
            single_line_concat(" \""@, t);
            single_line_concat(" \""@ + t, "\""@);
        }
    }
    let c = counted(d.tool_count as nat, "tool"@);
    let t = turns_part(d.turn_count);
    single_line_concat(c, t);
    single_line_concat(c + t, " · "@);
    single_line_concat(c + t + " · "@, decimal(seconds as nat));
    single_line_concat(c + t + " · "@ + decimal(seconds as nat), "s"@);
    let f = frame(spinner_idx);
    let name = on_one_line(d.name);
    assert(single_line(name));
    single_line_concat(f, " "@);
    single_line_concat(f + " "@, name);
    single_line_concat(f + " "@ + name, ":"@);
    single_line_concat(f + " "@ + name + ":"@, tool_part(d.current_tool));
    single_line_concat(f + " "@ + name + ":"@ + tool_part(d.current_tool), " · "@);
    single_line_concat(
        f + " "@ + name + ":"@ + tool_part(d.current_tool) + " · "@,
        entry_stats(d, seconds),
    );
    cut_is_single_line(entry_text(d, seconds, spinner_idx), max_width);
}

/// The line of a delegate tells, in this order, that it is running, its name, the tool in use if
/// there is one, its tool calls, its turns if they are known, and its seconds.
pub proof fn entry_tells_all(d: DelegateModel, seconds: u64, spinner_idx: usize)
    ensures
        ({
            let tools = decimal(d.tool_count as nat) + (if d.tool_count == 1 {
                " tool"@
            } else {
                " tools"@
            });
            let turns = if d.turn_count is None {
                Seq::empty()
            } else {
                " · "@ + decimal(d.turn_count->0 as nat) + (if d.turn_count->0 == 1 {
                    " turn"@
                } else {
                    " turns"@
                })
            };
            let tool = if d.current_tool is None {
                Seq::empty()
            } else {
                " \""@ + sanitized(d.current_tool->0, 60) + "\""@
            };
            entry_line(d, seconds, spinner_idx, 0) == frame(spinner_idx) + " "@ + on_one_line(
                d.name,
            ) + ":"@ + tool + " · "@ + tools + turns + " · "@ + decimal(seconds as nat) + "s"@
        }),
{
    reveal_strlit(" tool");
    reveal_strlit(" tools");
    reveal_strlit(" turn");
    reveal_strlit(" turns");
    reveal_strlit("tool");
    reveal_strlit("turn");
    reveal_strlit("s");
    reveal_strlit("");
    reveal_strlit(" ");
    assert(" "@ + "tool"@ + ""@ =~= " tool"@);
    assert(" "@ + "tool"@ + "s"@ =~= " tools"@);
    assert(" "@ + "turn"@ + ""@ =~= " turn"@);
    assert(" "@ + "turn"@ + "s"@ =~= " turns"@);
    counted_spelled(d.tool_count as nat, "tool"@);
    let tools = decimal(d.tool_count as nat) + (if d.tool_count == 1 {
        " tool"@
    } else {
        " tools"@
    });
    assert(counted(d.tool_count as nat, "tool"@) == tools);
    let turns = if d.turn_count is None {
        Seq::empty()
    } else {
        " · "@ + decimal(d.turn_count->0 as nat) + (if d.turn_count->0 == 1 {
            " turn"@
        } else {
            " turns"@
        })
    };
    assert(turns_part(d.turn_count) == turns) by {
        if let Some(n) = d.turn_count {
            counted_spelled(n as nat, "turn"@);
            assert(turns_part(d.turn_count) =~= turns);
        }
    }
    let head = frame(spinner_idx) + " "@ + on_one_line(d.name) + ":"@ + tool_part(d.current_tool)
        + " · "@;
    assert(head + entry_stats(d, seconds) =~= head + tools + turns + " · "@ + decimal(
        seconds as nat,
    ) + "s"@);
}

proof fn counted_spelled(n: nat, word: Seq<char>)
    ensures
        counted(n, word) == decimal(n) + (" "@ + word + (if n == 1 {
            ""@
        } else {
            "s"@
        })),
{
    assert(counted(n, word) =~= decimal(n) + (" "@ + word + (if n == 1 {
        ""@
    } else {
        "s"@
    })));
}

/// The name of a delegate shows as it is, but for line breaks, each of which shows as a space.
pub proof fn only_line_breaks_are_replaced(name: Seq<char>)
    ensures
        on_one_line(name).len() == name.len(),
        forall|i: int|
            0 <= i < name.len() ==> #[trigger] on_one_line(name)[i] == (if name[i] == '\n' || name[i]
                == '\r' {
                ' '
            } else {
                name[i]
            }),
        single_line(name) ==> on_one_line(name) == name,
{
    if single_line(name) {
        assert(on_one_line(name) =~= name);
    }
}

/// A line that fits, or that need not, is left as it is. One that does not fit loses as little at
/// its end as makes it fit together with the ellipsis that then stands there.
pub proof fn lines_are_cut_as_late_as_possible(line: Seq<char>, max_width: usize)
    ensures
        max_width == 0 || text_width(line) <= max_width ==> fit_to_width(line, max_width) == line,
        max_width > 0 && text_width(line) > max_width ==> exists|k: int|
            #[trigger] is_cut_at(line, max_width, k) && fit_to_width(line, max_width) == line.take(
                k,
            ).push('…'),
{
    if max_width > 0 && text_width(line) > max_width {
        cut_is_latest(line, max_width);
    }
}

/// Cut after `k` characters, `line` fits with an ellipsis, or nothing is left of it, and cut any
/// later it does not fit.
pub open spec fn is_cut_at(line: Seq<char>, max_width: usize, k: int) -> bool {
    &&& 0 <= k <= line.len()
    &&& k == 0 || text_width(line.take(k).push('…')) <= max_width
    &&& forall|j: int|
        k < j <= line.len() ==> text_width(#[trigger] line.take(j).push('…')) > max_width
}

proof fn cut_is_latest(line: Seq<char>, max_width: usize)
    ensures
        exists|k: int|
            #[trigger] is_cut_at(line, max_width, k) && cut_to_width(line, max_width) == line.take(
                k,
            ).push('…'),
    decreases line.len(),
{
    let n = line.len() as int;
    assert(line.take(n) =~= line);
    if line.len() == 0 || text_width(line.push('…')) <= max_width {
        assert(is_cut_at(line, max_width, n));
    } else {
        let shorter = line.drop_last();
        cut_is_latest(shorter, max_width);
        let k = choose|k: int|
            #[trigger] is_cut_at(shorter, max_width, k) && cut_to_width(shorter, max_width)
                == shorter.take(k).push('…');
        assert(shorter.take(k) =~= line.take(k));
        assert forall|j: int| k < j <= line.len() implies text_width(
            #[trigger] line.take(j).push('…'),
        ) > max_width by {
            if j < n {
                assert(shorter.take(j) =~= line.take(j));
                assert(text_width(shorter.take(j).push('…')) > max_width);
            }
        }
        assert(is_cut_at(line, max_width, k));
    }
}

/// The spinner goes round ten frames.
pub proof fn spinner_goes_round(spinner_idx: usize)
    ensures
        frame(spinner_idx) == seq![
            "⠋"@,
            "⠙"@,
            "⠹"@,
            "⠸"@,
            "⠼"@,
            "⠴"@,
            "⠦"@,
            "⠧"@,
            "⠇"@,
            "⠏"@,
        ][spinner_idx as int % 10],
{
    let k = (spinner_idx % 10) as int;
    assert(k == 0 || k == 1 || k == 2 || k == 3 || k == 4 || k == 5 || k == 6 || k == 7 || k == 8
        || k == 9);
}

/// The block has a line for each delegate in its order, for the first seven of them; if there are
/// more, one last line tells how many.
pub proof fn block_has_a_line_each(
    delegates: Seq<DelegateModel>,
    ages: Seq<u64>,
    spinner_idx: usize,
    max_width: usize,
    i: int,
)
    ensures
        ({
            let block = status_block(delegates, ages, spinner_idx, max_width);
            &&& delegates.len() <= 7 ==> block.len() == delegates.len()
            &&& delegates.len() > 7 ==> block.len() == 8 && block[7] == "  … and "@ + decimal(
                (delegates.len() - 7) as nat,
            ) + " more"@
            &&& 0 <= i < delegates.len() && i < 7 ==> block[i] == entry_line(
                delegates[i],
                ages[i],
                spinner_idx,
                max_width,
            )
        }),
{
}

/// A line that is made to fit has no more columns than it may, and is left as it is if it fits
/// already or may have any width.
pub proof fn fitted_lines_fit(line: String, max_width: usize, fitted: String)
    requires
        call_ensures(truncate_to_width, (line, max_width), fitted),
    ensures
        max_width > 0 ==> text_width(fitted@) <= max_width,
        max_width == 0 || text_width(line@) <= max_width ==> fitted@ == line@,
        fitted@ != line@ ==> fitted@.len() > 0 && fitted@.last() == '…' && fitted@.drop_last()
            == line@.take(fitted@.len() - 1),
{
    lines_are_cut_as_late_as_possible(line@, max_width);
    if fitted@ != line@ {
        let k = choose|k: int|
            #[trigger] is_cut_at(line@, max_width, k) && fitted@ == line@.take(k).push('…');
        assert(fitted@.drop_last() =~= line@.take(k));
    }
}

/// The block of some delegates has a line for each of them, seven at most, and one more line if
/// there are more, which tells how many.
pub proof fn blocks_count_what_they_leave_out(
    states: &[&DelegateState],
    spinner_idx: usize,
    max_width: usize,
    block: Vec<String>,
)
    requires
        call_ensures(compose_status_block, (states, spinner_idx, max_width), block),
    ensures
        states@.len() <= 7 ==> block@.len() == states@.len(),
        states@.len() > 7 ==> block@.len() == 8 && block@[7]@ == "  … and "@ + decimal(
            (states@.len() - 7) as nat,
        ) + " more"@,
{
    let ages = choose|ages: Seq<u64>|
        ages.len() == states@.len() && are_ages_of(models(states@), ages) && texts(block@)
            == #[trigger] status_block(models(states@), ages, spinner_idx, max_width);
    block_has_a_line_each(models(states@), ages, spinner_idx, max_width, 0);
    if states@.len() > 7 {
        assert(texts(block@)[7] == block@[7]@);
    }
}

/// The record of a delegate holds what it was made of.
pub proof fn records_hold_what_they_say(state: DelegateState)
    ensures
        state@.name == state.name@,
        state.current_tool is Some ==> state@.current_tool == Some(state.current_tool->0@),
        state.current_tool is None ==> state@.current_tool is None,
        state@.tool_count == state.tool_count,
        state@.turn_count == state.turn_count,
        state@.started_at == state.started_at,
{
}

/// The lines of the block stand on one line with bars between them.
pub proof fn status_lines_hold_the_block(
    states: &[&DelegateState],
    spinner_idx: usize,
    max_width: usize,
    line: String,
)
    requires
        call_ensures(compose_status_line, (states, spinner_idx, max_width), line),
    ensures
        exists|ages: Seq<u64>|
            ages.len() == states@.len() && line@ == join(
                #[trigger] status_block(models(states@), ages, spinner_idx, max_width),
                seq![' ', '|', ' '],
            ),
{
    reveal_strlit(" | ");
    assert(" | "@ =~= seq![' ', '|', ' ']);
    let ages = choose|ages: Seq<u64>|
        ages.len() == states@.len() && are_ages_of(models(states@), ages) && line@ == join(
            #[trigger] status_block(models(states@), ages, spinner_idx, max_width),
            " | "@,
        );
    assert(line@ == join(
        status_block(models(states@), ages, spinner_idx, max_width),
        seq![' ', '|', ' '],
    ));
}

} // verus!
