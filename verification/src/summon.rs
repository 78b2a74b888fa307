//! The server that offers delegation, and how it keeps delegates from delegating further.
//!
//! A delegate inherits the configuration of its parent and so starts a server of its own. That one
//! is nested: it is marked in the environment and offers no delegation.

use vstd::prelude::*;

use crate::text::{optional_str, same_text};

verus! {

/// The variable that marks the environment of a delegate.
pub const NESTED_VARIABLE: &'static str = "GOOSE_SUMMON_NESTED";

/// The value that a server gives to the variable for its delegates.
pub const NESTED_MARKER: &'static str = "1";

/// The one tool that a nested server offers.
pub const NESTED_TOOL: &'static str = "load";

/// Whether that value of the variable marks a nested server: absent, empty and `0` do not.
pub open spec fn marks_nested(value: Option<Seq<char>>) -> bool {
    match value {
        None => false,
        Some(v) => v != ""@ && v != "0"@,
    }
}

/// Decodes the value of the variable.
pub fn nested_from(value: Option<&str>) -> (nested: bool)
    ensures
        nested == marks_nested(optional_str(value)),
{
    match value {
        None => false,
        Some(v) => !same_text(v, "") && !same_text(v, "0"),
    }
}

/// The flag of a server, once it has been read from the environment.
pub struct NestedFlag {
    captured: Option<bool>,
}

impl View for NestedFlag {
    type V = Option<bool>;

    closed spec fn view(&self) -> Option<bool> {
        self.captured
    }
}

impl NestedFlag {
    pub fn new() -> (flag: Self)
        ensures
            flag@ == None::<bool>,
    {
        NestedFlag { captured: None }
    }
}

/// The flag after the variable has been seen with that value: the first value counts.
pub open spec fn captured(flag: Option<bool>, value: Option<Seq<char>>) -> bool {
    match flag {
        Some(nested) => nested,
        None => marks_nested(value),
    }
}

/// Whether this server is nested; `value` is what the variable holds at present.
pub fn is_nested(flag: &mut NestedFlag, value: Option<&str>) -> (nested: bool)
    ensures
        nested == captured(old(flag)@, optional_str(value)),
        final(flag)@ == Some(nested),
{
    let nested = match flag.captured {
        Some(nested) => nested,
        None => nested_from(value),
    };
    flag.captured = Some(nested);
    nested
}

/// A variable of the environment and the value to give it.
pub struct Setting {
    pub variable: String,
    pub value: String,
}

/// Starts a server: takes the inherited value of the variable as its own flag, and gives the
/// setting that marks the environment for its delegates.
pub fn begin_server(flag: &mut NestedFlag, inherited: Option<&str>) -> (setting: Setting)
    ensures
        final(flag)@ == Some(captured(old(flag)@, optional_str(inherited))),
        setting.variable@ == NESTED_VARIABLE@,
        setting.value@ == NESTED_MARKER@,
{
    is_nested(flag, inherited);
    Setting { variable: NESTED_VARIABLE.to_string(), value: NESTED_MARKER.to_string() }
}

/// A server does not see its own marker: what it inherited decides, whatever the variable holds
/// later.
pub proof fn first_value_counts(inherited: Option<Seq<char>>, later: Option<Seq<char>>)
    ensures
        captured(Some(captured(None, inherited)), later) == marks_nested(inherited),
{
}

/// The server of a delegate is nested.
pub proof fn delegates_are_nested()
    ensures
        captured(None, Some(NESTED_MARKER@)),
{
    reveal_strlit("1");
    reveal_strlit("0");
    reveal_strlit("");
    assert(NESTED_MARKER@.len() == 1);
    assert(NESTED_MARKER@[0] == '1');
    assert("0"@[0] == '0');
}

/// What a server tells about itself.
pub fn server_instructions(nested: bool) -> (text: String)
    ensures
        text@ == if nested {
            "Goose summon extension (nested): delegation is unavailable at this depth — use `load` to read available recipes/agents and do the work directly."@
        } else {
            "Goose summon extension: use `delegate` to run subagent tasks and `load` to list/read available recipes and agents."@
        },
{
    if nested {
        "Goose summon extension (nested): delegation is unavailable at this depth — use `load` to read available recipes/agents and do the work directly.".to_string()
    } else {
        "Goose summon extension: use `delegate` to run subagent tasks and `load` to list/read available recipes and agents.".to_string()
    }
}

/// A tool and its name.
pub struct NamedTool<T> {
    pub name: String,
    pub tool: T,
}

/// The tools of that list with that name, in order.
pub open spec fn named<T>(tools: Seq<NamedTool<T>>, name: Seq<char>) -> Seq<NamedTool<T>>
    decreases tools.len(),
{
    if tools.len() == 0 {
        Seq::empty()
    } else if tools.last().name@ == name {
        named(tools.drop_last(), name).push(tools.last())
    } else {
        named(tools.drop_last(), name)
    }
}

/// One page of a list of tools.
pub struct ToolPage<T, M> {
    pub tools: Vec<NamedTool<T>>,
    pub next_cursor: Option<String>,
    pub meta: Option<M>,
}

/// What a server shows of a page of tools: a nested one shows `load` only, and no further page.
pub fn list_tools<T, M>(nested: bool, page: ToolPage<T, M>) -> (shown: ToolPage<T, M>)
    ensures
        if nested {
            &&& shown.tools@ == named(page.tools@, NESTED_TOOL@)
            &&& shown.next_cursor is None
            &&& shown.meta is None
        } else {
            shown == page
        },
{
    if !nested {
        return page;
    }
    let mut tools: Vec<NamedTool<T>> = Vec::new();
    let ghost all = page.tools@;
    for tool in it: page.tools
        invariant
            it.seq() == all,
            tools@ == named(all.take(it.index() as int), NESTED_TOOL@),
    {
        proof {
            let n = it.index() as int;
            assert(all.take(n + 1).drop_last() =~= all.take(n));
            assert(all.take(n + 1).last() == tool);
        }
        if same_text(tool.name.as_str(), NESTED_TOOL) {
            tools.push(tool);
        }
    }
    assert(all.take(all.len() as int) =~= all);
    ToolPage { tools, next_cursor: None, meta: None }
}

/// Whether a server runs a tool: a nested one runs `load` only.
pub fn call_allowed(nested: bool, name: &str) -> (allowed: bool)
    ensures
        allowed == (!nested || name@ == NESTED_TOOL@),
{
    !nested || same_text(name, NESTED_TOOL)
}

/// A nested server shows a tool exactly if it is called `load`; in particular it never shows a way
/// to delegate.
pub proof fn nested_shows_load_only<T>(tools: Seq<NamedTool<T>>)
    ensures
        forall|i: int|
            0 <= i < named(tools, NESTED_TOOL@).len() ==> (#[trigger] named(
                tools,
                NESTED_TOOL@,
            )[i]).name@ == "load"@,
        forall|i: int|
            0 <= i < tools.len() && (#[trigger] tools[i]).name@ == "load"@ ==> named(
                tools,
                NESTED_TOOL@,
            ).contains(tools[i]),
    decreases tools.len(),
{
    if tools.len() > 0 {
        let rest = tools.drop_last();
        let shown = named(tools, NESTED_TOOL@);
        let before = named(rest, NESTED_TOOL@);
        nested_shows_load_only(rest);
        assert forall|i: int| 0 <= i < shown.len() implies (#[trigger] shown[i]).name@
            == "load"@ by {
            if i < before.len() {
                assert(shown[i] == before[i]);
            }
        }
        assert forall|i: int|
            0 <= i < tools.len() && (#[trigger] tools[i]).name@ == "load"@ implies shown.contains(
            tools[i],
        ) by {
            if i < tools.len() - 1 {
                assert(rest[i] == tools[i]);
                assert(before.contains(rest[i]));
                let k = choose|k: int| 0 <= k < before.len() && before[k] == rest[i];
                assert(shown[k] == tools[i]);
            } else {
                assert(shown[shown.len() - 1] == tools[i]);
            }
        }
    }
}

/// A server over the session that it created for itself.
pub struct SummonMcpServer<C> {
    pub client: C,
    pub session_id: String,
}

impl<C> SummonMcpServer<C> {
    pub fn new(client: C, session_id: String) -> (server: Self)
        ensures
            server.client == client,
            server.session_id@ == session_id@,
    {
        SummonMcpServer { client, session_id }
    }
}

/// Any value marks a nested server but none, the empty one and the single digit zero.
pub proof fn any_other_value_marks(value: Seq<char>)
    ensures
        !marks_nested(None),
        marks_nested(Some(value)) <==> value.len() > 0 && value != seq!['0'],
{
    reveal_strlit("");
    reveal_strlit("0");
    assert("0"@ =~= seq!['0']);
    if value.len() == 0 {
        assert(value =~= ""@);
    }
}

/// A flag that was captured stays, whatever the variable holds; one that was not is read from it.
pub proof fn captured_flags_stay(nested: bool, value: Option<Seq<char>>)
    ensures
        captured(Some(nested), value) == nested,
        captured(None, value) == marks_nested(value),
{
}

/// Every tool is looked at by itself, so that those that are shown keep their order.
pub proof fn tools_are_shown_one_by_one<T>(
    a: Seq<NamedTool<T>>,
    b: Seq<NamedTool<T>>,
    tool: NamedTool<T>,
    name: Seq<char>,
)
    ensures
        named(a + b, name) == named(a, name) + named(b, name),
        tool.name@ == name ==> named(seq![tool], name) == seq![tool],
        tool.name@ != name ==> named(seq![tool], name).len() == 0,
    decreases b.len(),
{
    assert(seq![tool].drop_last() =~= Seq::<NamedTool<T>>::empty());
    assert(named(Seq::<NamedTool<T>>::empty(), name) =~= Seq::<NamedTool<T>>::empty());
    if tool.name@ == name {
        assert(named(seq![tool], name) =~= seq![tool]);
    }
    if b.len() == 0 {
        assert(a + b =~= a);
        assert(named(a, name) + named(b, name) =~= named(a, name));
    } else {
        tools_are_shown_one_by_one(a, b.drop_last(), tool, name);
        assert((a + b).drop_last() =~= a + b.drop_last());
        assert((a + b).last() == b.last());
        assert(named(a + b, name) =~= named(a, name) + named(b, name));
    }
}

/// A server that starts takes the value that it inherits for its own, whatever the variable holds
/// later, and marks its delegates: any value marks but the empty one and the single digit zero.
pub proof fn servers_know_what_they_inherited(
    start: NestedFlag,
    inherited: Option<&str>,
    setting: Setting,
    begun: NestedFlag,
    later: Option<&str>,
    nested: bool,
    after: NestedFlag,
)
    requires
        start@ is None,
        exists|f: &mut NestedFlag|
            *f == start && *final(f) == begun && #[trigger] call_ensures(
                begin_server,
                (f, inherited),
                setting,
            ),
        exists|f: &mut NestedFlag|
            *f == begun && *final(f) == after && #[trigger] call_ensures(
                is_nested,
                (f, later),
                nested,
            ),
    ensures
        nested <==> inherited is Some && inherited->0@.len() > 0 && inherited->0@ != seq!['0'],
        after@ == begun@,
        setting.variable@ == "GOOSE_SUMMON_NESTED"@,
        setting.value@.len() > 0,
        setting.value@ != seq!['0'],
{
    delegates_are_nested();
    any_other_value_marks(setting.value@);
    if let Some(value) = inherited {
        any_other_value_marks(value@);
    }
}

/// A nested server runs the one tool that loads and no other; any other server runs every tool.
pub proof fn nested_servers_only_load(nested: bool, name: &str, allowed: bool)
    requires
        call_ensures(call_allowed, (nested, name), allowed),
    ensures
        allowed <==> !nested || name@ == "load"@,
{
}

/// What a nested server shows of a page, it runs, and it shows all that it runs; a page of any
/// other server shows as it is.
pub proof fn shown_tools_are_run<T, M>(
    nested: bool,
    page: ToolPage<T, M>,
    shown: ToolPage<T, M>,
    i: int,
    name: &str,
    allowed: bool,
)
    requires
        call_ensures(list_tools::<T, M>, (nested, page), shown),
        call_ensures(call_allowed, (nested, name), allowed),
    ensures
        !nested ==> shown == page,
        nested ==> shown.next_cursor is None && shown.meta is None,
        0 <= i < shown.tools@.len() && shown.tools@[i].name@ == name@ ==> allowed,
        0 <= i < page.tools@.len() && page.tools@[i].name@ == name@ && allowed
            ==> shown.tools@.contains(page.tools@[i]),
{
    nested_shows_load_only(page.tools@);
    if nested && 0 <= i < shown.tools@.len() {
        assert(named(page.tools@, NESTED_TOOL@)[i].name@ == "load"@);
    }
    if !nested && 0 <= i < page.tools@.len() {
        assert(shown.tools@[i] == page.tools@[i]);
    }
}

/// A nested server says that it does not delegate, and any other says that it does.
pub proof fn servers_say_whether_they_delegate(nested: bool, text: String)
    requires
        call_ensures(server_instructions, (nested,), text),
    ensures
        nested ==> text@
            == "Goose summon extension (nested): delegation is unavailable at this depth — use `load` to read available recipes/agents and do the work directly."@,
        !nested ==> text@
            == "Goose summon extension: use `delegate` to run subagent tasks and `load` to list/read available recipes and agents."@,
{
}

} // verus!
