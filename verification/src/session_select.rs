//! Letting people select a session.

use vstd::prelude::*;

use crate::paths::{
    components, is_rooted, plain_path, same_path_means_same_components, to_plain_path,
};
use crate::session::{display_path_with_tilde, shown_path, SessionInfo};
use crate::text::{optional_str, optional_string, same_text, texts};

verus! {

/// The value of the entry that starts a new session. No session has a NUL in its id, so it stands
/// for no session.
pub const NEW_SESSION_SELECTION: &'static str = "\0new-session";

/// The value of the entry that ends the selection.
pub const CANCEL_SELECTION: &'static str = "cancel";

/// Rows of a menu on a terminal of unknown height.
pub const DEFAULT_ROWS: usize = 10;

/// One entry of a menu.
pub struct MenuItem {
    pub value: String,
    pub label: String,
}

/// What an entry holds.
pub ghost struct ItemModel {
    pub value: Seq<char>,
    pub label: Seq<char>,
}

impl View for MenuItem {
    type V = ItemModel;

    open spec fn view(&self) -> ItemModel {
        ItemModel { value: self.value@, label: self.label@ }
    }
}

/// What the entries hold.
pub open spec fn item_models(items: Seq<MenuItem>) -> Seq<ItemModel> {
    items.map_values(|item: MenuItem| item@)
}

/// A menu of sessions.
pub struct SelectionMenu {
    /// The most rows to show at once.
    pub max_rows: usize,
    pub items: Vec<MenuItem>,
}

/// Rows of a menu on a terminal of that height: some lines are kept free, and a few rows always
/// show.
pub open spec fn visible_rows(height: Option<u16>) -> int {
    match height {
        Some(rows) => if rows < 9 {
            3
        } else {
            rows - 6
        },
        None => DEFAULT_ROWS as int,
    }
}

/// Rows of a menu on a terminal of that height.
pub fn max_rows(height: Option<u16>) -> (rows: usize)
    ensures
        rows == visible_rows(height),
{
    match height {
        Some(rows) => if rows < 9 {
            3
        } else {
            (rows - 6) as usize
        },
        None => DEFAULT_ROWS,
    }
}

/// Session `i` is shown: its resolved directory has the components of `target`, if that is given.
pub open spec fn is_shown(dirs: Seq<Seq<char>>, target: Option<Seq<char>>, i: int) -> bool {
    match target {
        Some(dir) => plain_path(dirs[i]) == plain_path(dir),
        None => true,
    }
}

/// The sessions among the first `n` that are shown: those that work in `target`, by their
/// resolved directories, or all.
pub open spec fn shown_among(
    dirs: Seq<Seq<char>>,
    target: Option<Seq<char>>,
    n: nat,
) -> Seq<usize>
    decreases n,
{
    if n == 0 {
        Seq::empty()
    } else {
        let before = shown_among(dirs, target, (n - 1) as nat);
        if is_shown(dirs, target, n - 1) {
            before.push((n - 1) as usize)
        } else {
            before
        }
    }
}

/// Every number in `shown` is below `count`.
pub open spec fn all_below(shown: Seq<usize>, count: nat) -> bool {
    forall|k: int| 0 <= k < shown.len() ==> #[trigger] shown[k] < count
}

/// The sessions that are shown: those that work in `target`, by their resolved directories, or
/// all.
pub fn shown_sessions(dirs: &Vec<String>, target: Option<&str>) -> (shown: Vec<usize>)
    ensures
        shown@ == shown_among(texts(dirs@), optional_str(target), dirs@.len()),
        all_below(shown@, dirs@.len()),
        forall|i: usize|
            i < dirs@.len() ==> (#[trigger] shown@.contains(i) <==> (target is Some ==> is_rooted(
                dirs@[i as int]@,
            ) == is_rooted(target->0@) && components(dirs@[i as int]@) == components(
                target->0@,
            ))),
        is_ascending(shown@),
{
    let mut shown: Vec<usize> = Vec::new();
    let mut i: usize = 0;
    while i < dirs.len()
        invariant
            i <= dirs@.len(),
            shown@ == shown_among(texts(dirs@), optional_str(target), i as nat),
            all_below(shown@, i as nat),
        decreases dirs@.len() - i,
    {
        let keep = match target {
            Some(dir) => {
                let plain = to_plain_path(dirs[i].as_str());
                same_text(plain.as_str(), to_plain_path(dir).as_str())
            },
            None => true,
        };
        if keep {
            shown.push(i);
        }
        i = i + 1;
    }
    proof {
        let all = texts(dirs@);
        let dir = optional_str(target);
        shown_work_in_target(all, dir, all.len());
        shown_keep_their_order(all, dir, all.len());
        assert forall|k: usize| k < dirs@.len() implies (#[trigger] shown@.contains(k) <==> (
        target is Some ==> is_rooted(dirs@[k as int]@) == is_rooted(target->0@) && components(
            dirs@[k as int]@,
        ) == components(target->0@))) by {
            assert(all[k as int] == dirs@[k as int]@);
            shown_are_in_the_same_directory(all, dir, all.len(), k);
        }
    }
    shown
}

/// Each number in `shown` is below the next.
pub open spec fn is_ascending(shown: Seq<usize>) -> bool {
    forall|j: int, k: int| 0 <= j < k < shown.len() ==> #[trigger] shown[j] < #[trigger] shown[k]
}

/// The label of a session: the directory shows unless all sessions have the same.
pub open spec fn session_label(
    session: SessionInfo,
    desc: Seq<char>,
    same_dir: bool,
    home: Option<Seq<char>>,
) -> Seq<char> {
    if same_dir {
        session.updated_at@ + " - "@ + desc
    } else {
        session.updated_at@ + " - "@ + desc + " - "@ + shown_path(session.working_dir@, home)
    }
}

/// The entry that starts a new session.
pub open spec fn new_session_item() -> ItemModel {
    ItemModel {
        value: NEW_SESSION_SELECTION@,
        label: "Start a new session (in current directory)"@,
    }
}

/// The entry that ends the selection.
pub open spec fn cancel_item() -> ItemModel {
    ItemModel { value: CANCEL_SELECTION@, label: "Cancel"@ }
}

/// The entry of a session.
pub open spec fn session_item(
    session: SessionInfo,
    desc: Seq<char>,
    same_dir: bool,
    home: Option<Seq<char>>,
) -> ItemModel {
    ItemModel { value: session.id@, label: session_label(session, desc, same_dir, home) }
}

/// The entries of the sessions that are shown.
pub open spec fn session_items(
    sessions: Seq<SessionInfo>,
    shown: Seq<usize>,
    descs: Seq<Seq<char>>,
    same_dir: bool,
    home: Option<Seq<char>>,
) -> Seq<ItemModel> {
    Seq::new(
        shown.len(),
        |k: int|
            session_item(sessions[shown[k] as int], descs[shown[k] as int], same_dir, home),
    )
}

/// The entries of a menu: the new session first if that is allowed, then the sessions, and the end
/// of the selection last.
pub open spec fn menu_items(
    sessions: Seq<SessionInfo>,
    shown: Seq<usize>,
    descs: Seq<Seq<char>>,
    same_dir: bool,
    allow_new: bool,
    home: Option<Seq<char>>,
) -> Seq<ItemModel> {
    let first = if allow_new {
        seq![new_session_item()]
    } else {
        Seq::empty()
    };
    first + session_items(sessions, shown, descs, same_dir, home) + seq![cancel_item()]
}

/// What to tell if there is nothing to select from.
pub open spec fn nothing_found(filter_dir: Option<Seq<char>>, home: Option<Seq<char>>) -> Seq<char> {
    match filter_dir {
        Some(dir) => "No sessions found for "@ + shown_path(dir, home)
            + ". Use --all to pick from sessions in any directory."@,
        None => "No sessions found"@,
    }
}

/// A menu of the sessions that are shown, with those descriptions, for a terminal of that height.
/// Where all are in `filter_dir`, the directory does not show. Without a session there is nothing
/// to select, unless a new one may be started.
pub fn prompt_interactive_session_selection(
    sessions: &Vec<SessionInfo>,
    shown: &Vec<usize>,
    descs: &Vec<String>,
    filter_dir: &Option<String>,
    allow_new: bool,
    home: &Option<String>,
    height: Option<u16>,
) -> (menu: Result<SelectionMenu, String>)
    requires
        descs@.len() == sessions@.len(),
        all_below(shown@, sessions@.len()),
    ensures
        match menu {
            Ok(menu) => {
                &&& shown@.len() > 0 || allow_new
                &&& menu.max_rows == visible_rows(height)
                &&& item_models(menu.items@) == menu_items(
                    sessions@,
                    shown@,
                    texts(descs@),
                    *filter_dir is Some,
                    allow_new,
                    optional_string(*home),
                )
            },
            Err(message) => {
                &&& shown@.len() == 0
                &&& !allow_new
                &&& message@ == nothing_found(
                    optional_string(*filter_dir),
                    optional_string(*home),
                )
            },
        },
{
    if shown.len() == 0 && !allow_new {
        return Err(
            match filter_dir {
                Some(dir) => {
                    let mut message = "No sessions found for ".to_string();
                    message.append(display_path_with_tilde(dir.as_str(), home).as_str());
                    message.append(". Use --all to pick from sessions in any directory.");
                    message
                },
                None => "No sessions found".to_string(),
            },
        );
    }
    let same_dir = filter_dir.is_some();
    let mut items: Vec<MenuItem> = Vec::new();
    if allow_new {
        items.push(
            MenuItem {
                value: NEW_SESSION_SELECTION.to_string(),
                label: "Start a new session (in current directory)".to_string(),
            },
        );
    }
    let ghost first = item_models(items@);
    let ghost rest = session_items(
        sessions@,
        shown@,
        texts(descs@),
        same_dir,
        optional_string(*home),
    );
    proof {
        if allow_new {
            assert(first =~= seq![new_session_item()]);
        } else {
            assert(first =~= Seq::empty());
        }
    }
    let mut k: usize = 0;
    assert(item_models(items@) =~= first + rest.take(0));
    while k < shown.len()
        invariant
            k <= shown@.len(),
            descs@.len() == sessions@.len(),
            all_below(shown@, sessions@.len()),
            rest == session_items(
                sessions@,
                shown@,
                texts(descs@),
                same_dir,
                optional_string(*home),
            ),
            item_models(items@) == first + rest.take(k as int),
        decreases shown@.len() - k,
    {
        let ghost before = item_models(items@);
        assert(shown@[k as int] < sessions@.len());
        let session = &sessions[shown[k]];
        let mut label = session.updated_at.clone();
        label.append(" - ");
        label.append(descs[shown[k]].as_str());
        if !same_dir {
            label.append(" - ");
            label.append(display_path_with_tilde(session.working_dir.as_str(), home).as_str());
        }
        let item = MenuItem { value: session.id.clone(), label };
        assert(rest[k as int] == item@);
        items.push(item);
        assert(item_models(items@) =~= before.push(item@));
        k = k + 1;
        assert(item_models(items@) =~= first + rest.take(k as int));
    }
    assert(rest.take(k as int) =~= rest);
    let cancel = MenuItem { value: CANCEL_SELECTION.to_string(), label: "Cancel".to_string() };
    let ghost before = item_models(items@);
    items.push(cancel);
    assert(item_models(items@) =~= before.push(cancel@));
    assert(item_models(items@) =~= first + rest + seq![cancel_item()]);
    Ok(SelectionMenu { max_rows: max_rows(height), items })
}

/// What was selected, unless the selection was ended.
pub fn selection(selected: String) -> (result: Result<String, String>)
    ensures
        match result {
            Ok(value) => selected@ != CANCEL_SELECTION@ && value@ == selected@,
            Err(message) => selected@ == CANCEL_SELECTION@ && message@ == "Selection canceled"@,
        },
{
    if same_text(selected.as_str(), CANCEL_SELECTION) {
        Err("Selection canceled".to_string())
    } else {
        Ok(selected)
    }
}

/// Starting a new session cannot be taken for selecting one: ids hold no NUL.
pub proof fn new_session_is_no_id(id: Seq<char>)
    requires
        !id.contains('\0'),
    ensures
        id != NEW_SESSION_SELECTION@,
{
    reveal_strlit("\0new-session");
    assert(NEW_SESSION_SELECTION@[0] == '\0');
}

/// With a new session allowed, its entry is the first one; the end of the selection is always the
/// last one; and every session that is shown has an entry with its id.
pub proof fn menu_order(
    sessions: Seq<SessionInfo>,
    shown: Seq<usize>,
    descs: Seq<Seq<char>>,
    same_dir: bool,
    allow_new: bool,
    home: Option<Seq<char>>,
)
    ensures
        ({
            let items = menu_items(sessions, shown, descs, same_dir, allow_new, home);
            &&& allow_new ==> items[0] == new_session_item()
            &&& items.last() == cancel_item()
            &&& forall|k: int|
                0 <= k < shown.len() ==> items[k + items.len() - shown.len() - 1].value
                    == sessions[#[trigger] shown[k] as int].id@
        }),
{
}

/// With a directory given, the sessions that are shown are exactly those that work in it.
pub proof fn shown_work_in_target(dirs: Seq<Seq<char>>, target: Option<Seq<char>>, n: nat)
    requires
        n <= dirs.len() <= usize::MAX,
    ensures
        forall|i: int|
            0 <= i < n ==> (shown_among(dirs, target, n).contains(i as usize)
                <==> #[trigger] is_shown(dirs, target, i)),
        all_below(shown_among(dirs, target, n), n),
    decreases n,
{
    if n > 0 {
        let m = (n - 1) as nat;
        shown_work_in_target(dirs, target, m);
        let before = shown_among(dirs, target, m);
        let all = shown_among(dirs, target, n);
        assert forall|i: int| 0 <= i < n implies (all.contains(i as usize) <==> #[trigger] is_shown(
            dirs,
            target,
            i,
        )) by {
            if i < m {
                assert(before.contains(i as usize) <==> is_shown(dirs, target, i));
                if before.contains(i as usize) {
                    let k = choose|k: int| 0 <= k < before.len() && before[k] == i as usize;
                    assert(all[k] == i as usize);
                }
                if all.contains(i as usize) {
                    let k = choose|k: int| 0 <= k < all.len() && all[k] == i as usize;
                    assert(k < before.len());
                    assert(before[k] == i as usize);
                }
            } else {
                if is_shown(dirs, target, i) {
                    assert(all[all.len() - 1] == i as usize);
                } else if all.contains(i as usize) {
                    let k = choose|k: int| 0 <= k < all.len() && all[k] == i as usize;
                    assert(before[k] < m);
                }
            }
        }
    }
}

/// The sessions that are shown keep their order, and none shows twice.
pub proof fn shown_keep_their_order(dirs: Seq<Seq<char>>, target: Option<Seq<char>>, n: nat)
    requires
        n <= dirs.len() <= usize::MAX,
    ensures
        is_ascending(shown_among(dirs, target, n)),
    decreases n,
{
    if n > 0 {
        shown_keep_their_order(dirs, target, (n - 1) as nat);
        shown_work_in_target(dirs, target, (n - 1) as nat);
    }
}

/// A session is shown exactly if its directory is the given one: both or neither start at the
/// root, and they have the same components, not only the first ones. Without a directory every
/// session is shown.
pub proof fn shown_are_in_the_same_directory(
    dirs: Seq<Seq<char>>,
    target: Option<Seq<char>>,
    n: nat,
    i: usize,
)
    requires
        i < n <= dirs.len() <= usize::MAX,
    ensures
        target is None ==> shown_among(dirs, target, n).contains(i),
        target is Some ==> (shown_among(dirs, target, n).contains(i) <==> is_rooted(dirs[i as int])
            == is_rooted(target->0) && components(dirs[i as int]) == components(target->0)),
{
    shown_work_in_target(dirs, target, n);
    assert(shown_among(dirs, target, n).contains(i as int as usize) <==> is_shown(
        dirs,
        target,
        i as int,
    ));
    if let Some(dir) = target {
        same_path_means_same_components(dirs[i as int], dir);
    }
}

/// A menu leaves six lines of the terminal free, but has three rows at least; on a terminal of
/// unknown height it has ten.
pub proof fn menus_fit_the_terminal(height: Option<u16>)
    ensures
        height is None ==> visible_rows(height) == 10,
        height is Some && height->0 - 6 >= 3 ==> visible_rows(height) + 6 == height->0,
        height is Some && height->0 - 6 < 3 ==> visible_rows(height) == 3,
{
}

/// The label of a session begins with the time of its last change, then tells what it is about,
/// and ends with its directory unless all sessions have the same.
pub proof fn labels_tell_sessions_apart(
    session: SessionInfo,
    desc: Seq<char>,
    home: Option<Seq<char>>,
    same_dir: bool,
)
    ensures
        session_item(session, desc, same_dir, home).value == session.id@,
        session_item(session, desc, true, home).label == session.updated_at@ + " - "@ + desc,
        session_item(session, desc, false, home).label == session_item(
            session,
            desc,
            true,
            home,
        ).label + " - "@ + shown_path(session.working_dir@, home),
{
}

/// The menu has one entry for each session that is shown, in that order, with that session's
/// description, besides the end of the selection and the new session if it is allowed.
pub proof fn menu_shows_each_session_once(
    sessions: Seq<SessionInfo>,
    shown: Seq<usize>,
    descs: Seq<Seq<char>>,
    same_dir: bool,
    allow_new: bool,
    home: Option<Seq<char>>,
    k: int,
)
    requires
        0 <= k < shown.len(),
    ensures
        ({
            let items = menu_items(sessions, shown, descs, same_dir, allow_new, home);
            let i = shown[k] as int;
            let item = items[if allow_new {
                k + 1
            } else {
                k
            }];
            &&& items.len() == shown.len() + (if allow_new {
                2int
            } else {
                1
            })
            &&& item == session_item(sessions[i], descs[i], same_dir, home)
            &&& items.last().value == "cancel"@
            &&& allow_new ==> items[0].value == "\0new-session"@
        }),
{
}

/// Whatever sessions there are, a selection for a directory shows a session exactly if it works in
/// that very directory, and a selection without one shows every session.
pub proof fn selecting_shows_the_directory(
    dirs: &Vec<String>,
    target: Option<&str>,
    shown: Vec<usize>,
    i: usize,
)
    requires
        call_ensures(shown_sessions, (dirs, target), shown),
        i < dirs@.len(),
    ensures
        target is None ==> shown@.contains(i),
        target is Some ==> (shown@.contains(i) <==> is_rooted(dirs@[i as int]@) == is_rooted(
            target->0@,
        ) && components(dirs@[i as int]@) == components(target->0@)),
{
}

/// A menu offers the end of the selection last, and what is selected comes out as it is, unless it
/// is that end.
pub proof fn selections_come_out(selected: String, result: Result<String, String>)
    requires
        call_ensures(selection, (selected,), result),
    ensures
        selected@ == "cancel"@ ==> result is Err && result->Err_0@ == "Selection canceled"@,
        selected@ != "cancel"@ ==> result is Ok && result->Ok_0@ == selected@,
{
}

/// What is told where there is nothing to select: for a directory, that there are none there and
/// how to get at the others.
pub proof fn nothing_found_is_told(dir: Seq<char>, home: Option<Seq<char>>)
    ensures
        nothing_found(None, home) == "No sessions found"@,
        nothing_found(Some(dir), home) == "No sessions found for "@ + shown_path(dir, home)
            + ". Use --all to pick from sessions in any directory."@,
{
}

/// A menu of sessions has an entry for each session that is shown, in that order, which selects it
/// by its id, and one that ends the selection; a new session comes first if it is allowed. Without
/// any of them there is no menu.
pub proof fn menus_select_by_id(
    sessions: &Vec<SessionInfo>,
    shown: &Vec<usize>,
    descs: &Vec<String>,
    filter_dir: &Option<String>,
    allow_new: bool,
    home: &Option<String>,
    height: Option<u16>,
    menu: Result<SelectionMenu, String>,
    k: int,
)
    requires
        call_ensures(
            prompt_interactive_session_selection,
            (sessions, shown, descs, filter_dir, allow_new, home, height),
            menu,
        ),
    ensures
        menu is Err <==> shown@.len() == 0 && !allow_new,
        menu is Ok ==> {
            let items = menu->Ok_0.items@;
            &&& items.len() == shown@.len() + (if allow_new {
                2int
            } else {
                1
            })
            &&& items.last().value@ == "cancel"@
            &&& allow_new ==> items[0].value@ == "\0new-session"@
            &&& 0 <= k < shown@.len() ==> items[if allow_new {
                k + 1
            } else {
                k
            }].value@ == sessions@[shown@[k] as int].id@
            &&& height is None ==> menu->Ok_0.max_rows == 10
        },
{
    if menu is Ok {
        let items = menu->Ok_0.items@;
        let all = item_models(items);
        assert(all.len() == items.len());
        assert(all.last() == items.last()@);
        assert(all[0] == items[0]@);
        menu_order(
            sessions@,
            shown@,
            texts(descs@),
            *filter_dir is Some,
            allow_new,
            optional_string(*home),
        );
        if 0 <= k < shown@.len() {
            menu_shows_each_session_once(
                sessions@,
                shown@,
                texts(descs@),
                *filter_dir is Some,
                allow_new,
                optional_string(*home),
                k,
            );
            let at = if allow_new {
                k + 1
            } else {
                k
            };
            assert(all[at] == items[at]@);
        }
    }
}

} // verus!
