//! JSON values and their canonical form.

use vstd::prelude::*;

use crate::text::{same_text, to_chars};

verus! {

#[verifier::external_type_specification]
#[verifier::external_body]
pub struct ExNumber(serde_json::Number);

#[verifier::external_type_specification]
#[verifier::external_body]
pub struct ExValue(serde_json::Value);

/// `serde_json::Number::clone` gives the same number.
pub assume_specification[ <serde_json::Number as Clone>::clone ](n: &serde_json::Number) -> (copy:
    serde_json::Number)
    ensures
        copy == *n,
;

/// A JSON value; the members of an object stand in some order.
pub enum Json {
    Null,
    Bool(bool),
    Number(serde_json::Number),
    Text(String),
    Array(Vec<Json>),
    Object(Vec<(String, Json)>),
}

/// A JSON value as it is written down: the members of an object have an order.
pub enum JsonTree {
    Null,
    Bool(bool),
    Number(serde_json::Number),
    Text(Seq<char>),
    Array(Seq<JsonTree>),
    Object(Seq<(Seq<char>, JsonTree)>),
}

/// What a JSON value means: an object maps names to values.
pub enum JsonModel {
    Null,
    Bool(bool),
    Number(serde_json::Number),
    Text(Seq<char>),
    Array(Seq<JsonModel>),
    Object(Map<Seq<char>, JsonModel>),
}

impl Json {
    /// The value as it is written down.
    pub open spec fn tree(self) -> JsonTree
        decreases self,
    {
        match self {
            Json::Null => JsonTree::Null,
            Json::Bool(b) => JsonTree::Bool(b),
            Json::Number(n) => JsonTree::Number(n),
            Json::Text(s) => JsonTree::Text(s@),
            Json::Array(items) => JsonTree::Array(trees(items@)),
            Json::Object(members) => JsonTree::Object(member_trees(members@)),
        }
    }

    /// What the value means.
    pub open spec fn model(self) -> JsonModel {
        meaning(self.tree())
    }
}

pub open spec fn trees(items: Seq<Json>) -> Seq<JsonTree>
    decreases items,
{
    if items.len() == 0 {
        Seq::empty()
    } else {
        trees(items.drop_last()).push(items.last().tree())
    }
}

pub open spec fn member_trees(members: Seq<(String, Json)>) -> Seq<(Seq<char>, JsonTree)>
    decreases members,
{
    if members.len() == 0 {
        Seq::empty()
    } else {
        member_trees(members.drop_last()).push((members.last().0@, members.last().1.tree()))
    }
}

/// What a written value means; of members with the same name the last one counts.
pub open spec fn meaning(t: JsonTree) -> JsonModel
    decreases t,
{
    match t {
        JsonTree::Null => JsonModel::Null,
        JsonTree::Bool(b) => JsonModel::Bool(b),
        JsonTree::Number(n) => JsonModel::Number(n),
        JsonTree::Text(s) => JsonModel::Text(s),
        JsonTree::Array(items) => JsonModel::Array(meanings(items)),
        JsonTree::Object(members) => JsonModel::Object(member_meanings(members)),
    }
}

pub open spec fn meanings(items: Seq<JsonTree>) -> Seq<JsonModel>
    decreases items,
{
    if items.len() == 0 {
        Seq::empty()
    } else {
        meanings(items.drop_last()).push(meaning(items.last()))
    }
}

pub open spec fn member_meanings(members: Seq<(Seq<char>, JsonTree)>) -> Map<Seq<char>, JsonModel>
    decreases members,
{
    if members.len() == 0 {
        Map::empty()
    } else {
        member_meanings(members.drop_last()).insert(members.last().0, meaning(members.last().1))
    }
}

/// `a` comes before `b` in the order of texts by their characters.
pub open spec fn text_less(a: Seq<char>, b: Seq<char>) -> bool {
    exists|i: int| #[trigger] differs_at(a, b, i)
}

/// `a` and `b` agree before position `i`, where `a` ends or has the smaller character.
pub open spec fn differs_at(a: Seq<char>, b: Seq<char>, i: int) -> bool {
    &&& 0 <= i <= a.len()
    &&& i < b.len()
    &&& a.take(i) == b.take(i)
    &&& i == a.len() || a[i] < b[i]
}

/// The names are in ascending order, none twice.
pub open spec fn ascending(members: Seq<(Seq<char>, JsonTree)>) -> bool {
    forall|i: int, j: int|
        0 <= i < j < members.len() ==> text_less((#[trigger] members[i]).0, (
        #[trigger] members[j]).0)
}

/// The members of every object in `t` are in ascending order.
pub open spec fn ordered(t: JsonTree) -> bool
    decreases t,
{
    match t {
        JsonTree::Array(items) => forall|i: int|
            0 <= i < items.len() ==> ordered(#[trigger] items[i]),
        JsonTree::Object(members) => ascending(members) && forall|i: int|
            0 <= i < members.len() ==> ordered((#[trigger] members[i]).1),
        _ => true,
    }
}

/// The one way to write down `m` with the members of every object in ascending order.
pub open spec fn canonical(m: JsonModel) -> JsonTree {
    choose|t: JsonTree| ordered(t) && meaning(t) == m
}

/// No text comes before itself.
pub proof fn text_less_irreflexive(a: Seq<char>)
    ensures
        !text_less(a, a),
{
    if text_less(a, a) {
        let i = choose|i: int| #[trigger] differs_at(a, a, i);
        assert(differs_at(a, a, i));
    }
}

pub proof fn text_less_transitive(a: Seq<char>, b: Seq<char>, c: Seq<char>)
    requires
        text_less(a, b),
        text_less(b, c),
    ensures
        text_less(a, c),
{
    let i = choose|i: int| #[trigger] differs_at(a, b, i);
    let j = choose|j: int| #[trigger] differs_at(b, c, j);
    assert(differs_at(a, b, i));
    assert(differs_at(b, c, j));
    let k = if i < j { i } else { j };
    assert(a.take(k) =~= a.take(i).take(k));
    assert(b.take(k) =~= b.take(i).take(k));
    assert(b.take(k) =~= b.take(j).take(k));
    assert(c.take(k) =~= c.take(j).take(k));
    if i < j {
        assert(b.take(j)[i] == c.take(j)[i]);
    } else if j < i {
        assert(a.take(i)[j] == b.take(i)[j]);
    }
    assert(differs_at(a, c, k));
}

/// Two texts never come before each other.
pub proof fn text_less_asymmetric(a: Seq<char>, b: Seq<char>)
    requires
        text_less(a, b),
    ensures
        !text_less(b, a),
        a != b,
{
    text_less_irreflexive(a);
    if text_less(b, a) {
        text_less_transitive(a, b, a);
    }
}

/// The three ways in which two texts can stand to each other.
pub enum TextOrder {
    Before,
    Same,
    After,
}

/// How `a` stands to `b` in the order of texts.
pub fn order_texts(a: &str, b: &str) -> (order: TextOrder)
    ensures
        match order {
            TextOrder::Before => text_less(a@, b@),
            TextOrder::Same => a@ == b@,
            TextOrder::After => text_less(b@, a@),
        },
{
    let x = to_chars(a);
    let y = to_chars(b);
    let mut i: usize = 0;
    while i < x.len() && i < y.len()
        invariant
            x@ == a@,
            y@ == b@,
            i <= x.len(),
            i <= y.len(),
            a@.take(i as int) == b@.take(i as int),
        decreases x.len() - i,
    {
        if x[i] < y[i] {
            assert(differs_at(a@, b@, i as int));
            return TextOrder::Before;
        }
        if y[i] < x[i] {
            assert(differs_at(b@, a@, i as int));
            return TextOrder::After;
        }
        assert(a@.take(i + 1) =~= a@.take(i as int).push(a@[i as int]));
        assert(b@.take(i + 1) =~= b@.take(i as int).push(b@[i as int]));
        i = i + 1;
    }
    assert(a@.take(a@.len() as int) =~= a@);
    assert(b@.take(b@.len() as int) =~= b@);
    if i < y.len() {
        assert(differs_at(a@, b@, i as int));
        TextOrder::Before
    } else if i < x.len() {
        assert(differs_at(b@, a@, i as int));
        TextOrder::After
    } else {
        TextOrder::Same
    }
}

/// The trees of members, one by one.
pub proof fn member_trees_index(members: Seq<(String, Json)>)
    ensures
        member_trees(members).len() == members.len(),
        forall|i: int|
            0 <= i < members.len() ==> #[trigger] member_trees(members)[i] == (
                members[i].0@,
                members[i].1.tree(),
            ),
    decreases members,
{
    if members.len() > 0 {
        member_trees_index(members.drop_last());
    }
}

/// The trees of items, one by one.
pub proof fn trees_index(items: Seq<Json>)
    ensures
        trees(items).len() == items.len(),
        forall|i: int| 0 <= i < items.len() ==> #[trigger] trees(items)[i] == items[i].tree(),
    decreases items,
{
    if items.len() > 0 {
        trees_index(items.drop_last());
    }
}

/// The meanings of items, one by one.
pub proof fn meanings_index(items: Seq<JsonTree>)
    ensures
        meanings(items).len() == items.len(),
        forall|i: int| 0 <= i < items.len() ==> #[trigger] meanings(items)[i] == meaning(items[i]),
    decreases items,
{
    if items.len() > 0 {
        meanings_index(items.drop_last());
    }
}

/// Some member has that name.
pub open spec fn has_member(members: Seq<(Seq<char>, JsonTree)>, name: Seq<char>) -> bool {
    exists|i: int| 0 <= i < members.len() && (#[trigger] members[i]).0 == name
}

/// The names that an object maps are those of its members.
pub proof fn member_names(members: Seq<(Seq<char>, JsonTree)>, name: Seq<char>)
    ensures
        member_meanings(members).dom().contains(name) == has_member(members, name),
    decreases members,
{
    if members.len() > 0 {
        let rest = members.drop_last();
        member_names(rest, name);
        if has_member(members, name) && !has_member(rest, name) {
            let i = choose|i: int| 0 <= i < members.len() && (#[trigger] members[i]).0 == name;
            if i < rest.len() {
                assert(rest[i].0 == name);
            }
        }
        if has_member(rest, name) {
            let i = choose|i: int| 0 <= i < rest.len() && (#[trigger] rest[i]).0 == name;
            assert(members[i].0 == name);
        }
        if members.last().0 == name {
            assert(members[members.len() - 1].0 == name);
        }
    }
}

/// With names in ascending order, every member counts.
pub proof fn ascending_members_count(members: Seq<(Seq<char>, JsonTree)>, i: int)
    requires
        ascending(members),
        0 <= i < members.len(),
    ensures
        member_meanings(members).dom().contains(members[i].0),
        member_meanings(members)[members[i].0] == meaning(members[i].1),
    decreases members.len(),
{
    let rest = members.drop_last();
    let last = members.len() - 1;
    if i < last {
        assert(ascending(rest)) by {
            assert forall|a: int, b: int| 0 <= a < b < rest.len() implies text_less(
                (#[trigger] rest[a]).0,
                (#[trigger] rest[b]).0,
            ) by {
                assert(text_less(members[a].0, members[b].0));
            }
        }
        ascending_members_count(rest, i);
        assert(rest[i] == members[i]);
        assert(text_less(members[i].0, members[last].0));
        text_less_asymmetric(members[i].0, members[last].0);
    }
}

/// A name comes before the last one, or is it.
proof fn last_name_is_greatest(members: Seq<(Seq<char>, JsonTree)>, name: Seq<char>)
    requires
        ascending(members),
        has_member(members, name),
    ensures
        name == members.last().0 || text_less(name, members.last().0),
{
    let i = choose|i: int| 0 <= i < members.len() && (#[trigger] members[i]).0 == name;
    if i < members.len() - 1 {
        assert(text_less(members[i].0, members[members.len() - 1].0));
    }
}

/// Dropping the last member takes its name away and leaves the rest.
proof fn without_last_member(members: Seq<(Seq<char>, JsonTree)>)
    requires
        ascending(members),
        members.len() > 0,
    ensures
        ascending(members.drop_last()),
        member_meanings(members.drop_last()) == member_meanings(members).remove(members.last().0),
{
    let rest = members.drop_last();
    let name = members.last().0;
    assert forall|a: int, b: int| 0 <= a < b < rest.len() implies text_less(
        (#[trigger] rest[a]).0,
        (#[trigger] rest[b]).0,
    ) by {
        assert(text_less(members[a].0, members[b].0));
    }
    member_names(rest, name);
    if has_member(rest, name) {
        let i = choose|i: int| 0 <= i < rest.len() && (#[trigger] rest[i]).0 == name;
        assert(text_less(members[i].0, members[members.len() - 1].0));
        text_less_irreflexive(name);
    }
    assert(member_meanings(rest) =~= member_meanings(members).remove(name));
}

/// There is only one ordered way to write down a value.
pub proof fn ordered_tree_is_unique(a: JsonTree, b: JsonTree)
    requires
        ordered(a),
        ordered(b),
        meaning(a) == meaning(b),
    ensures
        a == b,
    decreases a,
{
    match (a, b) {
        (JsonTree::Array(x), JsonTree::Array(y)) => {
            meanings_index(x);
            meanings_index(y);
            assert(x.len() == y.len());
            assert forall|i: int| 0 <= i < x.len() implies x[i] == y[i] by {
                assert(meanings(x)[i] == meanings(y)[i]);
                ordered_tree_is_unique(x[i], y[i]);
            }
            assert(x =~= y);
        },
        (JsonTree::Object(x), JsonTree::Object(y)) => {
            ordered_members_are_unique(x, y);
        },
        _ => {},
    }
}

proof fn ordered_members_are_unique(
    x: Seq<(Seq<char>, JsonTree)>,
    y: Seq<(Seq<char>, JsonTree)>,
)
    requires
        ascending(x),
        ascending(y),
        forall|i: int| 0 <= i < x.len() ==> ordered((#[trigger] x[i]).1),
        forall|i: int| 0 <= i < y.len() ==> ordered((#[trigger] y[i]).1),
        member_meanings(x) == member_meanings(y),
    ensures
        x == y,
    decreases x,
{
    if x.len() == 0 {
        if y.len() > 0 {
            member_names(y, y[0].0);
            member_names(x, y[0].0);
            assert(has_member(y, y[0].0));
        }
        assert(x =~= y);
    } else {
        let m = member_meanings(x);
        let name = x.last().0;
        assert(x[x.len() - 1].0 == name);
        assert(has_member(x, name));
        member_names(x, name);
        member_names(y, name);
        last_name_is_greatest(y, name);
        let other = y.last().0;
        assert(y[y.len() - 1].0 == other);
        assert(has_member(y, other));
        member_names(x, other);
        member_names(y, other);
        last_name_is_greatest(x, other);
        if name != other {
            text_less_asymmetric(name, other);
        }
        ascending_members_count(x, x.len() - 1);
        ascending_members_count(y, y.len() - 1);
        assert(ordered(x[x.len() - 1].1));
        assert(ordered(y[y.len() - 1].1));
        ordered_tree_is_unique(x.last().1, y.last().1);
        without_last_member(x);
        without_last_member(y);
        assert forall|i: int| 0 <= i < x.drop_last().len() implies ordered(
            (#[trigger] x.drop_last()[i]).1,
        ) by {
            assert(ordered(x[i].1));
        }
        assert forall|i: int| 0 <= i < y.drop_last().len() implies ordered(
            (#[trigger] y.drop_last()[i]).1,
        ) by {
            assert(ordered(y[i].1));
        }
        ordered_members_are_unique(x.drop_last(), y.drop_last());
        assert(x =~= x.drop_last().push(x.last()));
        assert(y =~= y.drop_last().push(y.last()));
    }
}

/// An ordered tree is the canonical form of what it means.
pub proof fn ordered_tree_is_canonical(t: JsonTree)
    requires
        ordered(t),
    ensures
        canonical(meaning(t)) == t,
{
    let c = canonical(meaning(t));
    assert(ordered(c) && meaning(c) == meaning(t));
    ordered_tree_is_unique(c, t);
}

/// Members in ascending order mean `m` if they have its names and values.
proof fn members_mean(members: Seq<(Seq<char>, JsonTree)>, m: Map<Seq<char>, JsonModel>)
    requires
        ascending(members),
        forall|name: Seq<char>| #[trigger] m.dom().contains(name) ==> has_member(members, name),
        forall|i: int|
            0 <= i < members.len() ==> m.dom().contains((#[trigger] members[i]).0)
                && m[members[i].0] == meaning(members[i].1),
    ensures
        member_meanings(members) == m,
{
    let n = member_meanings(members);
    assert forall|name: Seq<char>| #[trigger] n.dom().contains(name) == m.dom().contains(name) by {
        member_names(members, name);
        if has_member(members, name) {
            let i = choose|i: int| 0 <= i < members.len() && (#[trigger] members[i]).0 == name;
            assert(m.dom().contains(members[i].0));
        }
    }
    assert forall|name: Seq<char>| #[trigger] n.dom().contains(name) implies n[name] == m[name] by {
        member_names(members, name);
        let i = choose|i: int| 0 <= i < members.len() && (#[trigger] members[i]).0 == name;
        ascending_members_count(members, i);
        assert(m[members[i].0] == meaning(members[i].1));
    }
    assert(n =~= m);
}

/// Adds a member to members in ascending order, or replaces the one of that name.
pub(crate) fn insert_member(members: &mut Vec<(String, Json)>, name: String, value: Json)
    requires
        ascending(member_trees(old(members)@)),
        forall|i: int|
            0 <= i < old(members)@.len() ==> ordered((#[trigger] old(members)@[i]).1.tree()),
        ordered(value.tree()),
    ensures
        ascending(member_trees(final(members)@)),
        forall|i: int|
            0 <= i < final(members)@.len() ==> ordered((#[trigger] final(members)@[i]).1.tree()),
        member_meanings(member_trees(final(members)@)) == member_meanings(
            member_trees(old(members)@),
        ).insert(name@, value.model()),
{
    let ghost before = member_trees(members@);
    let ghost wanted = member_meanings(before).insert(name@, value.model());
    let ghost entry = (name@, value.tree());
    proof {
        member_trees_index(members@);
    }
    let mut p: usize = 0;
    while p < members.len()
        invariant
            p <= members@.len(),
            members@ == old(members)@,
            before == member_trees(members@),
            before.len() == members@.len(),
            ascending(before),
            forall|k: int| 0 <= k < p ==> text_less((#[trigger] before[k]).0, name@),
            forall|i: int|
                0 <= i < members@.len() ==> #[trigger] before[i] == (
                    members@[i].0@,
                    members@[i].1.tree(),
                ),
            wanted == member_meanings(before).insert(name@, value.model()),
            entry == (name@, value.tree()),
            ordered(value.tree()),
            forall|i: int|
                0 <= i < members@.len() ==> ordered((#[trigger] members@[i]).1.tree()),
        ensures
            p < members@.len() ==> text_less(name@, before[p as int].0),
        decreases members@.len() - p,
    {
        assert(before[p as int].0 == members@[p as int].0@);
        match order_texts(members[p].0.as_str(), name.as_str()) {
            TextOrder::Before => {
                p = p + 1;
            },
            TextOrder::Same => {
                let replaced = members.remove(p);
                members.insert(p, (name, value));
                proof {
                    member_trees_index(members@);
                    let after = member_trees(members@);
                    assert(after =~= before.update(p as int, entry));
                    assert forall|i: int, j: int| 0 <= i < j < after.len() implies text_less(
                        (#[trigger] after[i]).0,
                        (#[trigger] after[j]).0,
                    ) by {
                        assert(text_less(before[i].0, before[j].0));
                    }
                    members_after_update(before, after, p as int, entry);
                }
                return;
            },
            TextOrder::After => {
                break;
            },
        }
    }
    members.insert(p, (name, value));
    proof {
        member_trees_index(members@);
        let after = member_trees(members@);
        assert(after =~= before.insert(p as int, entry));
        assert forall|k: int| p <= k < before.len() implies text_less(
            name@,
            (#[trigger] before[k]).0,
        ) by {
            if k > p {
                assert(text_less(before[p as int].0, before[k].0));
                text_less_transitive(name@, before[p as int].0, before[k].0);
            }
        }
        assert forall|i: int, j: int| 0 <= i < j < after.len() implies text_less(
            (#[trigger] after[i]).0,
            (#[trigger] after[j]).0,
        ) by {
            let a = if i < p { i } else { i - 1 };
            let b = if j < p { j } else { j - 1 };
            if i != p && j != p {
                assert(text_less(before[a].0, before[b].0));
            } else if i == p {
                assert(text_less(name@, before[b].0));
            } else {
                assert(text_less(before[a].0, name@));
            }
        }
        members_after_insert(before, after, p as int, entry);
    }
}

proof fn members_after_update(
    before: Seq<(Seq<char>, JsonTree)>,
    after: Seq<(Seq<char>, JsonTree)>,
    p: int,
    entry: (Seq<char>, JsonTree),
)
    requires
        ascending(before),
        ascending(after),
        0 <= p < before.len(),
        before[p].0 == entry.0,
        after == before.update(p, entry),
    ensures
        member_meanings(after) == member_meanings(before).insert(entry.0, meaning(entry.1)),
{
    let m = member_meanings(before).insert(entry.0, meaning(entry.1));
    assert forall|name: Seq<char>| #[trigger] m.dom().contains(name) implies has_member(
        after,
        name,
    ) by {
        if name == entry.0 {
            assert(after[p].0 == name);
        } else {
            member_names(before, name);
            let i = choose|i: int| 0 <= i < before.len() && (#[trigger] before[i]).0 == name;
            assert(after[i].0 == name);
        }
    }
    assert forall|i: int| 0 <= i < after.len() implies m.dom().contains((#[trigger] after[i]).0)
        && m[after[i].0] == meaning(after[i].1) by {
        ascending_members_count(before, i);
        if i < p {
            assert(text_less(after[i].0, after[p].0));
            text_less_asymmetric(after[i].0, after[p].0);
        } else if i > p {
            assert(text_less(after[p].0, after[i].0));
            text_less_asymmetric(after[p].0, after[i].0);
        }
    }
    members_mean(after, m);
}

proof fn members_after_insert(
    before: Seq<(Seq<char>, JsonTree)>,
    after: Seq<(Seq<char>, JsonTree)>,
    p: int,
    entry: (Seq<char>, JsonTree),
)
    requires
        ascending(before),
        ascending(after),
        0 <= p <= before.len(),
        after == before.insert(p, entry),
    ensures
        member_meanings(after) == member_meanings(before).insert(entry.0, meaning(entry.1)),
{
    let m = member_meanings(before).insert(entry.0, meaning(entry.1));
    assert forall|name: Seq<char>| #[trigger] m.dom().contains(name) implies has_member(
        after,
        name,
    ) by {
        if name == entry.0 {
            assert(after[p].0 == name);
        } else {
            member_names(before, name);
            let i = choose|i: int| 0 <= i < before.len() && (#[trigger] before[i]).0 == name;
            let a = if i < p { i } else { i + 1 };
            assert(after[a].0 == name);
        }
    }
    assert forall|i: int| 0 <= i < after.len() implies m.dom().contains((#[trigger] after[i]).0)
        && m[after[i].0] == meaning(after[i].1) by {
        if i < p {
            ascending_members_count(before, i);
            assert(text_less(after[i].0, after[p].0));
            text_less_asymmetric(after[i].0, after[p].0);
        } else if i > p {
            ascending_members_count(before, i - 1);
            assert(text_less(after[p].0, after[i].0));
            text_less_asymmetric(after[p].0, after[i].0);
        }
    }
    members_mean(after, m);
}

/// The same value with the members of every object in ascending order of their names.
pub fn sort_value(v: &Json) -> (sorted: Json)
    ensures
        sorted.tree() == canonical(v.model()),
        ordered(sorted.tree()),
        sorted.model() == v.model(),
    decreases v,
{
    let sorted = match v {
        Json::Null => Json::Null,
        Json::Bool(b) => Json::Bool(*b),
        Json::Number(n) => Json::Number(n.clone()),
        Json::Text(s) => Json::Text(s.clone()),
        Json::Array(items) => {
            let mut out: Vec<Json> = Vec::new();
            let mut i: usize = 0;
            proof {
                trees_index(items@);
                meanings_index(trees(items@));
            }
            while i < items.len()
                invariant
                    i <= items@.len(),
                    *v == Json::Array(*items),
                    out@.len() == i,
                    forall|k: int|
                        0 <= k < i ==> ordered((#[trigger] out@[k]).tree()) && out@[k].model()
                            == items@[k].model(),
                decreases items@.len() - i,
            {
                assert(decreases_to!(*v => v->Array_0));
                assert(decreases_to!(v->Array_0 => v->Array_0@));
                assert(decreases_to!(items@ => items@[i as int]));
                out.push(sort_value(&items[i]));
                i = i + 1;
            }
            proof {
                trees_index(out@);
                meanings_index(trees(out@));
                assert(meanings(trees(out@)) =~= meanings(trees(items@)));
                assert forall|k: int| 0 <= k < trees(out@).len() implies ordered(
                    #[trigger] trees(out@)[k],
                ) by {
                    assert(ordered(out@[k].tree()));
                }
            }
            Json::Array(out)
        },
        Json::Object(members) => {
            let mut out: Vec<(String, Json)> = Vec::new();
            let mut i: usize = 0;
            assert(member_trees(members@.take(0)) =~= Seq::empty());
            while i < members.len()
                invariant
                    i <= members@.len(),
                    *v == Json::Object(*members),
                    ascending(member_trees(out@)),
                    forall|k: int| 0 <= k < out@.len() ==> ordered((#[trigger] out@[k]).1.tree()),
                    member_meanings(member_trees(out@)) == member_meanings(
                        member_trees(members@.take(i as int)),
                    ),
                decreases members@.len() - i,
            {
                assert(decreases_to!(*v => v->Object_0));
                assert(decreases_to!(v->Object_0 => v->Object_0@));
                assert(decreases_to!(members@ => members@[i as int]));
                assert(decreases_to!(members@[i as int] => members@[i as int].1));
                let value = sort_value(&members[i].1);
                proof {
                    let longer = members@.take(i + 1);
                    assert(longer.drop_last() =~= members@.take(i as int));
                    let trees = member_trees(longer);
                    assert(trees.drop_last() =~= member_trees(longer.drop_last()));
                    assert(trees.last() == (members@[i as int].0@, members@[i as int].1.tree()));
                }
                insert_member(&mut out, members[i].0.clone(), value);
                i = i + 1;
            }
            proof {
                assert(members@.take(members@.len() as int) =~= members@);
                member_trees_index(out@);
                assert forall|k: int| 0 <= k < member_trees(out@).len() implies ordered(
                    (#[trigger] member_trees(out@)[k]).1,
                ) by {
                    assert(ordered(out@[k].1.tree()));
                }
            }
            Json::Object(out)
        },
    };
    proof {
        ordered_tree_is_canonical(sorted.tree());
    }
    sorted
}

/// The member of that name in an object.
pub open spec fn member(m: JsonModel, name: Seq<char>) -> Option<JsonModel> {
    match m {
        JsonModel::Object(map) => if map.dom().contains(name) {
            Some(map[name])
        } else {
            None
        },
        _ => None,
    }
}

/// The member of that name in an object; other values have no members.
pub fn get<'a>(v: &'a Json, name: &str) -> (found: Option<&'a Json>)
    ensures
        member(v.model(), name@) == (match found {
            Some(x) => Some(x.model()),
            None => None,
        }),
{
    match v {
        Json::Object(members) => {
            let mut n: usize = members.len();
            assert(members@.take(n as int) =~= members@);
            while n > 0
                invariant
                    n <= members@.len(),
                    *v == Json::Object(*members),
                    member(v.model(), name@) == member(
                        JsonModel::Object(member_meanings(member_trees(members@.take(n as int)))),
                        name@,
                    ),
                decreases n,
            {
                proof {
                    let longer = members@.take(n as int);
                    assert(longer.drop_last() =~= members@.take(n - 1));
                    let t = member_trees(longer);
                    assert(t.drop_last() =~= member_trees(longer.drop_last()));
                    assert(t.last() == (members@[n - 1].0@, members@[n - 1].1.tree()));
                }
                if same_text(members[n - 1].0.as_str(), name) {
                    return Some(&members[n - 1].1);
                }
                n = n - 1;
            }
            assert(member_trees(members@.take(0)) =~= Seq::empty());
            None
        },
        _ => None,
    }
}

/// Every member of `x` has one in `y` of the same name and meaning.
pub open spec fn members_among(
    x: Seq<(Seq<char>, JsonTree)>,
    y: Seq<(Seq<char>, JsonTree)>,
) -> bool {
    forall|i: int|
        0 <= i < x.len() ==> exists|j: int|
            0 <= j < y.len() && (#[trigger] y[j]).0 == (#[trigger] x[i]).0 && meaning(y[j].1)
                == meaning(x[i].1)
}

/// No name occurs twice.
pub open spec fn distinct_names(x: Seq<(Seq<char>, JsonTree)>) -> bool {
    forall|i: int, j: int|
        0 <= i < x.len() && 0 <= j < x.len() && i != j ==> (#[trigger] x[i]).0 != (
        #[trigger] x[j]).0
}

/// With distinct names, every member counts.
pub proof fn distinct_members_count(x: Seq<(Seq<char>, JsonTree)>, i: int)
    requires
        distinct_names(x),
        0 <= i < x.len(),
    ensures
        member_meanings(x).dom().contains(x[i].0),
        member_meanings(x)[x[i].0] == meaning(x[i].1),
    decreases x.len(),
{
    let rest = x.drop_last();
    if i < x.len() - 1 {
        assert forall|a: int, b: int|
            0 <= a < rest.len() && 0 <= b < rest.len() && a != b implies (#[trigger] rest[a]).0
            != (#[trigger] rest[b]).0 by {
            assert(x[a].0 != x[b].0);
        }
        distinct_members_count(rest, i);
        assert(rest[i] == x[i]);
        assert(x[i].0 != x[x.len() - 1].0);
    }
}

/// The order in which an object's members are written down has no influence on its meaning.
pub proof fn member_order_is_irrelevant(
    x: Seq<(Seq<char>, JsonTree)>,
    y: Seq<(Seq<char>, JsonTree)>,
)
    requires
        distinct_names(x),
        distinct_names(y),
        members_among(x, y),
        members_among(y, x),
    ensures
        meaning(JsonTree::Object(x)) == meaning(JsonTree::Object(y)),
{
    let a = member_meanings(x);
    let b = member_meanings(y);
    assert forall|name: Seq<char>| a.dom().contains(name) == #[trigger] b.dom().contains(name) by {
        member_names(x, name);
        member_names(y, name);
        if has_member(x, name) {
            let i = choose|i: int| 0 <= i < x.len() && (#[trigger] x[i]).0 == name;
            assert(exists|j: int| 0 <= j < y.len() && (#[trigger] y[j]).0 == x[i].0);
        }
        if has_member(y, name) {
            let j = choose|j: int| 0 <= j < y.len() && (#[trigger] y[j]).0 == name;
            assert(exists|i: int| 0 <= i < x.len() && (#[trigger] x[i]).0 == y[j].0);
        }
    }
    assert forall|name: Seq<char>| #[trigger] a.dom().contains(name) implies a[name]
        == b[name] by {
        member_names(x, name);
        let i = choose|i: int| 0 <= i < x.len() && (#[trigger] x[i]).0 == name;
        distinct_members_count(x, i);
        let j = choose|j: int|
            0 <= j < y.len() && (#[trigger] y[j]).0 == x[i].0 && meaning(y[j].1) == meaning(
                x[i].1,
            );
        distinct_members_count(y, j);
    }
    assert(a =~= b);
}

/// An array means its items, in order.
pub proof fn arrays_mean_their_items(items: Seq<JsonTree>)
    ensures
        meaning(JsonTree::Array(items)) is Array,
        meaning(JsonTree::Array(items))->Array_0.len() == items.len(),
        forall|i: int|
            0 <= i < items.len() ==> #[trigger] meaning(JsonTree::Array(items))->Array_0[i]
                == meaning(items[i]),
    decreases items.len(),
{
    if items.len() > 0 {
        let rest = items.drop_last();
        arrays_mean_their_items(rest);
        let all = meanings(items);
        assert(meaning(JsonTree::Array(items)) == JsonModel::Array(all));
        assert(meaning(JsonTree::Array(rest)) == JsonModel::Array(meanings(rest)));
        assert forall|i: int| 0 <= i < items.len() implies #[trigger] all[i] == meaning(
            items[i],
        ) by {
            if i < rest.len() {
                assert(all[i] == meanings(rest)[i]);
                assert(meaning(JsonTree::Array(rest))->Array_0[i] == meaning(rest[i]));
            }
        }
    }
}

/// An object with distinct names has exactly the members that are written down, each with the
/// meaning of what is written down for it.
pub proof fn objects_mean_their_members(x: Seq<(Seq<char>, JsonTree)>, name: Seq<char>)
    requires
        distinct_names(x),
    ensures
        meaning(JsonTree::Object(x)) is Object,
        match member(meaning(JsonTree::Object(x)), name) {
            Some(v) => exists|i: int| 0 <= i < x.len() && (#[trigger] x[i]).0 == name && meaning(
                x[i].1,
            ) == v,
            None => forall|i: int| 0 <= i < x.len() ==> (#[trigger] x[i]).0 != name,
        },
{
    member_names(x, name);
    if has_member(x, name) {
        let i = choose|i: int| 0 <= i < x.len() && (#[trigger] x[i]).0 == name;
        distinct_members_count(x, i);
    }
}

/// Of members with one name the last one counts.
pub proof fn last_member_counts(
    x: Seq<(Seq<char>, JsonTree)>,
    name: Seq<char>,
    value: JsonTree,
    other: Seq<char>,
)
    ensures
        member(meaning(JsonTree::Object(x.push((name, value)))), name) == Some(meaning(value)),
        other != name ==> member(meaning(JsonTree::Object(x.push((name, value)))), other) == member(
            meaning(JsonTree::Object(x)),
            other,
        ),
{
    let y = x.push((name, value));
    assert(y.drop_last() =~= x);
    assert(member_meanings(y) == member_meanings(x).insert(name, meaning(value)));
}

/// Only objects have members, and those are what they map names to.
pub proof fn members_of_values(m: JsonModel, name: Seq<char>, v: JsonModel)
    ensures
        member(m, name) == Some(v) <==> (m is Object && m->Object_0.dom().contains(name)
            && m->Object_0[name] == v),
{
}

/// Texts are ordered by the first character in which they differ, and a text comes before its
/// extensions.
pub proof fn order_is_by_first_difference(
    front: Seq<char>,
    c: char,
    x: Seq<char>,
    d: char,
    y: Seq<char>,
)
    ensures
        text_less(front + seq![c] + x, front + seq![d] + y) ==> c <= d,
        c < d ==> text_less(front + seq![c] + x, front + seq![d] + y),
        text_less(front, front + seq![c] + x),
        !text_less(front + seq![c] + x, front),
{
    let a = front + seq![c] + x;
    let b = front + seq![d] + y;
    let n = front.len() as int;
    assert(a.take(n) =~= front);
    assert(b.take(n) =~= front);
    assert(front.take(n) =~= front);
    assert(a[n] == c && b[n] == d);
    assert(differs_at(front, a, n));
    if c < d {
        assert(differs_at(a, b, n));
    }
    text_less_asymmetric(front, a);
    if text_less(a, b) && d < c {
        assert(differs_at(b, a, n));
        text_less_asymmetric(a, b);
    }
}

/// Of two different texts one comes before the other.
pub proof fn texts_can_be_ordered(a: Seq<char>, b: Seq<char>)
    ensures
        a == b || text_less(a, b) || text_less(b, a),
{
    assert(a.take(0) =~= b.take(0));
    different_texts_differ(a, b, 0);
}

proof fn different_texts_differ(a: Seq<char>, b: Seq<char>, i: int)
    requires
        0 <= i <= a.len(),
        i <= b.len(),
        a.take(i) == b.take(i),
    ensures
        a == b || text_less(a, b) || text_less(b, a),
    decreases a.len() - i,
{
    if i == a.len() && i == b.len() {
        assert(a.take(i) =~= a && b.take(i) =~= b);
    } else if i == a.len() {
        assert(differs_at(a, b, i));
    } else if i == b.len() {
        assert(differs_at(b, a, i));
    } else if a[i] < b[i] {
        assert(differs_at(a, b, i));
    } else if b[i] < a[i] {
        assert(differs_at(b, a, i));
    } else {
        assert(a.take(i + 1) =~= a.take(i).push(a[i]));
        assert(b.take(i + 1) =~= b.take(i).push(b[i]));
        different_texts_differ(a, b, i + 1);
    }
}

/// Sorting a value changes nothing of what it means and puts the members of all its objects in the
/// order of their names; two values that mean the same become the same, however they are written.
pub proof fn sorting_makes_equal_values_same(a: &Json, b: &Json, sorted_a: Json, sorted_b: Json)
    requires
        call_ensures(sort_value, (a,), sorted_a),
        call_ensures(sort_value, (b,), sorted_b),
    ensures
        sorted_a.model() == a.model(),
        ordered(sorted_a.tree()),
        a.model() == b.model() <==> sorted_a.tree() == sorted_b.tree(),
{
}

} // verus!
