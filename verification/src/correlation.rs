//! The key that links a delegate call to the progress file of its delegate.

use sha2::Digest;
use vstd::prelude::*;
use vstd::utf8::*;

use crate::json::{
    ascending, canonical, distinct_names, get, insert_member, meaning, member, member_meanings,
    member_order_is_irrelevant, member_trees, member_trees_index, members_among, ordered,
    ordered_tree_is_canonical, sort_value, trees, trees_index, Json, JsonModel, JsonTree,
};

verus! {

/// The JSON value that a `serde_json::Value` holds, as it is written down.
pub uninterp spec fn value_tree(v: serde_json::Value) -> JsonTree;

/// The text that `serde_json::to_string` makes of a value that is written down like that.
pub uninterp spec fn json_text(t: JsonTree) -> Seq<char>;

/// The digest that SHA-256 makes of `data`.
pub uninterp spec fn sha256(data: Seq<u8>) -> Seq<u8>;

/// `serde_json::Value::Null` is the null value.
#[verifier::external_body]
fn value_null() -> (v: serde_json::Value)
    ensures
        value_tree(v) == JsonTree::Null,
{
    serde_json::Value::Null
}

/// `serde_json::Value::Bool` holds that truth value.
#[verifier::external_body]
fn value_bool(b: bool) -> (v: serde_json::Value)
    ensures
        value_tree(v) == JsonTree::Bool(b),
{
    serde_json::Value::Bool(b)
}

/// `serde_json::Value::Number` holds that number.
#[verifier::external_body]
fn value_number(n: serde_json::Number) -> (v: serde_json::Value)
    ensures
        value_tree(v) == JsonTree::Number(n),
{
    serde_json::Value::Number(n)
}

/// `serde_json::Value::String` holds that text.
#[verifier::external_body]
fn value_string(s: String) -> (v: serde_json::Value)
    ensures
        value_tree(v) == JsonTree::Text(s@),
{
    serde_json::Value::String(s)
}

/// `serde_json::Value::Array` holds those items in that order.
#[verifier::external_body]
fn value_array(items: Vec<serde_json::Value>) -> (v: serde_json::Value)
    ensures
        value_tree(v) == JsonTree::Array(value_trees(items@)),
{
    serde_json::Value::Array(items)
}

/// Collects members into a `serde_json::Map`: members whose names are in ascending order stay in
/// that order, whichever way the map is built.
#[verifier::external_body]
fn value_object(members: Vec<(String, serde_json::Value)>) -> (v: serde_json::Value)
    requires
        ascending(member_value_trees(members@)),
    ensures
        value_tree(v) == JsonTree::Object(member_value_trees(members@)),
{
    serde_json::Value::Object(members.into_iter().collect())
}

/// Calls `serde_json::to_string`, which cannot fail on a `serde_json::Value`: the text depends on
/// the value alone.
#[verifier::external_body]
fn value_text(v: &serde_json::Value) -> (text: String)
    ensures
        text@ == json_text(value_tree(*v)),
{
    serde_json::to_string(v).unwrap_or_default()
}

/// Calls `sha2::Sha256::digest`: the digest depends on the data alone and has 32 bytes.
#[verifier::external_body]
fn sha256_digest(data: &[u8]) -> (digest: Vec<u8>)
    ensures
        digest@ == sha256(data@),
        digest@.len() == 32,
{
    sha2::Sha256::digest(data).to_vec()
}

/// `serde_json::Value::clone` gives the same value.
pub assume_specification[ <serde_json::Value as Clone>::clone ](v: &serde_json::Value) -> (copy:
    serde_json::Value)
    ensures
        copy == *v,
;

/// A `serde_json::Value` of which only the outermost layer is known.
enum Layer {
    Null,
    Bool(bool),
    Number(serde_json::Number),
    Text(String),
    Array(Vec<serde_json::Value>),
    Object(Vec<(String, serde_json::Value)>),
}

/// What a value holds whose outermost layer is this.
spec fn layer_tree(layer: Layer) -> JsonTree {
    match layer {
        Layer::Null => JsonTree::Null,
        Layer::Bool(b) => JsonTree::Bool(b),
        Layer::Number(n) => JsonTree::Number(n),
        Layer::Text(s) => JsonTree::Text(s@),
        Layer::Array(items) => JsonTree::Array(value_trees(items@)),
        Layer::Object(members) => JsonTree::Object(member_value_trees(members@)),
    }
}

/// Tells the variants of `serde_json::Value` apart and takes out what they hold, the members of
/// an object in the order in which `serde_json::Map` gives them.
#[verifier::external_body]
fn open_value(v: serde_json::Value) -> (layer: Layer)
    ensures
        value_tree(v) == layer_tree(layer),
{
    match v {
        serde_json::Value::Null => Layer::Null,
        serde_json::Value::Bool(b) => Layer::Bool(b),
        serde_json::Value::Number(n) => Layer::Number(n),
        serde_json::Value::String(s) => Layer::Text(s),
        serde_json::Value::Array(items) => Layer::Array(items),
        serde_json::Value::Object(map) => Layer::Object(map.into_iter().collect()),
    }
}

/// What the values of a list hold.
pub open spec fn value_trees(items: Seq<serde_json::Value>) -> Seq<JsonTree> {
    items.map_values(|v: serde_json::Value| value_tree(v))
}

/// What the members of a list hold.
pub open spec fn member_value_trees(members: Seq<(String, serde_json::Value)>) -> Seq<
    (Seq<char>, JsonTree),
> {
    members.map_values(|m: (String, serde_json::Value)| (m.0@, value_tree(m.1)))
}

/// Hands a value over to `serde_json`, as it is written down.
fn to_value(v: &Json) -> (value: serde_json::Value)
    requires
        ordered(v.tree()),
    ensures
        value_tree(value) == v.tree(),
    decreases v,
{
    match v {
        Json::Null => value_null(),
        Json::Bool(b) => value_bool(*b),
        Json::Number(n) => value_number(n.clone()),
        Json::Text(s) => value_string(s.clone()),
        Json::Array(items) => {
            let mut out: Vec<serde_json::Value> = Vec::new();
            let mut i: usize = 0;
            proof {
                trees_index(items@);
            }
            while i < items.len()
                invariant
                    i <= items@.len(),
                    *v == Json::Array(*items),
                    ordered(v.tree()),
                    trees(items@).len() == items@.len(),
                    forall|k: int|
                        0 <= k < items@.len() ==> #[trigger] trees(items@)[k] == items@[k].tree(),
                    value_trees(out@) == trees(items@).take(i as int),
                decreases items@.len() - i,
            {
                assert(decreases_to!(*v => v->Array_0));
                assert(decreases_to!(v->Array_0 => v->Array_0@));
                assert(decreases_to!(items@ => items@[i as int]));
                assert(ordered(JsonTree::Array(trees(items@))));
                assert(i < trees(items@).len());
                assert(ordered(trees(items@)[i as int]));
                let ghost before = value_trees(out@);
                let item = to_value(&items[i]);
                out.push(item);
                assert(value_trees(out@) =~= before.push(value_tree(item)));
                i = i + 1;
                assert(value_trees(out@) =~= trees(items@).take(i as int));
            }
            assert(value_trees(out@) =~= trees(items@));
            value_array(out)
        },
        Json::Object(members) => {
            let mut out: Vec<(String, serde_json::Value)> = Vec::new();
            let mut i: usize = 0;
            proof {
                member_trees_index(members@);
            }
            while i < members.len()
                invariant
                    i <= members@.len(),
                    *v == Json::Object(*members),
                    ordered(v.tree()),
                    member_trees(members@).len() == members@.len(),
                    forall|k: int|
                        0 <= k < members@.len() ==> #[trigger] member_trees(members@)[k] == (
                            members@[k].0@,
                            members@[k].1.tree(),
                        ),
                    member_value_trees(out@) == member_trees(members@).take(i as int),
                decreases members@.len() - i,
            {
                assert(decreases_to!(*v => v->Object_0));
                assert(decreases_to!(v->Object_0 => v->Object_0@));
                assert(decreases_to!(members@ => members@[i as int]));
                assert(decreases_to!(members@[i as int] => members@[i as int].1));
                assert(ordered(member_trees(members@)[i as int].1));
                let ghost before = member_value_trees(out@);
                let value = to_value(&members[i].1);
                out.push((members[i].0.clone(), value));
                assert(member_value_trees(out@) =~= before.push(
                    (members@[i as int].0@, value_tree(value)),
                ));
                i = i + 1;
                assert(member_value_trees(out@) =~= member_trees(members@).take(i as int));
            }
            assert(member_value_trees(out@) =~= member_trees(members@));
            value_object(out)
        },
    }
}

/// Takes a value over from `serde_json`, as it is written down.
fn from_value(v: serde_json::Value) -> (json: Json)
    ensures
        json.tree() == value_tree(v),
    decreases value_tree(v),
{
    let ghost tree = value_tree(v);
    match open_value(v) {
        Layer::Null => Json::Null,
        Layer::Bool(b) => Json::Bool(b),
        Layer::Number(n) => Json::Number(n),
        Layer::Text(s) => Json::Text(s),
        Layer::Array(items) => {
            let mut out: Vec<Json> = Vec::new();
            let ghost all = items@;
            for item in it: items
                invariant
                    it.seq() == all,
                    tree == JsonTree::Array(value_trees(all)),
                    tree == value_tree(v),
                    out@.len() == it.index(),
                    forall|k: int|
                        0 <= k < out@.len() ==> (#[trigger] out@[k]).tree() == value_tree(all[k]),
            {
                let ghost i = it.index() as int;
                assert(value_trees(all)[i] == value_tree(item));
                assert(decreases_to!(tree => tree->Array_0));
                assert(decreases_to!(tree->Array_0 => tree->Array_0[i]));
                out.push(from_value(item));
            }
            proof {
                trees_index(out@);
                assert(trees(out@) =~= value_trees(all));
            }
            Json::Array(out)
        },
        Layer::Object(members) => {
            let mut out: Vec<(String, Json)> = Vec::new();
            let ghost all = members@;
            for entry in it: members
                invariant
                    it.seq() == all,
                    tree == JsonTree::Object(member_value_trees(all)),
                    tree == value_tree(v),
                    out@.len() == it.index(),
                    forall|k: int|
                        0 <= k < out@.len() ==> (#[trigger] out@[k]).0@ == all[k].0@
                            && out@[k].1.tree() == value_tree(all[k].1),
            {
                let ghost i = it.index() as int;
                assert(member_value_trees(all)[i] == (entry.0@, value_tree(entry.1)));
                assert(decreases_to!(tree => tree->Object_0));
                assert(decreases_to!(tree->Object_0 => tree->Object_0[i]));
                assert(decreases_to!(tree->Object_0[i] => tree->Object_0[i].1));
                let value = from_value(entry.1);
                out.push((entry.0, value));
            }
            proof {
                member_trees_index(out@);
                assert(member_trees(out@) =~= member_value_trees(all));
            }
            Json::Object(out)
        },
    }
}

/// One of the names of the arguments that identify a delegate call.
pub open spec fn is_key_field(name: Seq<char>) -> bool {
    name == "source"@ || name == "instructions"@ || name == "parameters"@
}

/// The argument of that name, where a null counts as absent.
pub open spec fn argument(args: JsonModel, name: Seq<char>) -> Option<JsonModel> {
    match member(args, name) {
        Some(v) => if v is Null {
            None
        } else {
            Some(v)
        },
        None => None,
    }
}

/// The arguments that identify a delegate call.
pub open spec fn identifying(args: JsonModel) -> JsonModel {
    JsonModel::Object(
        Map::new(
            |name: Seq<char>| is_key_field(name) && argument(args, name) is Some,
            |name: Seq<char>| argument(args, name)->0,
        ),
    )
}

/// The hexadecimal digit of value `n`.
pub open spec fn hex_digit(n: int) -> char {
    if n < 10 {
        ('0' as int + n) as char
    } else {
        ('a' as int + (n - 10)) as char
    }
}

/// One of the hexadecimal digits, in lower case.
pub open spec fn is_hex_digit(c: char) -> bool {
    '0' <= c <= '9' || 'a' <= c <= 'f'
}

/// Two hexadecimal digits for every byte.
pub open spec fn hex(bytes: Seq<u8>) -> Seq<char> {
    Seq::new(
        2 * bytes.len(),
        |i: int|
            if i % 2 == 0 {
                hex_digit(bytes[i / 2] as int / 16)
            } else {
                hex_digit(bytes[i / 2] as int % 16)
            },
    )
}

/// The key of a delegate call with those arguments: the beginning of a digest of the identifying
/// arguments in their canonical form.
pub open spec fn key_of(args: JsonModel) -> Seq<char> {
    hex(sha256(encode_utf8(json_text(canonical(identifying(args))))).take(8))
}

fn digit(n: u8) -> (c: char)
    requires
        n < 16,
    ensures
        c == hex_digit(n as int),
{
    if n < 10 {
        (48u8 + n) as char
    } else {
        (87u8 + n) as char
    }
}

/// The first `n` of `bytes` in hexadecimal notation.
fn to_hex(bytes: &Vec<u8>, n: usize) -> (out: String)
    requires
        n <= bytes@.len(),
    ensures
        out@ == hex(bytes@.take(n as int)),
{
    let mut out = String::new();
    let mut i: usize = 0;
    while i < n
        invariant
            i <= n <= bytes@.len(),
            out@ == hex(bytes@.take(i as int)),
        decreases n - i,
    {
        let ghost before = out@;
        out.push(digit(bytes[i] / 16));
        out.push(digit(bytes[i] % 16));
        proof {
            let longer = hex(bytes@.take(i + 1));
            assert(before.len() == 2 * i);
            assert forall|k: int| 0 <= k < longer.len() implies out@[k] == longer[k] by {
                if k < 2 * i {
                    assert(before[k] == longer[k]);
                }
            }
            assert(out@ =~= longer);
        }
        i = i + 1;
    }
    out
}

fn add_argument(members: &mut Vec<(String, Json)>, args: &Json, name: &str)
    requires
        ascending(member_trees(old(members)@)),
        forall|i: int|
            0 <= i < old(members)@.len() ==> ordered((#[trigger] old(members)@[i]).1.tree()),
    ensures
        ascending(member_trees(final(members)@)),
        forall|i: int|
            0 <= i < final(members)@.len() ==> ordered((#[trigger] final(members)@[i]).1.tree()),
        member_meanings(member_trees(final(members)@)) == (match argument(args.model(), name@) {
            Some(v) => member_meanings(member_trees(old(members)@)).insert(name@, v),
            None => member_meanings(member_trees(old(members)@)),
        }),
{
    match get(args, name) {
        Some(v) => match v {
            Json::Null => {},
            _ => {
                let value = sort_value(v);
                insert_member(members, name.to_string(), value);
            },
        },
        None => {},
    }
}

/// The key for a digest: its beginning in hexadecimal notation.
pub fn key_of_digest(digest: &Vec<u8>) -> (key: String)
    requires
        digest@.len() >= 8,
    ensures
        key@ == hex(digest@.take(8)),
{
    to_hex(digest, 8)
}

/// The key of a delegate call with those arguments.
pub fn argument_key(args: &Json) -> (key: String)
    ensures
        key@ == key_of(args.model()),
        key@.len() == 16,
        forall|i: int| 0 <= i < 16 ==> is_hex_digit(#[trigger] key@[i]),
{
    let mut members: Vec<(String, Json)> = Vec::new();
    assert(member_trees(members@) =~= Seq::empty());
    add_argument(&mut members, args, "source");
    add_argument(&mut members, args, "instructions");
    add_argument(&mut members, args, "parameters");
    let ghost m = member_meanings(member_trees(members@));
    let wanted = Json::Object(members);
    proof {
        assert(m =~= identifying(args.model())->Object_0);
        member_trees_index(members@);
        assert forall|k: int| 0 <= k < member_trees(members@).len() implies ordered(
            (#[trigger] member_trees(members@)[k]).1,
        ) by {
            assert(ordered(members@[k].1.tree()));
        }
        ordered_tree_is_canonical(wanted.tree());
    }
    let text = value_text(&to_value(&wanted));
    let digest = sha256_digest(text.as_str().as_bytes());
    proof {
        let start = digest@.take(8);
        assert forall|i: int| 0 <= i < 16 implies is_hex_digit(#[trigger] hex(start)[i]) by {
            assert(0 <= start[i / 2] as int / 16 < 16);
        }
    }
    key_of_digest(&digest)
}

/// A key of 16 hexadecimal digits derived from the arguments of a delegate call.
///
/// It depends on `source`, `instructions` and `parameters` alone, and not on the order in which
/// the members of any object stand.
pub fn correlation_key(args: &serde_json::Value) -> (key: String)
    ensures
        key@ == key_of(meaning(value_tree(*args))),
        key@.len() == 16,
        forall|i: int| 0 <= i < 16 ==> is_hex_digit(#[trigger] key@[i]),
{
    argument_key(&from_value(args.clone()))
}

/// Two calls whose `source`, `instructions` and `parameters` agree have the same key, whatever
/// their other arguments are; an argument that is null counts as absent.
pub proof fn only_key_fields_matter(a: JsonModel, b: JsonModel)
    requires
        argument(a, "source"@) == argument(b, "source"@),
        argument(a, "instructions"@) == argument(b, "instructions"@),
        argument(a, "parameters"@) == argument(b, "parameters"@),
    ensures
        key_of(a) == key_of(b),
{
    assert(identifying(a)->Object_0 =~= identifying(b)->Object_0);
}

/// Two calls with the same arguments have the same key, in whatever order these are written down.
pub proof fn argument_order_is_irrelevant(
    x: Seq<(Seq<char>, JsonTree)>,
    y: Seq<(Seq<char>, JsonTree)>,
)
    requires
        distinct_names(x),
        distinct_names(y),
        members_among(x, y),
        members_among(y, x),
    ensures
        key_of(meaning(JsonTree::Object(x))) == key_of(meaning(JsonTree::Object(y))),
{
    member_order_is_irrelevant(x, y);
}

/// The identifying arguments hold each of `source`, `instructions` and `parameters` exactly if the
/// call has an argument of that name that is not null, whatever its other arguments are, and
/// nothing else.
pub proof fn identifying_arguments(args: JsonModel, name: Seq<char>)
    ensures
        name == "source"@ || name == "instructions"@ || name == "parameters"@ ==> match member(
            args,
            name,
        ) {
            Some(v) => member(identifying(args), name) == (if v is Null {
                None::<JsonModel>
            } else {
                Some(v)
            }),
            None => member(identifying(args), name) is None,
        },
        name != "source"@ && name != "instructions"@ && name != "parameters"@ ==> member(
            identifying(args),
            name,
        ) is None,
{
}

/// Calls whose identifying arguments differ have different identifying forms.
pub proof fn different_calls_are_told_apart(a: JsonModel, b: JsonModel, name: Seq<char>)
    requires
        is_key_field(name),
        argument(a, name) != argument(b, name),
    ensures
        identifying(a) != identifying(b),
{
    identifying_arguments(a, name);
    identifying_arguments(b, name);
}

/// The number that a hexadecimal digit stands for.
pub open spec fn hex_value(c: char) -> int {
    if '0' <= c <= '9' {
        c as int - '0' as int
    } else {
        c as int - 'a' as int + 10
    }
}

/// Two digits for every byte give back that byte, and nothing else is written.
pub proof fn hex_reads_back(bytes: Seq<u8>, i: int)
    requires
        0 <= i < bytes.len(),
    ensures
        hex(bytes).len() == 2 * bytes.len(),
        is_hex_digit(hex(bytes)[2 * i]),
        is_hex_digit(hex(bytes)[2 * i + 1]),
        hex_value(hex(bytes)[2 * i]) * 16 + hex_value(hex(bytes)[2 * i + 1]) == bytes[i],
{
    assert((2 * i) / 2 == i && (2 * i) % 2 == 0);
    assert((2 * i + 1) / 2 == i && (2 * i + 1) % 2 == 1);
}

/// The key spells out the first eight bytes of the digest of the whole canonical text of the
/// identifying arguments.
pub proof fn key_spells_digest(args: JsonModel, i: int)
    requires
        0 <= i < 8,
    ensures
        ({
            let digest = sha256(encode_utf8(json_text(canonical(identifying(args)))));
            &&& digest.len() >= 8 ==> key_of(args).len() == 16
            &&& digest.len() >= 8 ==> hex_value(key_of(args)[2 * i]) * 16 + hex_value(
                key_of(args)[2 * i + 1],
            ) == digest[i]
        }),
{
    let digest = sha256(encode_utf8(json_text(canonical(identifying(args)))));
    if digest.len() >= 8 {
        hex_reads_back(digest.take(8), i);
    }
}

/// Two calls have the same key exactly if the digests of their canonical texts begin alike.
pub proof fn keys_are_equal_like_digests(a: JsonModel, b: JsonModel)
    ensures
        ({
            let x = sha256(encode_utf8(json_text(canonical(identifying(a)))));
            let y = sha256(encode_utf8(json_text(canonical(identifying(b)))));
            x.len() >= 8 && y.len() >= 8 ==> (key_of(a) == key_of(b) <==> x.take(8) == y.take(8))
        }),
{
    let dx = sha256(encode_utf8(json_text(canonical(identifying(a)))));
    let dy = sha256(encode_utf8(json_text(canonical(identifying(b)))));
    let x = dx.take(8);
    let y = dy.take(8);
    if dx.len() >= 8 && dy.len() >= 8 && key_of(a) == key_of(b) {
        assert forall|i: int| 0 <= i < 8 implies x[i] == y[i] by {
            key_spells_digest(a, i);
            key_spells_digest(b, i);
            assert(hex(x)[2 * i] == hex(y)[2 * i]);
            assert(hex(x)[2 * i + 1] == hex(y)[2 * i + 1]);
        }
        assert(x =~= y);
    }
}

/// `wanted` holds of the arguments of a call those that identify it: each of `source`,
/// `instructions` and `parameters` that is there and is not null, and nothing else.
pub open spec fn holds_what_identifies(wanted: JsonModel, args: JsonModel) -> bool {
    &&& wanted is Object
    &&& forall|name: Seq<char>| #[trigger]
        member(wanted, name) == (if (name == "source"@ || name == "instructions"@ || name
            == "parameters"@) && member(args, name) is Some && !(member(args, name)->0 is Null) {
            member(args, name)
        } else {
            None
        })
}

/// Only one value holds what identifies a call.
pub proof fn what_identifies_is_unique(x: JsonModel, y: JsonModel, args: JsonModel)
    requires
        holds_what_identifies(x, args),
        holds_what_identifies(y, args),
    ensures
        x == y,
{
    match (x, y) {
        (JsonModel::Object(a), JsonModel::Object(b)) => {
            assert forall|name: Seq<char>| #[trigger]
                a.dom().contains(name) == b.dom().contains(name) && (a.dom().contains(name)
                    ==> a[name] == b[name]) by {
                assert(member(x, name) == member(y, name));
            }
            assert(a =~= b);
        },
        _ => {},
    }
}

/// The key of a call is made of all that identifies it, and of nothing else: it spells the first
/// eight bytes of the digest of the canonical text of these arguments.
pub proof fn key_is_made_of_what_identifies(args: &Json, key: String, wanted: JsonModel)
    requires
        call_ensures(argument_key, (args,), key),
        holds_what_identifies(wanted, args.model()),
    ensures
        key@.len() == 16,
        key@ == hex(sha256(encode_utf8(json_text(canonical(wanted)))).take(8)),
{
    let found = identifying(args.model());
    assert forall|name: Seq<char>| #[trigger]
        member(found, name) == (if (name == "source"@ || name == "instructions"@ || name
            == "parameters"@) && member(args.model(), name) is Some && !(member(
            args.model(),
            name,
        )->0 is Null) {
            member(args.model(), name)
        } else {
            None
        }) by {
        identifying_arguments(args.model(), name);
    }
    what_identifies_is_unique(wanted, found, args.model());
}

/// The key of a call stays the same whichever way its arguments are written down, as long as they
/// mean the same.
pub proof fn equal_calls_have_equal_keys(
    a: &serde_json::Value,
    b: &serde_json::Value,
    key_a: String,
    key_b: String,
)
    requires
        call_ensures(correlation_key, (a,), key_a),
        call_ensures(correlation_key, (b,), key_b),
        meaning(value_tree(*a)) == meaning(value_tree(*b)),
    ensures
        key_a@ == key_b@,
        key_a@.len() == 16,
{
}

/// The key of a call that comes from outside is made of all that identifies it, and of nothing
/// else.
pub proof fn outside_calls_are_keyed_alike(args: &serde_json::Value, key: String, wanted: JsonModel)
    requires
        call_ensures(correlation_key, (args,), key),
        holds_what_identifies(wanted, meaning(value_tree(*args))),
    ensures
        key@ == hex(sha256(encode_utf8(json_text(canonical(wanted)))).take(8)),
{
    let model = meaning(value_tree(*args));
    let found = identifying(model);
    assert forall|name: Seq<char>| #[trigger]
        member(found, name) == (if (name == "source"@ || name == "instructions"@ || name
            == "parameters"@) && member(model, name) is Some && !(member(model, name)->0 is Null) {
            member(model, name)
        } else {
            None
        }) by {
        identifying_arguments(model, name);
    }
    what_identifies_is_unique(wanted, found, model);
}

} // verus!
