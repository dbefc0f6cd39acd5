//! The decoder: from a document to the tree that it stands for, children in
//! the order of the document.

use crate::entries::{
    collected, distinct_keys, last_index, lemma_collected, lemma_last_index,
    lemma_visited_values, same_text, value_of, KeyValueVisitor,
};
use crate::json::{
    lemma_object_view, member_views, parsed, Json, JsonNumber, JsonNumberView, JsonView,
};
use crate::node::{child_views, lemma_children_view, well_formed, Node, NodeView};
use crate::numeral::decimal;
use crate::schema::{
    key, key_of, lemma_keys_differ, DecodeError, Field, Problem, SchemaError, SchemaErrorView,
};
use vstd::prelude::*;

verus! {

/// A member that must be a string, read from the members of a node's object.
pub open spec fn text_member(members: Seq<(Seq<char>, JsonView)>, field: Field) -> Result<
    Seq<char>,
    Problem,
> {
    let at = last_index(members, key_of(field));
    if 0 <= at < members.len() {
        match members[at].1 {
            JsonView::Text(text) => Ok(text),
            _ => Err(Problem::WrongType(field)),
        }
    } else {
        Err(Problem::Missing(field))
    }
}

/// A member that must be a count of lines: an integer from zero to
/// `usize::MAX`.
pub open spec fn count_member(members: Seq<(Seq<char>, JsonView)>, field: Field) -> Result<
    nat,
    Problem,
> {
    let at = last_index(members, key_of(field));
    if 0 <= at < members.len() {
        match members[at].1 {
            JsonView::Number(JsonNumberView { unsigned: Some(count), .. }) => if count
                <= usize::MAX {
                Ok(count as nat)
            } else {
                Err(Problem::WrongType(field))
            },
            _ => Err(Problem::WrongType(field)),
        }
    } else {
        Err(Problem::Missing(field))
    }
}

/// A member that must be a number, whatever its value.
pub open spec fn number_member(members: Seq<(Seq<char>, JsonView)>, field: Field) -> Result<
    JsonNumberView,
    Problem,
> {
    let at = last_index(members, key_of(field));
    if 0 <= at < members.len() {
        match members[at].1 {
            JsonView::Number(number) => Ok(number),
            _ => Err(Problem::WrongType(field)),
        }
    } else {
        Err(Problem::Missing(field))
    }
}

/// The first problem among the five required members, in the order name,
/// covered, missed, total, percentage; nothing where all five are in order.
pub open spec fn scalar_problem(members: Seq<(Seq<char>, JsonView)>) -> Option<Problem> {
    if let Err(problem) = text_member(members, Field::Name) {
        Some(problem)
    } else if let Err(problem) = count_member(members, Field::LinesCovered) {
        Some(problem)
    } else if let Err(problem) = count_member(members, Field::LinesMissed) {
        Some(problem)
    } else if let Err(problem) = count_member(members, Field::LinesTotal) {
        Some(problem)
    } else if let Err(problem) = number_member(members, Field::CoveragePercent) {
        Some(problem)
    } else {
        None
    }
}

/// The node that a document stands for, or the first thing wrong with it.
///
/// A node is an object. Its five required members are checked first. Its
/// children, where it has the member at all, are an object whose members are
/// decoded one after the other, each as a node.
pub open spec fn decoded(doc: JsonView) -> Result<NodeView, SchemaErrorView>
    decreases doc, 0nat,
{
    match doc {
        JsonView::Object(members) => {
            if let Some(problem) = scalar_problem(members) {
                Err(SchemaErrorView { path: Seq::empty(), problem })
            } else {
                let at = last_index(members, key_of(Field::Children));
                let children = if 0 <= at < members.len() {
                    decoded_children(members[at].1)
                } else {
                    Ok(Seq::empty())
                };
                match children {
                    Ok(children) => Ok(
                        NodeView {
                            name: text_member(members, Field::Name).unwrap(),
                            lines_covered: count_member(members, Field::LinesCovered).unwrap(),
                            lines_missed: count_member(members, Field::LinesMissed).unwrap(),
                            lines_total: count_member(members, Field::LinesTotal).unwrap(),
                            coverage_percent: number_member(
                                members,
                                Field::CoveragePercent,
                            ).unwrap(),
                            children,
                        },
                    ),
                    Err(error) => Err(error),
                }
            }
        },
        _ => Err(SchemaErrorView { path: Seq::empty(), problem: Problem::NotAnObject }),
    }
}

/// The children that the value of a `children` member gives. It must be an
/// object. Its members are decoded in the order of the document, and then
/// collected as a visitor collects them, so that no key stays twice.
pub open spec fn decoded_children(value: JsonView) -> Result<
    Seq<(Seq<char>, NodeView)>,
    SchemaErrorView,
>
    decreases value, 0nat,
{
    match value {
        JsonView::Object(entries) => match decoded_entries(entries, entries.len()) {
            Ok(nodes) => Ok(collected(nodes)),
            Err(error) => Err(error),
        },
        _ => Err(
            SchemaErrorView { path: Seq::empty(), problem: Problem::WrongType(Field::Children) },
        ),
    }
}

/// The first `n` members of a `children` object, each decoded as a node, or
/// the error of the first that is none, seen from the parent.
pub open spec fn decoded_entries(entries: Seq<(Seq<char>, JsonView)>, n: nat) -> Result<
    Seq<(Seq<char>, NodeView)>,
    SchemaErrorView,
>
    decreases entries, n,
{
    if n == 0 || n > entries.len() {
        Ok(Seq::empty())
    } else {
        match decoded_entries(entries, (n - 1) as nat) {
            Err(error) => Err(error),
            Ok(nodes) => match decoded(entries[n - 1].1) {
                Err(error) => Err(error.within(entries[n - 1].0)),
                Ok(node) => Ok(nodes.push((entries[n - 1].0, node))),
            },
        }
    }
}

/// The place of the last member of an object under `key`.
fn find(members: &Vec<(String, Json)>, key: &str) -> (at: Option<usize>)
    ensures
        match at {
            Some(i) => i < members.len() && last_index(member_views(members@), key@) == i,
            None => last_index(member_views(members@), key@) == -1,
        },
{
    let ghost all = member_views(members@);
    let mut at = members.len();
    assert(all.take(at as int) == all);
    while at > 0 && !same_text(members[at - 1].0.as_str(), key)
        invariant
            at <= members.len(),
            all == member_views(members@),
            last_index(all, key@) == last_index(all.take(at as int), key@),
        decreases at,
    {
        assert(all.take(at as int).drop_last() == all.take(at - 1));
        at -= 1;
    }
    if at > 0 {
        Some(at - 1)
    } else {
        None
    }
}

fn read_text(members: &Vec<(String, Json)>, field: Field) -> (text: Result<String, Problem>)
    ensures
        match text_member(member_views(members@), field) {
            Ok(expected) => text matches Ok(found) && found@ == expected,
            Err(problem) => text == Err::<String, Problem>(problem),
        },
{
    match find(members, key(field)) {
        Some(at) => match &members[at].1 {
            Json::Text(text) => Ok(text.clone()),
            _ => Err(Problem::WrongType(field)),
        },
        None => Err(Problem::Missing(field)),
    }
}

fn read_count(members: &Vec<(String, Json)>, field: Field) -> (count: Result<usize, Problem>)
    ensures
        match count_member(member_views(members@), field) {
            Ok(expected) => count matches Ok(found) && found == expected,
            Err(problem) => count == Err::<usize, Problem>(problem),
        },
{
    match find(members, key(field)) {
        Some(at) => match &members[at].1 {
            Json::Number(number) => match number.unsigned {
                Some(count) => if count <= usize::MAX as u64 {
                    Ok(count as usize)
                } else {
                    Err(Problem::WrongType(field))
                },
                None => Err(Problem::WrongType(field)),
            },
            _ => Err(Problem::WrongType(field)),
        },
        None => Err(Problem::Missing(field)),
    }
}

fn read_number(members: &Vec<(String, Json)>, field: Field) -> (number: Result<
    JsonNumber,
    Problem,
>)
    ensures
        match number_member(member_views(members@), field) {
            Ok(expected) => number matches Ok(found) && found@ == expected,
            Err(problem) => number == Err::<JsonNumber, Problem>(problem),
        },
{
    match find(members, key(field)) {
        Some(at) => match &members[at].1 {
            Json::Number(number) => Ok(
                JsonNumber { unsigned: number.unsigned, text: number.text.clone() },
            ),
            _ => Err(Problem::WrongType(field)),
        },
        None => Err(Problem::Missing(field)),
    }
}

/// Decodes the value of a `children` member: the members of the object, each
/// as a node, in the order of the document.
pub fn deserialize_kv_vec(value: &Json) -> (children: Result<Vec<(String, Node)>, SchemaError>)
    ensures
        match decoded_children(value@) {
            Ok(nodes) => children matches Ok(items) && child_views(items@) == nodes,
            Err(error) => children matches Err(found) && found@ == error,
        },
    decreases value, 1nat,
{
    match value {
        Json::Object(entries) => {
            proof {
                lemma_object_view(*value);
            }
            let ghost all = member_views(entries@);
            let mut nodes: Vec<(String, Node)> = Vec::new();
            let mut i: usize = 0;
            assert(child_views(nodes@) =~= Seq::empty());
            while i < entries.len()
                invariant
                    i <= entries.len(),
                    value == Json::Object(*entries),
                    value@ == JsonView::Object(all),
                    all == member_views(entries@),
                    decoded_entries(all, i as nat) == Ok::<_, SchemaErrorView>(
                        child_views(nodes@),
                    ),
                decreases entries.len() - i,
            {
                match Node::deserialize(&entries[i].1) {
                    Err(error) => {
                        proof {
                            assert(decoded_entries(all, (i + 1) as nat) == Err::<
                                Seq<(Seq<char>, NodeView)>,
                                SchemaErrorView,
                            >(error@.within(all[i as int].0)));
                            lemma_first_error_stays(all, (i + 1) as nat, entries.len() as nat);
                        }
                        return Err(error.within(entries[i].0.as_str()));
                    },
                    Ok(node) => {
                        let ghost before = child_views(nodes@);
                        nodes.push((entries[i].0.clone(), node));
                        assert(child_views(nodes@) =~= before.push((all[i as int].0, node@)));
                    },
                }
                i += 1;
            }
            let visitor = KeyValueVisitor::new();
            assert(visitor.entries() =~= Seq::empty());
            let collected = visitor.visit_map(nodes);
            Ok(collected.into())
        },
        _ => Err(SchemaError::here(Problem::WrongType(Field::Children))),
    }
}

impl Node {
    /// Decodes a document into the tree it stands for.
    pub fn deserialize(doc: &Json) -> (tree: Result<Node, SchemaError>)
        ensures
            match decoded(doc@) {
                Ok(expected) => tree matches Ok(node) && node@ == expected,
                Err(error) => tree matches Err(found) && found@ == error,
            },
            tree matches Ok(node) ==> well_formed(node@),
        decreases doc, 0nat,
    {
        proof {
            if decoded(doc@) is Ok {
                lemma_decoded_well_formed(doc@);
            }
        }
        match doc {
            Json::Object(members) => {
                proof {
                    lemma_object_view(*doc);
                }
                let name = match read_text(members, Field::Name) {
                    Ok(name) => name,
                    Err(problem) => {
                        return Err(SchemaError::here(problem));
                    },
                };
                let lines_covered = match read_count(members, Field::LinesCovered) {
                    Ok(count) => count,
                    Err(problem) => {
                        return Err(SchemaError::here(problem));
                    },
                };
                let lines_missed = match read_count(members, Field::LinesMissed) {
                    Ok(count) => count,
                    Err(problem) => {
                        return Err(SchemaError::here(problem));
                    },
                };
                let lines_total = match read_count(members, Field::LinesTotal) {
                    Ok(count) => count,
                    Err(problem) => {
                        return Err(SchemaError::here(problem));
                    },
                };
                let coverage_percent = match read_number(members, Field::CoveragePercent) {
                    Ok(number) => number,
                    Err(problem) => {
                        return Err(SchemaError::here(problem));
                    },
                };
                let children = match find(members, key(Field::Children)) {
                    Some(at) => match deserialize_kv_vec(&members[at].1) {
                        Ok(children) => children,
                        Err(error) => {
                            return Err(error);
                        },
                    },
                    None => {
                        let none: Vec<(String, Node)> = Vec::new();
                        assert(child_views(none@) =~= Seq::empty());
                        none
                    },
                };
                let node = Node {
                    name,
                    lines_covered,
                    lines_missed,
                    lines_total,
                    coverage_percent,
                    children,
                };
                proof {
                    lemma_children_view(node);
                }
                Ok(node)
            },
            _ => Err(SchemaError::here(Problem::NotAnObject)),
        }
    }

    /// Reads a document from `bytes` and decodes it.
    pub fn from_slice(bytes: &[u8]) -> (tree: Result<Node, DecodeError>)
        ensures
            match parsed(bytes@) {
                Some(doc) => match decoded(doc) {
                    Ok(expected) => tree matches Ok(node) && node@ == expected,
                    Err(error) => tree matches Err(DecodeError::Schema(found)) && found@ == error,
                },
                None => tree matches Err(DecodeError::Malformed(_)),
            },
            tree matches Ok(node) ==> well_formed(node@),
    {
        match Json::from_slice(bytes) {
            Ok(doc) => match Node::deserialize(&doc) {
                Ok(node) => Ok(node),
                Err(error) => Err(DecodeError::Schema(error)),
            },
            Err(error) => Err(DecodeError::Malformed(error)),
        }
    }
}

/// Once a member has failed, the members after it are not looked at.
pub proof fn lemma_first_error_stays(entries: Seq<(Seq<char>, JsonView)>, n: nat, m: nat)
    requires
        decoded_entries(entries, n) is Err,
        n <= m <= entries.len(),
    ensures
        decoded_entries(entries, m) == decoded_entries(entries, n),
    decreases m,
{
    if n < m {
        lemma_first_error_stays(entries, n, (m - 1) as nat);
    }
}

/// Where the first `n` members of a `children` object decode, each gives the
/// entry at its own place: its key, and its value decoded.
pub proof fn lemma_entries_decoded(entries: Seq<(Seq<char>, JsonView)>, n: nat)
    requires
        n <= entries.len(),
        decoded_entries(entries, n) is Ok,
    ensures
        decoded_entries(entries, n)->Ok_0.len() == n,
        forall|i: int|
            #![trigger entries[i]]
            0 <= i < n ==> decoded(entries[i].1) is Ok && decoded_entries(entries, n)->Ok_0[i] == (
                entries[i].0,
                decoded(entries[i].1)->Ok_0,
            ),
    decreases n,
{
    if n > 0 {
        lemma_entries_decoded(entries, (n - 1) as nat);
    }
}

/// Where each of the first `n` members of a `children` object decodes, so do
/// they all.
pub proof fn lemma_entries_decode(entries: Seq<(Seq<char>, JsonView)>, n: nat)
    requires
        n <= entries.len(),
        forall|i: int| 0 <= i < n ==> decoded((#[trigger] entries[i]).1) is Ok,
    ensures
        decoded_entries(entries, n) is Ok,
    decreases n,
{
    if n > 0 {
        lemma_entries_decode(entries, (n - 1) as nat);
        assert(decoded(entries[n - 1].1) is Ok);
    }
}

/// A document that decodes gives a well-formed tree.
pub proof fn lemma_decoded_well_formed(doc: JsonView)
    requires
        decoded(doc) is Ok,
    ensures
        well_formed(decoded(doc)->Ok_0),
    decreases doc, 0nat,
{
    let members = doc->Object_0;
    let at = last_index(members, key_of(Field::Children));
    lemma_last_index(members, key_of(Field::Children));
    if 0 <= at < members.len() {
        lemma_children_well_formed(members[at].1);
    }
}

/// The children that decode hold no key twice, and each is well formed.
pub proof fn lemma_children_well_formed(value: JsonView)
    requires
        decoded_children(value) is Ok,
    ensures
        distinct_keys(decoded_children(value)->Ok_0),
        forall|i: int|
            0 <= i < decoded_children(value)->Ok_0.len() ==> well_formed(
                (#[trigger] decoded_children(value)->Ok_0[i]).1,
            ),
    decreases value, 0nat,
{
    let entries = value->Object_0;
    let nodes = decoded_entries(entries, entries.len())->Ok_0;
    lemma_entries_decoded(entries, entries.len());
    assert forall|i: int| 0 <= i < nodes.len() implies well_formed((#[trigger] nodes[i]).1) by {
        assert(nodes[i] == (entries[i].0, decoded(entries[i].1)->Ok_0));
        lemma_decoded_well_formed(entries[i].1);
    }
    lemma_collected(nodes);
    lemma_visited_values(Seq::empty(), nodes, nodes.len(), |node: NodeView| well_formed(node));
}

/// A node without a `children` member is a leaf: it decodes, where its five
/// required members are in order, and has no children.
pub proof fn lemma_children_may_be_absent(members: Seq<(Seq<char>, JsonView)>)
    requires
        scalar_problem(members) is None,
        forall|i: int|
            0 <= i < members.len() ==> (#[trigger] members[i]).0 != key_of(Field::Children),
    ensures
        decoded(JsonView::Object(members)) is Ok,
        decoded(JsonView::Object(members))->Ok_0.children == Seq::<
            (Seq<char>, NodeView),
        >::empty(),
{
    lemma_last_index(members, key_of(Field::Children));
}

/// Children that are anything but an object, an array for one, are refused
/// as of the wrong type.
pub proof fn lemma_children_must_be_an_object(members: Seq<(Seq<char>, JsonView)>)
    requires
        scalar_problem(members) is None,
        value_of(members, key_of(Field::Children)) is Some,
        !(value_of(members, key_of(Field::Children))->0 is Object),
    ensures
        decoded(JsonView::Object(members)) == Err::<NodeView, SchemaErrorView>(
            SchemaErrorView { path: Seq::empty(), problem: Problem::WrongType(Field::Children) },
        ),
{
}

/// Children under keys that all differ come out in the order of the
/// document, one for one: the first member first, the second next.
pub proof fn lemma_children_keep_order(entries: Seq<(Seq<char>, JsonView)>)
    requires
        distinct_keys(entries),
        forall|i: int| 0 <= i < entries.len() ==> decoded((#[trigger] entries[i]).1) is Ok,
    ensures
        decoded_children(JsonView::Object(entries)) is Ok,
        decoded_children(JsonView::Object(entries))->Ok_0.len() == entries.len(),
        forall|i: int|
            #![trigger entries[i]]
            0 <= i < entries.len() ==> decoded_children(JsonView::Object(entries))->Ok_0[i] == (
                entries[i].0,
                decoded(entries[i].1)->Ok_0,
            ),
{
    lemma_entries_decode(entries, entries.len());
    lemma_entries_decoded(entries, entries.len());
    let nodes = decoded_entries(entries, entries.len())->Ok_0;
    assert forall|i: int, j: int| 0 <= i < j < nodes.len() implies (#[trigger] nodes[i]).0 != (
    #[trigger] nodes[j]).0 by {
        assert(nodes[i].0 == entries[i].0);
        assert(nodes[j].0 == entries[j].0);
    }
    lemma_collected(nodes);
}

/// A count as a document holds it.
pub open spec fn count_number(count: nat) -> JsonView {
    JsonView::Number(JsonNumberView { unsigned: Some(count as u64), text: decimal(count) })
}

/// The document that stands for a tree: for each node an object with the six
/// members of the schema, the children in their order.
pub open spec fn encoded(node: NodeView) -> JsonView
    decreases node,
{
    JsonView::Object(
        seq![
            (key_of(Field::Name), JsonView::Text(node.name)),
            (key_of(Field::LinesCovered), count_number(node.lines_covered)),
            (key_of(Field::LinesMissed), count_number(node.lines_missed)),
            (key_of(Field::LinesTotal), count_number(node.lines_total)),
            (key_of(Field::CoveragePercent), JsonView::Number(node.coverage_percent)),
            (
                key_of(Field::Children),
                JsonView::Object(
                    Seq::new(
                        node.children.len(),
                        |i: int|
                            if 0 <= i < node.children.len() {
                                (node.children[i].0, encoded(node.children[i].1))
                            } else {
                                (Seq::empty(), JsonView::Null)
                            },
                    ),
                ),
            ),
        ],
    )
}

/// Decoding undoes encoding: a well-formed tree, written as a document and
/// decoded again, is the same tree, with every child at its place.
pub proof fn lemma_decode_inverts_encode(node: NodeView)
    requires
        well_formed(node),
    ensures
        decoded(encoded(node)) == Ok::<NodeView, SchemaErrorView>(node),
    decreases node,
{
    lemma_keys_differ();
    let members = encoded(node)->Object_0;
    let entries = members[5].1->Object_0;
    assert(members.len() == 6);
    assert(last_index(members, key_of(Field::Name)) == 0
        && last_index(members, key_of(Field::LinesCovered)) == 1
        && last_index(members, key_of(Field::LinesMissed)) == 2
        && last_index(members, key_of(Field::LinesTotal)) == 3
        && last_index(members, key_of(Field::CoveragePercent)) == 4
        && last_index(members, key_of(Field::Children)) == 5) by {
        reveal_with_fuel(last_index, 7);
    }
    assert forall|i: int| 0 <= i < entries.len() implies decoded((#[trigger] entries[i]).1)
        == Ok::<NodeView, SchemaErrorView>(node.children[i].1) by {
        assert(well_formed(node.children[i].1));
        lemma_decode_inverts_encode(node.children[i].1);
    }
    assert forall|i: int, j: int| 0 <= i < j < entries.len() implies (#[trigger] entries[i]).0 != (
    #[trigger] entries[j]).0 by {
        assert(entries[i].0 == node.children[i].0);
        assert(entries[j].0 == node.children[j].0);
    }
    lemma_children_keep_order(entries);
    let children = decoded_children(JsonView::Object(entries))->Ok_0;
    assert(children.len() == node.children.len());
    assert forall|i: int| 0 <= i < children.len() implies children[i] == node.children[i] by {
        assert(entries[i] == (node.children[i].0, encoded(node.children[i].1)));
    }
    assert(children =~= node.children);
    assert(decoded(encoded(node))->Ok_0 == node);
}

} // verus!
