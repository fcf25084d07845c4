//! The JSON fold tree: a JSON value flattened into display rows, with
//! per-container fold state and the list of rows that are visible.

use vstd::prelude::*;

use crate::text::{decimal, push_char, push_decimal, push_str};

verus! {

/// A parsed JSON value, as the fold tree reads it. Object members keep the
/// order in which the parser hands them out; numbers keep their text.
#[derive(Debug, PartialEq, Eq)]
pub enum JsonValue {
    Object(Vec<(String, JsonValue)>),
    Array(Vec<JsonValue>),
    String(String),
    Number(String),
    Bool(bool),
    Null,
}

/// Kind of a row of the fold tree.
#[derive(Clone, Copy, Debug, PartialEq, Eq, Structural)]
pub enum NodeType {
    Object,
    Array,
    String,
    Number,
    Boolean,
    Null,
    CloseBrace,
    CloseBracket,
}

impl NodeType {
    /// The name the view uses for this kind of row.
    pub fn as_str(&self) -> (r: &'static str)
        ensures
            *self == NodeType::Object ==> r@ == "object"@,
            *self == NodeType::Array ==> r@ == "array"@,
            *self == NodeType::String ==> r@ == "string"@,
            *self == NodeType::Number ==> r@ == "number"@,
            *self == NodeType::Boolean ==> r@ == "boolean"@,
            *self == NodeType::Null ==> r@ == "null"@,
            (*self == NodeType::CloseBrace || *self == NodeType::CloseBracket) ==> r@ == "close"@,
    {
        match self {
            NodeType::Object => "object",
            NodeType::Array => "array",
            NodeType::String => "string",
            NodeType::Number => "number",
            NodeType::Boolean => "boolean",
            NodeType::Null => "null",
            NodeType::CloseBrace | NodeType::CloseBracket => "close",
        }
    }
}

/// One display row of the fold tree.
pub struct RawTreeNode {
    pub id: usize,
    pub parent: Option<usize>,
    pub depth: usize,
    pub key_text: String,
    pub node_type: NodeType,
    pub value_text: String,
    pub summary_text: String,
    pub is_expandable: bool,
    pub is_expanded: bool,
    pub has_comma: bool,
    pub children: Vec<usize>,
    pub close_node_id: Option<usize>,
}

/// The fold tree: rows in document order, a container's closing row after
/// its members.
pub struct JsonTree {
    pub nodes: Vec<RawTreeNode>,
}

/// Mathematical model of a row.
#[verifier::ext_equal]
pub ghost struct NodeModel {
    pub id: nat,
    pub parent: Option<nat>,
    pub depth: nat,
    pub key_text: Seq<char>,
    pub node_type: NodeType,
    pub value_text: Seq<char>,
    pub summary_text: Seq<char>,
    pub is_expandable: bool,
    pub is_expanded: bool,
    pub has_comma: bool,
    pub children: Seq<nat>,
    pub close_node_id: Option<nat>,
}

pub open spec fn opt_nat(o: Option<usize>) -> Option<nat> {
    match o {
        Some(v) => Some(v as nat),
        None => None,
    }
}

pub open spec fn ids_model(ids: Seq<usize>) -> Seq<nat> {
    ids.map_values(|c: usize| c as nat)
}

impl View for RawTreeNode {
    type V = NodeModel;

    open spec fn view(&self) -> NodeModel {
        NodeModel {
            id: self.id as nat,
            parent: opt_nat(self.parent),
            depth: self.depth as nat,
            key_text: self.key_text@,
            node_type: self.node_type,
            value_text: self.value_text@,
            summary_text: self.summary_text@,
            is_expandable: self.is_expandable,
            is_expanded: self.is_expanded,
            has_comma: self.has_comma,
            children: ids_model(self.children@),
            close_node_id: opt_nat(self.close_node_id),
        }
    }
}

/// Models of a sequence of rows.
pub open spec fn rows_model(s: Seq<RawTreeNode>) -> Seq<NodeModel> {
    s.map_values(|n: RawTreeNode| n@)
}

impl View for JsonTree {
    type V = Seq<NodeModel>;

    open spec fn view(&self) -> Seq<NodeModel> {
        rows_model(self.nodes@)
    }
}

// ---------------------------------------------------------------------------
// The rows a value flattens into
// ---------------------------------------------------------------------------

/// Number of rows of a value: one per scalar or empty container, and an
/// opening and a closing row around the members of a non-empty container.
pub open spec fn node_count(v: JsonValue) -> nat
    decreases v,
{
    match v {
        JsonValue::Object(es) => if es@.len() == 0 { 1 } else { 2 + entries_count(es@) },
        JsonValue::Array(xs) => if xs@.len() == 0 { 1 } else { 2 + items_count(xs@) },
        _ => 1,
    }
}

/// Number of rows of the members of an object.
pub open spec fn entries_count(es: Seq<(String, JsonValue)>) -> nat
    decreases es,
{
    if es.len() == 0 {
        0
    } else {
        entries_count(es.drop_last()) + node_count(es.last().1)
    }
}

/// Number of rows of the elements of an array.
pub open spec fn items_count(xs: Seq<JsonValue>) -> nat
    decreases xs,
{
    if xs.len() == 0 {
        0
    } else {
        items_count(xs.drop_last()) + node_count(xs.last())
    }
}

/// Key text of an object member: `"key": `.
pub open spec fn member_key(k: Seq<char>) -> Seq<char> {
    seq!['"'] + k + seq!['"', ':', ' ']
}

/// Key text of an array element: `[i]: `.
pub open spec fn element_key(i: nat) -> Seq<char> {
    seq!['['] + decimal(i) + seq![']', ':', ' ']
}

/// Summary of an object of `n` members: `{ n 项 }`.
pub open spec fn object_summary(n: nat) -> Seq<char> {
    seq!['{', ' '] + decimal(n) + seq![' ', '项', ' ', '}']
}

/// Summary of an array of `n` elements: `[ n 项 ]`.
pub open spec fn array_summary(n: nat) -> Seq<char> {
    seq!['[', ' '] + decimal(n) + seq![' ', '项', ' ', ']']
}

/// Value text of a scalar.
pub open spec fn scalar_text(v: JsonValue) -> Seq<char> {
    match v {
        JsonValue::String(s) => seq!['"'] + s@ + seq!['"'],
        JsonValue::Number(n) => n@,
        JsonValue::Bool(b) => if b { seq!['t', 'r', 'u', 'e'] } else { seq!['f', 'a', 'l', 's', 'e'] },
        _ => seq!['n', 'u', 'l', 'l'],
    }
}

/// Row kind of a scalar.
pub open spec fn scalar_type(v: JsonValue) -> NodeType {
    match v {
        JsonValue::String(_) => NodeType::String,
        JsonValue::Number(_) => NodeType::Number,
        JsonValue::Bool(_) => NodeType::Boolean,
        _ => NodeType::Null,
    }
}

/// A row without members.
pub open spec fn plain_row(
    id: nat,
    parent: Option<nat>,
    depth: nat,
    key: Seq<char>,
    node_type: NodeType,
    value_text: Seq<char>,
    summary: Seq<char>,
    is_expanded: bool,
    comma: bool,
) -> NodeModel {
    NodeModel {
        id,
        parent,
        depth,
        key_text: key,
        node_type,
        value_text,
        summary_text: summary,
        is_expandable: false,
        is_expanded,
        has_comma: comma,
        children: Seq::empty(),
        close_node_id: None,
    }
}

/// The opening row of a non-empty container.
pub open spec fn open_row(
    id: nat,
    parent: Option<nat>,
    depth: nat,
    key: Seq<char>,
    node_type: NodeType,
    value_text: Seq<char>,
    summary: Seq<char>,
    comma: bool,
    children: Seq<nat>,
    close: nat,
) -> NodeModel {
    NodeModel {
        id,
        parent,
        depth,
        key_text: key,
        node_type,
        value_text,
        summary_text: summary,
        is_expandable: true,
        is_expanded: true,
        has_comma: comma,
        children,
        close_node_id: Some(close),
    }
}

/// Ids of the first rows of the members of an object whose rows start at `base`.
pub open spec fn entry_ids(es: Seq<(String, JsonValue)>, base: nat) -> Seq<nat>
    decreases es.len(),
{
    if es.len() == 0 {
        Seq::empty()
    } else {
        entry_ids(es.drop_last(), base).push(base + entries_count(es.drop_last()))
    }
}

/// Ids of the first rows of the elements of an array whose rows start at `base`.
pub open spec fn item_ids(xs: Seq<JsonValue>, base: nat) -> Seq<nat>
    decreases xs.len(),
{
    if xs.len() == 0 {
        Seq::empty()
    } else {
        item_ids(xs.drop_last(), base).push(base + items_count(xs.drop_last()))
    }
}

/// The rows of value `v`, its first row having id `base`.
pub open spec fn flatten(v: JsonValue, parent: Option<nat>, depth: nat, key: Seq<char>, comma: bool, base: nat) -> Seq<NodeModel>
    decreases v,
{
    match v {
        JsonValue::Object(es) => {
            if es@.len() == 0 {
                seq![plain_row(base, parent, depth, key, NodeType::Object, seq!['{', '}'], object_summary(0), true, comma)]
            } else {
                let close = base + 1 + entries_count(es@);
                seq![open_row(base, parent, depth, key, NodeType::Object, seq!['{'], object_summary(es@.len()), comma, entry_ids(es@, base + 1), close)]
                    + flatten_entries(es@, base, depth + 1, base + 1, es@.len())
                    + seq![plain_row(close, Some(base), depth, Seq::empty(), NodeType::CloseBrace, seq!['}'], Seq::empty(), false, comma)]
            }
        },
        JsonValue::Array(xs) => {
            if xs@.len() == 0 {
                seq![plain_row(base, parent, depth, key, NodeType::Array, seq!['[', ']'], array_summary(0), true, comma)]
            } else {
                let close = base + 1 + items_count(xs@);
                seq![open_row(base, parent, depth, key, NodeType::Array, seq!['['], array_summary(xs@.len()), comma, item_ids(xs@, base + 1), close)]
                    + flatten_items(xs@, base, depth + 1, base + 1, xs@.len())
                    + seq![plain_row(close, Some(base), depth, Seq::empty(), NodeType::CloseBracket, seq![']'], Seq::empty(), false, comma)]
            }
        },
        _ => seq![plain_row(base, parent, depth, key, scalar_type(v), scalar_text(v), Seq::empty(), false, comma)],
    }
}

/// The rows of the members of an object with id `parent` and `total` members.
pub open spec fn flatten_entries(es: Seq<(String, JsonValue)>, parent: nat, depth: nat, base: nat, total: nat) -> Seq<NodeModel>
    decreases es,
{
    if es.len() == 0 {
        Seq::empty()
    } else {
        let prev = es.drop_last();
        flatten_entries(prev, parent, depth, base, total)
            + flatten(es.last().1, Some(parent), depth, member_key(es.last().0@), prev.len() + 1 < total, base + entries_count(prev))
    }
}

/// The rows of the elements of an array with id `parent` and `total` elements.
pub open spec fn flatten_items(xs: Seq<JsonValue>, parent: nat, depth: nat, base: nat, total: nat) -> Seq<NodeModel>
    decreases xs,
{
    if xs.len() == 0 {
        Seq::empty()
    } else {
        let prev = xs.drop_last();
        flatten_items(prev, parent, depth, base, total)
            + flatten(xs.last(), Some(parent), depth, element_key(prev.len()), prev.len() + 1 < total, base + items_count(prev))
    }
}


// ---------------------------------------------------------------------------
// Building the rows
// ---------------------------------------------------------------------------

proof fn lemma_rows_model_push(s: Seq<RawTreeNode>, n: RawTreeNode)
    ensures
        rows_model(s.push(n)) == rows_model(s).push(n@),
{
    assert(rows_model(s.push(n)) =~= rows_model(s).push(n@));
}

proof fn lemma_rows_model_update(s: Seq<RawTreeNode>, i: int, n: RawTreeNode)
    requires
        0 <= i < s.len(),
    ensures
        rows_model(s.update(i, n)) == rows_model(s).update(i, n@),
{
    assert(rows_model(s.update(i, n)) =~= rows_model(s).update(i, n@));
}

proof fn lemma_ids_model_push(s: Seq<usize>, c: usize)
    ensures
        ids_model(s.push(c)) == ids_model(s).push(c as nat),
{
    assert(ids_model(s.push(c)) =~= ids_model(s).push(c as nat));
}

fn string_from_chars(cs: &[char]) -> (s: String)
    ensures
        s@ == cs@,
{
    let mut s = String::new();
    let mut i: usize = 0;
    while i < cs.len()
        invariant
            i <= cs@.len(),
            s@ == cs@.take(i as int),
        decreases cs@.len() - i,
    {
        push_char(&mut s, cs[i]);
        proof {
            assert(cs@.take(i + 1) =~= cs@.take(i as int).push(cs@[i as int]));
        }
        i = i + 1;
    }
    assert(cs@.take(cs@.len() as int) =~= cs@);
    s
}

fn summary_text(open: char, n: usize, close: char) -> (s: String)
    ensures
        s@ == seq![open, ' '] + decimal(n as nat) + seq![' ', '项', ' ', close],
{
    let mut s = String::new();
    push_char(&mut s, open);
    push_char(&mut s, ' ');
    push_decimal(&mut s, n);
    push_char(&mut s, ' ');
    push_char(&mut s, '项');
    push_char(&mut s, ' ');
    push_char(&mut s, close);
    assert(s@ =~= seq![open, ' '] + decimal(n as nat) + seq![' ', '项', ' ', close]);
    s
}

fn member_key_text(k: &String) -> (s: String)
    ensures
        s@ == member_key(k@),
{
    let mut s = String::new();
    push_char(&mut s, '"');
    push_str(&mut s, k.as_str());
    push_char(&mut s, '"');
    push_char(&mut s, ':');
    push_char(&mut s, ' ');
    assert(s@ =~= member_key(k@));
    s
}

fn element_key_text(i: usize) -> (s: String)
    ensures
        s@ == element_key(i as nat),
{
    let mut s = String::new();
    push_char(&mut s, '[');
    push_decimal(&mut s, i);
    push_char(&mut s, ']');
    push_char(&mut s, ':');
    push_char(&mut s, ' ');
    assert(s@ =~= element_key(i as nat));
    s
}

fn scalar_row_text(v: &JsonValue) -> (r: (NodeType, String))
    requires
        !(v is Object),
        !(v is Array),
    ensures
        r.0 == scalar_type(*v),
        r.1@ == scalar_text(*v),
{
    match v {
        JsonValue::String(s) => {
            let mut t = String::new();
            push_char(&mut t, '"');
            push_str(&mut t, s.as_str());
            push_char(&mut t, '"');
            assert(t@ =~= scalar_text(*v));
            (NodeType::String, t)
        },
        JsonValue::Number(n) => (NodeType::Number, n.clone()),
        JsonValue::Bool(b) => {
            if *b {
                (NodeType::Boolean, string_from_chars(&['t', 'r', 'u', 'e']))
            } else {
                (NodeType::Boolean, string_from_chars(&['f', 'a', 'l', 's', 'e']))
            }
        },
        _ => (NodeType::Null, string_from_chars(&['n', 'u', 'l', 'l'])),
    }
}


/// A value flattens into [`node_count`] rows: one for a scalar or an empty
/// container, two more than its members' rows for a non-empty container.
pub proof fn lemma_flatten_len(v: JsonValue, parent: Option<nat>, depth: nat, key: Seq<char>, comma: bool, base: nat)
    ensures
        flatten(v, parent, depth, key, comma, base).len() == node_count(v),
    decreases v,
{
    match v {
        JsonValue::Object(es) => {
            if es@.len() > 0 {
                lemma_entries_len(es@, base, depth + 1, base + 1, es@.len());
            }
        },
        JsonValue::Array(xs) => {
            if xs@.len() > 0 {
                lemma_items_len(xs@, base, depth + 1, base + 1, xs@.len());
            }
        },
        _ => {},
    }
}

proof fn lemma_entries_len(es: Seq<(String, JsonValue)>, parent: nat, depth: nat, base: nat, total: nat)
    ensures
        flatten_entries(es, parent, depth, base, total).len() == entries_count(es),
    decreases es,
{
    if es.len() > 0 {
        let prev = es.drop_last();
        lemma_entries_len(prev, parent, depth, base, total);
        lemma_flatten_len(es.last().1, Some(parent), depth, member_key(es.last().0@), prev.len() + 1 < total, base + entries_count(prev));
    }
}

proof fn lemma_items_len(xs: Seq<JsonValue>, parent: nat, depth: nat, base: nat, total: nat)
    ensures
        flatten_items(xs, parent, depth, base, total).len() == items_count(xs),
    decreases xs,
{
    if xs.len() > 0 {
        let prev = xs.drop_last();
        lemma_items_len(prev, parent, depth, base, total);
        lemma_flatten_len(xs.last(), Some(parent), depth, element_key(prev.len()), prev.len() + 1 < total, base + items_count(prev));
    }
}

/// The rows of the members of an object up to member `k` are no more than
/// the rows of all its members.
proof fn lemma_entries_count_prefix(es: Seq<(String, JsonValue)>, k: int)
    requires
        0 <= k < es.len(),
    ensures
        entries_count(es.take(k + 1)) == entries_count(es.take(k)) + node_count(es[k].1),
        entries_count(es.take(k + 1)) <= entries_count(es),
    decreases es.len(),
{
    assert(es.take(k + 1).drop_last() =~= es.take(k));
    if k + 1 == es.len() {
        assert(es.take(k + 1) =~= es);
    } else {
        lemma_entries_count_prefix(es.drop_last(), k);
        assert(es.drop_last().take(k + 1) =~= es.take(k + 1));
        assert(es.drop_last().take(k) =~= es.take(k));
    }
}

/// The rows of the elements of an array up to element `k` are no more than
/// the rows of all its elements.
proof fn lemma_items_count_prefix(xs: Seq<JsonValue>, k: int)
    requires
        0 <= k < xs.len(),
    ensures
        items_count(xs.take(k + 1)) == items_count(xs.take(k)) + node_count(xs[k]),
        items_count(xs.take(k + 1)) <= items_count(xs),
    decreases xs.len(),
{
    assert(xs.take(k + 1).drop_last() =~= xs.take(k));
    if k + 1 == xs.len() {
        assert(xs.take(k + 1) =~= xs);
    } else {
        lemma_items_count_prefix(xs.drop_last(), k);
        assert(xs.drop_last().take(k + 1) =~= xs.take(k + 1));
        assert(xs.drop_last().take(k) =~= xs.take(k));
    }
}

fn build_tree_recursive(
    value: &JsonValue,
    parent: Option<usize>,
    depth: usize,
    key_text: String,
    has_comma: bool,
    nodes: &mut Vec<RawTreeNode>,
) -> (id: usize)
    requires
        depth <= old(nodes)@.len() || depth + node_count(*value) <= usize::MAX,
    ensures
        id == old(nodes)@.len(),
        rows_model(final(nodes)@) == rows_model(old(nodes)@) + flatten(*value, opt_nat(parent), depth as nat, key_text@, has_comma, id as nat),
    decreases value,
{
    let id = nodes.len();
    let ghost start = nodes@;
    match value {
        JsonValue::Object(map) => {
            let total = map.len();
            let summary = summary_text('{', total, '}');
            if total == 0 {
                let node = RawTreeNode {
                    id,
                    parent,
                    depth,
                    key_text,
                    node_type: NodeType::Object,
                    value_text: string_from_chars(&['{', '}']),
                    summary_text: summary,
                    is_expandable: false,
                    is_expanded: true,
                    has_comma,
                    children: Vec::new(),
                    close_node_id: None,
                };
                proof {
                    lemma_rows_model_push(nodes@, node);
                    assert(ids_model(node.children@) =~= Seq::empty());
                }
                nodes.push(node);
                proof {
                    assert(object_summary(0) == object_summary(map@.len()));
                    assert(rows_model(nodes@) == rows_model(start) + flatten(*value, opt_nat(parent), depth as nat, key_text@, has_comma, id as nat));
                }
                return id;
            }
            let placeholder = RawTreeNode {
                id,
                parent,
                depth,
                key_text: key_text.clone(),
                node_type: NodeType::Object,
                value_text: string_from_chars(&['{']),
                summary_text: summary.clone(),
                is_expandable: true,
                is_expanded: true,
                has_comma,
                children: Vec::new(),
                close_node_id: None,
            };
            let ghost pm = placeholder@;
            proof {
                lemma_rows_model_push(nodes@, placeholder);
            }
            nodes.push(placeholder);
            let mut child_ids: Vec<usize> = Vec::new();
            let mut idx: usize = 0;
            while idx < total
                invariant
                    *value == JsonValue::Object(*map),
                    total == map@.len(),
                    id == start.len(),
                    depth <= id || depth + node_count(*value) <= usize::MAX,
                    idx <= total,
                    nodes@.len() == id + 1 + entries_count(map@.take(idx as int)),
                    rows_model(nodes@) == rows_model(start).push(pm) + flatten_entries(map@.take(idx as int), id as nat, depth as nat + 1, id as nat + 1, total as nat),
                    ids_model(child_ids@) == entry_ids(map@.take(idx as int), id as nat + 1),
                decreases total - idx,
            {
                let cur = nodes.len();
                let entry = &map[idx];
                let key = member_key_text(&entry.0);
                let ghost before = nodes@;
                let ghost key_view = key@;
                proof {
                    assert(*map == value->Object_0);
                    assert(decreases_to!(*value => value->Object_0));
                    assert(decreases_to!(*map => map@));
                    assert(decreases_to!(map@ => map@[idx as int]));
                    assert(decreases_to!(map@[idx as int] => map@[idx as int].1));
                }
                proof {
                    lemma_entries_count_prefix(map@, idx as int);
                    assert(map@.take(idx + 1).last() == map@[idx as int]);
                }
                let child_id = build_tree_recursive(&entry.1, Some(id), depth + 1, key, idx + 1 < total, nodes);
                proof {
                    let t = map@.take(idx + 1);
                    assert(t.drop_last() =~= map@.take(idx as int));
                    assert(t.last() == map@[idx as int]);
                    assert(entries_count(t) == entries_count(map@.take(idx as int)) + node_count(entry.1));
                    assert(nodes@.len() == rows_model(nodes@).len());
                    assert(before.len() == rows_model(before).len());
                    lemma_flatten_len(entry.1, Some(id as nat), depth as nat + 1, key_view, idx + 1 < total, cur as nat);
                    lemma_ids_model_push(child_ids@, child_id);
                }
                child_ids.push(child_id);
                idx = idx + 1;
            }
            proof {
                assert(map@.take(total as int) =~= map@);
            }
            let close_id = nodes.len();
            let close_node = RawTreeNode {
                id: close_id,
                parent: Some(id),
                depth,
                key_text: String::new(),
                node_type: NodeType::CloseBrace,
                value_text: string_from_chars(&['}']),
                summary_text: String::new(),
                is_expandable: false,
                is_expanded: false,
                has_comma,
                children: Vec::new(),
                close_node_id: None,
            };
            proof {
                lemma_rows_model_push(nodes@, close_node);
                assert(ids_model(close_node.children@) =~= Seq::empty());
            }
            nodes.push(close_node);
            let open_node = RawTreeNode {
                id,
                parent,
                depth,
                key_text,
                node_type: NodeType::Object,
                value_text: string_from_chars(&['{']),
                summary_text: summary,
                is_expandable: true,
                is_expanded: true,
                has_comma,
                children: child_ids,
                close_node_id: Some(close_id),
            };
            proof {
                lemma_rows_model_update(nodes@, id as int, open_node);
            }
            nodes.set(id, open_node);
            proof {
                let fe = flatten_entries(map@, id as nat, depth as nat + 1, id as nat + 1, total as nat);
                assert(rows_model(nodes@) =~= rows_model(start) + (seq![open_node@] + fe + seq![close_node@]));
                let b = id as nat;
                assert(close_id == b + 1 + entries_count(map@));
                assert(open_node@ == open_row(b, opt_nat(parent), depth as nat, key_text@, NodeType::Object, seq!['{'], object_summary(map@.len()), has_comma, entry_ids(map@, b + 1), close_id as nat));
                assert(close_node@ == plain_row(close_id as nat, Some(b), depth as nat, Seq::empty(), NodeType::CloseBrace, seq!['}'], Seq::empty(), false, has_comma));
                assert(flatten(*value, opt_nat(parent), depth as nat, key_text@, has_comma, b) == seq![open_node@] + fe + seq![close_node@]);
            }
            assert(rows_model(nodes@) == rows_model(start) + flatten(*value, opt_nat(parent), depth as nat, key_text@, has_comma, id as nat));
            id
        },
        JsonValue::Array(arr) => {
            let total = arr.len();
            let summary = summary_text('[', total, ']');
            if total == 0 {
                let node = RawTreeNode {
                    id,
                    parent,
                    depth,
                    key_text,
                    node_type: NodeType::Array,
                    value_text: string_from_chars(&['[', ']']),
                    summary_text: summary,
                    is_expandable: false,
                    is_expanded: true,
                    has_comma,
                    children: Vec::new(),
                    close_node_id: None,
                };
                proof {
                    lemma_rows_model_push(nodes@, node);
                    assert(ids_model(node.children@) =~= Seq::empty());
                }
                nodes.push(node);
                proof {
                    assert(rows_model(nodes@) == rows_model(start) + flatten(*value, opt_nat(parent), depth as nat, key_text@, has_comma, id as nat));
                }
                return id;
            }
            let placeholder = RawTreeNode {
                id,
                parent,
                depth,
                key_text: key_text.clone(),
                node_type: NodeType::Array,
                value_text: string_from_chars(&['[']),
                summary_text: summary.clone(),
                is_expandable: true,
                is_expanded: true,
                has_comma,
                children: Vec::new(),
                close_node_id: None,
            };
            let ghost pm = placeholder@;
            proof {
                lemma_rows_model_push(nodes@, placeholder);
            }
            nodes.push(placeholder);
            let mut child_ids: Vec<usize> = Vec::new();
            let mut idx: usize = 0;
            while idx < total
                invariant
                    *value == JsonValue::Array(*arr),
                    total == arr@.len(),
                    id == start.len(),
                    depth <= id || depth + node_count(*value) <= usize::MAX,
                    idx <= total,
                    nodes@.len() == id + 1 + items_count(arr@.take(idx as int)),
                    rows_model(nodes@) == rows_model(start).push(pm) + flatten_items(arr@.take(idx as int), id as nat, depth as nat + 1, id as nat + 1, total as nat),
                    ids_model(child_ids@) == item_ids(arr@.take(idx as int), id as nat + 1),
                decreases total - idx,
            {
                let cur = nodes.len();
                let item = &arr[idx];
                let key = element_key_text(idx);
                let ghost key_view = key@;
                let ghost before = nodes@;
                proof {
                    assert(*arr == value->Array_0);
                    assert(decreases_to!(*value => value->Array_0));
                    assert(decreases_to!(*arr => arr@));
                    assert(decreases_to!(arr@ => arr@[idx as int]));
                }
                proof {
                    lemma_items_count_prefix(arr@, idx as int);
                    assert(arr@.take(idx + 1).last() == arr@[idx as int]);
                }
                let child_id = build_tree_recursive(item, Some(id), depth + 1, key, idx + 1 < total, nodes);
                proof {
                    let t = arr@.take(idx + 1);
                    assert(t.drop_last() =~= arr@.take(idx as int));
                    assert(t.last() == arr@[idx as int]);
                    assert(items_count(t) == items_count(arr@.take(idx as int)) + node_count(*item));
                    assert(nodes@.len() == rows_model(nodes@).len());
                    assert(before.len() == rows_model(before).len());
                    lemma_flatten_len(*item, Some(id as nat), depth as nat + 1, key_view, idx + 1 < total, cur as nat);
                    lemma_ids_model_push(child_ids@, child_id);
                }
                child_ids.push(child_id);
                idx = idx + 1;
            }
            proof {
                assert(arr@.take(total as int) =~= arr@);
            }
            let close_id = nodes.len();
            let close_node = RawTreeNode {
                id: close_id,
                parent: Some(id),
                depth,
                key_text: String::new(),
                node_type: NodeType::CloseBracket,
                value_text: string_from_chars(&[']']),
                summary_text: String::new(),
                is_expandable: false,
                is_expanded: false,
                has_comma,
                children: Vec::new(),
                close_node_id: None,
            };
            proof {
                lemma_rows_model_push(nodes@, close_node);
                assert(ids_model(close_node.children@) =~= Seq::empty());
            }
            nodes.push(close_node);
            let open_node = RawTreeNode {
                id,
                parent,
                depth,
                key_text,
                node_type: NodeType::Array,
                value_text: string_from_chars(&['[']),
                summary_text: summary,
                is_expandable: true,
                is_expanded: true,
                has_comma,
                children: child_ids,
                close_node_id: Some(close_id),
            };
            proof {
                lemma_rows_model_update(nodes@, id as int, open_node);
            }
            nodes.set(id, open_node);
            proof {
                let fi = flatten_items(arr@, id as nat, depth as nat + 1, id as nat + 1, total as nat);
                assert(rows_model(nodes@) =~= rows_model(start) + (seq![open_node@] + fi + seq![close_node@]));
                let b = id as nat;
                assert(close_id == b + 1 + items_count(arr@));
                assert(open_node@ == open_row(b, opt_nat(parent), depth as nat, key_text@, NodeType::Array, seq!['['], array_summary(arr@.len()), has_comma, item_ids(arr@, b + 1), close_id as nat));
                assert(close_node@ == plain_row(close_id as nat, Some(b), depth as nat, Seq::empty(), NodeType::CloseBracket, seq![']'], Seq::empty(), false, has_comma));
            }
            assert(rows_model(nodes@) == rows_model(start) + flatten(*value, opt_nat(parent), depth as nat, key_text@, has_comma, id as nat));
            id
        },
        _ => {
            let (node_type, value_text) = scalar_row_text(value);
            let node = RawTreeNode {
                id,
                parent,
                depth,
                key_text,
                node_type,
                value_text,
                summary_text: String::new(),
                is_expandable: false,
                is_expanded: false,
                has_comma,
                children: Vec::new(),
                close_node_id: None,
            };
            proof {
                lemma_rows_model_push(nodes@, node);
                assert(ids_model(node.children@) =~= Seq::empty());
            }
            nodes.push(node);
            assert(rows_model(nodes@) == rows_model(start) + flatten(*value, opt_nat(parent), depth as nat, key_text@, has_comma, id as nat));
            id
        },
    }
}

impl JsonTree {
    /// The fold tree of `value`, every container unfolded.
    pub fn from_value(value: &JsonValue) -> (t: Self)
        ensures
            t@ == flatten(*value, None, 0, Seq::empty(), false, 0),
            well_formed(t@),
    {
        let mut nodes: Vec<RawTreeNode> = Vec::new();
        let _ = build_tree_recursive(value, None, 0, String::new(), false, &mut nodes);
        proof {
            assert(rows_model(Seq::<RawTreeNode>::empty()) =~= Seq::empty());
            lemma_from_value_well_formed(*value);
        }
        JsonTree { nodes }
    }
}


// ---------------------------------------------------------------------------
// Fold state
// ---------------------------------------------------------------------------

/// A row with its fold flag set to `e`.
pub open spec fn with_expanded(n: NodeModel, e: bool) -> NodeModel {
    NodeModel { is_expanded: e, ..n }
}

/// The rows after flipping the fold flag of row `id`, if that row is a
/// non-empty container.
pub open spec fn toggled(t: Seq<NodeModel>, id: int) -> Seq<NodeModel> {
    if 0 <= id < t.len() && t[id].is_expandable {
        t.update(id, with_expanded(t[id], !t[id].is_expanded))
    } else {
        t
    }
}

/// The rows with every non-empty container unfolded (`e`) or folded (`!e`).
pub open spec fn all_expanded(t: Seq<NodeModel>, e: bool) -> Seq<NodeModel> {
    Seq::new(t.len(), |i: int| if t[i].is_expandable { with_expanded(t[i], e) } else { t[i] })
}

/// The rows with the non-empty containers shallower than `max_depth`
/// unfolded and the others folded.
pub open spec fn folded_to_level(t: Seq<NodeModel>, max_depth: nat) -> Seq<NodeModel> {
    Seq::new(t.len(), |i: int| if t[i].is_expandable { with_expanded(t[i], t[i].depth < max_depth) } else { t[i] })
}

impl RawTreeNode {
    /// A copy of this row.
    pub fn duplicate(&self) -> (r: Self)
        ensures
            r@ == self@,
    {
        RawTreeNode {
            id: self.id,
            parent: self.parent,
            depth: self.depth,
            key_text: self.key_text.clone(),
            node_type: self.node_type,
            value_text: self.value_text.clone(),
            summary_text: self.summary_text.clone(),
            is_expandable: self.is_expandable,
            is_expanded: self.is_expanded,
            has_comma: self.has_comma,
            children: self.children.clone(),
            close_node_id: self.close_node_id,
        }
    }
}

impl JsonTree {
    fn set_expanded_at(&mut self, i: usize, e: bool)
        requires
            i < old(self).nodes@.len(),
        ensures
            final(self)@ == old(self)@.update(i as int, with_expanded(old(self)@[i as int], e)),
            final(self).nodes@.len() == old(self).nodes@.len(),
    {
        let mut node = self.nodes[i].duplicate();
        node.is_expanded = e;
        proof {
            lemma_rows_model_update(self.nodes@, i as int, node);
        }
        self.nodes.set(i, node);
    }

    /// Flips the fold flag of row `node_id` if it is a non-empty container.
    pub fn toggle(&mut self, node_id: usize)
        ensures
            final(self)@ == toggled(old(self)@, node_id as int),
    {
        if node_id < self.nodes.len() && self.nodes[node_id].is_expandable {
            let e = !self.nodes[node_id].is_expanded;
            self.set_expanded_at(node_id, e);
        }
    }

    /// Unfolds every non-empty container.
    pub fn expand_all(&mut self)
        ensures
            final(self)@ == all_expanded(old(self)@, true),
    {
        let ghost orig = self@;
        let n = self.nodes.len();
        let mut i: usize = 0;
        while i < n
            invariant
                n == self.nodes@.len(),
                orig.len() == n,
                i <= n,
                forall|j: int| 0 <= j < i ==> self@[j] == all_expanded(orig, true)[j],
                forall|j: int| i <= j < n ==> self@[j] == orig[j],
            decreases n - i,
        {
            if self.nodes[i].is_expandable {
                self.set_expanded_at(i, true);
            }
            i = i + 1;
        }
        assert(self@ =~= all_expanded(orig, true));
    }

    /// Folds every non-empty container.
    pub fn collapse_all(&mut self)
        ensures
            final(self)@ == all_expanded(old(self)@, false),
    {
        let ghost orig = self@;
        let n = self.nodes.len();
        let mut i: usize = 0;
        while i < n
            invariant
                n == self.nodes@.len(),
                orig.len() == n,
                i <= n,
                forall|j: int| 0 <= j < i ==> self@[j] == all_expanded(orig, false)[j],
                forall|j: int| i <= j < n ==> self@[j] == orig[j],
            decreases n - i,
        {
            if self.nodes[i].is_expandable {
                self.set_expanded_at(i, false);
            }
            i = i + 1;
        }
        assert(self@ =~= all_expanded(orig, false));
    }

    /// Unfolds the non-empty containers shallower than `max_depth` and folds
    /// the others.
    pub fn fold_level(&mut self, max_depth: usize)
        ensures
            final(self)@ == folded_to_level(old(self)@, max_depth as nat),
    {
        let ghost orig = self@;
        let n = self.nodes.len();
        let mut i: usize = 0;
        while i < n
            invariant
                n == self.nodes@.len(),
                orig.len() == n,
                i <= n,
                forall|j: int| 0 <= j < i ==> self@[j] == folded_to_level(orig, max_depth as nat)[j],
                forall|j: int| i <= j < n ==> self@[j] == orig[j],
            decreases n - i,
        {
            if self.nodes[i].is_expandable {
                let e = self.nodes[i].depth < max_depth;
                self.set_expanded_at(i, e);
            }
            i = i + 1;
        }
        assert(self@ =~= folded_to_level(orig, max_depth as nat));
    }
}

// ---------------------------------------------------------------------------
// Visible rows
// ---------------------------------------------------------------------------

/// Every member of a row has a larger id than the row: the rows form a
/// forest laid out in document order.
pub open spec fn well_formed(t: Seq<NodeModel>) -> bool {
    forall|i: int, k: int| 0 <= i < t.len() && 0 <= k < t[i].children.len() ==> t[i].children[k] > i
}

/// Termination measure of the visible-row walk.
pub open spec fn rows_after(t: Seq<NodeModel>, id: nat) -> nat {
    if id < t.len() { (t.len() - id) as nat } else { 0 }
}

/// The visible rows of the subtree at row `id`: the row itself, and for an
/// unfolded container the visible rows of its members and its closing row.
pub open spec fn visible_at(t: Seq<NodeModel>, id: nat) -> Seq<NodeModel>
    decreases rows_after(t, id), 1nat, 0nat,
{
    if id >= t.len() {
        Seq::empty()
    } else {
        let n = t[id as int];
        if n.is_expandable && n.is_expanded {
            let close = match n.close_node_id {
                Some(c) => if c < t.len() { seq![t[c as int]] } else { Seq::empty() },
                None => Seq::empty(),
            };
            seq![n] + visible_members(t, id, n.children) + close
        } else {
            seq![n]
        }
    }
}

/// The visible rows of the members `ids` of row `parent`.
pub open spec fn visible_members(t: Seq<NodeModel>, parent: nat, ids: Seq<nat>) -> Seq<NodeModel>
    decreases rows_after(t, parent), 0nat, ids.len(),
{
    if ids.len() == 0 || parent >= t.len() {
        Seq::empty()
    } else {
        let prefix = visible_members(t, parent, ids.drop_last());
        if ids.last() > parent {
            prefix + visible_at(t, ids.last())
        } else {
            prefix
        }
    }
}

impl JsonTree {
    fn collect_visible(&self, node_id: usize, visible: &mut Vec<RawTreeNode>)
        requires
            well_formed(self@),
        ensures
            rows_model(final(visible)@) == rows_model(old(visible)@) + visible_at(self@, node_id as nat),
        decreases rows_after(self@, node_id as nat),
    {
        if node_id >= self.nodes.len() {
            assert(rows_model(visible@) =~= rows_model(visible@) + Seq::<NodeModel>::empty());
            return;
        }
        let ghost start = visible@;
        let node = &self.nodes[node_id];
        let copy = node.duplicate();
        proof {
            lemma_rows_model_push(visible@, copy);
        }
        visible.push(copy);
        if node.is_expandable && node.is_expanded {
            let ghost ids = node@.children;
            let mut k: usize = 0;
            while k < node.children.len()
                invariant
                    well_formed(self@),
                    node_id < self.nodes@.len(),
                    *node == self.nodes@[node_id as int],
                    ids == node@.children,
                    ids.len() == node.children@.len(),
                    k <= ids.len(),
                    rows_model(visible@) == rows_model(start) + seq![node@] + visible_members(self@, node_id as nat, ids.take(k as int)),
                decreases ids.len() - k,
            {
                let child = node.children[k];
                proof {
                    assert(ids[k as int] == child as nat);
                    assert(self@[node_id as int].children[k as int] > node_id);
                    let t = ids.take(k + 1);
                    assert(t.drop_last() =~= ids.take(k as int));
                    assert(t.last() == child as nat);
                }
                self.collect_visible(child, visible);
                k = k + 1;
            }
            proof {
                assert(ids.take(ids.len() as int) =~= ids);
            }
            match node.close_node_id {
                Some(close_id) => {
                    if close_id < self.nodes.len() {
                        let c = self.nodes[close_id].duplicate();
                        proof {
                            lemma_rows_model_push(visible@, c);
                        }
                        visible.push(c);
                    }
                },
                None => {},
            }
            assert(rows_model(visible@) =~= rows_model(start) + visible_at(self@, node_id as nat));
        } else {
            assert(rows_model(visible@) =~= rows_model(start) + visible_at(self@, node_id as nat));
        }
    }

    /// The rows the view shows: the first row's subtree, skipping the
    /// members of folded containers.
    pub fn visible_nodes(&self) -> (r: Vec<RawTreeNode>)
        requires
            well_formed(self@),
        ensures
            rows_model(r@) == visible_at(self@, 0),
    {
        let mut visible: Vec<RawTreeNode> = Vec::new();
        if self.nodes.len() == 0 {
            assert(rows_model(visible@) =~= visible_at(self@, 0));
            return visible;
        }
        self.collect_visible(0, &mut visible);
        assert(rows_model(Seq::<RawTreeNode>::empty()) =~= Seq::empty());
        assert(rows_model(visible@) =~= visible_at(self@, 0));
        visible
    }
}


// ---------------------------------------------------------------------------
// Laws of the fold tree
// ---------------------------------------------------------------------------

/// Every member of row `j` of `rows` has an id larger than `base + j`.
pub open spec fn members_after(rows: Seq<NodeModel>, base: nat) -> bool {
    forall|j: int, k: int| 0 <= j < rows.len() && 0 <= k < rows[j].children.len() ==> rows[j].children[k] > base + j
}

proof fn lemma_members_after_concat(a: Seq<NodeModel>, b: Seq<NodeModel>, base: nat)
    requires
        members_after(a, base),
        members_after(b, base + a.len()),
    ensures
        members_after(a + b, base),
{
    assert forall|j: int, k: int| 0 <= j < (a + b).len() && 0 <= k < (a + b)[j].children.len() implies (a + b)[j].children[k] > base + j by {
        if j >= a.len() {
            assert((a + b)[j] == b[j - a.len()]);
        }
    }
}

proof fn lemma_entry_ids_bound(es: Seq<(String, JsonValue)>, base: nat)
    ensures
        entry_ids(es, base).len() == es.len(),
        forall|k: int| 0 <= k < es.len() ==> entry_ids(es, base)[k] >= base,
    decreases es.len(),
{
    if es.len() > 0 {
        lemma_entry_ids_bound(es.drop_last(), base);
    }
}

proof fn lemma_item_ids_bound(xs: Seq<JsonValue>, base: nat)
    ensures
        item_ids(xs, base).len() == xs.len(),
        forall|k: int| 0 <= k < xs.len() ==> item_ids(xs, base)[k] >= base,
    decreases xs.len(),
{
    if xs.len() > 0 {
        lemma_item_ids_bound(xs.drop_last(), base);
    }
}

proof fn lemma_flatten_members_after(v: JsonValue, parent: Option<nat>, depth: nat, key: Seq<char>, comma: bool, base: nat)
    ensures
        members_after(flatten(v, parent, depth, key, comma, base), base),
    decreases v,
{
    let rows = flatten(v, parent, depth, key, comma, base);
    match v {
        JsonValue::Object(es) => {
            if es@.len() > 0 {
                let fe = flatten_entries(es@, base, depth + 1, base + 1, es@.len());
                let close = base + 1 + entries_count(es@);
                let head = seq![open_row(base, parent, depth, key, NodeType::Object, seq!['{'], object_summary(es@.len()), comma, entry_ids(es@, base + 1), close)];
                let tail = seq![plain_row(close, Some(base), depth, Seq::empty(), NodeType::CloseBrace, seq!['}'], Seq::empty(), false, comma)];
                lemma_entry_ids_bound(es@, base + 1);
                lemma_entries_members_after(es@, base, depth + 1, base + 1, es@.len());
                lemma_members_after_concat(head, fe, base);
                lemma_members_after_concat(head + fe, tail, base);
            }
        },
        JsonValue::Array(xs) => {
            if xs@.len() > 0 {
                let fi = flatten_items(xs@, base, depth + 1, base + 1, xs@.len());
                let close = base + 1 + items_count(xs@);
                let head = seq![open_row(base, parent, depth, key, NodeType::Array, seq!['['], array_summary(xs@.len()), comma, item_ids(xs@, base + 1), close)];
                let tail = seq![plain_row(close, Some(base), depth, Seq::empty(), NodeType::CloseBracket, seq![']'], Seq::empty(), false, comma)];
                lemma_item_ids_bound(xs@, base + 1);
                lemma_items_members_after(xs@, base, depth + 1, base + 1, xs@.len());
                lemma_members_after_concat(head, fi, base);
                lemma_members_after_concat(head + fi, tail, base);
            }
        },
        _ => {},
    }
}

proof fn lemma_entries_members_after(es: Seq<(String, JsonValue)>, parent: nat, depth: nat, base: nat, total: nat)
    ensures
        members_after(flatten_entries(es, parent, depth, base, total), base),
    decreases es,
{
    if es.len() > 0 {
        let prev = es.drop_last();
        let b = base + entries_count(prev);
        let k = member_key(es.last().0@);
        lemma_entries_members_after(prev, parent, depth, base, total);
        lemma_entries_len(prev, parent, depth, base, total);
        lemma_flatten_members_after(es.last().1, Some(parent), depth, k, prev.len() + 1 < total, b);
        lemma_members_after_concat(flatten_entries(prev, parent, depth, base, total), flatten(es.last().1, Some(parent), depth, k, prev.len() + 1 < total, b), base);
    }
}

proof fn lemma_items_members_after(xs: Seq<JsonValue>, parent: nat, depth: nat, base: nat, total: nat)
    ensures
        members_after(flatten_items(xs, parent, depth, base, total), base),
    decreases xs,
{
    if xs.len() > 0 {
        let prev = xs.drop_last();
        let b = base + items_count(prev);
        let k = element_key(prev.len());
        lemma_items_members_after(prev, parent, depth, base, total);
        lemma_items_len(prev, parent, depth, base, total);
        lemma_flatten_members_after(xs.last(), Some(parent), depth, k, prev.len() + 1 < total, b);
        lemma_members_after_concat(flatten_items(prev, parent, depth, base, total), flatten(xs.last(), Some(parent), depth, k, prev.len() + 1 < total, b), base);
    }
}

/// The tree built from a value is well formed, so its visible rows can be
/// listed.
pub proof fn lemma_from_value_well_formed(v: JsonValue)
    ensures
        well_formed(flatten(v, None, 0, Seq::empty(), false, 0)),
{
    lemma_flatten_members_after(v, None, 0, Seq::empty(), false, 0);
}


proof fn lemma_visible_flatten(t: Seq<NodeModel>, v: JsonValue, parent: Option<nat>, depth: nat, key: Seq<char>, comma: bool, base: nat)
    requires
        base + node_count(v) <= t.len(),
        t.subrange(base as int, base + node_count(v) as int) == flatten(v, parent, depth, key, comma, base),
    ensures
        visible_at(t, base) == flatten(v, parent, depth, key, comma, base),
    decreases v,
{
    let rows = flatten(v, parent, depth, key, comma, base);
    lemma_flatten_len(v, parent, depth, key, comma, base);
    assert(t[base as int] == rows[0]);
    match v {
        JsonValue::Object(es) => {
            if es@.len() > 0 {
                let ec: int = entries_count(es@) as int;
                let fe = flatten_entries(es@, base, depth + 1, base + 1, es@.len());
                lemma_entries_len(es@, base, depth + 1, base + 1, es@.len());
                lemma_entry_ids_bound(es@, base + 1);
                assert(rows.subrange(1, 1 + ec) =~= fe);
                assert(t.subrange(base + 1 as int, base + 1 + ec) =~= rows.subrange(1, 1 + ec));
                lemma_visible_entries(t, es@, base, depth + 1, base + 1, es@.len());
                assert(t[base + 1 + ec] == rows[1 + ec]);
                assert(visible_at(t, base) =~= rows);
            }
        },
        JsonValue::Array(xs) => {
            if xs@.len() > 0 {
                let ic: int = items_count(xs@) as int;
                let fi = flatten_items(xs@, base, depth + 1, base + 1, xs@.len());
                lemma_items_len(xs@, base, depth + 1, base + 1, xs@.len());
                lemma_item_ids_bound(xs@, base + 1);
                assert(rows.subrange(1, 1 + ic) =~= fi);
                assert(t.subrange(base + 1 as int, base + 1 + ic) =~= rows.subrange(1, 1 + ic));
                lemma_visible_items(t, xs@, base, depth + 1, base + 1, xs@.len());
                assert(t[base + 1 + ic] == rows[1 + ic]);
                assert(visible_at(t, base) =~= rows);
            }
        },
        _ => {},
    }
}

proof fn lemma_visible_entries(t: Seq<NodeModel>, es: Seq<(String, JsonValue)>, parent: nat, depth: nat, base: nat, total: nat)
    requires
        parent < base,
        base + entries_count(es) <= t.len(),
        t.subrange(base as int, base + entries_count(es) as int) == flatten_entries(es, parent, depth, base, total),
    ensures
        visible_members(t, parent, entry_ids(es, base)) == flatten_entries(es, parent, depth, base, total),
    decreases es,
{
    lemma_entry_ids_bound(es, base);
    if es.len() > 0 {
        let prev = es.drop_last();
        let b = base + entries_count(prev);
        let k = member_key(es.last().0@);
        let c = prev.len() + 1 < total;
        let fp = flatten_entries(prev, parent, depth, base, total);
        let fl = flatten(es.last().1, Some(parent), depth, k, c, b);
        lemma_entries_len(prev, parent, depth, base, total);
        lemma_flatten_len(es.last().1, Some(parent), depth, k, c, b);
        let whole = flatten_entries(es, parent, depth, base, total);
        assert(entries_count(es) == entries_count(prev) + node_count(es.last().1));
        assert(whole == fp + fl);
        assert(t.subrange(base as int, b as int) =~= whole.subrange(0, fp.len() as int));
        assert(whole.subrange(0, fp.len() as int) =~= fp);
        assert(t.subrange(b as int, b + node_count(es.last().1) as int) =~= whole.subrange(fp.len() as int, whole.len() as int));
        assert(whole.subrange(fp.len() as int, whole.len() as int) =~= fl);
        lemma_visible_entries(t, prev, parent, depth, base, total);
        lemma_visible_flatten(t, es.last().1, Some(parent), depth, k, c, b);
        let ids = entry_ids(es, base);
        assert(ids.drop_last() =~= entry_ids(prev, base));
        assert(ids.last() == b);
    } else {
        assert(flatten_entries(es, parent, depth, base, total) =~= Seq::empty());
        reveal(ids_from);
        reveal(members_back);
        reveal(members_increasing);
        reveal(closes_back);
    }
}

proof fn lemma_visible_items(t: Seq<NodeModel>, xs: Seq<JsonValue>, parent: nat, depth: nat, base: nat, total: nat)
    requires
        parent < base,
        base + items_count(xs) <= t.len(),
        t.subrange(base as int, base + items_count(xs) as int) == flatten_items(xs, parent, depth, base, total),
    ensures
        visible_members(t, parent, item_ids(xs, base)) == flatten_items(xs, parent, depth, base, total),
    decreases xs,
{
    lemma_item_ids_bound(xs, base);
    if xs.len() > 0 {
        let prev = xs.drop_last();
        let b = base + items_count(prev);
        let k = element_key(prev.len());
        let c = prev.len() + 1 < total;
        let fp = flatten_items(prev, parent, depth, base, total);
        let fl = flatten(xs.last(), Some(parent), depth, k, c, b);
        lemma_items_len(prev, parent, depth, base, total);
        lemma_flatten_len(xs.last(), Some(parent), depth, k, c, b);
        let whole = flatten_items(xs, parent, depth, base, total);
        assert(items_count(xs) == items_count(prev) + node_count(xs.last()));
        assert(whole == fp + fl);
        assert(t.subrange(base as int, b as int) =~= whole.subrange(0, fp.len() as int));
        assert(whole.subrange(0, fp.len() as int) =~= fp);
        assert(t.subrange(b as int, b + node_count(xs.last()) as int) =~= whole.subrange(fp.len() as int, whole.len() as int));
        assert(whole.subrange(fp.len() as int, whole.len() as int) =~= fl);
        lemma_visible_items(t, prev, parent, depth, base, total);
        lemma_visible_flatten(t, xs.last(), Some(parent), depth, k, c, b);
        let ids = item_ids(xs, base);
        assert(ids.drop_last() =~= item_ids(prev, base));
        assert(ids.last() == b);
    } else {
        assert(flatten_items(xs, parent, depth, base, total) =~= Seq::empty());
        reveal(ids_from);
        reveal(members_back);
        reveal(members_increasing);
        reveal(closes_back);
    }
}

/// With every container unfolded, as `from_value` leaves it, the view shows
/// every row of the tree, in order.
pub proof fn lemma_unfolded_tree_shows_all_rows(v: JsonValue)
    ensures
        visible_at(flatten(v, None, 0, Seq::empty(), false, 0), 0) == flatten(v, None, 0, Seq::empty(), false, 0),
{
    let t = flatten(v, None, 0, Seq::empty(), false, 0);
    lemma_flatten_len(v, None, 0, Seq::empty(), false, 0);
    assert(t.subrange(0, node_count(v) as int) =~= t);
    lemma_visible_flatten(t, v, None, 0, Seq::empty(), false, 0);
}


/// Every non-empty container among `rows` is unfolded.
pub open spec fn all_unfolded(rows: Seq<NodeModel>) -> bool {
    forall|j: int| 0 <= j < rows.len() && #[trigger] rows[j].is_expandable ==> rows[j].is_expanded
}

proof fn lemma_flatten_unfolded(v: JsonValue, parent: Option<nat>, depth: nat, key: Seq<char>, comma: bool, base: nat)
    ensures
        all_unfolded(flatten(v, parent, depth, key, comma, base)),
    decreases v,
{
    match v {
        JsonValue::Object(es) => {
            if es@.len() > 0 {
                lemma_entries_unfolded(es@, base, depth + 1, base + 1, es@.len());
            }
        },
        JsonValue::Array(xs) => {
            if xs@.len() > 0 {
                lemma_items_unfolded(xs@, base, depth + 1, base + 1, xs@.len());
            }
        },
        _ => {},
    }
}

proof fn lemma_entries_unfolded(es: Seq<(String, JsonValue)>, parent: nat, depth: nat, base: nat, total: nat)
    ensures
        all_unfolded(flatten_entries(es, parent, depth, base, total)),
    decreases es,
{
    if es.len() > 0 {
        let prev = es.drop_last();
        lemma_entries_unfolded(prev, parent, depth, base, total);
        lemma_flatten_unfolded(es.last().1, Some(parent), depth, member_key(es.last().0@), prev.len() + 1 < total, base + entries_count(prev));
    }
}

proof fn lemma_items_unfolded(xs: Seq<JsonValue>, parent: nat, depth: nat, base: nat, total: nat)
    ensures
        all_unfolded(flatten_items(xs, parent, depth, base, total)),
    decreases xs,
{
    if xs.len() > 0 {
        let prev = xs.drop_last();
        lemma_items_unfolded(prev, parent, depth, base, total);
        lemma_flatten_unfolded(xs.last(), Some(parent), depth, element_key(prev.len()), prev.len() + 1 < total, base + items_count(prev));
    }
}

/// Two row lists that differ at most in the fold flags of non-empty containers.
pub open spec fn same_but_folds(s: Seq<NodeModel>, t: Seq<NodeModel>) -> bool {
    &&& s.len() == t.len()
    &&& forall|i: int| 0 <= i < s.len() ==> with_expanded(#[trigger] s[i], true) == with_expanded(t[i], true)
    &&& forall|i: int| 0 <= i < s.len() && !(#[trigger] s[i]).is_expandable ==> s[i] == t[i]
}

/// Toggling a row twice restores the tree.
pub proof fn lemma_toggle_twice(t: Seq<NodeModel>, id: int)
    ensures
        toggled(toggled(t, id), id) == t,
{
    if 0 <= id < t.len() && t[id].is_expandable {
        assert(toggled(toggled(t, id), id) =~= t);
    }
}

/// Folding to level 0 folds every container, as `collapse_all` does.
pub proof fn lemma_fold_level_zero_is_collapse_all(t: Seq<NodeModel>)
    ensures
        folded_to_level(t, 0) == all_expanded(t, false),
{
    assert(folded_to_level(t, 0) =~= all_expanded(t, false));
}

/// Folding to a level deeper than every row unfolds every container, as
/// `expand_all` does.
pub proof fn lemma_fold_level_past_depth_is_expand_all(t: Seq<NodeModel>, max_depth: nat)
    requires
        forall|i: int| 0 <= i < t.len() ==> #[trigger] t[i].depth < max_depth,
    ensures
        folded_to_level(t, max_depth) == all_expanded(t, true),
{
    assert(folded_to_level(t, max_depth) =~= all_expanded(t, true));
}

/// Toggling, folding and unfolding change nothing but fold flags, and keep
/// a tree well formed.
pub proof fn lemma_fold_ops_keep_rows(t: Seq<NodeModel>, id: int, e: bool, max_depth: nat)
    ensures
        same_but_folds(t, toggled(t, id)),
        same_but_folds(t, all_expanded(t, e)),
        same_but_folds(t, folded_to_level(t, max_depth)),
        well_formed(t) ==> well_formed(toggled(t, id)),
        well_formed(t) ==> well_formed(all_expanded(t, e)),
        well_formed(t) ==> well_formed(folded_to_level(t, max_depth)),
{
    assert forall|i: int| 0 <= i < t.len() implies with_expanded(#[trigger] t[i], true) == with_expanded(toggled(t, id)[i], true) by {
        assert(with_expanded(t[i], true) =~= with_expanded(toggled(t, id)[i], true));
    }
    assert forall|i: int| 0 <= i < t.len() implies with_expanded(#[trigger] t[i], true) == with_expanded(all_expanded(t, e)[i], true) by {
        assert(with_expanded(t[i], true) =~= with_expanded(all_expanded(t, e)[i], true));
    }
    assert forall|i: int| 0 <= i < t.len() implies with_expanded(#[trigger] t[i], true) == with_expanded(folded_to_level(t, max_depth)[i], true) by {
        assert(with_expanded(t[i], true) =~= with_expanded(folded_to_level(t, max_depth)[i], true));
    }
    if well_formed(t) {
        assert forall|i: int, k: int| 0 <= i < toggled(t, id).len() && 0 <= k < toggled(t, id)[i].children.len() implies toggled(t, id)[i].children[k] > i by {
            assert(toggled(t, id)[i].children == t[i].children);
        }
        assert forall|i: int, k: int| 0 <= i < all_expanded(t, e).len() && 0 <= k < all_expanded(t, e)[i].children.len() implies all_expanded(t, e)[i].children[k] > i by {
            assert(all_expanded(t, e)[i].children == t[i].children);
        }
        assert forall|i: int, k: int| 0 <= i < folded_to_level(t, max_depth).len() && 0 <= k < folded_to_level(t, max_depth)[i].children.len() implies folded_to_level(t, max_depth)[i].children[k] > i by {
            assert(folded_to_level(t, max_depth)[i].children == t[i].children);
        }
    }
}

/// Trees that differ only in fold flags are equal once fully unfolded.
pub proof fn lemma_expand_all_forgets_folds(s: Seq<NodeModel>, t: Seq<NodeModel>)
    requires
        same_but_folds(s, t),
    ensures
        all_expanded(s, true) == all_expanded(t, true),
{
    assert forall|i: int| 0 <= i < s.len() implies #[trigger] all_expanded(s, true)[i] == all_expanded(t, true)[i] by {
        assert(with_expanded(s[i], true) == with_expanded(t[i], true));
        assert(s[i].is_expandable == with_expanded(s[i], true).is_expandable);
        assert(t[i].is_expandable == with_expanded(t[i], true).is_expandable);
    }
    assert(all_expanded(s, true) =~= all_expanded(t, true));
}

/// A freshly built tree is fully unfolded: `expand_all` leaves it as it is.
pub proof fn lemma_fresh_tree_unfolded(v: JsonValue)
    ensures
        all_expanded(flatten(v, None, 0, Seq::empty(), false, 0), true) == flatten(v, None, 0, Seq::empty(), false, 0),
{
    let t = flatten(v, None, 0, Seq::empty(), false, 0);
    lemma_flatten_unfolded(v, None, 0, Seq::empty(), false, 0);
    assert forall|i: int| 0 <= i < t.len() implies #[trigger] all_expanded(t, true)[i] == t[i] by {
        if t[i].is_expandable {
            assert(t[i].is_expanded);
            assert(with_expanded(t[i], true) =~= t[i]);
        }
    }
    assert(all_expanded(t, true) =~= t);
}

/// With every container folded, the view shows the first row alone.
pub proof fn lemma_collapsed_shows_first_row(t: Seq<NodeModel>)
    requires
        t.len() > 0,
    ensures
        visible_at(all_expanded(t, false), 0) == seq![all_expanded(t, false)[0]],
{
}


// ---------------------------------------------------------------------------
// How the rows are linked
// ---------------------------------------------------------------------------

/// The rows `r` are numbered by position, the first having id `base`.
#[verifier::opaque]
pub open spec fn ids_from(r: Seq<NodeModel>, base: nat) -> bool {
    forall|j: int| 0 <= j < r.len() ==> #[trigger] r[j].id == base + j
}

/// Each member of a row of `r` (the first having id `base`) lies after it
/// among `r` and points back at it, one level deeper.
#[verifier::opaque]
pub open spec fn members_back(r: Seq<NodeModel>, base: nat) -> bool {
    forall|j: int, k: int|
        0 <= j < r.len() && 0 <= k < r[j].children.len() ==> {
            let c = #[trigger] r[j].children[k];
            &&& base + j < c < base + r.len()
            &&& r[c - base].parent == Some((base + j) as nat)
            &&& r[c - base].depth == r[j].depth + 1
        }
}

/// The members of each row of `r` are listed in increasing order.
#[verifier::opaque]
pub open spec fn members_increasing(r: Seq<NodeModel>) -> bool {
    forall|j: int, k1: int, k2: int|
        0 <= j < r.len() && 0 <= k1 < k2 < r[j].children.len() ==> #[trigger] r[j].children[k1]
            < #[trigger] r[j].children[k2]
}

/// The closing row of each row of `r` (the first having id `base`) lies
/// after it among `r` and points back at it, at its level.
#[verifier::opaque]
pub open spec fn closes_back(r: Seq<NodeModel>, base: nat) -> bool {
    forall|j: int|
        0 <= j < r.len() && (#[trigger] r[j].close_node_id) is Some ==> {
            let c = r[j].close_node_id->0;
            &&& base + j < c < base + r.len()
            &&& r[c - base].parent == Some((base + j) as nat)
            &&& r[c - base].depth == r[j].depth
        }
}

/// The rows `r`, the first of which has id `base`, are numbered by
/// position; each member of a row, in increasing order, lies after it and
/// points back at it one level deeper; its closing row lies after it and
/// points back at it at the same level.
pub open spec fn linked_from(r: Seq<NodeModel>, base: nat) -> bool {
    &&& ids_from(r, base)
    &&& members_back(r, base)
    &&& members_increasing(r)
    &&& closes_back(r, base)
}

/// The rows of a tree are linked (see [`linked_from`]), the first having id 0.
pub open spec fn linked(t: Seq<NodeModel>) -> bool {
    linked_from(t, 0)
}

proof fn lemma_ids_concat(a: Seq<NodeModel>, b: Seq<NodeModel>, base: nat)
    requires
        ids_from(a, base),
        ids_from(b, base + a.len()),
    ensures
        ids_from(a + b, base),
{
    reveal(ids_from);
    let r = a + b;
    assert forall|j: int| 0 <= j < r.len() implies #[trigger] r[j].id == base + j by {
        if j < a.len() {
            assert(r[j] == a[j]);
        } else {
            assert(r[j] == b[j - a.len()]);
        }
    }
}

proof fn lemma_members_back_concat(a: Seq<NodeModel>, b: Seq<NodeModel>, base: nat)
    requires
        members_back(a, base),
        members_back(b, base + a.len()),
    ensures
        members_back(a + b, base),
{
    reveal(members_back);
    let r = a + b;
    assert forall|j: int, k: int| 0 <= j < r.len() && 0 <= k < r[j].children.len() implies {
        let c = #[trigger] r[j].children[k];
        &&& base + j < c < base + r.len()
        &&& r[c - base].parent == Some((base + j) as nat)
        &&& r[c - base].depth == r[j].depth + 1
    } by {
        if j < a.len() {
            assert(r[j] == a[j]);
            let c = a[j].children[k];
            assert(r[c - base] == a[c - base]);
        } else {
            let jb = j - a.len();
            assert(r[j] == b[jb]);
            let c = b[jb].children[k];
            assert(r[c - base] == b[c - (base + a.len())]);
        }
    }
}

proof fn lemma_members_increasing_concat(a: Seq<NodeModel>, b: Seq<NodeModel>)
    requires
        members_increasing(a),
        members_increasing(b),
    ensures
        members_increasing(a + b),
{
    reveal(members_increasing);
    let r = a + b;
    assert forall|j: int, k1: int, k2: int| 0 <= j < r.len() && 0 <= k1 < k2 < r[j].children.len() implies #[trigger] r[j].children[k1]
        < #[trigger] r[j].children[k2] by {
        if j < a.len() {
            assert(r[j] == a[j]);
            assert(a[j].children[k1] < a[j].children[k2]);
        } else {
            assert(r[j] == b[j - a.len()]);
            assert(b[j - a.len()].children[k1] < b[j - a.len()].children[k2]);
        }
    }
}

proof fn lemma_closes_back_concat(a: Seq<NodeModel>, b: Seq<NodeModel>, base: nat)
    requires
        closes_back(a, base),
        closes_back(b, base + a.len()),
    ensures
        closes_back(a + b, base),
{
    reveal(closes_back);
    let r = a + b;
    assert forall|j: int| 0 <= j < r.len() && (#[trigger] r[j].close_node_id) is Some implies {
        let c = r[j].close_node_id->0;
        &&& base + j < c < base + r.len()
        &&& r[c - base].parent == Some((base + j) as nat)
        &&& r[c - base].depth == r[j].depth
    } by {
        if j < a.len() {
            assert(r[j] == a[j]);
            let c = a[j].close_node_id->0;
            assert(r[c - base] == a[c - base]);
        } else {
            let jb = j - a.len();
            assert(r[j] == b[jb]);
            assert(b[jb].close_node_id is Some);
            let c = b[jb].close_node_id->0;
            assert(r[c - base] == b[c - (base + a.len())]);
        }
    }
}

proof fn lemma_linked_concat(a: Seq<NodeModel>, b: Seq<NodeModel>, base: nat)
    requires
        linked_from(a, base),
        linked_from(b, base + a.len()),
    ensures
        linked_from(a + b, base),
{
    lemma_ids_concat(a, b, base);
    lemma_members_back_concat(a, b, base);
    lemma_members_increasing_concat(a, b);
    lemma_closes_back_concat(a, b, base);
}

/// A single row without members or closing row is linked.
proof fn lemma_leaf_linked(r: Seq<NodeModel>, base: nat)
    requires
        r.len() == 1,
        r[0].id == base,
        r[0].children.len() == 0,
        r[0].close_node_id is None,
    ensures
        linked_from(r, base),
{
    reveal(ids_from);
    reveal(members_back);
    reveal(members_increasing);
    reveal(closes_back);
}

/// The first row of a value's rows is the value's own, with the given
/// parent, depth and id.
proof fn lemma_flatten_first(v: JsonValue, parent: Option<nat>, depth: nat, key: Seq<char>, comma: bool, base: nat)
    ensures
        flatten(v, parent, depth, key, comma, base).len() == node_count(v) >= 1,
        flatten(v, parent, depth, key, comma, base)[0].id == base,
        flatten(v, parent, depth, key, comma, base)[0].parent == parent,
        flatten(v, parent, depth, key, comma, base)[0].depth == depth,
{
    lemma_flatten_len(v, parent, depth, key, comma, base);
}

/// Wherever a value's rows start (`base`), whatever its parent and depth,
/// they are linked (see [`linked_from`]).
pub proof fn lemma_flatten_linked(v: JsonValue, parent: Option<nat>, depth: nat, key: Seq<char>, comma: bool, base: nat)
    ensures
        linked_from(flatten(v, parent, depth, key, comma, base), base),
    decreases v,
{
    let rows = flatten(v, parent, depth, key, comma, base);
    match v {
        JsonValue::Object(es) => {
            if es@.len() > 0 {
                let fe = flatten_entries(es@, base, depth + 1, base + 1, es@.len());
                let close = base + 1 + entries_count(es@);
                let head = seq![open_row(base, parent, depth, key, NodeType::Object, seq!['{'], object_summary(es@.len()), comma, entry_ids(es@, base + 1), close)];
                let tail = seq![plain_row(close, Some(base), depth, Seq::empty(), NodeType::CloseBrace, seq!['}'], Seq::empty(), false, comma)];
                lemma_entries_linked(es@, base, depth + 1, base + 1, es@.len());
                lemma_entries_len(es@, base, depth + 1, base + 1, es@.len());
                lemma_leaf_linked(tail, base + 1 + fe.len());
                lemma_linked_concat(fe, tail, base + 1);
                let rest = fe + tail;
                assert forall|k: int| 0 <= k < head[0].children.len() implies {
                    let c = #[trigger] head[0].children[k];
                    &&& base < c < base + 1 + rest.len()
                    &&& rest[c - base - 1].parent == Some(base)
                    &&& rest[c - base - 1].depth == head[0].depth + 1
                } by {
                    let c = entry_ids(es@, base + 1)[k];
                    assert(rest[c - base - 1] == fe[c - (base + 1)]);
                }
                assert(rest[close - base - 1] == tail[0]);
                lemma_head_linked(head, rest, base);
                assert(rows =~= head + rest);
            } else {
                lemma_leaf_linked(rows, base);
            }
        },
        JsonValue::Array(xs) => {
            if xs@.len() > 0 {
                let fi = flatten_items(xs@, base, depth + 1, base + 1, xs@.len());
                let close = base + 1 + items_count(xs@);
                let head = seq![open_row(base, parent, depth, key, NodeType::Array, seq!['['], array_summary(xs@.len()), comma, item_ids(xs@, base + 1), close)];
                let tail = seq![plain_row(close, Some(base), depth, Seq::empty(), NodeType::CloseBracket, seq![']'], Seq::empty(), false, comma)];
                lemma_items_linked(xs@, base, depth + 1, base + 1, xs@.len());
                lemma_items_len(xs@, base, depth + 1, base + 1, xs@.len());
                lemma_leaf_linked(tail, base + 1 + fi.len());
                lemma_linked_concat(fi, tail, base + 1);
                let rest = fi + tail;
                assert forall|k: int| 0 <= k < head[0].children.len() implies {
                    let c = #[trigger] head[0].children[k];
                    &&& base < c < base + 1 + rest.len()
                    &&& rest[c - base - 1].parent == Some(base)
                    &&& rest[c - base - 1].depth == head[0].depth + 1
                } by {
                    let c = item_ids(xs@, base + 1)[k];
                    assert(rest[c - base - 1] == fi[c - (base + 1)]);
                }
                assert(rest[close - base - 1] == tail[0]);
                lemma_head_linked(head, rest, base);
                assert(rows =~= head + rest);
            } else {
                lemma_leaf_linked(rows, base);
            }
        },
        _ => {
            lemma_leaf_linked(rows, base);
        },
    }
}

/// A container's opening row in front of linked rows whose members and
/// closing row it points at.
proof fn lemma_head_linked(head: Seq<NodeModel>, rest: Seq<NodeModel>, base: nat)
    requires
        head.len() == 1,
        head[0].id == base,
        linked_from(rest, base + 1),
        forall|k: int| 0 <= k < head[0].children.len() ==> {
            let c = #[trigger] head[0].children[k];
            &&& base < c < base + 1 + rest.len()
            &&& rest[c - base - 1].parent == Some(base)
            &&& rest[c - base - 1].depth == head[0].depth + 1
        },
        forall|k1: int, k2: int| 0 <= k1 < k2 < head[0].children.len() ==> #[trigger] head[0].children[k1]
            < #[trigger] head[0].children[k2],
        head[0].close_node_id is Some,
        ({
            let c = head[0].close_node_id->0;
            &&& base < c < base + 1 + rest.len()
            &&& rest[c - base - 1].parent == Some(base)
            &&& rest[c - base - 1].depth == head[0].depth
        }),
    ensures
        linked_from(head + rest, base),
{
    let r = head + rest;
    assert(r[0] == head[0]);
    assert(ids_from(r, base)) by {
        reveal(ids_from);
        assert forall|j: int| 0 <= j < r.len() implies #[trigger] r[j].id == base + j by {
            if j >= 1 {
                assert(r[j] == rest[j - 1]);
            }
        }
    }
    assert(members_back(r, base)) by {
        reveal(members_back);
        assert forall|j: int, k: int| 0 <= j < r.len() && 0 <= k < r[j].children.len() implies {
            let c = #[trigger] r[j].children[k];
            &&& base + j < c < base + r.len()
            &&& r[c - base].parent == Some((base + j) as nat)
            &&& r[c - base].depth == r[j].depth + 1
        } by {
            if j == 0 {
                let c = head[0].children[k];
                assert(r[c - base] == rest[c - base - 1]);
            } else {
                assert(r[j] == rest[j - 1]);
                let c = rest[j - 1].children[k];
                assert(r[c - base] == rest[c - (base + 1)]);
            }
        }
    }
    assert(members_increasing(r)) by {
        reveal(members_increasing);
        assert forall|j: int, k1: int, k2: int| 0 <= j < r.len() && 0 <= k1 < k2 < r[j].children.len() implies #[trigger] r[j].children[k1]
            < #[trigger] r[j].children[k2] by {
            if j >= 1 {
                assert(r[j] == rest[j - 1]);
                assert(rest[j - 1].children[k1] < rest[j - 1].children[k2]);
            } else {
                assert(head[0].children[k1] < head[0].children[k2]);
            }
        }
    }
    assert(closes_back(r, base)) by {
        reveal(closes_back);
        assert forall|j: int| 0 <= j < r.len() && (#[trigger] r[j].close_node_id) is Some implies {
            let c = r[j].close_node_id->0;
            &&& base + j < c < base + r.len()
            &&& r[c - base].parent == Some((base + j) as nat)
            &&& r[c - base].depth == r[j].depth
        } by {
            if j == 0 {
                let c = head[0].close_node_id->0;
                assert(r[c - base] == rest[c - base - 1]);
            } else {
                assert(r[j] == rest[j - 1]);
                assert(rest[j - 1].close_node_id is Some);
                let c = rest[j - 1].close_node_id->0;
                assert(r[c - base] == rest[c - (base + 1)]);
            }
        }
    }
}

proof fn lemma_entries_linked(es: Seq<(String, JsonValue)>, parent: nat, depth: nat, base: nat, total: nat)
    ensures
        linked_from(flatten_entries(es, parent, depth, base, total), base),
        entry_ids(es, base).len() == es.len(),
        forall|k: int| 0 <= k < es.len() ==> {
            let c = #[trigger] entry_ids(es, base)[k];
            &&& base <= c < base + entries_count(es)
            &&& flatten_entries(es, parent, depth, base, total)[c - base].parent == Some(parent)
            &&& flatten_entries(es, parent, depth, base, total)[c - base].depth == depth
        },
        forall|k1: int, k2: int| 0 <= k1 < k2 < es.len() ==> #[trigger] entry_ids(es, base)[k1]
            < #[trigger] entry_ids(es, base)[k2],
    decreases es,
{
    lemma_entry_ids_bound(es, base);
    if es.len() > 0 {
        let prev = es.drop_last();
        let b = base + entries_count(prev);
        let k = member_key(es.last().0@);
        let c = prev.len() + 1 < total;
        let fp = flatten_entries(prev, parent, depth, base, total);
        let fl = flatten(es.last().1, Some(parent), depth, k, c, b);
        let whole = flatten_entries(es, parent, depth, base, total);
        let ids = entry_ids(es, base);
        lemma_entries_linked(prev, parent, depth, base, total);
        lemma_entries_len(prev, parent, depth, base, total);
        lemma_flatten_linked(es.last().1, Some(parent), depth, k, c, b);
        lemma_flatten_first(es.last().1, Some(parent), depth, k, c, b);
        lemma_linked_concat(fp, fl, base);
        assert(whole == fp + fl);
        assert(ids.drop_last() =~= entry_ids(prev, base));
        assert(ids.last() == b);
        assert forall|k: int| 0 <= k < es.len() implies {
            let x = #[trigger] entry_ids(es, base)[k];
            &&& base <= x < base + entries_count(es)
            &&& whole[x - base].parent == Some(parent)
            &&& whole[x - base].depth == depth
        } by {
            if k < prev.len() {
                assert(ids[k] == entry_ids(prev, base)[k]);
                assert(whole[ids[k] - base] == fp[ids[k] - base]);
            } else {
                assert(whole[b - base] == fl[0]);
            }
        }
        assert forall|k1: int, k2: int| 0 <= k1 < k2 < es.len() implies #[trigger] entry_ids(es, base)[k1]
            < #[trigger] entry_ids(es, base)[k2] by {
            assert(ids[k1] == entry_ids(prev, base)[k1]);
            if k2 < prev.len() {
                assert(ids[k2] == entry_ids(prev, base)[k2]);
                assert(entry_ids(prev, base)[k1] < entry_ids(prev, base)[k2]);
            }
        }
    } else {
        assert(flatten_entries(es, parent, depth, base, total) =~= Seq::empty());
        reveal(ids_from);
        reveal(members_back);
        reveal(members_increasing);
        reveal(closes_back);
    }
}

proof fn lemma_items_linked(xs: Seq<JsonValue>, parent: nat, depth: nat, base: nat, total: nat)
    ensures
        linked_from(flatten_items(xs, parent, depth, base, total), base),
        item_ids(xs, base).len() == xs.len(),
        forall|k: int| 0 <= k < xs.len() ==> {
            let c = #[trigger] item_ids(xs, base)[k];
            &&& base <= c < base + items_count(xs)
            &&& flatten_items(xs, parent, depth, base, total)[c - base].parent == Some(parent)
            &&& flatten_items(xs, parent, depth, base, total)[c - base].depth == depth
        },
        forall|k1: int, k2: int| 0 <= k1 < k2 < xs.len() ==> #[trigger] item_ids(xs, base)[k1]
            < #[trigger] item_ids(xs, base)[k2],
    decreases xs,
{
    lemma_item_ids_bound(xs, base);
    if xs.len() > 0 {
        let prev = xs.drop_last();
        let b = base + items_count(prev);
        let k = element_key(prev.len());
        let c = prev.len() + 1 < total;
        let fp = flatten_items(prev, parent, depth, base, total);
        let fl = flatten(xs.last(), Some(parent), depth, k, c, b);
        let whole = flatten_items(xs, parent, depth, base, total);
        let ids = item_ids(xs, base);
        lemma_items_linked(prev, parent, depth, base, total);
        lemma_items_len(prev, parent, depth, base, total);
        lemma_flatten_linked(xs.last(), Some(parent), depth, k, c, b);
        lemma_flatten_first(xs.last(), Some(parent), depth, k, c, b);
        lemma_linked_concat(fp, fl, base);
        assert(whole == fp + fl);
        assert(ids.drop_last() =~= item_ids(prev, base));
        assert(ids.last() == b);
        assert forall|k: int| 0 <= k < xs.len() implies {
            let x = #[trigger] item_ids(xs, base)[k];
            &&& base <= x < base + items_count(xs)
            &&& whole[x - base].parent == Some(parent)
            &&& whole[x - base].depth == depth
        } by {
            if k < prev.len() {
                assert(ids[k] == item_ids(prev, base)[k]);
                assert(whole[ids[k] - base] == fp[ids[k] - base]);
            } else {
                assert(whole[b - base] == fl[0]);
            }
        }
        assert forall|k1: int, k2: int| 0 <= k1 < k2 < xs.len() implies #[trigger] item_ids(xs, base)[k1]
            < #[trigger] item_ids(xs, base)[k2] by {
            assert(ids[k1] == item_ids(prev, base)[k1]);
            if k2 < prev.len() {
                assert(ids[k2] == item_ids(prev, base)[k2]);
                assert(item_ids(prev, base)[k1] < item_ids(prev, base)[k2]);
            }
        }
    } else {
        assert(flatten_items(xs, parent, depth, base, total) =~= Seq::empty());
        reveal(ids_from);
        reveal(members_back);
        reveal(members_increasing);
        reveal(closes_back);
    }
}

/// The tree built from a value is linked: row `i` has id `i`; the members
/// of a container follow it in increasing order, each pointing back at it
/// one level deeper; its closing row follows them, pointing back at it at
/// its own level.
pub proof fn lemma_from_value_linked(v: JsonValue)
    ensures
        linked(flatten(v, None, 0, Seq::empty(), false, 0)),
{
    lemma_flatten_linked(v, None, 0, Seq::empty(), false, 0);
}


// ---------------------------------------------------------------------------
// Which rows the view shows
// ---------------------------------------------------------------------------

/// Whether every container on the way up from row `i` to row `root`, `i`
/// itself left out, is unfolded; `false` where the way up leaves the rows
/// from `root` on.
pub open spec fn shown_from(t: Seq<NodeModel>, root: int, i: int) -> bool
    decreases i - root,
{
    if i == root {
        true
    } else if root < i < t.len() && t[i].parent is Some && root <= t[i].parent->0 < i {
        let p = t[i].parent->0 as int;
        t[p].is_expanded && shown_from(t, root, p)
    } else {
        false
    }
}

/// The rows with index in `[lo, hi)` that are shown from row `root`, in order.
pub open spec fn shown_rows(t: Seq<NodeModel>, root: int, lo: int, hi: int) -> Seq<NodeModel>
    decreases hi - lo,
{
    if hi <= lo {
        Seq::empty()
    } else {
        shown_rows(t, root, lo, hi - 1) + (if shown_from(t, root, hi - 1) { seq![t[hi - 1]] } else { Seq::empty() })
    }
}

proof fn lemma_shown_rows_split(t: Seq<NodeModel>, root: int, lo: int, mid: int, hi: int)
    requires
        lo <= mid <= hi,
    ensures
        shown_rows(t, root, lo, hi) == shown_rows(t, root, lo, mid) + shown_rows(t, root, mid, hi),
    decreases hi - mid,
{
    if hi == mid {
        assert(shown_rows(t, root, mid, hi) =~= Seq::empty());
        assert(shown_rows(t, root, lo, mid) + Seq::empty() =~= shown_rows(t, root, lo, mid));
    } else {
        lemma_shown_rows_split(t, root, lo, mid, hi - 1);
        let tail = if shown_from(t, root, hi - 1) { seq![t[hi - 1]] } else { Seq::<NodeModel>::empty() };
        assert(shown_rows(t, root, lo, mid) + shown_rows(t, root, mid, hi - 1) + tail
            =~= shown_rows(t, root, lo, mid) + (shown_rows(t, root, mid, hi - 1) + tail));
    }
}

proof fn lemma_shown_rows_same(t: Seq<NodeModel>, r1: int, r2: int, lo: int, hi: int)
    requires
        forall|i: int| lo <= i < hi ==> shown_from(t, r1, i) == shown_from(t, r2, i),
    ensures
        shown_rows(t, r1, lo, hi) == shown_rows(t, r2, lo, hi),
    decreases hi - lo,
{
    if hi > lo {
        lemma_shown_rows_same(t, r1, r2, lo, hi - 1);
        assert(shown_from(t, r1, hi - 1) == shown_from(t, r2, hi - 1));
    }
}

proof fn lemma_shown_rows_none(t: Seq<NodeModel>, root: int, lo: int, hi: int)
    requires
        forall|i: int| lo <= i < hi ==> !shown_from(t, root, i),
    ensures
        shown_rows(t, root, lo, hi) == Seq::<NodeModel>::empty(),
    decreases hi - lo,
{
    if hi > lo {
        lemma_shown_rows_none(t, root, lo, hi - 1);
        assert(!shown_from(t, root, hi - 1));
        assert(shown_rows(t, root, lo, hi) =~= Seq::<NodeModel>::empty());
    }
}

proof fn lemma_shown_rows_one(t: Seq<NodeModel>, root: int, i: int)
    ensures
        shown_rows(t, root, i, i + 1) == (if shown_from(t, root, i) { seq![t[i]] } else { Seq::<NodeModel>::empty() }),
{
    assert(shown_rows(t, root, i, i) =~= Seq::<NodeModel>::empty());
    assert(shown_rows(t, root, i, i + 1) =~= Seq::<NodeModel>::empty() + (if shown_from(t, root, i) { seq![t[i]] } else { Seq::<NodeModel>::empty() }));
}

/// Every row after the first of `r` (whose first row has id `base`) has a
/// parent among the rows before it.
pub open spec fn parents_within(r: Seq<NodeModel>, base: int) -> bool {
    forall|j: int| 0 < j < r.len() ==> (#[trigger] r[j].parent) is Some && base <= r[j].parent->0 < base + j
}

/// Every row of `r` (whose first row has id `base`) has parent `top` or a
/// parent among the rows before it.
pub open spec fn parents_in(r: Seq<NodeModel>, base: int, top: nat) -> bool {
    forall|j: int| 0 <= j < r.len() ==> (#[trigger] r[j].parent) is Some && (r[j].parent->0 == top || base
        <= r[j].parent->0 < base + j)
}

proof fn lemma_flatten_parents(v: JsonValue, parent: Option<nat>, depth: nat, key: Seq<char>, comma: bool, base: nat)
    ensures
        parents_within(flatten(v, parent, depth, key, comma, base), base as int),
    decreases v,
{
    let rows = flatten(v, parent, depth, key, comma, base);
    match v {
        JsonValue::Object(es) => {
            if es@.len() > 0 {
                let fe = flatten_entries(es@, base, depth + 1, base + 1, es@.len());
                lemma_entries_parents(es@, base, depth + 1, base + 1, es@.len());
                lemma_entries_len(es@, base, depth + 1, base + 1, es@.len());
                assert forall|j: int| 0 < j < rows.len() implies (#[trigger] rows[j].parent) is Some && base <= rows[j].parent->0 < base + j by {
                    if j <= fe.len() {
                        assert(rows[j] == fe[j - 1]);
                    }
                }
            }
        },
        JsonValue::Array(xs) => {
            if xs@.len() > 0 {
                let fi = flatten_items(xs@, base, depth + 1, base + 1, xs@.len());
                lemma_items_parents(xs@, base, depth + 1, base + 1, xs@.len());
                lemma_items_len(xs@, base, depth + 1, base + 1, xs@.len());
                assert forall|j: int| 0 < j < rows.len() implies (#[trigger] rows[j].parent) is Some && base <= rows[j].parent->0 < base + j by {
                    if j <= fi.len() {
                        assert(rows[j] == fi[j - 1]);
                    }
                }
            }
        },
        _ => {},
    }
}

proof fn lemma_entries_parents(es: Seq<(String, JsonValue)>, parent: nat, depth: nat, base: nat, total: nat)
    ensures
        parents_in(flatten_entries(es, parent, depth, base, total), base as int, parent),
    decreases es,
{
    if es.len() > 0 {
        let prev = es.drop_last();
        let b = base + entries_count(prev);
        let k = member_key(es.last().0@);
        let c = prev.len() + 1 < total;
        let fp = flatten_entries(prev, parent, depth, base, total);
        let fl = flatten(es.last().1, Some(parent), depth, k, c, b);
        let whole = flatten_entries(es, parent, depth, base, total);
        lemma_entries_parents(prev, parent, depth, base, total);
        lemma_entries_len(prev, parent, depth, base, total);
        lemma_flatten_parents(es.last().1, Some(parent), depth, k, c, b);
        lemma_flatten_first(es.last().1, Some(parent), depth, k, c, b);
        assert(whole == fp + fl);
        assert forall|j: int| 0 <= j < whole.len() implies (#[trigger] whole[j].parent) is Some && (whole[j].parent->0 == parent
            || base <= whole[j].parent->0 < base + j) by {
            if j < fp.len() {
                assert(whole[j] == fp[j]);
            } else {
                assert(whole[j] == fl[j - fp.len()]);
            }
        }
    }
}

proof fn lemma_items_parents(xs: Seq<JsonValue>, parent: nat, depth: nat, base: nat, total: nat)
    ensures
        parents_in(flatten_items(xs, parent, depth, base, total), base as int, parent),
    decreases xs,
{
    if xs.len() > 0 {
        let prev = xs.drop_last();
        let b = base + items_count(prev);
        let k = element_key(prev.len());
        let c = prev.len() + 1 < total;
        let fp = flatten_items(prev, parent, depth, base, total);
        let fl = flatten(xs.last(), Some(parent), depth, k, c, b);
        let whole = flatten_items(xs, parent, depth, base, total);
        lemma_items_parents(prev, parent, depth, base, total);
        lemma_items_len(prev, parent, depth, base, total);
        lemma_flatten_parents(xs.last(), Some(parent), depth, k, c, b);
        lemma_flatten_first(xs.last(), Some(parent), depth, k, c, b);
        assert(whole == fp + fl);
        assert forall|j: int| 0 <= j < whole.len() implies (#[trigger] whole[j].parent) is Some && (whole[j].parent->0 == parent
            || base <= whole[j].parent->0 < base + j) by {
            if j < fp.len() {
                assert(whole[j] == fp[j]);
            } else {
                assert(whole[j] == fl[j - fp.len()]);
            }
        }
    }
}

proof fn lemma_sbf_at(t: Seq<NodeModel>, lo: int, hi: int, f: Seq<NodeModel>, j: int)
    requires
        0 <= lo <= hi <= t.len(),
        same_but_folds(t.subrange(lo, hi), f),
        0 <= j < f.len(),
    ensures
        t[lo + j].parent == f[j].parent,
        t[lo + j].children == f[j].children,
        t[lo + j].close_node_id == f[j].close_node_id,
        t[lo + j].is_expandable == f[j].is_expandable,
        !f[j].is_expandable ==> t[lo + j] == f[j],
{
    let s = t.subrange(lo, hi);
    assert(s[j] == t[lo + j]);
    assert(with_expanded(s[j], true) == with_expanded(f[j], true));
    assert(with_expanded(s[j], true).parent == s[j].parent);
    assert(with_expanded(f[j], true).parent == f[j].parent);
    assert(with_expanded(s[j], true).children == s[j].children);
    assert(with_expanded(f[j], true).children == f[j].children);
    assert(with_expanded(s[j], true).close_node_id == s[j].close_node_id);
    assert(with_expanded(f[j], true).close_node_id == f[j].close_node_id);
    assert(with_expanded(s[j], true).is_expandable == s[j].is_expandable);
    assert(with_expanded(f[j], true).is_expandable == f[j].is_expandable);
}

proof fn lemma_sbf_sub(t: Seq<NodeModel>, lo: int, hi: int, f: Seq<NodeModel>, a: int, b: int)
    requires
        0 <= lo <= hi <= t.len(),
        same_but_folds(t.subrange(lo, hi), f),
        0 <= a <= b <= f.len(),
    ensures
        same_but_folds(t.subrange(lo + a, lo + b), f.subrange(a, b)),
{
    let s = t.subrange(lo, hi);
    let s2 = t.subrange(lo + a, lo + b);
    let f2 = f.subrange(a, b);
    assert forall|i: int| 0 <= i < s2.len() implies with_expanded(#[trigger] s2[i], true) == with_expanded(f2[i], true) by {
        assert(s2[i] == s[a + i]);
        assert(f2[i] == f[a + i]);
    }
    assert forall|i: int| 0 <= i < s2.len() && !(#[trigger] s2[i]).is_expandable implies s2[i] == f2[i] by {
        assert(s2[i] == s[a + i]);
        assert(f2[i] == f[a + i]);
    }
}

/// Below a row `m` whose parent is `base`, and whose subtree's rows point
/// inside it, a row is shown from `base` exactly when `base` is unfolded and
/// the row is shown from `m`.
proof fn lemma_chain(t: Seq<NodeModel>, base: int, m: int, n: int, i: int)
    requires
        0 <= base < m,
        m <= i < (m + n) as int,
        (m + n) as int <= t.len(),
        t[m].parent == Some(base as nat),
        forall|j: int| m < j < (m + n) as int ==> (#[trigger] t[j].parent) is Some && m <= t[j].parent->0 < j,
    ensures
        shown_from(t, base, i) == (t[base].is_expanded && shown_from(t, m, i)),
    decreases i - m,
{
    assert(shown_from(t, base, base));
    assert(shown_from(t, m, m));
    if i > m {
        assert(t[i].parent is Some);
        let p = t[i].parent->0 as int;
        lemma_chain(t, base, m, n, p);
        assert(shown_from(t, base, i) == (t[p].is_expanded && shown_from(t, base, p)));
        assert(shown_from(t, m, i) == (t[p].is_expanded && shown_from(t, m, p)));
    } else {
        assert(shown_from(t, base, m) == (t[base].is_expanded && shown_from(t, base, base)));
    }
}

/// The subtree of a member at `m`, `n` rows long, as its value's rows lie
/// there: the member points at `parent`, the rows below it inside.
proof fn lemma_member_chain(t: Seq<NodeModel>, parent: nat, m: nat, n: nat, f: Seq<NodeModel>)
    requires
        parent < m,
        (m + n) as int <= t.len(),
        f.len() == n,
        n >= 1,
        same_but_folds(t.subrange(m as int, (m + n) as int), f),
        f[0].parent == Some(parent),
        parents_within(f, m as int),
    ensures
        forall|i: int| m <= i < (m + n) as int ==> shown_from(t, parent as int, i) == (t[parent as int].is_expanded && shown_from(t, m as int, i)),
{
    lemma_sbf_at(t, m as int, (m + n) as int, f, 0);
    assert forall|j: int| m < j < (m + n) as int implies (#[trigger] t[j].parent) is Some && m <= t[j].parent->0 < j by {
        lemma_sbf_at(t, m as int, (m + n) as int, f, j - m);
        assert(f[j - m].parent is Some);
    }
    assert forall|i: int| m <= i < (m + n) as int implies shown_from(t, parent as int, i) == (t[parent as int].is_expanded && shown_from(t, m as int, i)) by {
        lemma_chain(t, parent as int, m as int, n as int, i);
    }
}

proof fn lemma_visible_shown(t: Seq<NodeModel>, v: JsonValue, parent: Option<nat>, depth: nat, key: Seq<char>, comma: bool, base: nat)
    requires
        (base + node_count(v)) as int <= t.len(),
        same_but_folds(t.subrange(base as int, (base + node_count(v)) as int), flatten(v, parent, depth, key, comma, base)),
    ensures
        visible_at(t, base) == shown_rows(t, base as int, base as int, (base + node_count(v)) as int),
    decreases v,
{
    let f = flatten(v, parent, depth, key, comma, base);
    let n = node_count(v);
    lemma_flatten_first(v, parent, depth, key, comma, base);
    lemma_sbf_at(t, base as int, ((base + n) as int) as int, f, 0);
    match v {
        JsonValue::Object(es) => {
            if es@.len() > 0 {
                let ec = entries_count(es@);
                let fe = flatten_entries(es@, base, depth + 1, base + 1, es@.len());
                let close = base + 1 + ec;
                lemma_entries_len(es@, base, depth + 1, base + 1, es@.len());
                assert(f.subrange(1, 1 + ec as int) =~= fe);
                lemma_sbf_sub(t, base as int, ((base + n) as int) as int, f, 1, (1 + ec) as int);
                lemma_sbf_at(t, base as int, ((base + n) as int) as int, f, (1 + ec) as int);
                assert(t[close as int].parent == Some(base));
                lemma_visible_entries_shown(t, es@, base, depth + 1, base + 1, es@.len());
                lemma_shown_rows_split(t, base as int, base as int, (base + 1) as int, (base + n) as int);
                lemma_shown_rows_split(t, base as int, (base + 1) as int, close as int, (base + n) as int);
                lemma_shown_rows_one(t, base as int, base as int);
                lemma_shown_rows_one(t, base as int, close as int);
                if t[base as int].is_expanded {
                    assert(visible_at(t, base) =~= shown_rows(t, base as int, base as int, (base + n) as int));
                } else {
                    assert(visible_at(t, base) =~= shown_rows(t, base as int, base as int, (base + n) as int));
                }
            } else {
                lemma_shown_rows_one(t, base as int, base as int);
            }
        },
        JsonValue::Array(xs) => {
            if xs@.len() > 0 {
                let ic = items_count(xs@);
                let fi = flatten_items(xs@, base, depth + 1, base + 1, xs@.len());
                let close = base + 1 + ic;
                lemma_items_len(xs@, base, depth + 1, base + 1, xs@.len());
                assert(f.subrange(1, 1 + ic as int) =~= fi);
                lemma_sbf_sub(t, base as int, ((base + n) as int) as int, f, 1, (1 + ic) as int);
                lemma_sbf_at(t, base as int, ((base + n) as int) as int, f, (1 + ic) as int);
                assert(t[close as int].parent == Some(base));
                lemma_visible_items_shown(t, xs@, base, depth + 1, base + 1, xs@.len());
                lemma_shown_rows_split(t, base as int, base as int, (base + 1) as int, (base + n) as int);
                lemma_shown_rows_split(t, base as int, (base + 1) as int, close as int, (base + n) as int);
                lemma_shown_rows_one(t, base as int, base as int);
                lemma_shown_rows_one(t, base as int, close as int);
                if t[base as int].is_expanded {
                    assert(visible_at(t, base) =~= shown_rows(t, base as int, base as int, (base + n) as int));
                } else {
                    assert(visible_at(t, base) =~= shown_rows(t, base as int, base as int, (base + n) as int));
                }
            } else {
                lemma_shown_rows_one(t, base as int, base as int);
            }
        },
        _ => {
            lemma_shown_rows_one(t, base as int, base as int);
        },
    }
}

proof fn lemma_visible_entries_shown(t: Seq<NodeModel>, es: Seq<(String, JsonValue)>, parent: nat, depth: nat, base: nat, total: nat)
    requires
        parent < base,
        base + entries_count(es) <= t.len(),
        same_but_folds(t.subrange(base as int, (base + entries_count(es)) as int), flatten_entries(es, parent, depth, base, total)),
    ensures
        t[parent as int].is_expanded ==> visible_members(t, parent, entry_ids(es, base)) == shown_rows(t, parent as int, base as int, (base + entries_count(es)) as int),
        !t[parent as int].is_expanded ==> shown_rows(t, parent as int, base as int, (base + entries_count(es)) as int) == Seq::<NodeModel>::empty(),
    decreases es,
{
    let ec = entries_count(es);
    if es.len() > 0 {
        let prev = es.drop_last();
        let b = base + entries_count(prev);
        let k = member_key(es.last().0@);
        let c = prev.len() + 1 < total;
        let nm = node_count(es.last().1);
        let fp = flatten_entries(prev, parent, depth, base, total);
        let fl = flatten(es.last().1, Some(parent), depth, k, c, b);
        let whole = flatten_entries(es, parent, depth, base, total);
        lemma_entries_len(prev, parent, depth, base, total);
        lemma_flatten_first(es.last().1, Some(parent), depth, k, c, b);
        lemma_flatten_parents(es.last().1, Some(parent), depth, k, c, b);
        assert(whole == fp + fl);
        assert(whole.subrange(0, fp.len() as int) =~= fp);
        assert(whole.subrange(fp.len() as int, whole.len() as int) =~= fl);
        lemma_entries_len(es, parent, depth, base, total);
        lemma_sbf_sub(t, base as int, (base + ec) as int, whole, 0, fp.len() as int);
        lemma_sbf_sub(t, base as int, (base + ec) as int, whole, fp.len() as int, whole.len() as int);
        lemma_visible_entries_shown(t, prev, parent, depth, base, total);
        lemma_visible_shown(t, es.last().1, Some(parent), depth, k, c, b);
        lemma_member_chain(t, parent, b, nm, fl);
        lemma_shown_rows_split(t, parent as int, base as int, b as int, (base + ec) as int);
        let ids = entry_ids(es, base);
        assert(ids.drop_last() =~= entry_ids(prev, base));
        assert(ids.last() == b);
        if t[parent as int].is_expanded {
            lemma_shown_rows_same(t, parent as int, b as int, b as int, (b + nm) as int);
        } else {
            lemma_shown_rows_none(t, parent as int, b as int, (b + nm) as int);
            assert(shown_rows(t, parent as int, base as int, (base + ec) as int) =~= Seq::<NodeModel>::empty());
        }
    } else {
        assert(shown_rows(t, parent as int, base as int, (base + ec) as int) =~= Seq::<NodeModel>::empty());
    }
}

proof fn lemma_visible_items_shown(t: Seq<NodeModel>, xs: Seq<JsonValue>, parent: nat, depth: nat, base: nat, total: nat)
    requires
        parent < base,
        base + items_count(xs) <= t.len(),
        same_but_folds(t.subrange(base as int, (base + items_count(xs)) as int), flatten_items(xs, parent, depth, base, total)),
    ensures
        t[parent as int].is_expanded ==> visible_members(t, parent, item_ids(xs, base)) == shown_rows(t, parent as int, base as int, (base + items_count(xs)) as int),
        !t[parent as int].is_expanded ==> shown_rows(t, parent as int, base as int, (base + items_count(xs)) as int) == Seq::<NodeModel>::empty(),
    decreases xs,
{
    let ic = items_count(xs);
    if xs.len() > 0 {
        let prev = xs.drop_last();
        let b = base + items_count(prev);
        let k = element_key(prev.len());
        let c = prev.len() + 1 < total;
        let nm = node_count(xs.last());
        let fp = flatten_items(prev, parent, depth, base, total);
        let fl = flatten(xs.last(), Some(parent), depth, k, c, b);
        let whole = flatten_items(xs, parent, depth, base, total);
        lemma_items_len(prev, parent, depth, base, total);
        lemma_flatten_first(xs.last(), Some(parent), depth, k, c, b);
        lemma_flatten_parents(xs.last(), Some(parent), depth, k, c, b);
        assert(whole == fp + fl);
        assert(whole.subrange(0, fp.len() as int) =~= fp);
        assert(whole.subrange(fp.len() as int, whole.len() as int) =~= fl);
        lemma_items_len(xs, parent, depth, base, total);
        lemma_sbf_sub(t, base as int, (base + ic) as int, whole, 0, fp.len() as int);
        lemma_sbf_sub(t, base as int, (base + ic) as int, whole, fp.len() as int, whole.len() as int);
        lemma_visible_items_shown(t, prev, parent, depth, base, total);
        lemma_visible_shown(t, xs.last(), Some(parent), depth, k, c, b);
        lemma_member_chain(t, parent, b, nm, fl);
        lemma_shown_rows_split(t, parent as int, base as int, b as int, (base + ic) as int);
        let ids = item_ids(xs, base);
        assert(ids.drop_last() =~= item_ids(prev, base));
        assert(ids.last() == b);
        if t[parent as int].is_expanded {
            lemma_shown_rows_same(t, parent as int, b as int, b as int, (b + nm) as int);
        } else {
            lemma_shown_rows_none(t, parent as int, b as int, (b + nm) as int);
            assert(shown_rows(t, parent as int, base as int, (base + ic) as int) =~= Seq::<NodeModel>::empty());
        }
    } else {
        assert(shown_rows(t, parent as int, base as int, (base + ic) as int) =~= Seq::<NodeModel>::empty());
    }
}

/// Fold changes compose: two trees that each differ from a third only in
/// fold flags differ from each other only in fold flags.
pub proof fn lemma_same_but_folds_trans(r: Seq<NodeModel>, s: Seq<NodeModel>, t: Seq<NodeModel>)
    requires
        same_but_folds(r, s),
        same_but_folds(s, t),
    ensures
        same_but_folds(r, t),
{
    assert forall|i: int| 0 <= i < r.len() && !(#[trigger] r[i]).is_expandable implies r[i] == t[i] by {
        assert(with_expanded(r[i], true) == with_expanded(s[i], true));
        assert(with_expanded(r[i], true).is_expandable == r[i].is_expandable);
        assert(with_expanded(s[i], true).is_expandable == s[i].is_expandable);
    }
}

/// Whatever has been folded or unfolded since the tree was built from a
/// value, the view shows exactly the rows whose containers, up to the first
/// row, are all unfolded, in order.
pub proof fn lemma_visible_rows_have_unfolded_containers(v: JsonValue, t: Seq<NodeModel>)
    requires
        same_but_folds(flatten(v, None, 0, Seq::empty(), false, 0), t),
    ensures
        visible_at(t, 0) == shown_rows(t, 0, 0, t.len() as int),
{
    let f = flatten(v, None, 0, Seq::empty(), false, 0);
    lemma_flatten_len(v, None, 0, Seq::empty(), false, 0);
    assert(t.subrange(0, t.len() as int) =~= t);
    assert forall|i: int| 0 <= i < t.len() implies with_expanded(#[trigger] t.subrange(0, t.len() as int)[i], true) == with_expanded(f[i], true) by {
        assert(with_expanded(f[i], true) == with_expanded(t[i], true));
    }
    assert forall|i: int| 0 <= i < t.len() && !(#[trigger] t.subrange(0, t.len() as int)[i]).is_expandable implies t.subrange(0, t.len() as int)[i] == f[i] by {
        assert(with_expanded(f[i], true) == with_expanded(t[i], true));
        assert(with_expanded(f[i], true).is_expandable == f[i].is_expandable);
        assert(with_expanded(t[i], true).is_expandable == t[i].is_expandable);
    }
    lemma_visible_shown(t, v, None, 0, Seq::empty(), false, 0);
}


// ---------------------------------------------------------------------------
// Closing rows end their subtrees
// ---------------------------------------------------------------------------

/// Every row of `r` after row `j` up to row `k` has a parent between row `j`
/// and itself: all of them descend from row `j`.
pub open spec fn descends_within(r: Seq<NodeModel>, base: int, j: int, k: int) -> bool {
    forall|i: int| j < i <= k ==> (#[trigger] r[i].parent) is Some && base + j <= r[i].parent->0 < base + i
}

/// No row of `r` after row `k` has a parent among rows `j` to `k`.
pub open spec fn no_later_child(r: Seq<NodeModel>, base: int, j: int, k: int) -> bool {
    forall|i: int| k < i < r.len() ==> !((#[trigger] r[i].parent) is Some && base + j <= r[i].parent->0 <= base + k)
}

/// The closing row of each row of `r` (the first having id `base`) is the
/// last row that descends from it: every row after it up to the closing row
/// descends from it, and no later row is the member of one of them.
#[verifier::opaque]
pub open spec fn closes_end_subtrees(r: Seq<NodeModel>, base: int) -> bool {
    forall|j: int|
        0 <= j < r.len() && (#[trigger] r[j].close_node_id) is Some ==> {
            let k = r[j].close_node_id->0 - base;
            &&& descends_within(r, base, j, k)
            &&& no_later_child(r, base, j, k)
        }
}

/// No row of `r` has a parent among ids `lo` to `hi - 1`.
pub open spec fn parents_outside(r: Seq<NodeModel>, lo: int, hi: int) -> bool {
    forall|i: int| 0 <= i < r.len() ==> !((#[trigger] r[i].parent) is Some && lo <= r[i].parent->0 < hi)
}

proof fn lemma_closes_end_concat(a: Seq<NodeModel>, b: Seq<NodeModel>, base: int)
    requires
        closes_end_subtrees(a, base),
        closes_end_subtrees(b, base + a.len()),
        closes_back(a, base as nat),
        closes_back(b, (base + a.len()) as nat),
        parents_outside(b, base, base + a.len()),
        base >= 0,
    ensures
        closes_end_subtrees(a + b, base),
{
    reveal(closes_end_subtrees);
    reveal(closes_back);
    let r = a + b;
    assert forall|j: int| 0 <= j < r.len() && (#[trigger] r[j].close_node_id) is Some implies {
        let k = r[j].close_node_id->0 - base;
        &&& descends_within(r, base, j, k)
        &&& no_later_child(r, base, j, k)
    } by {
        let k = r[j].close_node_id->0 - base;
        if j < a.len() {
            assert(r[j] == a[j]);
            assert(descends_within(a, base, j, k) && no_later_child(a, base, j, k));
            assert(k < a.len());
            assert forall|i: int| j < i <= k implies (#[trigger] r[i].parent) is Some && base + j <= r[i].parent->0 < base + i by {
                assert(r[i] == a[i]);
                assert(a[i].parent is Some);
            }
            assert forall|i: int| k < i < r.len() implies !((#[trigger] r[i].parent) is Some && base + j <= r[i].parent->0 <= base + k) by {
                if i < a.len() {
                    assert(r[i] == a[i]);
                    assert(!(a[i].parent is Some && base + j <= a[i].parent->0 <= base + k));
                } else {
                    assert(r[i] == b[i - a.len()]);
                    assert(!(b[i - a.len()].parent is Some && base <= b[i - a.len()].parent->0 < base + a.len()));
                }
            }
        } else {
            let jb = j - a.len();
            let bb = base + a.len();
            assert(r[j] == b[jb]);
            assert(b[jb].close_node_id is Some);
            let kb = b[jb].close_node_id->0 - bb;
            assert(descends_within(b, bb, jb, kb) && no_later_child(b, bb, jb, kb));
            assert(k == kb + a.len());
            assert forall|i: int| j < i <= k implies (#[trigger] r[i].parent) is Some && base + j <= r[i].parent->0 < base + i by {
                assert(r[i] == b[i - a.len()]);
                assert(b[i - a.len()].parent is Some);
            }
            assert forall|i: int| k < i < r.len() implies !((#[trigger] r[i].parent) is Some && base + j <= r[i].parent->0 <= base + k) by {
                assert(r[i] == b[i - a.len()]);
                assert(!(b[i - a.len()].parent is Some && bb + jb <= b[i - a.len()].parent->0 <= bb + kb));
            }
        }
    }
}

proof fn lemma_closes_end_leaf(r: Seq<NodeModel>, base: int)
    requires
        r.len() == 1,
        r[0].close_node_id is None,
        base >= 0,
    ensures
        closes_end_subtrees(r, base),
        closes_back(r, base as nat),
{
    reveal(closes_end_subtrees);
    reveal(closes_back);
}

proof fn lemma_flatten_closes_end(v: JsonValue, parent: Option<nat>, depth: nat, key: Seq<char>, comma: bool, base: nat)
    ensures
        closes_end_subtrees(flatten(v, parent, depth, key, comma, base), base as int),
    decreases v,
{
    let rows = flatten(v, parent, depth, key, comma, base);
    lemma_flatten_len(v, parent, depth, key, comma, base);
    lemma_flatten_parents(v, parent, depth, key, comma, base);
    lemma_flatten_linked(v, parent, depth, key, comma, base);
    match v {
        JsonValue::Object(es) => {
            if es@.len() > 0 {
                let fe = flatten_entries(es@, base, depth + 1, base + 1, es@.len());
                lemma_entries_closes_end(es@, base, depth + 1, base + 1, es@.len());
                lemma_entries_len(es@, base, depth + 1, base + 1, es@.len());
                assert(rows.subrange(1, rows.len() - 1) =~= fe);
                lemma_head_closes_end(rows, fe, base as int);
            } else {
                lemma_closes_end_leaf(rows, base as int);
            }
        },
        JsonValue::Array(xs) => {
            if xs@.len() > 0 {
                let fi = flatten_items(xs@, base, depth + 1, base + 1, xs@.len());
                lemma_items_closes_end(xs@, base, depth + 1, base + 1, xs@.len());
                lemma_items_len(xs@, base, depth + 1, base + 1, xs@.len());
                assert(rows.subrange(1, rows.len() - 1) =~= fi);
                lemma_head_closes_end(rows, fi, base as int);
            } else {
                lemma_closes_end_leaf(rows, base as int);
            }
        },
        _ => {
            lemma_closes_end_leaf(rows, base as int);
        },
    }
}

/// A container's rows: its opening row, its members' rows `mid`, and its
/// closing row last.
proof fn lemma_head_closes_end(rows: Seq<NodeModel>, mid: Seq<NodeModel>, base: int)
    requires
        rows.len() == mid.len() + 2,
        rows.subrange(1, rows.len() - 1) == mid,
        rows[0].close_node_id == Some((base + mid.len() + 1) as nat),
        rows[rows.len() - 1].close_node_id is None,
        closes_end_subtrees(mid, base + 1),
        closes_back(mid, (base + 1) as nat),
        parents_within(rows, base),
        rows[rows.len() - 1].parent == Some(base as nat),
        base >= 0,
    ensures
        closes_end_subtrees(rows, base),
{
    let tail = seq![rows[rows.len() - 1]];
    lemma_closes_end_leaf(tail, base + 1 + mid.len());
    assert(parents_outside(tail, base + 1, base + 1 + mid.len())) by {
        assert(tail[0] == rows[rows.len() - 1]);
    }
    lemma_closes_end_concat(mid, tail, base + 1);
    lemma_closes_back_concat(mid, tail, (base + 1) as nat);
    let rest = mid + tail;
    assert(rows =~= seq![rows[0]] + rest);
    reveal(closes_end_subtrees);
    assert forall|j: int| 0 <= j < rows.len() && (#[trigger] rows[j].close_node_id) is Some implies {
        let k = rows[j].close_node_id->0 - base;
        &&& descends_within(rows, base, j, k)
        &&& no_later_child(rows, base, j, k)
    } by {
        let k = rows[j].close_node_id->0 - base;
        if j == 0 {
            assert(k == rows.len() - 1);
            assert forall|i: int| j < i <= k implies (#[trigger] rows[i].parent) is Some && base + j <= rows[i].parent->0 < base + i by {
            }
        } else {
            assert(rows[j] == rest[j - 1]);
            assert(rest[j - 1].close_node_id is Some);
            let kr = rest[j - 1].close_node_id->0 - (base + 1);
            assert(j - 1 < kr < rest.len()) by {
                reveal(closes_back);
            }
            assert(descends_within(rest, base + 1, j - 1, kr) && no_later_child(rest, base + 1, j - 1, kr));
            assert(k == kr + 1);
            assert(rows.len() == rest.len() + 1);
            assert forall|i: int| j < i <= k implies (#[trigger] rows[i].parent) is Some && base + j <= rows[i].parent->0 < base + i by {
                assert(rows[i] == rest[i - 1]);
                assert(rest[i - 1].parent is Some);
            }
            assert forall|i: int| k < i < rows.len() implies !((#[trigger] rows[i].parent) is Some && base + j <= rows[i].parent->0 <= base + k) by {
                assert(rows[i] == rest[i - 1]);
                assert(!(rest[i - 1].parent is Some && base + 1 + (j - 1) <= rest[i - 1].parent->0 <= base + 1 + kr));
            }
        }
    }
}

proof fn lemma_entries_closes_end(es: Seq<(String, JsonValue)>, parent: nat, depth: nat, base: nat, total: nat)
    requires
        parent < base,
    ensures
        closes_end_subtrees(flatten_entries(es, parent, depth, base, total), base as int),
        closes_back(flatten_entries(es, parent, depth, base, total), base),
    decreases es,
{
    lemma_entries_linked(es, parent, depth, base, total);
    if es.len() > 0 {
        let prev = es.drop_last();
        let b = base + entries_count(prev);
        let k = member_key(es.last().0@);
        let c = prev.len() + 1 < total;
        let fp = flatten_entries(prev, parent, depth, base, total);
        let fl = flatten(es.last().1, Some(parent), depth, k, c, b);
        lemma_entries_closes_end(prev, parent, depth, base, total);
        lemma_entries_len(prev, parent, depth, base, total);
        lemma_flatten_closes_end(es.last().1, Some(parent), depth, k, c, b);
        lemma_flatten_parents(es.last().1, Some(parent), depth, k, c, b);
        lemma_flatten_first(es.last().1, Some(parent), depth, k, c, b);
        lemma_flatten_linked(es.last().1, Some(parent), depth, k, c, b);
        assert(parents_outside(fl, base as int, (base + fp.len()) as int)) by {
            assert forall|i: int| 0 <= i < fl.len() implies !((#[trigger] fl[i].parent) is Some && base <= fl[i].parent->0 < base + fp.len()) by {
                if i > 0 {
                    assert(fl[i].parent is Some);
                }
            }
        }
        lemma_closes_end_concat(fp, fl, base as int);
        assert(flatten_entries(es, parent, depth, base, total) == fp + fl);
    } else {
        reveal(closes_end_subtrees);
        assert(flatten_entries(es, parent, depth, base, total) =~= Seq::empty());
    }
}

proof fn lemma_items_closes_end(xs: Seq<JsonValue>, parent: nat, depth: nat, base: nat, total: nat)
    requires
        parent < base,
    ensures
        closes_end_subtrees(flatten_items(xs, parent, depth, base, total), base as int),
        closes_back(flatten_items(xs, parent, depth, base, total), base),
    decreases xs,
{
    lemma_items_linked(xs, parent, depth, base, total);
    if xs.len() > 0 {
        let prev = xs.drop_last();
        let b = base + items_count(prev);
        let k = element_key(prev.len());
        let c = prev.len() + 1 < total;
        let fp = flatten_items(prev, parent, depth, base, total);
        let fl = flatten(xs.last(), Some(parent), depth, k, c, b);
        lemma_items_closes_end(prev, parent, depth, base, total);
        lemma_items_len(prev, parent, depth, base, total);
        lemma_flatten_closes_end(xs.last(), Some(parent), depth, k, c, b);
        lemma_flatten_parents(xs.last(), Some(parent), depth, k, c, b);
        lemma_flatten_first(xs.last(), Some(parent), depth, k, c, b);
        lemma_flatten_linked(xs.last(), Some(parent), depth, k, c, b);
        assert(parents_outside(fl, base as int, (base + fp.len()) as int)) by {
            assert forall|i: int| 0 <= i < fl.len() implies !((#[trigger] fl[i].parent) is Some && base <= fl[i].parent->0 < base + fp.len()) by {
                if i > 0 {
                    assert(fl[i].parent is Some);
                }
            }
        }
        lemma_closes_end_concat(fp, fl, base as int);
        assert(flatten_items(xs, parent, depth, base, total) == fp + fl);
    } else {
        reveal(closes_end_subtrees);
        assert(flatten_items(xs, parent, depth, base, total) =~= Seq::empty());
    }
}

/// In a tree built from a value, wherever its rows start, each container's
/// closing row is the last row of its subtree: the rows from the container
/// to its closing row all descend from it, and no later row does.
pub proof fn lemma_flatten_close_ends_subtree(v: JsonValue, parent: Option<nat>, depth: nat, key: Seq<char>, comma: bool, base: nat)
    ensures
        closes_end_subtrees(flatten(v, parent, depth, key, comma, base), base as int),
{
    lemma_flatten_closes_end(v, parent, depth, key, comma, base);
}

/// A scalar becomes one row that shows its JSON text: a boolean as `true`
/// or `false` as it is, `null` as `null`, a number as its text, a string in
/// double quotes; the row cannot be unfolded and has no members.
pub proof fn lemma_scalar_rows(v: JsonValue, parent: Option<nat>, depth: nat, key: Seq<char>, comma: bool, base: nat)
    requires
        !(v is Object) && !(v is Array),
    ensures
        flatten(v, parent, depth, key, comma, base).len() == 1,
        ({
            let row = flatten(v, parent, depth, key, comma, base)[0];
            &&& !row.is_expandable && row.children.len() == 0 && row.close_node_id is None
            &&& row.id == base && row.parent == parent && row.depth == depth && row.key_text == key
            &&& row.has_comma == comma
            &&& match v {
                JsonValue::Bool(b) => row.node_type == NodeType::Boolean && (row.value_text == seq![
                    't',
                    'r',
                    'u',
                    'e',
                ]) == b && (row.value_text == seq!['f', 'a', 'l', 's', 'e']) == !b,
                JsonValue::Null => row.node_type == NodeType::Null && row.value_text == seq!['n', 'u', 'l', 'l'],
                JsonValue::Number(n) => row.node_type == NodeType::Number && row.value_text == n@,
                JsonValue::String(t) => row.node_type == NodeType::String && row.value_text == seq!['"'] + t@
                    + seq!['"'],
                _ => true,
            }
        }),
{
    let row = flatten(v, parent, depth, key, comma, base)[0];
    if let JsonValue::Bool(b) = v {
        if b {
            assert(row.value_text != seq!['f', 'a', 'l', 's', 'e']) by {
                assert(row.value_text.len() == 4);
            }
        } else {
            assert(row.value_text != seq!['t', 'r', 'u', 'e']) by {
                assert(row.value_text.len() == 5);
            }
        }
    }
}

} // verus!
