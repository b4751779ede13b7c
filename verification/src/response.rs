//! Value marshaller: converts a dynamically shaped response value into a
//! boundary-safe tree of tagged nodes, and mirrors that conversion with a
//! release accounting that shows every node is visited exactly once.

use vstd::prelude::*;

verus! {

/// Tag identifying which payload of a response node is populated.
#[derive(Clone, Copy, Debug, PartialEq, Eq, Structural)]
pub enum ResponseType {
    Null,
    Int,
    Float,
    Bool,
    String,
    Array,
    Mapping,
    Sets,
}

impl Default for ResponseType {
    fn default() -> (r: Self)
        ensures
            r is Null,
    {
        ResponseType::Null
    }
}

/// Maps each response tag to its display name.
pub fn get_response_type_string(response_type: ResponseType) -> (r: &'static str)
    ensures
        response_type is Null ==> r@ == "Null"@,
        response_type is Int ==> r@ == "Int"@,
        response_type is Float ==> r@ == "Float"@,
        response_type is Bool ==> r@ == "Bool"@,
        response_type is String ==> r@ == "String"@,
        response_type is Array ==> r@ == "Array"@,
        response_type is Mapping ==> r@ == "Map"@,
        response_type is Sets ==> r@ == "Sets"@,
{
    match response_type {
        ResponseType::Null => "Null",
        ResponseType::Int => "Int",
        ResponseType::Float => "Float",
        ResponseType::Bool => "Bool",
        ResponseType::String => "String",
        ResponseType::Array => "Array",
        ResponseType::Mapping => "Map",
        ResponseType::Sets => "Sets",
    }
}

/// A dynamically shaped value as the wire client hands it back, restated over
/// plain data. Floating point responses are carried as the raw IEEE-754 bit
/// pattern; this layer never interprets the number itself.
#[derive(Debug, PartialEq, Eq)]
pub enum RespValue {
    Nil,
    Okay,
    Int(i64),
    Double(u64),
    Boolean(bool),
    /// A short textual status line, already as its raw bytes.
    SimpleText(Vec<u8>),
    /// Verbatim text; the format marker is dropped, only the text crosses.
    VerbatimText(Vec<u8>),
    /// Binary-safe string data.
    BulkBytes(Vec<u8>),
    Array(Vec<RespValue>),
    Mapping(Vec<(RespValue, RespValue)>),
    Sets(Vec<RespValue>),
    /// A shape this boundary does not represent yet. Marshalling it is a
    /// fatal condition for the surrounding operation, never a silent skip.
    Unsupported,
}

/// One entry of a marshalled map: the key and value nodes are independently
/// owned and each may be absent, giving uniform optional-field semantics.
#[derive(Debug, PartialEq, Eq)]
pub struct MapEntry {
    pub key: Option<CommandResponse>,
    pub value: Option<CommandResponse>,
}

/// The boundary-safe response tree. Every non-scalar variant owns its
/// children, so releasing the root releases the whole tree exactly once.
#[derive(Debug, PartialEq, Eq)]
pub enum CommandResponse {
    Null,
    Int(i64),
    /// Raw IEEE-754 bit pattern of a floating point response.
    Float(u64),
    Bool(bool),
    Str(Vec<u8>),
    Array(Vec<CommandResponse>),
    Mapping(Vec<MapEntry>),
    Sets(Vec<CommandResponse>),
}

impl Default for CommandResponse {
    /// The default node is the null node: every payload zero or empty.
    fn default() -> (r: Self)
        ensures
            r is Null,
    {
        CommandResponse::Null
    }
}

impl CommandResponse {
    /// The tag that describes which payload this node carries.
    pub fn response_type(&self) -> (t: ResponseType)
        ensures
            t is Null <==> self is Null,
            t is Int <==> self is Int,
            t is Float <==> self is Float,
            t is Bool <==> self is Bool,
            t is String <==> self is Str,
            t is Array <==> self is Array,
            t is Mapping <==> self is Mapping,
            t is Sets <==> self is Sets,
    {
        match self {
            CommandResponse::Null => ResponseType::Null,
            CommandResponse::Int(_) => ResponseType::Int,
            CommandResponse::Float(_) => ResponseType::Float,
            CommandResponse::Bool(_) => ResponseType::Bool,
            CommandResponse::Str(_) => ResponseType::String,
            CommandResponse::Array(_) => ResponseType::Array,
            CommandResponse::Mapping(_) => ResponseType::Mapping,
            CommandResponse::Sets(_) => ResponseType::Sets,
        }
    }
}

/// Number of nodes in a marshalled tree: the node itself plus every child,
/// each map entry counting as one pair node plus its key and value subtrees.
pub open spec fn node_count(n: CommandResponse) -> nat
    decreases n,
{
    match n {
        CommandResponse::Array(children) => 1 + node_count_seq(children@),
        CommandResponse::Sets(children) => 1 + node_count_seq(children@),
        CommandResponse::Mapping(entries) => 1 + node_count_entries(entries@),
        _ => 1,
    }
}

pub open spec fn node_count_seq(s: Seq<CommandResponse>) -> nat
    decreases s,
{
    if s.len() == 0 {
        0
    } else {
        node_count_seq(s.drop_last()) + node_count(s.last())
    }
}

pub open spec fn node_count_opt(n: Option<CommandResponse>) -> nat
    decreases n,
{
    match n {
        Some(c) => node_count(c),
        None => 0,
    }
}

pub open spec fn entry_node_count(e: MapEntry) -> nat
    decreases e,
{
    1 + node_count_opt(e.key) + node_count_opt(e.value)
}

pub open spec fn node_count_entries(s: Seq<MapEntry>) -> nat
    decreases s,
{
    if s.len() == 0 {
        0
    } else {
        node_count_entries(s.drop_last()) + entry_node_count(s.last())
    }
}

/// Whether this boundary can represent the value as a node tree.
pub open spec fn representable(v: RespValue) -> bool
    decreases v,
{
    match v {
        RespValue::Unsupported => false,
        RespValue::Array(children) => representable_seq(children@),
        RespValue::Sets(children) => representable_seq(children@),
        RespValue::Mapping(pairs) => representable_pairs(pairs@),
        _ => true,
    }
}

pub open spec fn representable_seq(s: Seq<RespValue>) -> bool
    decreases s,
{
    if s.len() == 0 {
        true
    } else {
        representable_seq(s.drop_last()) && representable(s.last())
    }
}

pub open spec fn representable_pairs(s: Seq<(RespValue, RespValue)>) -> bool
    decreases s,
{
    if s.len() == 0 {
        true
    } else {
        representable_pairs(s.drop_last()) && representable(s.last().0) && representable(
            s.last().1,
        )
    }
}

/// The bytes that stand for a bare acknowledgement status: `O` then `K`.
pub open spec fn okay_bytes() -> Seq<u8> {
    seq![79u8, 75u8]
}

/// Relates a source value to the tree the marshaller produces for it.
/// Each arm pins the node's variant and the contents of its payload,
/// recursively for every child.
pub open spec fn marshals_to(v: RespValue, n: CommandResponse) -> bool
    decreases v,
{
    match v {
        RespValue::Nil => n is Null,
        RespValue::Okay => n matches CommandResponse::Str(bytes) && bytes@ == okay_bytes(),
        RespValue::Int(num) => n matches CommandResponse::Int(out) && out == num,
        RespValue::Double(bits) => n matches CommandResponse::Float(out) && out == bits,
        RespValue::Boolean(b) => n matches CommandResponse::Bool(out) && out == b,
        RespValue::SimpleText(text) => n matches CommandResponse::Str(bytes) && bytes@ == text@,
        RespValue::VerbatimText(text) => n matches CommandResponse::Str(bytes) && bytes@ == text@,
        RespValue::BulkBytes(data) => n matches CommandResponse::Str(bytes) && bytes@ == data@,
        RespValue::Array(children) => n matches CommandResponse::Array(out) && marshals_seq(
            children@,
            out@,
        ),
        RespValue::Sets(children) => n matches CommandResponse::Sets(out) && marshals_seq(
            children@,
            out@,
        ),
        RespValue::Mapping(pairs) => n matches CommandResponse::Mapping(out) && marshals_pairs(
            pairs@,
            out@,
        ),
        RespValue::Unsupported => false,
    }
}

pub open spec fn marshals_seq(s: Seq<RespValue>, t: Seq<CommandResponse>) -> bool
    decreases s,
{
    &&& t.len() == s.len()
    &&& if s.len() == 0 {
        true
    } else {
        marshals_seq(s.drop_last(), t.drop_last()) && marshals_to(s.last(), t.last())
    }
}

pub open spec fn marshals_pairs(s: Seq<(RespValue, RespValue)>, t: Seq<MapEntry>) -> bool
    decreases s,
{
    &&& t.len() == s.len()
    &&& if s.len() == 0 {
        true
    } else {
        &&& marshals_pairs(s.drop_last(), t.drop_last())
        &&& t.last().key matches Some(k) && marshals_to(s.last().0, k)
        &&& t.last().value matches Some(val) && marshals_to(s.last().1, val)
    }
}

/// Number of nodes the marshaller allocates for a representable value,
/// counted over the source shape alone.
pub open spec fn alloc_count(v: RespValue) -> nat
    decreases v,
{
    match v {
        RespValue::Array(children) => 1 + alloc_count_seq(children@),
        RespValue::Sets(children) => 1 + alloc_count_seq(children@),
        RespValue::Mapping(pairs) => 1 + alloc_count_pairs(pairs@),
        _ => 1,
    }
}

pub open spec fn alloc_count_seq(s: Seq<RespValue>) -> nat
    decreases s,
{
    if s.len() == 0 {
        0
    } else {
        alloc_count_seq(s.drop_last()) + alloc_count(s.last())
    }
}

pub open spec fn alloc_count_pairs(s: Seq<(RespValue, RespValue)>) -> nat
    decreases s,
{
    if s.len() == 0 {
        0
    } else {
        alloc_count_pairs(s.drop_last()) + 1 + alloc_count(s.last().0) + alloc_count(s.last().1)
    }
}

/// Marshalling failure: the value had a shape this boundary cannot represent.
/// The surrounding operation treats this as a fatal condition.
#[derive(Clone, Copy, Debug, PartialEq, Eq, Structural)]
pub enum MarshalError {
    UnrepresentableValue,
}

impl MarshalError {
    /// A human-readable description of the failure.
    pub fn message(&self) -> (r: &'static str)
        ensures
            r@ == "value type is not yet representable at this boundary"@,
    {
        "value type is not yet representable at this boundary"
    }
}

/// Index form of `representable_seq`: a child list is representable
/// exactly when every child is.
pub proof fn lemma_representable_seq_index(s: Seq<RespValue>)
    ensures
        representable_seq(s) <==> (forall|i: int|
            0 <= i < s.len() ==> #[trigger] representable(s[i])),
    decreases s,
{
    if s.len() > 0 {
        lemma_representable_seq_index(s.drop_last());
        assert(s.last() == s[s.len() - 1]);
        if representable_seq(s) {
            assert forall|i: int| 0 <= i < s.len() implies #[trigger] representable(s[i]) by {
                if i < s.len() - 1 {
                    assert(representable(s.drop_last()[i]));
                    assert(s.drop_last()[i] == s[i]);
                }
            }
        }
        if forall|i: int| 0 <= i < s.len() ==> #[trigger] representable(s[i]) {
            assert forall|i: int|
                0 <= i < s.drop_last().len() implies #[trigger] representable(
                s.drop_last()[i],
            ) by {
                assert(s.drop_last()[i] == s[i]);
                assert(representable(s[i]));
            }
            assert(representable(s[s.len() - 1]));
        }
    }
}

/// Index form of `representable_pairs`.
pub proof fn lemma_representable_pairs_index(s: Seq<(RespValue, RespValue)>)
    ensures
        representable_pairs(s) <==> (forall|i: int|
            0 <= i < s.len() ==> #[trigger] representable(s[i].0) && representable(s[i].1)),
    decreases s,
{
    if s.len() > 0 {
        lemma_representable_pairs_index(s.drop_last());
        assert(s.last() == s[s.len() - 1]);
        if representable_pairs(s) {
            assert forall|i: int|
                0 <= i < s.len() implies #[trigger] representable(s[i].0) && representable(
                s[i].1,
            ) by {
                if i < s.len() - 1 {
                    assert(representable(s.drop_last()[i].0));
                    assert(representable(s.drop_last()[i].1));
                    assert(s.drop_last()[i] == s[i]);
                }
            }
        }
        if forall|i: int| 0 <= i < s.len() ==> #[trigger] representable(s[i].0) && representable(
            s[i].1,
        ) {
            assert forall|i: int|
                0 <= i < s.drop_last().len() implies #[trigger] representable(
                s.drop_last()[i].0,
            ) && representable(s.drop_last()[i].1) by {
                assert(s.drop_last()[i] == s[i]);
                assert(representable(s[i].0));
                assert(representable(s[i].1));
            }
            assert(representable(s[s.len() - 1].0));
            assert(representable(s[s.len() - 1].1));
        }
    }
}

proof fn lemma_node_count_seq_take_step(s: Seq<CommandResponse>, i: int)
    requires
        0 <= i < s.len(),
    ensures
        node_count_seq(s.take(i + 1)) == node_count_seq(s.take(i)) + node_count(s[i]),
{
    assert(s.take(i + 1).drop_last() =~= s.take(i));
    assert(s.take(i + 1).last() == s[i]);
}

proof fn lemma_node_count_seq_take_bound(s: Seq<CommandResponse>, j: int)
    requires
        0 <= j <= s.len(),
    ensures
        node_count_seq(s.take(j)) <= node_count_seq(s),
    decreases s.len() - j,
{
    if j == s.len() {
        assert(s.take(j) =~= s);
    } else {
        lemma_node_count_seq_take_step(s, j);
        lemma_node_count_seq_take_bound(s, j + 1);
    }
}

proof fn lemma_node_count_entries_take_step(s: Seq<MapEntry>, i: int)
    requires
        0 <= i < s.len(),
    ensures
        node_count_entries(s.take(i + 1)) == node_count_entries(s.take(i)) + entry_node_count(
            s[i],
        ),
{
    assert(s.take(i + 1).drop_last() =~= s.take(i));
    assert(s.take(i + 1).last() == s[i]);
}

proof fn lemma_node_count_entries_take_bound(s: Seq<MapEntry>, j: int)
    requires
        0 <= j <= s.len(),
    ensures
        node_count_entries(s.take(j)) <= node_count_entries(s),
    decreases s.len() - j,
{
    if j == s.len() {
        assert(s.take(j) =~= s);
    } else {
        lemma_node_count_entries_take_step(s, j);
        lemma_node_count_entries_take_bound(s, j + 1);
    }
}

/// Copies the argument bytes into storage this layer owns, as the boundary
/// contract demands: argument memory is only valid for the duration of the
/// call that handed it over.
pub(crate) fn copy_bytes(src: &Vec<u8>) -> (out: Vec<u8>)
    ensures
        out@ == src@,
{
    let mut out: Vec<u8> = Vec::new();
    let n = src.len();
    for i in 0..n
        invariant
            n == src@.len(),
            out@ =~= src@.take(i as int),
    {
        out.push(src[i]);
        proof {
            assert(out@ =~= src@.take(i as int + 1));
        }
    }
    proof {
        assert(src@.take(n as int) =~= src@);
    }
    out
}

/// Recursively converts a dynamically shaped value into the boundary-safe
/// node tree: absence becomes a null node, scalars keep their payload, text
/// becomes raw bytes, and lists, maps and sets convert their children in
/// source order. A shape this boundary cannot represent fails the whole
/// conversion; nothing is silently skipped or substituted.
pub fn valkey_value_to_command_response(value: &RespValue) -> (r: Result<
    CommandResponse,
    MarshalError,
>)
    ensures
        r is Ok <==> representable(*value),
        r matches Ok(tree) ==> marshals_to(*value, tree),
        r matches Ok(tree) ==> node_count(tree) == alloc_count(*value),
{
    let r = convert_value(value);
    proof {
        if r is Ok {
            lemma_round_trip(*value, r->Ok_0);
        }
    }
    r
}

/// The conversion itself, one arm per value shape.
#[verifier::loop_isolation(false)]
fn convert_value(value: &RespValue) -> (r: Result<CommandResponse, MarshalError>)
    ensures
        r is Ok <==> representable(*value),
        r matches Ok(tree) ==> marshals_to(*value, tree),
    decreases *value,
{
    match value {
        RespValue::Nil => Ok(CommandResponse::Null),
        RespValue::Okay => {
            let mut bytes: Vec<u8> = Vec::new();
            bytes.push(79);
            bytes.push(75);
            proof {
                assert(bytes@ =~= okay_bytes());
            }
            Ok(CommandResponse::Str(bytes))
        },
        RespValue::Int(num) => Ok(CommandResponse::Int(*num)),
        RespValue::Double(bits) => Ok(CommandResponse::Float(*bits)),
        RespValue::Boolean(b) => Ok(CommandResponse::Bool(*b)),
        RespValue::SimpleText(text) => Ok(CommandResponse::Str(copy_bytes(text))),
        RespValue::VerbatimText(text) => Ok(CommandResponse::Str(copy_bytes(text))),
        RespValue::BulkBytes(data) => Ok(CommandResponse::Str(copy_bytes(data))),
        RespValue::Array(children) => match convert_children(children) {
            Ok(out) => Ok(CommandResponse::Array(out)),
            Err(e) => Err(e),
        },
        RespValue::Sets(children) => match convert_children(children) {
            Ok(out) => Ok(CommandResponse::Sets(out)),
            Err(e) => Err(e),
        },
        RespValue::Mapping(pairs) => match convert_entries(pairs) {
            Ok(out) => Ok(CommandResponse::Mapping(out)),
            Err(e) => Err(e),
        },
        RespValue::Unsupported => Err(MarshalError::UnrepresentableValue),
    }
}

/// Converts every child of a list or set value, in order.
#[verifier::loop_isolation(false)]
fn convert_children(children: &Vec<RespValue>) -> (r: Result<Vec<CommandResponse>, MarshalError>)
    ensures
        r is Ok <==> representable_seq(children@),
        r matches Ok(out) ==> marshals_seq(children@, out@),
    decreases *children,
{
    let mut out: Vec<CommandResponse> = Vec::new();
    let n = children.len();
    for i in 0..n
        invariant
            out@.len() == i,
            representable_seq(children@.take(i as int)),
            marshals_seq(children@.take(i as int), out@),
    {
        match convert_value(&children[i]) {
            Ok(node) => {
                let ghost prev = out@;
                out.push(node);
                proof {
                    assert(out@.drop_last() =~= prev);
                    assert(out@.last() == node);
                    assert(children@.take(i as int + 1).drop_last() =~= children@.take(i as int));
                    assert(children@.take(i as int + 1).last() == children@[i as int]);
                }
            },
            Err(e) => {
                proof {
                    lemma_representable_seq_index(children@);
                }
                return Err(e);
            },
        }
    }
    proof {
        assert(children@.take(n as int) =~= children@);
    }
    Ok(out)
}

/// Converts every key/value pair of a map value into an entry whose key and
/// value nodes are independently owned.
#[verifier::loop_isolation(false)]
fn convert_entries(pairs: &Vec<(RespValue, RespValue)>) -> (r: Result<Vec<MapEntry>, MarshalError>)
    ensures
        r is Ok <==> representable_pairs(pairs@),
        r matches Ok(out) ==> marshals_pairs(pairs@, out@),
    decreases *pairs,
{
    let mut out: Vec<MapEntry> = Vec::new();
    let n = pairs.len();
    for i in 0..n
        invariant
            out@.len() == i,
            representable_pairs(pairs@.take(i as int)),
            marshals_pairs(pairs@.take(i as int), out@),
    {
        let pair = &pairs[i];
        let key_node = match convert_value(&pair.0) {
            Ok(node) => node,
            Err(e) => {
                proof {
                    lemma_representable_pairs_index(pairs@);
                }
                return Err(e);
            },
        };
        let value_node = match convert_value(&pair.1) {
            Ok(node) => node,
            Err(e) => {
                proof {
                    lemma_representable_pairs_index(pairs@);
                }
                return Err(e);
            },
        };
        let ghost prev = out@;
        out.push(MapEntry { key: Some(key_node), value: Some(value_node) });
        proof {
            assert(out@.drop_last() =~= prev);
            assert(out@.last() == MapEntry { key: Some(key_node), value: Some(value_node) });
            assert(pairs@.take(i as int + 1).drop_last() =~= pairs@.take(i as int));
            assert(pairs@.take(i as int + 1).last() == pairs@[i as int]);
        }
    }
    proof {
        assert(pairs@.take(n as int) =~= pairs@);
    }
    Ok(out)
}

/// Releases a marshalled tree. Ownership of every child is inside the tree
/// itself, so consuming the root releases each node exactly once; the
/// returned tally is the number of nodes visited by the mirror walk, proved
/// equal to the node count of the tree.
pub fn free_command_response(response: CommandResponse) -> (freed: usize)
    requires
        node_count(response) <= usize::MAX,
    ensures
        freed == node_count(response),
{
    count_nodes(&response)
}

/// The mirror walk: visits the node and every descendant exactly once.
#[verifier::loop_isolation(false)]
fn count_nodes(n: &CommandResponse) -> (c: usize)
    requires
        node_count(*n) <= usize::MAX,
    ensures
        c == node_count(*n),
    decreases *n,
{
    match n {
        CommandResponse::Array(children) => 1 + count_children(children),
        CommandResponse::Sets(children) => 1 + count_children(children),
        CommandResponse::Mapping(entries) => 1 + count_entries(entries),
        _ => 1,
    }
}

#[verifier::loop_isolation(false)]
fn count_children(children: &Vec<CommandResponse>) -> (c: usize)
    requires
        node_count_seq(children@) < usize::MAX,
    ensures
        c == node_count_seq(children@),
    decreases *children,
{
    let mut c: usize = 0;
    let n = children.len();
    for i in 0..n
        invariant
            c == node_count_seq(children@.take(i as int)),
    {
        proof {
            lemma_node_count_seq_take_step(children@, i as int);
            lemma_node_count_seq_take_bound(children@, i as int + 1);
        }
        let sub = count_nodes(&children[i]);
        c = c + sub;
    }
    proof {
        assert(children@.take(n as int) =~= children@);
    }
    c
}

#[verifier::loop_isolation(false)]
fn count_entries(entries: &Vec<MapEntry>) -> (c: usize)
    requires
        node_count_entries(entries@) < usize::MAX,
    ensures
        c == node_count_entries(entries@),
    decreases *entries,
{
    let mut c: usize = 0;
    let n = entries.len();
    for i in 0..n
        invariant
            c == node_count_entries(entries@.take(i as int)),
    {
        proof {
            lemma_node_count_entries_take_step(entries@, i as int);
            lemma_node_count_entries_take_bound(entries@, i as int + 1);
        }
        let entry = &entries[i];
        let mut entry_total: usize = 1;
        match &entry.key {
            Some(k) => {
                let sub = count_nodes(k);
                entry_total = entry_total + sub;
            },
            None => {},
        }
        match &entry.value {
            Some(v) => {
                let sub = count_nodes(v);
                entry_total = entry_total + sub;
            },
            None => {},
        }
        c = c + entry_total;
    }
    proof {
        assert(entries@.take(n as int) =~= entries@);
    }
    c
}

/// Round-trip law: marshalling a representable value and then releasing the
/// produced tree visits and frees exactly the nodes the marshaller
/// allocated - the release count of the tree equals the allocation count of
/// the source value, so there is neither a leak nor a double release.
pub proof fn lemma_round_trip(v: RespValue, n: CommandResponse)
    requires
        marshals_to(v, n),
    ensures
        node_count(n) == alloc_count(v),
    decreases v,
{
    match v {
        RespValue::Array(children) => {
            lemma_round_trip_seq(children@, n->Array_0@);
        },
        RespValue::Sets(children) => {
            lemma_round_trip_seq(children@, n->Sets_0@);
        },
        RespValue::Mapping(pairs) => {
            lemma_round_trip_pairs(pairs@, n->Mapping_0@);
        },
        _ => {},
    }
}

proof fn lemma_round_trip_seq(s: Seq<RespValue>, t: Seq<CommandResponse>)
    requires
        marshals_seq(s, t),
    ensures
        node_count_seq(t) == alloc_count_seq(s),
    decreases s,
{
    if s.len() > 0 {
        lemma_round_trip_seq(s.drop_last(), t.drop_last());
        lemma_round_trip(s.last(), t.last());
    }
}

proof fn lemma_round_trip_pairs(s: Seq<(RespValue, RespValue)>, t: Seq<MapEntry>)
    requires
        marshals_pairs(s, t),
    ensures
        node_count_entries(t) == alloc_count_pairs(s),
    decreases s,
{
    if s.len() > 0 {
        lemma_round_trip_pairs(s.drop_last(), t.drop_last());
        let e = t.last();
        assert(e.key is Some && e.value is Some);
        lemma_round_trip(s.last().0, e.key->0);
        lemma_round_trip(s.last().1, e.value->0);
        assert(node_count_opt(e.key) == node_count(e.key->0));
        assert(node_count_opt(e.value) == node_count(e.value->0));
        assert(node_count_entries(t) == node_count_entries(t.drop_last()) + entry_node_count(e));
        assert(alloc_count_pairs(s) == alloc_count_pairs(s.drop_last()) + 1 + alloc_count(
            s.last().0,
        ) + alloc_count(s.last().1));
    }
}

} // verus!
