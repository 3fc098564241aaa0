//! Read-only view over a decoded node graph.
use vstd::prelude::*;

verus! {

use std::rc::Rc;
use crate::error::Error;
use crate::node::{chain_has_name, count_true, inherited_fields, node_wf, Node};
use crate::value::{value_indices_below, Value};

/// The value index, into the packed value list, of the first field named
/// `name` at or after position `i` of `fields`, when that field's mask flag
/// is set; `None` when the first such field is unset or no field matches.
pub open spec fn field_lookup_from(
    fields: Seq<crate::node::Field>,
    mask: Seq<bool>,
    name: Seq<char>,
    i: int,
) -> Option<int>
    decreases fields.len() - i,
{
    if i < 0 || i >= fields.len() {
        None
    } else if fields[i].name@ == name {
        if mask[i] {
            Some(count_true(mask.subrange(0, i)))
        } else {
            None
        }
    } else {
        field_lookup_from(fields, mask, name, i + 1)
    }
}

/// Positional lookup over the whole inherited field list, parent-first.
pub open spec fn field_lookup(
    fields: Seq<crate::node::Field>,
    mask: Seq<bool>,
    name: Seq<char>,
) -> Option<int> {
    field_lookup_from(fields, mask, name, 0)
}

/// A prefix never holds more set flags than the whole.
proof fn lemma_count_true_prefix(s: Seq<bool>, k: int)
    requires
        0 <= k <= s.len(),
    ensures
        count_true(s.subrange(0, k)) <= count_true(s),
    decreases s.len() - k,
{
    if k < s.len() {
        assert(s.subrange(0, k + 1).drop_last() =~= s.subrange(0, k));
        lemma_count_true_prefix(s, k + 1);
    } else {
        assert(s.subrange(0, k) =~= s);
    }
}

/// The looked-up value of `name` on node `index` of `nodes`, per
/// `field_lookup`: `None` when the field is absent or unset.
pub open spec fn spec_field_of(nodes: Seq<Node>, index: int, name: Seq<char>) -> Option<Value> {
    let node = nodes[index];
    match field_lookup(inherited_fields(*node.definition), node.field_mask@, name) {
        Some(vi) => Some(node.values@[vi]),
        None => None,
    }
}

/// View into a collection of nodes: a shared handle to the node array and a
/// current index.
#[derive(Debug)]
pub struct NodeWalker {
    nodes: Rc<Vec<Node>>,
    index: usize,
}

impl Clone for NodeWalker {
    fn clone(&self) -> (r: Self)
        ensures
            r == *self,
    {
        proof {
            use_type_invariant(self);
        }
        NodeWalker { nodes: self.nodes.clone(), index: self.index }
    }
}

impl NodeWalker {
    /// Every node is well-formed against the array and the current index is
    /// in range.
    #[verifier::type_invariant]
    pub closed spec fn wf(self) -> bool {
        &&& self.index < self.nodes@.len()
        &&& forall|i: int|
            0 <= i < self.nodes@.len() ==> node_wf(
                #[trigger] self.nodes@[i],
                self.nodes@.len() as int,
            )
    }

    /// The node array.
    pub closed spec fn spec_nodes(self) -> Seq<Node> {
        self.nodes@
    }

    /// The current node.
    pub closed spec fn spec_current(self) -> Node {
        self.nodes@[self.index as int]
    }

    /// The current index.
    pub closed spec fn spec_index(self) -> int {
        self.index as int
    }

    /// Wrap an already shared, checked node array. Used internally by the
    /// reader once the closing checks have passed.
    pub(crate) fn from_parts(nodes: Rc<Vec<Node>>, index: usize) -> (r: NodeWalker)
        requires
            index < nodes@.len(),
            forall|i: int|
                0 <= i < nodes@.len() ==> node_wf(#[trigger] nodes@[i], nodes@.len() as int),
        ensures
            r.spec_nodes() == nodes@,
            r.spec_index() == index,
    {
        NodeWalker { nodes, index }
    }

    /// Get a walker for the requested node index.
    pub fn node(&self, index: usize) -> (r: NodeWalker)
        requires
            index < self.spec_nodes().len(),
        ensures
            r.spec_nodes() == self.spec_nodes(),
            r.spec_index() == index,
    {
        proof {
            use_type_invariant(self);
        }
        NodeWalker { nodes: self.nodes.clone(), index }
    }

    /// The number of nodes in the decoded graph.
    pub fn len(&self) -> (r: usize)
        ensures
            r == self.spec_nodes().len(),
    {
        proof {
            use_type_invariant(self);
        }
        self.nodes.len()
    }

    /// The current node index.
    pub fn index(&self) -> (r: usize)
        ensures
            r == self.spec_index(),
    {
        self.index
    }

    fn current(&self) -> (r: &Node)
        ensures
            r == self.spec_current(),
            self.wf(),
    {
        proof {
            use_type_invariant(self);
        }
        &self.nodes[self.index]
    }

    /// The current node's schema name.
    pub fn name(&self) -> (r: &str)
        ensures
            r@ == self.spec_current().definition.name@,
    {
        self.current().definition.name.as_str()
    }

    /// The current node's schema version.
    pub fn version(&self) -> (r: i32)
        ensures
            r == self.spec_current().definition.version,
    {
        self.current().definition.version
    }

    /// Whether the current node's schema, or one of its ancestors, has the
    /// given name.
    pub fn is_or_inherited_from(&self, definition_name: &str) -> (r: bool)
        ensures
            r == chain_has_name(*self.spec_current().definition, definition_name@),
    {
        let needle: String = definition_name.to_owned();
        let mut d: &Rc<crate::node::Definition> = &self.current().definition;
        loop
            invariant_except_break
                chain_has_name(*self.spec_current().definition, definition_name@)
                    == chain_has_name(**d, definition_name@),
                needle@ == definition_name@,
            ensures
                chain_has_name(*self.spec_current().definition, definition_name@) == (
                chain_has_name(**d, definition_name@) && d.name@ == definition_name@),
            decreases **d,
        {
            if d.name == needle {
                proof {
                    assert(chain_has_name(**d, definition_name@));
                }
                return true;
            }
            match &d.parent {
                Some(x) => {
                    d = x;
                },
                None => {
                    return false;
                },
            }
        }
    }

    /// Positional field lookup: walk the inherited fields parent-first and
    /// return the packed value of the first field with the given name, if
    /// its mask flag is set.
    pub fn field(&self, field_name: &str) -> (r: Option<&Value>)
        ensures
            node_wf(self.spec_current(), self.spec_nodes().len() as int),
            ({
                let node = self.spec_current();
                let fields = inherited_fields(*node.definition);
                match r {
                    Some(v) => field_lookup(fields, node.field_mask@, field_name@) matches Some(vi)
                        && 0 <= vi < node.values@.len() && v == node.values@[vi],
                    None => field_lookup(fields, node.field_mask@, field_name@) is None,
                }
            }),
    {
        let needle: String = field_name.to_owned();
        let node = self.current();
        let fields = node.definition.fields();
        let ghost mask = node.field_mask@;
        let ghost fseq = fields@;
        let nvals = node.values.len();
        let mut field_index: usize = 0;
        let mut value_index: usize = 0;
        while field_index < fields.len()
            invariant
                *node == self.spec_current(),
                fseq == inherited_fields(*node.definition),
                node.field_mask@ == mask,
                node_wf(*node, self.spec_nodes().len() as int),
                nvals == node.values@.len(),
                fields@ == fseq,
                mask.len() == fseq.len(),
                needle@ == field_name@,
                field_index <= fseq.len(),
                value_index == count_true(mask.subrange(0, field_index as int)),
                field_lookup(fseq, mask, field_name@) == field_lookup_from(
                    fseq,
                    mask,
                    field_name@,
                    field_index as int,
                ),
            decreases fseq.len() - field_index,
        {
            proof {
                assert(mask.subrange(0, field_index + 1).drop_last() =~= mask.subrange(
                    0,
                    field_index as int,
                ));
                lemma_count_true_prefix(mask, field_index + 1);
            }
            if fields[field_index].name == needle {
                if node.field_mask[field_index] {
                    return Some(&node.values[value_index]);
                } else {
                    return None;
                }
            }
            if node.field_mask[field_index] {
                value_index = value_index + 1;
            }
            field_index = field_index + 1;
        }
        None
    }
}


impl NodeWalker {
    /// The looked-up value of `field_name`, per `field_lookup`, as a spec
    /// value: `None` when the field is absent or unset.
    pub open spec fn spec_field(self, name: Seq<char>) -> Option<Value> {
        spec_field_of(self.spec_nodes(), self.spec_index(), name)
    }

    /// Read the value of the specified field as a byte.
    pub fn field_u8(&self, field_name: &str, default_value: Option<u8>) -> (r: Result<u8, Error>)
        ensures
            match self.spec_field(field_name@) {
                Some(v) => match r {
                    Ok(x) => v == Value::U8(x),
                    Err(_) => !(v is U8),
                },
                None => match (r, default_value) {
                    (Ok(x), Some(d)) => x == d,
                    (Err(_), None) => true,
                    _ => false,
                },
            },
    {
        match self.field(field_name) {
            Some(value) => match value {
                Value::U8(x) => Ok(*x),
                _ => Err(Error::Invalid("field has an invalid type")),
            },
            None => match default_value {
                Some(v) => Ok(v),
                None => Err(Error::Invalid("field is missing")),
            },
        }
    }

    /// Read the value of the specified field as an i32.
    pub fn field_i32(&self, field_name: &str, default_value: Option<i32>) -> (r: Result<
        i32,
        Error,
    >)
        ensures
            match self.spec_field(field_name@) {
                Some(v) => match r {
                    Ok(x) => v == Value::I32(x),
                    Err(_) => !(v is I32),
                },
                None => match (r, default_value) {
                    (Ok(x), Some(d)) => x == d,
                    (Err(_), None) => true,
                    _ => false,
                },
            },
    {
        match self.field(field_name) {
            Some(value) => match value {
                Value::I32(x) => Ok(*x),
                _ => Err(Error::Invalid("field has an invalid type")),
            },
            None => match default_value {
                Some(v) => Ok(v),
                None => Err(Error::Invalid("field is missing")),
            },
        }
    }

    /// Read the value of the specified field as the bit pattern of an f32.
    pub fn field_f32(&self, field_name: &str, default_value: Option<u32>) -> (r: Result<
        u32,
        Error,
    >)
        ensures
            match self.spec_field(field_name@) {
                Some(v) => match r {
                    Ok(x) => v == Value::F32(x),
                    Err(_) => !(v is F32),
                },
                None => match (r, default_value) {
                    (Ok(x), Some(d)) => x == d,
                    (Err(_), None) => true,
                    _ => false,
                },
            },
    {
        match self.field(field_name) {
            Some(value) => match value {
                Value::F32(x) => Ok(*x),
                _ => Err(Error::Invalid("field has an invalid type")),
            },
            None => match default_value {
                Some(v) => Ok(v),
                None => Err(Error::Invalid("field is missing")),
            },
        }
    }

    /// Read the value of the specified field as a string reference.
    pub fn field_string<'a>(&'a self, field_name: &str, default_value: Option<&'a String>) -> (r:
        Result<&'a String, Error>)
        ensures
            match self.spec_field(field_name@) {
                Some(v) => match r {
                    Ok(x) => v == Value::String(*x),
                    Err(_) => !(v is String),
                },
                None => match (r, default_value) {
                    (Ok(x), Some(d)) => x == d,
                    (Err(_), None) => true,
                    _ => false,
                },
            },
    {
        match self.field(field_name) {
            Some(value) => match value {
                Value::String(x) => Ok(x),
                _ => Err(Error::Invalid("field has an invalid type")),
            },
            None => match default_value {
                Some(v) => Ok(v),
                None => Err(Error::Invalid("field is missing")),
            },
        }
    }

    /// Read the value of the specified field as a vector of values.
    pub fn field_vec<'a>(&'a self, field_name: &str, default_value: Option<&'a Vec<Value>>) -> (r:
        Result<&'a Vec<Value>, Error>)
        ensures
            match self.spec_field(field_name@) {
                Some(v) => match r {
                    Ok(x) => v == Value::Vector(*x),
                    Err(_) => !(v is Vector),
                },
                None => match (r, default_value) {
                    (Ok(x), Some(d)) => x == d,
                    (Err(_), None) => true,
                    _ => false,
                },
            },
    {
        match self.field(field_name) {
            Some(value) => match value {
                Value::Vector(x) => Ok(x),
                _ => Err(Error::Invalid("field has an invalid type")),
            },
            None => match default_value {
                Some(v) => Ok(v),
                None => Err(Error::Invalid("field is missing")),
            },
        }
    }

    /// Read the value of the specified field as a `Vec<u8>`.
    pub fn field_u8_vec(&self, field_name: &str, default_value: Option<Vec<u8>>) -> (r: Result<
        Vec<u8>,
        Error,
    >)
        ensures
            match self.spec_field(field_name@) {
                Some(v) => match r {
                    Ok(xs) => v matches Value::Vector(vs) && xs@.len() == vs@.len() && (forall|
                        j: int,
                    |
                        0 <= j < vs@.len() ==> vs@[j] == Value::U8(#[trigger] xs@[j])),
                    Err(_) => !(v matches Value::Vector(vs) && (forall|j: int|
                        0 <= j < vs@.len() ==> (#[trigger] vs@[j]) is U8)),
                },
                None => match (r, default_value) {
                    (Ok(xs), Some(d)) => xs == d,
                    (Err(_), None) => true,
                    _ => false,
                },
            },
    {
        match self.field(field_name) {
            Some(value) => match value {
                Value::Vector(vs) => {
                    let mut out: Vec<u8> = Vec::new();
                    let mut i: usize = 0;
                    while i < vs.len()
                        invariant
                            self.spec_field(field_name@) == Some(Value::Vector(*vs)),
                            i <= vs@.len(),
                            out@.len() == i,
                            forall|j: int|
                                0 <= j < i ==> vs@[j] == Value::U8(#[trigger] out@[j]),
                        decreases vs@.len() - i,
                    {
                        match &vs[i] {
                            Value::U8(x) => out.push(*x),
                            _ => {
                                return Err(Error::Invalid("field has an invalid type in array"));
                            },
                        }
                        i = i + 1;
                    }
                    Ok(out)
                },
                _ => Err(Error::Invalid("field has an invalid type")),
            },
            None => match default_value {
                Some(v) => Ok(v),
                None => Err(Error::Invalid("field is missing")),
            },
        }
    }

    /// Read the value of the specified field as a `Vec<i32>`.
    pub fn field_i32_vec(&self, field_name: &str, default_value: Option<Vec<i32>>) -> (r: Result<
        Vec<i32>,
        Error,
    >)
        ensures
            match self.spec_field(field_name@) {
                Some(v) => match r {
                    Ok(xs) => v matches Value::Vector(vs) && xs@.len() == vs@.len() && (forall|
                        j: int,
                    |
                        0 <= j < vs@.len() ==> vs@[j] == Value::I32(#[trigger] xs@[j])),
                    Err(_) => !(v matches Value::Vector(vs) && (forall|j: int|
                        0 <= j < vs@.len() ==> (#[trigger] vs@[j]) is I32)),
                },
                None => match (r, default_value) {
                    (Ok(xs), Some(d)) => xs == d,
                    (Err(_), None) => true,
                    _ => false,
                },
            },
    {
        match self.field(field_name) {
            Some(value) => match value {
                Value::Vector(vs) => {
                    let mut out: Vec<i32> = Vec::new();
                    let mut i: usize = 0;
                    while i < vs.len()
                        invariant
                            self.spec_field(field_name@) == Some(Value::Vector(*vs)),
                            i <= vs@.len(),
                            out@.len() == i,
                            forall|j: int|
                                0 <= j < i ==> vs@[j] == Value::I32(#[trigger] out@[j]),
                        decreases vs@.len() - i,
                    {
                        match &vs[i] {
                            Value::I32(x) => out.push(*x),
                            _ => {
                                return Err(Error::Invalid("field has an invalid type in array"));
                            },
                        }
                        i = i + 1;
                    }
                    Ok(out)
                },
                _ => Err(Error::Invalid("field has an invalid type")),
            },
            None => match default_value {
                Some(v) => Ok(v),
                None => Err(Error::Invalid("field is missing")),
            },
        }
    }

    /// Read the value of the specified field as a `Vec` of f32 bit patterns.
    pub fn field_f32_vec(&self, field_name: &str, default_value: Option<Vec<u32>>) -> (r: Result<
        Vec<u32>,
        Error,
    >)
        ensures
            match self.spec_field(field_name@) {
                Some(v) => match r {
                    Ok(xs) => v matches Value::Vector(vs) && xs@.len() == vs@.len() && (forall|
                        j: int,
                    |
                        0 <= j < vs@.len() ==> vs@[j] == Value::F32(#[trigger] xs@[j])),
                    Err(_) => !(v matches Value::Vector(vs) && (forall|j: int|
                        0 <= j < vs@.len() ==> (#[trigger] vs@[j]) is F32)),
                },
                None => match (r, default_value) {
                    (Ok(xs), Some(d)) => xs == d,
                    (Err(_), None) => true,
                    _ => false,
                },
            },
    {
        match self.field(field_name) {
            Some(value) => match value {
                Value::Vector(vs) => {
                    let mut out: Vec<u32> = Vec::new();
                    let mut i: usize = 0;
                    while i < vs.len()
                        invariant
                            self.spec_field(field_name@) == Some(Value::Vector(*vs)),
                            i <= vs@.len(),
                            out@.len() == i,
                            forall|j: int|
                                0 <= j < i ==> vs@[j] == Value::F32(#[trigger] out@[j]),
                        decreases vs@.len() - i,
                    {
                        match &vs[i] {
                            Value::F32(x) => out.push(*x),
                            _ => {
                                return Err(Error::Invalid("field has an invalid type in array"));
                            },
                        }
                        i = i + 1;
                    }
                    Ok(out)
                },
                _ => Err(Error::Invalid("field has an invalid type")),
            },
            None => match default_value {
                Some(v) => Ok(v),
                None => Err(Error::Invalid("field is missing")),
            },
        }
    }

    /// Read the value of the specified field as a walker aimed at the
    /// referenced node.
    pub fn field_node(&self, field_name: &str) -> (r: Result<NodeWalker, Error>)
        ensures
            match self.spec_field(field_name@) {
                Some(v) => match r {
                    Ok(w) => v matches Value::Node(idx) && w.spec_nodes() == self.spec_nodes()
                        && w.spec_index() == idx,
                    Err(_) => !(v is Node),
                },
                None => r is Err,
            },
    {
        proof {
            use_type_invariant(self);
        }
        match self.field(field_name) {
            Some(value) => match value {
                Value::Node(x) => Ok(self.node(*x)),
                _ => Err(Error::Invalid("field has an invalid type")),
            },
            None => Err(Error::Invalid("field is missing")),
        }
    }

    /// Read the value of the specified field as a `Vec` of walkers.
    pub fn field_node_vec(&self, field_name: &str) -> (r: Result<Vec<NodeWalker>, Error>)
        ensures
            match self.spec_field(field_name@) {
                Some(v) => match r {
                    Ok(ws) => v matches Value::Vector(vs) && ws@.len() == vs@.len() && (forall|
                        j: int,
                    |
                        0 <= j < vs@.len() ==> (#[trigger] vs@[j]) is Node) && (forall|j: int|
                        0 <= j < vs@.len() ==> ((#[trigger] ws@[j]).spec_nodes()
                            == self.spec_nodes() && ws@[j].spec_index() == vs@[j]->Node_0)),
                    Err(_) => !(v matches Value::Vector(vs) && (forall|j: int|
                        0 <= j < vs@.len() ==> (#[trigger] vs@[j]) is Node)),
                },
                None => r is Err,
            },
    {
        proof {
            use_type_invariant(self);
        }
        match self.field(field_name) {
            Some(value) => match value {
                Value::Vector(vs) => {
                    let mut out: Vec<NodeWalker> = Vec::new();
                    let mut i: usize = 0;
                    while i < vs.len()
                        invariant
                            self.spec_field(field_name@) == Some(Value::Vector(*vs)),
                            self.wf(),
                            value_indices_below(
                                Value::Vector(*vs),
                                self.spec_nodes().len() as int,
                            ),
                            i <= vs@.len(),
                            out@.len() == i,
                            forall|j: int| 0 <= j < i ==> (#[trigger] vs@[j]) is Node,
                            forall|j: int|
                                0 <= j < i ==> ((#[trigger] out@[j]).spec_nodes()
                                    == self.spec_nodes() && out@[j].spec_index()
                                    == vs@[j]->Node_0),
                        decreases vs@.len() - i,
                    {
                        match &vs[i] {
                            Value::Node(x) => {
                                proof {
                                    assert(vs@[i as int] == Value::Node(*x));
                                    assert(value_indices_below(
                                        vs@[i as int],
                                        self.spec_nodes().len() as int,
                                    ));
                                }
                                out.push(self.node(*x));
                                proof {
                                    assert(out@[i as int].spec_index() == *x as int);
                                    assert(vs@[i as int] matches Value::Node(idx) && idx == *x);
                                }
                            },
                            _ => {
                                return Err(Error::Invalid("field has an invalid type in array"));
                            },
                        }
                        i = i + 1;
                    }
                    Ok(out)
                },
                _ => Err(Error::Invalid("field has an invalid type")),
            },
            None => Err(Error::Invalid("field is missing")),
        }
    }
}


impl NodeWalker {
    /// Read the value of the specified field as a `Vec` of string
    /// references.
    pub fn field_string_vec<'a>(&'a self, field_name: &str, default_value: Option<
        Vec<&'a String>,
    >) -> (r: Result<Vec<&'a String>, Error>)
        ensures
            match self.spec_field(field_name@) {
                Some(v) => match r {
                    Ok(xs) => v matches Value::Vector(vs) && xs@.len() == vs@.len() && (forall|
                        j: int,
                    |
                        0 <= j < vs@.len() ==> vs@[j] == Value::String(*#[trigger] xs@[j])),
                    Err(_) => !(v matches Value::Vector(vs) && (forall|j: int|
                        0 <= j < vs@.len() ==> (#[trigger] vs@[j]) is String)),
                },
                None => match (r, default_value) {
                    (Ok(xs), Some(d)) => xs == d,
                    (Err(_), None) => true,
                    _ => false,
                },
            },
    {
        match self.field(field_name) {
            Some(value) => match value {
                Value::Vector(vs) => {
                    let mut out: Vec<&String> = Vec::new();
                    let mut i: usize = 0;
                    while i < vs.len()
                        invariant
                            self.spec_field(field_name@) == Some(Value::Vector(*vs)),
                            i <= vs@.len(),
                            out@.len() == i,
                            forall|j: int|
                                0 <= j < i ==> vs@[j] == Value::String(*#[trigger] out@[j]),
                        decreases vs@.len() - i,
                    {
                        match &vs[i] {
                            Value::String(x) => out.push(x),
                            _ => {
                                return Err(Error::Invalid("field has an invalid type in array"));
                            },
                        }
                        i = i + 1;
                    }
                    Ok(out)
                },
                _ => Err(Error::Invalid("field has an invalid type")),
            },
            None => match default_value {
                Some(v) => Ok(v),
                None => Err(Error::Invalid("field is missing")),
            },
        }
    }

    /// Read the value of the specified field as a `Vec` of inner vectors.
    pub fn field_vec_vec<'a>(&'a self, field_name: &str, default_value: Option<
        Vec<&'a Vec<Value>>,
    >) -> (r: Result<Vec<&'a Vec<Value>>, Error>)
        ensures
            match self.spec_field(field_name@) {
                Some(v) => match r {
                    Ok(xs) => v matches Value::Vector(vs) && xs@.len() == vs@.len() && (forall|
                        j: int,
                    |
                        0 <= j < vs@.len() ==> vs@[j] == Value::Vector(*#[trigger] xs@[j])),
                    Err(_) => !(v matches Value::Vector(vs) && (forall|j: int|
                        0 <= j < vs@.len() ==> (#[trigger] vs@[j]) is Vector)),
                },
                None => match (r, default_value) {
                    (Ok(xs), Some(d)) => xs == d,
                    (Err(_), None) => true,
                    _ => false,
                },
            },
    {
        match self.field(field_name) {
            Some(value) => match value {
                Value::Vector(vs) => {
                    let mut out: Vec<&Vec<Value>> = Vec::new();
                    let mut i: usize = 0;
                    while i < vs.len()
                        invariant
                            self.spec_field(field_name@) == Some(Value::Vector(*vs)),
                            i <= vs@.len(),
                            out@.len() == i,
                            forall|j: int|
                                0 <= j < i ==> vs@[j] == Value::Vector(*#[trigger] out@[j]),
                        decreases vs@.len() - i,
                    {
                        match &vs[i] {
                            Value::Vector(x) => out.push(x),
                            _ => {
                                return Err(Error::Invalid("field has an invalid type in array"));
                            },
                        }
                        i = i + 1;
                    }
                    Ok(out)
                },
                _ => Err(Error::Invalid("field has an invalid type")),
            },
            None => match default_value {
                Some(v) => Ok(v),
                None => Err(Error::Invalid("field is missing")),
            },
        }
    }
}

} // verus!
