//! Schema definitions and decoded nodes.
use vstd::prelude::*;

verus! {

use std::rc::Rc;
use crate::value::{value_indices_below, Value};

/// A decoded node: a schema definition, a bit per inherited field saying
/// whether the field carries a value, and the values of the set fields in
/// inherited-field order.
#[derive(Debug)]
pub struct Node {
    /// The schema this node was decoded against.
    pub definition: Rc<Definition>,
    /// One flag per inherited field, in parent-first order.
    pub field_mask: Vec<bool>,
    /// One value per set flag of `field_mask`, in the same order.
    pub values: Vec<Value>,
}

/// A named, versioned struct schema with an optional parent and ordered
/// fields of its own.
#[derive(Debug)]
pub struct Definition {
    /// Schema name.
    pub name: String,
    /// Schema version.
    pub version: i32,
    /// Parent schema; fields are inherited parent-first.
    pub parent: Option<Rc<Definition>>,
    /// This schema's own fields, in declaration order.
    pub fields: Vec<Field>,
}

/// A single schema field: a name and a typed kind.
#[derive(Debug)]
pub struct Field {
    /// Field name.
    pub name: String,
    /// Field kind.
    pub kind: FieldKind,
}

/// The kind of a schema field.
#[derive(Debug)]
pub enum FieldKind {
    /// Carries no payload.
    Void,
    /// A single byte.
    Byte,
    /// A signed variable-length integer.
    Integer,
    /// A 32-bit float (held as its IEEE-754 bit pattern).
    Float,
    /// A pooled string.
    String,
    /// An inline node of the named schema.
    Struct(String),
    /// A reference to a node of the named schema.
    Reference(String),
    /// A counted sequence of the inner kind.
    Vector(Box<FieldKind>),
    /// A fixed-size sequence of the inner kind.
    Array(Box<FieldKind>, usize),
}

/// The fields of the whole inheritance chain: the parent chain's fields
/// parent-first, with `d`'s own fields last.
pub open spec fn inherited_fields(d: Definition) -> Seq<Field>
    decreases d,
{
    match d.parent {
        Some(p) => inherited_fields(*p) + d.fields@,
        None => d.fields@,
    }
}

/// The number of set flags in a mask.
pub open spec fn count_true(s: Seq<bool>) -> int
    decreases s.len(),
{
    if s.len() == 0 {
        0
    } else {
        count_true(s.drop_last()) + if s.last() {
            1int
        } else {
            0int
        }
    }
}

/// A well-formed node against a node array of length `nnodes`: one mask flag
/// per inherited field, one value per set flag, and every node index inside
/// a value in range.
pub open spec fn node_wf(n: Node, nnodes: int) -> bool {
    &&& n.field_mask@.len() == inherited_fields(*n.definition).len()
    &&& n.values@.len() == count_true(n.field_mask@)
    &&& forall|i: int|
        0 <= i < n.values@.len() ==> value_indices_below(#[trigger] n.values@[i], nnodes)
}

/// Node well-formedness is kept when the node array only grows.
pub proof fn lemma_node_wf_grow(n: Node, a: int, b: int)
    requires
        node_wf(n, a),
        a <= b,
    ensures
        node_wf(n, b),
{
    assert forall|i: int| 0 <= i < n.values@.len() implies value_indices_below(
        #[trigger] n.values@[i],
        b,
    ) by {
        crate::value::lemma_value_indices_mono(n.values@[i], a, b);
    }
}

/// Whether `name` occurs on the parent chain of `d` (including `d` itself).
pub open spec fn chain_has_name(d: Definition, name: Seq<char>) -> bool
    decreases d,
{
    d.name@ == name || (match d.parent {
        Some(p) => chain_has_name(*p, name),
        None => false,
    })
}

impl Clone for FieldKind {
    fn clone(&self) -> (r: Self)
        ensures
            r == *self,
        decreases *self,
    {
        match self {
            FieldKind::Void => FieldKind::Void,
            FieldKind::Byte => FieldKind::Byte,
            FieldKind::Integer => FieldKind::Integer,
            FieldKind::Float => FieldKind::Float,
            FieldKind::String => FieldKind::String,
            FieldKind::Struct(name) => FieldKind::Struct(name.clone()),
            FieldKind::Reference(name) => FieldKind::Reference(name.clone()),
            FieldKind::Vector(inner) => FieldKind::Vector(Box::new((**inner).clone())),
            FieldKind::Array(inner, count) => FieldKind::Array(Box::new((**inner).clone()), *count),
        }
    }
}

impl Clone for Field {
    fn clone(&self) -> (r: Self)
        ensures
            r == *self,
    {
        Field { name: self.name.clone(), kind: self.kind.clone() }
    }
}

impl Definition {
    /// All fields of the inheritance chain, parent-first, own fields last.
    pub fn fields(&self) -> (r: Vec<Field>)
        ensures
            r@ == inherited_fields(*self),
        decreases *self,
    {
        let mut r: Vec<Field> = match &self.parent {
            Some(p) => p.fields(),
            None => Vec::new(),
        };
        let mut i: usize = 0;
        while i < self.fields.len()
            invariant
                i <= self.fields@.len(),
                r@ == (match self.parent {
                    Some(p) => inherited_fields(*p),
                    None => Seq::<Field>::empty(),
                }) + self.fields@.subrange(0, i as int),
            decreases self.fields@.len() - i,
        {
            r.push(self.fields[i].clone());
            i = i + 1;
        }
        proof {
            assert(self.fields@.subrange(0, self.fields@.len() as int) =~= self.fields@);
            assert(match self.parent {
                Some(p) => r@ =~= inherited_fields(*p) + self.fields@,
                None => r@ =~= self.fields@,
            });
        }
        r
    }
}

} // verus!
