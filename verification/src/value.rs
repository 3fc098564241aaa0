//! Field values carried by decoded nodes.
use vstd::prelude::*;

verus! {

/// Value of a field in a node.
///
/// Floats are held as their IEEE-754 bit patterns so that the decoder stays
/// free of floating-point arithmetic; `Node` holds an index into the node
/// array, never an owning reference.
#[derive(Debug)]
pub enum Value {
    /// A single byte.
    U8(u8),
    /// A signed 32-bit integer.
    I32(i32),
    /// The IEEE-754 bit pattern of a 32-bit float.
    F32(u32),
    /// A pooled string.
    String(String),
    /// An index into the node array.
    Node(usize),
    /// A sequence of values.
    Vector(Vec<Value>),
}

/// Whether every node index inside `v` is below `n`, the node-array length.
pub open spec fn value_indices_below(v: Value, n: int) -> bool
    decreases v,
{
    match v {
        Value::Node(idx) => idx < n,
        Value::Vector(vs) => forall|i: int|
            0 <= i < vs@.len() ==> value_indices_below(#[trigger] vs@[i], n),
        _ => true,
    }
}

/// A value with its indices below `a` also has them below any larger `b`.
pub proof fn lemma_value_indices_mono(v: Value, a: int, b: int)
    requires
        value_indices_below(v, a),
        a <= b,
    ensures
        value_indices_below(v, b),
    decreases v,
{
    match v {
        Value::Vector(vs) => {
            assert forall|i: int| 0 <= i < vs@.len() implies value_indices_below(
                #[trigger] vs@[i],
                b,
            ) by {
                lemma_value_indices_mono(vs@[i], a, b);
            }
        },
        _ => {},
    }
}

/// Deep equality between two values: equal tags, equal payloads, with
/// strings compared by their characters and vectors element-wise.
pub open spec fn value_like(a: Value, b: Value) -> bool
    decreases a,
{
    match (a, b) {
        (Value::U8(x), Value::U8(y)) => x == y,
        (Value::I32(x), Value::I32(y)) => x == y,
        (Value::F32(x), Value::F32(y)) => x == y,
        (Value::String(x), Value::String(y)) => x@ == y@,
        (Value::Node(x), Value::Node(y)) => x == y,
        (Value::Vector(xs), Value::Vector(ys)) => xs@.len() == ys@.len() && (forall|i: int|
            0 <= i < xs@.len() ==> value_like(#[trigger] xs@[i], ys@[i])),
        _ => false,
    }
}

/// Deep equality keeps every node index, so it keeps `value_indices_below`.
pub proof fn lemma_value_like_indices(a: Value, b: Value, n: int)
    requires
        value_like(a, b),
        value_indices_below(b, n),
    ensures
        value_indices_below(a, n),
    decreases a,
{
    match (a, b) {
        (Value::Vector(xs), Value::Vector(ys)) => {
            assert forall|i: int| 0 <= i < xs@.len() implies value_indices_below(
                #[trigger] xs@[i],
                n,
            ) by {
                lemma_value_like_indices(xs@[i], ys@[i], n);
            }
        },
        _ => {},
    }
}

/// An error returned when a value does not have the requested kind.
#[derive(Debug)]
pub struct TryFromValueError {
    /// The value that was found.
    pub value: Value,
    /// The kind that was requested.
    pub expected: &'static str,
}

impl Clone for Value {
    fn clone(&self) -> (r: Self)
        ensures
            value_like(r, *self),
        decreases *self,
    {
        match self {
            Value::U8(x) => Value::U8(*x),
            Value::I32(x) => Value::I32(*x),
            Value::F32(x) => Value::F32(*x),
            Value::String(s) => Value::String(s.clone()),
            Value::Node(idx) => Value::Node(*idx),
            Value::Vector(vs) => {
                let mut r: Vec<Value> = Vec::new();
                let mut i: usize = 0;
                while i < vs.len()
                    invariant
                        *self is Vector,
                        (*self)->Vector_0 == *vs,
                        i <= vs@.len(),
                        r@.len() == i,
                        forall|j: int| 0 <= j < i ==> value_like(#[trigger] r@[j], vs@[j]),
                    decreases vs@.len() - i,
                {
                    proof {
                        assert(decreases_to!(*self => (*self)->Vector_0));
                        assert(decreases_to!((*self)->Vector_0 => (*self)->Vector_0@[i as int]));
                        assert((*self)->Vector_0 == *vs);
                    }
                    r.push(vs[i].clone());
                    i = i + 1;
                }
                Value::Vector(r)
            },
        }
    }
}

impl Value {
    /// The byte inside, if this is `U8`.
    pub fn as_u8(&self) -> (r: Option<&u8>)
        ensures
            match r {
                Some(x) => *self matches Value::U8(y) && x == y,
                None => !(*self matches Value::U8(_)),
            },
    {
        match self {
            Value::U8(x) => Some(x),
            _ => None,
        }
    }

    /// The integer inside, if this is `I32`.
    pub fn as_i32(&self) -> (r: Option<&i32>)
        ensures
            match r {
                Some(x) => *self matches Value::I32(y) && x == y,
                None => !(*self matches Value::I32(_)),
            },
    {
        match self {
            Value::I32(x) => Some(x),
            _ => None,
        }
    }

    /// The float bit pattern inside, if this is `F32`.
    pub fn as_f32_bits(&self) -> (r: Option<&u32>)
        ensures
            match r {
                Some(x) => *self matches Value::F32(y) && x == y,
                None => !(*self matches Value::F32(_)),
            },
    {
        match self {
            Value::F32(x) => Some(x),
            _ => None,
        }
    }

    /// The string inside, if this is `String`.
    pub fn as_string(&self) -> (r: Option<&String>)
        ensures
            match r {
                Some(x) => *self matches Value::String(y) && x == y,
                None => !(*self matches Value::String(_)),
            },
    {
        match self {
            Value::String(x) => Some(x),
            _ => None,
        }
    }

    /// The node index inside, if this is `Node`.
    pub fn as_node(&self) -> (r: Option<&usize>)
        ensures
            match r {
                Some(x) => *self matches Value::Node(y) && x == y,
                None => !(*self matches Value::Node(_)),
            },
    {
        match self {
            Value::Node(x) => Some(x),
            _ => None,
        }
    }

    /// The values inside, if this is `Vector`.
    pub fn as_vector(&self) -> (r: Option<&Vec<Value>>)
        ensures
            match r {
                Some(x) => *self matches Value::Vector(y) && x == y,
                None => !(*self matches Value::Vector(_)),
            },
    {
        match self {
            Value::Vector(x) => Some(x),
            _ => None,
        }
    }
}


impl Value {
    /// The byte inside, or a kind error.
    pub fn try_u8(&self) -> (r: Result<u8, TryFromValueError>)
        ensures
            match r {
                Ok(x) => *self == Value::U8(x),
                Err(e) => !(*self is U8) && value_like(e.value, *self) && e.expected@ == "U8"@,
            },
    {
        match self {
            Value::U8(x) => Ok(*x),
            _ => Err(TryFromValueError { value: self.clone(), expected: "U8" }),
        }
    }

    /// The integer inside, or a kind error.
    pub fn try_i32(&self) -> (r: Result<i32, TryFromValueError>)
        ensures
            match r {
                Ok(x) => *self == Value::I32(x),
                Err(e) => !(*self is I32) && value_like(e.value, *self) && e.expected@ == "I32"@,
            },
    {
        match self {
            Value::I32(x) => Ok(*x),
            _ => Err(TryFromValueError { value: self.clone(), expected: "I32" }),
        }
    }

    /// The float bit pattern inside, or a kind error.
    pub fn try_f32_bits(&self) -> (r: Result<u32, TryFromValueError>)
        ensures
            match r {
                Ok(x) => *self == Value::F32(x),
                Err(e) => !(*self is F32) && value_like(e.value, *self) && e.expected@ == "F32"@,
            },
    {
        match self {
            Value::F32(x) => Ok(*x),
            _ => Err(TryFromValueError { value: self.clone(), expected: "F32" }),
        }
    }

    /// The string inside, or a kind error.
    pub fn try_string(&self) -> (r: Result<String, TryFromValueError>)
        ensures
            match r {
                Ok(x) => *self matches Value::String(s) && x@ == s@,
                Err(e) => !(*self is String) && value_like(e.value, *self) && e.expected@
                    == "String"@,
            },
    {
        match self {
            Value::String(x) => Ok(x.clone()),
            _ => Err(TryFromValueError { value: self.clone(), expected: "String" }),
        }
    }
}

} // verus!
