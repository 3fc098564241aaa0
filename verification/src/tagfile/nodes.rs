//! Reading node instances: slot reservation, field masks, and values.
use vstd::prelude::*;

verus! {

use std::rc::Rc;
use crate::error::Error;
use crate::node::{count_true, inherited_fields, lemma_node_wf_grow, node_wf, Definition, Field,
    FieldKind, Node};
use crate::value::{
    lemma_value_indices_mono, lemma_value_like_indices, value_indices_below, value_like, Value,
};
use crate::tagfile::bitfield::{bitfield_bit, bitfield_bytes};
use crate::tagfile::common::{le_bytes_val, read_u8, read_u32};
use crate::tagfile::state::{
    lemma_pending_find_mem, lemma_seq_prefix_trans, pending_find, state_wf, Tagfile,
};
use crate::tagfile::string::{spec_cached_string, strings_read, strings_view};
use crate::tagfile::varint::{read_i32, varint_end, varint_value, varints_read};

/// The position after `n` consecutive reference varints at `pos`, when all
/// of them resolve: each must decode, be non-negative, and not name the
/// sentinel entry of the reference pool.
pub open spec fn refs_read_ok(data: Seq<u8>, pos: int, refs: Seq<usize>, n: nat) -> Option<int>
    decreases n,
{
    if n == 0 {
        Some(pos)
    } else {
        match varint_end(data, pos) {
            None => None,
            Some(e) => {
                let v = varint_value(data, pos) as int;
                if v < 0 || (v < refs.len() && refs[v] == usize::MAX) {
                    None
                } else {
                    refs_read_ok(data, e, refs, (n - 1) as nat)
                }
            },
        }
    }
}

/// The bit patterns and end position of `n` consecutive little-endian
/// 32-bit floats at `pos`.
pub open spec fn floats_read(data: Seq<u8>, pos: int, n: nat) -> Option<(Seq<u32>, int)>
    decreases n,
{
    if n == 0 {
        Some((Seq::empty(), pos))
    } else if pos + 4 > data.len() {
        None
    } else {
        match floats_read(data, pos + 4, (n - 1) as nat) {
            None => None,
            Some((rest, end)) => Some((seq![le_bytes_val(data, pos, 4) as u32] + rest, end)),
        }
    }
}

/// The float arrays and end position of `n` consecutive array elements at
/// `pos`: a four-float array is led by its own count varint, which must
/// decode to 3 or 4; other widths take exactly their floats.
pub open spec fn float_arrays_read(data: Seq<u8>, pos: int, width: int, n: nat) -> Option<
    (Seq<Seq<u32>>, int),
>
    decreases n,
{
    if n == 0 {
        Some((Seq::empty(), pos))
    } else {
        let head = if width == 4 {
            match varint_end(data, pos) {
                None => None,
                Some(e) => {
                    let ec = varint_value(data, pos) as int;
                    if ec == 3 || ec == 4 {
                        floats_read(data, e, ec as nat)
                    } else {
                        None
                    }
                },
            }
        } else {
            floats_read(data, pos, width as nat)
        };
        match head {
            None => None,
            Some((bits, e1)) => match float_arrays_read(data, e1, width, (n - 1) as nat) {
                None => None,
                Some((rest, end)) => Some((seq![bits] + rest, end)),
            },
        }
    }
}

/// The bit patterns of a sequence of `F32` values.
pub open spec fn u32s_of(vs: Seq<Value>) -> Seq<u32> {
    Seq::new(vs.len(), |j: int| vs[j]->F32_0)
}

/// The per-element float bit patterns of a sequence of `Vector`-of-`F32`
/// values.
pub open spec fn f32_vecs_of(vs: Seq<Value>) -> Seq<Seq<u32>> {
    Seq::new(vs.len(), |j: int| u32s_of(vs[j]->Vector_0@))
}

/// The payloads of a sequence of `I32` values.
pub open spec fn i32s_of(vs: Seq<Value>) -> Seq<i32> {
    Seq::new(vs.len(), |j: int| vs[j]->I32_0)
}

/// The character views of a sequence of `String` values.
pub open spec fn strs_of(vs: Seq<Value>) -> Seq<Seq<char>> {
    Seq::new(vs.len(), |j: int| vs[j]->String_0@)
}

/// What one struct-vector column holds, for the column kinds with
/// byte-level readers.
pub enum ColumnView {
    /// An integer column's values.
    Ints(Seq<i32>),
    /// A string column's character sequences.
    Strs(Seq<Seq<char>>),
    /// A reference column; which slots the handles name depends on the
    /// reservation state, so only the shape is carried.
    Refs,
    /// A float-array column's per-element bit patterns.
    Floats(Seq<Seq<u32>>),
}

/// One column of `count` values at `pos`: its view, end position and pool
/// afterwards. `None` for a kind without a byte-level reader (an inline
/// struct column) or a malformed column.
pub open spec fn column_read(
    data: Seq<u8>,
    pos: int,
    pool: Seq<Option<Seq<char>>>,
    refs: Seq<usize>,
    kind: FieldKind,
    count: nat,
) -> Option<(ColumnView, int, Seq<Option<Seq<char>>>)> {
    match kind {
        FieldKind::Integer => match varint_end(data, pos) {
            None => None,
            Some(e1) => if varint_value(data, pos) == 4 {
                match varints_read(data, e1, count) {
                    None => None,
                    Some((ints, end)) => Some((ColumnView::Ints(ints), end, pool)),
                }
            } else {
                None
            },
        },
        FieldKind::String => match strings_read(data, pos, pool, count) {
            None => None,
            Some((css, end, pool_end)) => Some((ColumnView::Strs(css), end, pool_end)),
        },
        FieldKind::Reference(_) => match refs_read_ok(data, pos, refs, count) {
            None => None,
            Some(end) => Some((ColumnView::Refs, end, pool)),
        },
        FieldKind::Array(inner, n) => if *inner is Float && (n == 4 || n == 8 || n == 12 || n
            == 16) {
            match float_arrays_read(data, pos, n as int, count) {
                None => None,
                Some((arrs, end)) => Some((ColumnView::Floats(arrs), end, pool)),
            }
        } else {
            None
        },
        _ => None,
    }
}

/// The columns of a struct vector, one per set field from `fi` on, read
/// back to back.
pub open spec fn columns_read(
    data: Seq<u8>,
    pos: int,
    pool: Seq<Option<Seq<char>>>,
    refs: Seq<usize>,
    fields: Seq<Field>,
    mask: Seq<bool>,
    fi: int,
    count: nat,
) -> Option<(Seq<ColumnView>, int, Seq<Option<Seq<char>>>)>
    decreases fields.len() - fi,
{
    if fi < 0 || fi >= fields.len() {
        Some((Seq::empty(), pos, pool))
    } else if fi >= mask.len() || !mask[fi] {
        columns_read(data, pos, pool, refs, fields, mask, fi + 1, count)
    } else {
        match column_read(data, pos, pool, refs, fields[fi].kind, count) {
            None => None,
            Some((cv, e, pool1)) => match columns_read(
                data,
                e,
                pool1,
                refs,
                fields,
                mask,
                fi + 1,
                count,
            ) {
                None => None,
                Some((rest, end, pool_end)) => Some((seq![cv] + rest, end, pool_end)),
            },
        }
    }
}

/// Whether `v` is element `j` of a column with the given view.
pub open spec fn column_element_matches(v: Value, cv: ColumnView, j: int) -> bool {
    match cv {
        ColumnView::Ints(s) => v == Value::I32(s[j]),
        ColumnView::Strs(s) => v matches Value::String(x) && x@ == s[j],
        ColumnView::Refs => v is Node,
        ColumnView::Floats(s) => v matches Value::Vector(av) && (forall|k: int|
            0 <= k < av@.len() ==> (#[trigger] av@[k]) is F32) && u32s_of(av@) == s[j],
    }
}

/// Deep equality keeps column-element matching.
proof fn lemma_value_like_column_element(a: Value, b: Value, cv: ColumnView, j: int)
    requires
        value_like(a, b),
        column_element_matches(b, cv, j),
    ensures
        column_element_matches(a, cv, j),
{
    match cv {
        ColumnView::Floats(s) => {
            match (a, b) {
                (Value::Vector(xs), Value::Vector(ys)) => {
                    assert forall|k: int| 0 <= k < xs@.len() implies (#[trigger] xs@[k])
                        is F32 by {
                        assert(value_like(xs@[k], ys@[k]));
                    }
                    assert(u32s_of(xs@) =~= u32s_of(ys@)) by {
                        assert forall|k: int| 0 <= k < xs@.len() implies u32s_of(xs@)[k]
                            == u32s_of(ys@)[k] by {
                            assert(value_like(xs@[k], ys@[k]));
                        }
                    }
                },
                _ => {},
            }
        },
        _ => {},
    }
}

/// The `n` bitfield flags at `pos`, LSB-first.
pub open spec fn bitfield_mask(data: Seq<u8>, pos: int, n: nat) -> Seq<bool> {
    Seq::new(n, |i: int| bitfield_bit(data, pos, i))
}

/// The mask flags are exactly the bitfield read at `mpos`, with every bit
/// past the count clear.
pub open spec fn mask_read_at(data: Seq<u8>, mpos: int, mask: Seq<bool>) -> bool {
    &&& mpos + bitfield_bytes(mask.len() as int) <= data.len()
    &&& forall|i: int| 0 <= i < mask.len() ==> mask[i] == bitfield_bit(data, mpos, i)
    &&& forall|i: int|
        mask.len() <= i < 8 * bitfield_bytes(mask.len() as int) ==> !bitfield_bit(data, mpos, i)
}

/// What any node-reading step may do to the state: consume input (never past
/// the end), append to the string and reference pools, grow the node array
/// and fill its slots, and record pending references only for fresh slots.
pub open spec fn parse_step(pre: Tagfile, post: Tagfile) -> bool {
    &&& post.data == pre.data
    &&& post.version == pre.version
    &&& post.definitions == pre.definitions
    &&& pre.strings@.is_prefix_of(post.strings@)
    &&& pre.references@.is_prefix_of(post.references@)
    &&& post.nodes@.len() >= pre.nodes@.len()
    &&& forall|i: int|
        0 <= i < pre.nodes@.len() ==> ((#[trigger] pre.nodes@[i]) is Some ==> post.nodes@[i]
            == pre.nodes@[i])
    &&& post.pos >= pre.pos
    &&& (post.pos > pre.pos ==> post.pos <= post.data@.len())
    &&& forall|j: int|
        0 <= j < post.pending_references@.len() ==> (pre.pending_references@.contains(
            #[trigger] post.pending_references@[j],
        ) || post.pending_references@[j].1 >= pre.nodes@.len())
}

/// Reserved node slots that a step did not itself reserve stay unfilled;
/// this holds of every read except a reference-storing node read.
pub open spec fn nones_stay(pre: Tagfile, post: Tagfile) -> bool {
    forall|i: int|
        0 <= i < pre.nodes@.len() ==> ((#[trigger] pre.nodes@[i]) is None ==> post.nodes@[i]
            is None)
}

/// Doing nothing is a parse step.
pub proof fn lemma_parse_step_refl(t: Tagfile)
    ensures
        parse_step(t, t),
        nones_stay(t, t),
{
    assert(t.strings@ =~= t.strings@.subrange(0, t.strings@.len() as int));
    assert(t.references@ =~= t.references@.subrange(0, t.references@.len() as int));
    assert forall|j: int| 0 <= j < t.pending_references@.len() implies t.pending_references@
        .contains(#[trigger] t.pending_references@[j]) by {
        assert(0 <= j < t.pending_references@.len() && t.pending_references@[j]
            == t.pending_references@[j]);
    }
}

/// Parse steps compose.
pub proof fn lemma_parse_step_trans(a: Tagfile, b: Tagfile, c: Tagfile)
    requires
        parse_step(a, b),
        parse_step(b, c),
    ensures
        parse_step(a, c),
{
    lemma_seq_prefix_trans(a.strings@, b.strings@, c.strings@);
    lemma_seq_prefix_trans(a.references@, b.references@, c.references@);
    assert forall|j: int| 0 <= j < c.pending_references@.len() implies (a.pending_references@
        .contains(#[trigger] c.pending_references@[j]) || c.pending_references@[j].1
        >= a.nodes@.len()) by {
        let e = c.pending_references@[j];
        if b.pending_references@.contains(e) {
            let k = choose|k: int|
                0 <= k < b.pending_references@.len() && b.pending_references@[k] == e;
            assert(a.pending_references@.contains(b.pending_references@[k])
                || b.pending_references@[k].1 >= a.nodes@.len());
        }
    }
}

/// `nones_stay` composes along growing node arrays.
pub proof fn lemma_nones_stay_trans(a: Tagfile, b: Tagfile, c: Tagfile)
    requires
        nones_stay(a, b),
        nones_stay(b, c),
        b.nodes@.len() >= a.nodes@.len(),
    ensures
        nones_stay(a, c),
{
}

/// Values whose indices are below a bound stay below any larger bound.
proof fn lemma_values_still_below(vs: Seq<Value>, a: int, b: int)
    requires
        forall|j: int| 0 <= j < vs.len() ==> value_indices_below(#[trigger] vs[j], a),
        a <= b,
    ensures
        forall|j: int| 0 <= j < vs.len() ==> value_indices_below(#[trigger] vs[j], b),
{
    assert forall|j: int| 0 <= j < vs.len() implies value_indices_below(#[trigger] vs[j], b) by {
        lemma_value_indices_mono(vs[j], a, b);
    }
}

/// Copy a field mask.
fn copy_mask(v: &Vec<bool>) -> (r: Vec<bool>)
    ensures
        r@ == v@,
{
    let mut r: Vec<bool> = Vec::new();
    let mut i: usize = 0;
    while i < v.len()
        invariant
            i <= v@.len(),
            r@ =~= v@.subrange(0, i as int),
        decreases v@.len() - i,
    {
        r.push(v[i]);
        proof {
            assert(r@ =~= v@.subrange(0, i + 1));
        }
        i = i + 1;
    }
    proof {
        assert(r@ =~= v@);
    }
    r
}

/// The first set definition-pool entry named `name`, from position `i` on.
pub open spec fn spec_find_definition(
    defs: Seq<Option<Rc<Definition>>>,
    name: Seq<char>,
    i: int,
) -> Option<Rc<Definition>>
    decreases defs.len() - i,
{
    if i < 0 || i >= defs.len() {
        None
    } else {
        match defs[i] {
            Some(d) => if d.name@ == name {
                Some(d)
            } else {
                spec_find_definition(defs, name, i + 1)
            },
            None => spec_find_definition(defs, name, i + 1),
        }
    }
}

impl Tagfile {
    /// Find the first definition of the given name in the pool.
    fn find_definition(&self, name: &String) -> (r: Option<Rc<Definition>>)
        ensures
            r == spec_find_definition(self.definitions@, name@, 0),
            r matches Some(d) ==> d.name@ == name@ && (exists|i: int|
                0 <= i < self.definitions@.len() && self.definitions@[i] == Some(d)),
    {
        let mut i: usize = 0;
        while i < self.definitions.len()
            invariant
                i <= self.definitions@.len(),
                spec_find_definition(self.definitions@, name@, 0) == spec_find_definition(
                    self.definitions@,
                    name@,
                    i as int,
                ),
            decreases self.definitions@.len() - i,
        {
            match &self.definitions[i] {
                Some(d) => {
                    if d.name == *name {
                        proof {
                            assert(self.definitions@[i as int] == Some(*d));
                        }
                        return Some(d.clone());
                    }
                },
                None => {},
            }
            i = i + 1;
        }
        None
    }

    /// Resolve a reference varint: an index already in the reference pool
    /// names its node slot (the sentinel slot is rejected); a later index
    /// takes its reserved slot if one is pending, else reserves a fresh tail
    /// slot and records it as pending.
    fn read_value_node(&mut self) -> (r: Result<usize, Error>)
        requires
            state_wf(*old(self)),
        ensures
            parse_step(*old(self), *final(self)),
            nones_stay(*old(self), *final(self)),
            state_wf(*final(self)),
            final(self).strings == old(self).strings,
            final(self).definitions == old(self).definitions,
            final(self).references == old(self).references,
            match r {
                Ok(idx) => idx < final(self).nodes@.len(),
                Err(_) => true,
            },
            ({
                let dv = old(self).data@;
                let p0 = old(self).pos as int;
                if old(self).version < 2 {
                    r is Err && *final(self) == *old(self)
                } else {
                    match varint_end(dv, p0) {
                        None => r is Err && final(self).nodes == old(self).nodes && final(self).pending_references == old(self).pending_references,
                        Some(e) => {
                            let v = varint_value(dv, p0) as int;
                            &&& final(self).pos == e
                            &&& if v < 0 {
                                r is Err && final(self).nodes == old(self).nodes && final(self).pending_references == old(self).pending_references
                            } else if v < old(self).references@.len() {
                                &&& final(self).nodes == old(self).nodes
                                &&& final(self).pending_references == old(self).pending_references
                                &&& if old(self).references@[v] == usize::MAX {
                                    r is Err
                                } else {
                                    r == Ok::<usize, Error>(old(self).references@[v])
                                }
                            } else {
                                match pending_find(old(self).pending_references@, v as usize) {
                                    Some(slot) => r == Ok::<usize, Error>(slot) && final(self).nodes == old(self).nodes && final(self).pending_references
                                        == old(self).pending_references,
                                    None => {
                                        &&& r == Ok::<usize, Error>(
                                            old(self).nodes@.len() as usize,
                                        )
                                        &&& final(self).nodes@ == old(self).nodes@.push(None)
                                        &&& final(self).pending_references@ == old(self).pending_references@.push(
                                            (v as usize, old(self).nodes@.len() as usize),
                                        )
                                    },
                                }
                            }
                        },
                    }
                }
            }),
    {
        proof {
            lemma_parse_step_refl(*old(self));
        }
        if self.version < 2 {
            return Err(Error::Invalid("node references need format version 2"));
        }
        let reference_index = read_i32(self.data.as_slice(), &mut self.pos)?;
        if reference_index < 0 {
            return Err(Error::Invalid("negative reference index"));
        }
        let rid = reference_index as usize;
        if rid < self.references.len() {
            let idx = self.references[rid];
            if idx == usize::MAX {
                return Err(Error::Invalid("reference names the sentinel slot"));
            }
            return Ok(idx);
        }
        match self.pending_lookup(rid) {
            Some(slot) => {
                proof {
                    lemma_pending_find_mem(self.pending_references@, rid);
                }
                Ok(slot)
            },
            None => {
                let slot = self.nodes.len();
                let ghost pre = *self;
                self.nodes.push(None);
                self.pending_references.push((rid, slot));
                proof {
                    lemma_parse_step_refl(pre);
                    assert forall|i: int| 0 <= i < self.nodes@.len() implies ((
                    #[trigger] self.nodes@[i]) is Some ==> node_wf(
                        self.nodes@[i]->0,
                        self.nodes@.len() as int,
                    )) by {
                        if i < pre.nodes@.len() && self.nodes@[i] is Some {
                            lemma_node_wf_grow(
                                self.nodes@[i]->0,
                                pre.nodes@.len() as int,
                                self.nodes@.len() as int,
                            );
                        }
                    }
                }
                Ok(slot)
            },
        }
    }

    /// Read one value of the given field kind.
    fn read_value(&mut self, field: &Field) -> (r: Result<Value, Error>)
        requires
            state_wf(*old(self)),
        ensures
            parse_step(*old(self), *final(self)),
            nones_stay(*old(self), *final(self)),
            state_wf(*final(self)),
            final(self).references == old(self).references,
            match r {
                Ok(v) => value_indices_below(v, final(self).nodes@.len() as int),
                Err(_) => true,
            },
            ({
                let dv = old(self).data@;
                let p0 = old(self).pos as int;
                match field.kind {
                    FieldKind::Byte => r is Ok <==> p0 < dv.len(),
                    FieldKind::Integer => r is Ok <==> varint_end(dv, p0) is Some,
                    FieldKind::Float => r is Ok <==> p0 + 4 <= dv.len(),
                    FieldKind::String => r is Ok <==> spec_cached_string(
                        dv,
                        p0,
                        strings_view(old(self).strings@),
                    ) is Some,
                    FieldKind::Reference(_) => r is Ok <==> (old(self).version >= 2 && varint_end(
                        dv,
                        p0,
                    ) is Some && {
                        let v = varint_value(dv, p0) as int;
                        &&& v >= 0
                        &&& (v < old(self).references@.len() ==> old(self).references@[v]
                            != usize::MAX)
                    }),
                    FieldKind::Array(inner, n) => if *inner is Float && (n == 4 || n == 8 || n
                        == 12 || n == 16) {
                        r is Ok <==> float_arrays_read(dv, p0, n as int, 1) is Some
                    } else {
                        r is Err
                    },
                    _ => true,
                }
            }),
            r matches Ok(v) ==> ({
                let dv = old(self).data@;
                let p0 = old(self).pos as int;
                match field.kind {
                    FieldKind::Byte => p0 < dv.len() && v == Value::U8(dv[p0]) && final(self).pos
                        == p0 + 1,
                    FieldKind::Integer => varint_end(dv, p0) == Some(final(self).pos as int) && v
                        == Value::I32(varint_value(dv, p0)),
                    FieldKind::Float => p0 + 4 <= dv.len() && v == Value::F32(
                        le_bytes_val(dv, p0, 4) as u32,
                    ) && final(self).pos == p0 + 4,
                    FieldKind::String => (v matches Value::String(sv)
                        && spec_cached_string(dv, p0, strings_view(old(self).strings@)) matches
                        Some((cs, e, pl)) && sv@ == cs && final(self).pos == e && strings_view(
                        final(self).strings@,
                    ) == pl),
                    FieldKind::Struct(_) => v is Node,
                    FieldKind::Reference(_) => v is Node,
                    FieldKind::Vector(_) => v is Vector,
                    FieldKind::Array(_, n) => (v matches Value::Vector(av) && (forall|j: int|
                        0 <= j < av@.len() ==> (#[trigger] av@[j]) is F32) && (if n == 4 {
                        av@.len() == 3 || av@.len() == 4
                    } else {
                        av@.len() == n
                    }) && (float_arrays_read(dv, p0, n as int, 1) matches Some((arrs, end))
                        && arrs == seq![u32s_of(av@)] && final(self).pos == end)),
                    FieldKind::Void => false,
                }
            }),
        decreases self.data@.len() - self.pos, 1int,
    {
        proof {
            lemma_parse_step_refl(*old(self));
        }
        match &field.kind {
            FieldKind::Byte => Ok(Value::U8(read_u8(self.data.as_slice(), &mut self.pos)?)),
            FieldKind::Integer => Ok(Value::I32(read_i32(self.data.as_slice(), &mut self.pos)?)),
            FieldKind::Float => Ok(Value::F32(read_u32(self.data.as_slice(), &mut self.pos)?)),
            FieldKind::String => Ok(Value::String(self.read_string()?)),
            FieldKind::Struct(name) => {
                if self.version < 2 {
                    return Err(Error::Invalid("struct values need format version 2"));
                }
                let definition = match self.find_definition(name) {
                    Some(d) => d,
                    None => {
                        return Err(Error::Invalid("missing definition for a struct field"));
                    },
                };
                Ok(Value::Node(self.read_node(Some(definition), false)?))
            },
            FieldKind::Reference(_) => Ok(Value::Node(self.read_value_node()?)),
            FieldKind::Vector(inner_kind) => {
                let count = read_i32(self.data.as_slice(), &mut self.pos)?;
                if count < 0 {
                    return Err(Error::Invalid("negative vector length"));
                }
                let values = self.read_value_vector(inner_kind, count as usize)?;
                Ok(Value::Vector(values))
            },
            FieldKind::Array(inner, count) => {
                if !(matches!(**inner, FieldKind::Float) && (*count == 4 || *count == 8 || *count
                    == 12 || *count == 16)) {
                    return Err(Error::Invalid("unexpected array kind"));
                }
                // Four-float arrays may be stored with only three floats.
                let mut final_count: usize = *count;
                if final_count == 4 {
                    let effective = read_i32(self.data.as_slice(), &mut self.pos)?;
                    if !(effective == 3 || effective == 4) {
                        return Err(Error::Invalid("unexpected array length"));
                    }
                    final_count = effective as usize;
                }
                let ghost fp0 = self.pos as int;
                let mut values: Vec<Value> = Vec::new();
                let mut i: usize = 0;
                proof {
                    reveal_with_fuel(float_arrays_read, 3);
                    match floats_read(old(self).data@, fp0, final_count as nat) {
                        Some((bits, e)) => {
                            assert(seq![bits] + Seq::<Seq<u32>>::empty() =~= seq![bits]);
                            assert(u32s_of(values@) + bits =~= bits);
                        },
                        None => {},
                    }
                }
                while i < final_count
                    invariant
                        field.kind matches FieldKind::Array(inner2, n2) && n2 == count && inner2
                            == inner,
                        if *count == 4 {
                            final_count == 3 || final_count == 4
                        } else {
                            final_count == *count
                        },
                        float_arrays_read(
                            old(self).data@,
                            old(self).pos as int,
                            *count as int,
                            1,
                        ) == (match floats_read(old(self).data@, fp0, final_count as nat) {
                            None => None::<(Seq<Seq<u32>>, int)>,
                            Some((bits, e)) => Some((seq![bits], e)),
                        }),
                        floats_read(old(self).data@, fp0, final_count as nat) == (match
                        floats_read(old(self).data@, self.pos as int, (final_count - i) as nat) {
                            None => None::<(Seq<u32>, int)>,
                            Some((rest, e)) => Some((u32s_of(values@) + rest, e)),
                        }),
                        state_wf(*self),
                        parse_step(*old(self), *self),
                        nones_stay(*old(self), *self),
                        self.references == old(self).references,
                        i <= final_count,
                        values@.len() == i,
                        forall|j: int| 0 <= j < values@.len() ==> (#[trigger] values@[j]) is F32,
                    decreases final_count - i,
                {
                    let ghost mid = *self;
                    let ghost pre_values = values@;
                    let bits = read_u32(self.data.as_slice(), &mut self.pos)?;
                    values.push(Value::F32(bits));
                    proof {
                        lemma_parse_step_refl(mid);
                        lemma_parse_step_trans(*old(self), mid, *self);
                        assert(u32s_of(values@) =~= u32s_of(pre_values).push(bits));
                        match floats_read(
                            old(self).data@,
                            self.pos as int,
                            (final_count - i - 1) as nat,
                        ) {
                            Some((rest, e)) => {
                                assert(u32s_of(pre_values) + (seq![bits] + rest) =~= u32s_of(
                                    values@,
                                ) + rest);
                            },
                            None => {},
                        }
                    }
                    i = i + 1;
                }
                proof {
                    assert(u32s_of(values@) + Seq::<u32>::empty() =~= u32s_of(values@));
                    assert forall|j: int| 0 <= j < values@.len() implies value_indices_below(
                        #[trigger] values@[j],
                        self.nodes@.len() as int,
                    ) by {}
                    assert(value_indices_below(Value::Vector(values), self.nodes@.len() as int));
                }
                Ok(Value::Vector(values))
            },
            FieldKind::Void => Err(Error::Invalid("unhandled field kind")),
        }
    }

    /// Read `count` values of the given kind, flattened column-major for
    /// struct elements.
    #[verifier::rlimit(100)]
    #[verifier::spinoff_prover]
    fn read_value_vector(&mut self, kind: &FieldKind, count: usize) -> (r: Result<
        Vec<Value>,
        Error,
    >)
        requires
            state_wf(*old(self)),
        ensures
            parse_step(*old(self), *final(self)),
            nones_stay(*old(self), *final(self)),
            state_wf(*final(self)),
            final(self).references == old(self).references,
            match r {
                Ok(vs) => vs@.len() == count && (forall|j: int|
                    0 <= j < vs@.len() ==> value_indices_below(
                        #[trigger] vs@[j],
                        final(self).nodes@.len() as int,
                    )) && (kind matches FieldKind::Array(_, n) ==> (forall|j: int|
                    0 <= j < vs@.len() ==> ((#[trigger] vs@[j]) matches Value::Vector(av) && (
                    forall|k: int| 0 <= k < av@.len() ==> (#[trigger] av@[k]) is F32) && (
                    if n == 4 {
                        av@.len() == 3 || av@.len() == 4
                    } else {
                        av@.len() == n
                    }))) && (float_arrays_read(
                    old(self).data@,
                    old(self).pos as int,
                    n as int,
                    count as nat,
                ) matches Some((arrs, end)) && f32_vecs_of(vs@) == arrs && final(self).pos
                    == end)) && (kind is Integer ==> forall|j: int|
                    0 <= j < vs@.len() ==> (#[trigger] vs@[j]) is I32) && (kind is String
                    ==> forall|j: int| 0 <= j < vs@.len() ==> (#[trigger] vs@[j]) is String) && (
                kind is Reference ==> forall|j: int|
                    0 <= j < vs@.len() ==> (#[trigger] vs@[j]) is Node) && (kind is Integer ==> (
                varint_end(old(self).data@, old(self).pos as int) matches Some(e1) && (
                varints_read(old(self).data@, e1, count as nat) matches Some((ints, end))
                    && i32s_of(vs@) == ints && final(self).pos == end))) && (kind is String ==> (
                strings_read(
                    old(self).data@,
                    old(self).pos as int,
                    strings_view(old(self).strings@),
                    count as nat,
                ) matches Some((css, end, pool_end)) && strs_of(vs@) == css && final(self).pos
                    == end && strings_view(final(self).strings@) == pool_end)) && (kind
                    is Reference ==> refs_read_ok(
                    old(self).data@,
                    old(self).pos as int,
                    old(self).references@,
                    count as nat,
                ) == Some(final(self).pos as int)) && (kind matches
                FieldKind::Struct(sname) ==> forall|j: int|
                    0 <= j < vs@.len() ==> ((#[trigger] vs@[j]) matches Value::Node(ix)
                        && ix == final(self).nodes@.len() - count + j && old(self).nodes@.len()
                        <= ix && (final(self).nodes@[ix as int] matches Some(n) && (
                        spec_find_definition(old(self).definitions@, sname@, 0) matches Some(d)
                            && n.definition == d) && mask_read_at(
                            old(self).data@,
                            old(self).pos as int,
                            n.field_mask@,
                        ) && n.field_mask@.len() == inherited_fields(*n.definition).len()))) && (
                kind matches FieldKind::Struct(sname) ==> ({
                    let dv = old(self).data@;
                    let p0 = old(self).pos as int;
                    match spec_find_definition(old(self).definitions@, sname@, 0) {
                        Some(d) => {
                            let flds = inherited_fields(*d);
                            let mseq = bitfield_mask(dv, p0, flds.len());
                            match columns_read(
                                dv,
                                p0 + bitfield_bytes(flds.len() as int),
                                strings_view(old(self).strings@),
                                old(self).references@,
                                flds,
                                mseq,
                                0,
                                count as nat,
                            ) {
                                Some((cols, end, pool_end)) => {
                                    &&& final(self).pos == end
                                    &&& strings_view(final(self).strings@) == pool_end
                                    &&& cols.len() == count_true(mseq)
                                    &&& r matches Ok(vs) ==> forall|j: int, c: int|
                                        0 <= j < count && 0 <= c < cols.len() ==> ((
                                        #[trigger] vs@[j]) matches Value::Node(ix) && (final(self).nodes@[ix as int] matches Some(n)
                                            && column_element_matches(
                                            n.values@[c],
                                            #[trigger] cols[c],
                                            j,
                                        )))
                                },
                                None => true,
                            }
                        },
                        None => true,
                    }
                })),
                Err(_) => true,
            },
            kind is Integer ==> (r is Ok <==> (old(self).version >= 3 && (varint_end(
                old(self).data@,
                old(self).pos as int,
            ) matches Some(e1) && varint_value(old(self).data@, old(self).pos as int) == 4
                && varints_read(old(self).data@, e1, count as nat) is Some))),
            kind is String ==> (r is Ok <==> strings_read(
                old(self).data@,
                old(self).pos as int,
                strings_view(old(self).strings@),
                count as nat,
            ) is Some),
            kind is Reference ==> (r is Ok <==> (count == 0 || (old(self).version >= 2
                && refs_read_ok(
                old(self).data@,
                old(self).pos as int,
                old(self).references@,
                count as nat,
            ) is Some))),
            (kind is Integer || kind is Reference || kind is Array) ==> final(self).strings
                == old(self).strings,
            kind matches FieldKind::Array(inner, n) ==> (if (**inner) is Float && (n == 4 || n
                == 8 || n == 12 || n == 16) {
                r is Ok <==> float_arrays_read(
                    old(self).data@,
                    old(self).pos as int,
                    n as int,
                    count as nat,
                ) is Some
            } else {
                r is Err
            }),
        decreases self.data@.len() - self.pos, 1int,
    {
        proof {
            lemma_parse_step_refl(*old(self));
        }
        match kind {
            FieldKind::Integer => {
                if self.version < 3 {
                    return Err(Error::Invalid("integer vectors need format version 3"));
                }
                let marker = read_i32(self.data.as_slice(), &mut self.pos)?;
                if marker != 4 {
                    return Err(Error::Invalid("unexpected integer vector marker"));
                }
                let ghost ip0 = self.pos as int;
                let mut values: Vec<Value> = Vec::new();
                let mut i: usize = 0;
                while i < count
                    invariant
                        kind is Integer,
                        self.strings == old(self).strings,
                        old(self).version >= 3,
                        varint_end(old(self).data@, old(self).pos as int) == Some(ip0),
                        varint_value(old(self).data@, old(self).pos as int) == 4,
                        state_wf(*self),
                        parse_step(*old(self), *self),
                        nones_stay(*old(self), *self),
                        self.references == old(self).references,
                        i <= count,
                        values@.len() == i,
                        forall|j: int| 0 <= j < values@.len() ==> (#[trigger] values@[j]) is I32,
                        varints_read(old(self).data@, ip0, count as nat) == (match varints_read(
                            old(self).data@,
                            self.pos as int,
                            (count - i) as nat,
                        ) {
                            None => None::<(Seq<i32>, int)>,
                            Some((rest, end)) => Some((i32s_of(values@) + rest, end)),
                        }),
                    decreases count - i,
                {
                    let ghost mid = *self;
                    let ghost pre_values = values@;
                    let v = read_i32(self.data.as_slice(), &mut self.pos)?;
                    values.push(Value::I32(v));
                    proof {
                        lemma_parse_step_refl(mid);
                        lemma_parse_step_trans(*old(self), mid, *self);
                        assert(i32s_of(values@) =~= i32s_of(pre_values).push(v));
                        match varints_read(old(self).data@, self.pos as int, (count - i
                            - 1) as nat) {
                            Some((rest, end)) => {
                                assert(i32s_of(pre_values) + (seq![v] + rest) =~= i32s_of(values@)
                                    + rest);
                            },
                            None => {},
                        }
                    }
                    i = i + 1;
                }
                proof {
                    assert(i32s_of(values@) + Seq::<i32>::empty() =~= i32s_of(values@));
                }
                proof {
                    assert forall|j: int| 0 <= j < values@.len() implies value_indices_below(
                        #[trigger] values@[j],
                        self.nodes@.len() as int,
                    ) by {}
                }
                Ok(values)
            },
            FieldKind::String => {
                let mut values: Vec<Value> = Vec::new();
                let mut i: usize = 0;
                while i < count
                    invariant
                        kind is String,
                        state_wf(*self),
                        parse_step(*old(self), *self),
                        nones_stay(*old(self), *self),
                        self.references == old(self).references,
                        i <= count,
                        values@.len() == i,
                        forall|j: int|
                            0 <= j < values@.len() ==> (#[trigger] values@[j]) is String,
                        strings_read(
                            old(self).data@,
                            old(self).pos as int,
                            strings_view(old(self).strings@),
                            count as nat,
                        ) == (match strings_read(
                            old(self).data@,
                            self.pos as int,
                            strings_view(self.strings@),
                            (count - i) as nat,
                        ) {
                            None => None::<(Seq<Seq<char>>, int, Seq<Option<Seq<char>>>)>,
                            Some((rest, end, pl)) => Some((strs_of(values@) + rest, end, pl)),
                        }),
                    decreases count - i,
                {
                    let ghost mid = *self;
                    let ghost pre_values = values@;
                    let s = self.read_string()?;
                    values.push(Value::String(s));
                    proof {
                        lemma_parse_step_refl(mid);
                        lemma_parse_step_trans(*old(self), mid, *self);
                        assert(strs_of(values@) =~= strs_of(pre_values).push(s@));
                        match strings_read(
                            old(self).data@,
                            self.pos as int,
                            strings_view(self.strings@),
                            (count - i - 1) as nat,
                        ) {
                            Some((rest, end, pl)) => {
                                assert(strs_of(pre_values) + (seq![s@] + rest) =~= strs_of(
                                    values@,
                                ) + rest);
                            },
                            None => {},
                        }
                    }
                    i = i + 1;
                }
                proof {
                    assert(strs_of(values@) + Seq::<Seq<char>>::empty() =~= strs_of(values@));
                }
                proof {
                    assert forall|j: int| 0 <= j < values@.len() implies value_indices_below(
                        #[trigger] values@[j],
                        self.nodes@.len() as int,
                    ) by {}
                }
                Ok(values)
            },
            FieldKind::Reference(_) => {
                let mut values: Vec<Value> = Vec::new();
                let mut i: usize = 0;
                while i < count
                    invariant
                        kind is Reference,
                        self.strings == old(self).strings,
                        state_wf(*self),
                        parse_step(*old(self), *self),
                        nones_stay(*old(self), *self),
                        self.references == old(self).references,
                        i <= count,
                        i > 0 ==> self.version >= 2,
                        values@.len() == i,
                        forall|j: int| 0 <= j < values@.len() ==> (#[trigger] values@[j]) is Node,
                        forall|j: int|
                            0 <= j < values@.len() ==> value_indices_below(
                                #[trigger] values@[j],
                                self.nodes@.len() as int,
                            ),
                        refs_read_ok(
                            old(self).data@,
                            old(self).pos as int,
                            old(self).references@,
                            count as nat,
                        ) == refs_read_ok(
                            old(self).data@,
                            self.pos as int,
                            old(self).references@,
                            (count - i) as nat,
                        ),
                    decreases count - i,
                {
                    let ghost mid = *self;
                    let idx = self.read_value_node()?;
                    proof {
                        lemma_parse_step_trans(*old(self), mid, *self);
                        lemma_nones_stay_trans(*old(self), mid, *self);
                        lemma_values_still_below(
                            values@,
                            mid.nodes@.len() as int,
                            self.nodes@.len() as int,
                        );
                    }
                    values.push(Value::Node(idx));
                    i = i + 1;
                }
                Ok(values)
            },
            FieldKind::Struct(definition_name) => {
                let definition = match self.find_definition(definition_name) {
                    Some(d) => d,
                    None => {
                        return Err(Error::Invalid("missing requested definition"));
                    },
                };

                // Columns: one full vector per set field, read back to back.
                let fields = definition.fields();
                let stored_fields = self.read_bitfield(fields.len())?;
                proof {
                    if fields@.len() >= 1 {
                        assert(bitfield_bytes(fields@.len() as int) >= 1);
                    }
                }
                let ghost dv = old(self).data@;
                let ghost refs0 = old(self).references@;
                let ghost cp0 = self.pos as int;
                let ghost pool_bf = strings_view(self.strings@);
                let ghost ctotal = columns_read(
                    dv,
                    cp0,
                    pool_bf,
                    refs0,
                    fields@,
                    stored_fields@,
                    0,
                    count as nat,
                );
                let ghost mut gcols: Seq<ColumnView> = Seq::empty();
                let mut columns: Vec<Vec<Value>> = Vec::new();
                let mut fi: usize = 0;
                while fi < fields.len()
                    invariant
                        kind is Struct,
                        mask_read_at(old(self).data@, old(self).pos as int, stored_fields@),
                        dv == old(self).data@,
                        refs0 == old(self).references@,
                        ctotal == columns_read(
                            dv,
                            cp0,
                            pool_bf,
                            refs0,
                            fields@,
                            stored_fields@,
                            0,
                            count as nat,
                        ),
                        ctotal is None || ctotal == (match columns_read(
                            dv,
                            self.pos as int,
                            strings_view(self.strings@),
                            refs0,
                            fields@,
                            stored_fields@,
                            fi as int,
                            count as nat,
                        ) {
                            None => None::<(Seq<ColumnView>, int, Seq<Option<Seq<char>>>)>,
                            Some((rest, e, pl)) => Some((gcols + rest, e, pl)),
                        }),
                        ctotal is Some ==> gcols.len() == columns@.len(),
                        ctotal is Some ==> forall|c: int, j: int|
                            0 <= c < columns@.len() && 0 <= j < count ==> column_element_matches(
                                #[trigger] columns@[c]@[j],
                                gcols[c],
                                j,
                            ),
                        state_wf(*self),
                        parse_step(*old(self), *self),
                        nones_stay(*old(self), *self),
                        self.references == old(self).references,
                        stored_fields@.len() >= 1 ==> self.pos > old(self).pos,
                        fi <= fields@.len(),
                        stored_fields@.len() == fields@.len(),
                        columns@.len() == count_true(stored_fields@.subrange(0, fi as int)),
                        forall|c: int|
                            0 <= c < columns@.len() ==> (#[trigger] columns@[c])@.len() == count,
                        forall|c: int, j: int|
                            0 <= c < columns@.len() && 0 <= j < count ==> value_indices_below(
                                #[trigger] columns@[c]@[j],
                                self.nodes@.len() as int,
                            ),
                    decreases fields@.len() - fi,
                {
                    proof {
                        assert(stored_fields@.subrange(0, fi + 1).drop_last() =~= stored_fields@
                            .subrange(0, fi as int));
                    }
                    if stored_fields[fi] {
                        let ghost mid = *self;
                        let ghost chead = column_read(
                            dv,
                            self.pos as int,
                            strings_view(self.strings@),
                            refs0,
                            fields@[fi as int].kind,
                            count as nat,
                        );
                        let column = self.read_value_vector(&fields[fi].kind, count)?;
                        columns.push(column);
                        proof {
                            lemma_parse_step_trans(*old(self), mid, *self);
                            lemma_nones_stay_trans(*old(self), mid, *self);
                            assert forall|c: int, j: int|
                                0 <= c < columns@.len() && 0 <= j
                                    < count implies value_indices_below(
                                #[trigger] columns@[c]@[j],
                                self.nodes@.len() as int,
                            ) by {
                                if c < columns@.len() - 1 {
                                    lemma_value_indices_mono(
                                        columns@[c]@[j],
                                        mid.nodes@.len() as int,
                                        self.nodes@.len() as int,
                                    );
                                }
                            }
                            let ghost (gcv, gce, gcpl) = if chead is Some {
                                chead->0
                            } else {
                                (ColumnView::Refs, 0int, pool_bf)
                            };
                            if ctotal is Some {
                                match fields@[fi as int].kind {
                                FieldKind::Integer => {
                                    assert(chead matches Some((cv2, ce2, cp2)) && cv2
                                        == ColumnView::Ints(i32s_of(column@)));
                                    assert forall|j: int| 0 <= j < count implies
                                    column_element_matches(column@[j], gcv, j) by {
                                        assert(column@[j] is I32 && i32s_of(column@)[j]
                                            == column@[j]->I32_0);
                                    }
                                },
                                FieldKind::String => {
                                    assert(chead matches Some((cv2, ce2, cp2)) && cv2
                                        == ColumnView::Strs(strs_of(column@)));
                                    assert forall|j: int| 0 <= j < count implies
                                    column_element_matches(column@[j], gcv, j) by {
                                        assert(column@[j] is String && strs_of(column@)[j]
                                            == column@[j]->String_0@);
                                    }
                                },
                                FieldKind::Reference(_) => {
                                    assert(chead matches Some((cv2, ce2, cp2)) && cv2
                                        == ColumnView::Refs);
                                    assert forall|j: int| 0 <= j < count implies
                                    column_element_matches(column@[j], gcv, j) by {
                                        assert(column@[j] is Node);
                                    }
                                },
                                FieldKind::Array(_, _) => {
                                    assert(chead matches Some((cv2, ce2, cp2)) && cv2
                                        == ColumnView::Floats(f32_vecs_of(column@)));
                                    assert forall|j: int| 0 <= j < count implies
                                    column_element_matches(column@[j], gcv, j) by {
                                        assert(column@[j] is Vector && f32_vecs_of(column@)[j]
                                            == u32s_of(column@[j]->Vector_0@));
                                    }
                                },
                                    _ => {},
                                }
                            }
                            match chead {
                                Some((cv, ce, cpl)) => {
                                    assert(ce == self.pos as int && cpl == strings_view(
                                        self.strings@,
                                    ) && (forall|j: int|
                                        0 <= j < count ==> column_element_matches(
                                            column@[j],
                                            cv,
                                            j,
                                        )));
                                    gcols = gcols.push(cv);
                                    match columns_read(
                                        dv,
                                        ce,
                                        cpl,
                                        refs0,
                                        fields@,
                                        stored_fields@,
                                        fi + 1,
                                        count as nat,
                                    ) {
                                        Some((rest, e, pl)) => {
                                            assert(gcols.drop_last() + (seq![cv] + rest)
                                                =~= gcols + rest);
                                        },
                                        None => {},
                                    }
                                },
                                None => {
                                    gcols = gcols.push(ColumnView::Refs);
                                },
                            }
                        }
                    }
                    fi = fi + 1;
                }
                proof {
                    assert(stored_fields@.subrange(0, stored_fields@.len() as int)
                        =~= stored_fields@);
                    if ctotal is Some {
                        assert(gcols + Seq::<ColumnView>::empty() =~= gcols);
                    }
                }

                // Collate the columns into one synthesized node per element.
                let ghost cbase = self.nodes@.len() as int;
                let mut values: Vec<Value> = Vec::new();
                let mut index: usize = 0;
                while index < count
                    invariant
                        kind matches FieldKind::Struct(sname2) && sname2 == definition_name,
                        definition.name@ == definition_name@,
                        dv == old(self).data@,
                        refs0 == old(self).references@,
                        pool_bf == strings_view(old(self).strings@),
                        cp0 == old(self).pos + bitfield_bytes(stored_fields@.len() as int),
                        mask_read_at(old(self).data@, old(self).pos as int, stored_fields@),
                        ctotal == columns_read(
                            dv,
                            cp0,
                            pool_bf,
                            refs0,
                            fields@,
                            stored_fields@,
                            0,
                            count as nat,
                        ),
                        ctotal is Some ==> ctotal == Some(
                            (gcols, self.pos as int, strings_view(self.strings@)),
                        ),
                        ctotal is Some ==> gcols.len() == columns@.len(),
                        ctotal is Some ==> forall|c: int, j: int|
                            0 <= c < columns@.len() && 0 <= j < count ==> column_element_matches(
                                #[trigger] columns@[c]@[j],
                                gcols[c],
                                j,
                            ),
                        state_wf(*self),
                        parse_step(*old(self), *self),
                        nones_stay(*old(self), *self),
                        self.references == old(self).references,
                        index <= count,
                        values@.len() == index,
                        mask_read_at(old(self).data@, old(self).pos as int, stored_fields@),
                        self.nodes@.len() == cbase + index,
                        old(self).nodes@.len() <= cbase,
                        definition == spec_find_definition(
                            old(self).definitions@,
                            definition_name@,
                            0,
                        )->0,
                        spec_find_definition(
                            old(self).definitions@,
                            definition_name@,
                            0,
                        ) is Some,
                        forall|j: int|
                            0 <= j < index ==> ((#[trigger] values@[j]) matches Value::Node(ix)
                                && ix == cbase + j && (self.nodes@[ix as int] matches Some(n)
                                && n.definition == definition && n.field_mask@ == stored_fields@
                                && n.values@.len() == columns@.len() && (ctotal is Some
                                ==> forall|c: int|
                                0 <= c < gcols.len() ==> column_element_matches(
                                    #[trigger] n.values@[c],
                                    gcols[c],
                                    j,
                                )))),
                        stored_fields@.len() == fields@.len(),
                        fields@ == inherited_fields(*definition),
                        columns@.len() == count_true(stored_fields@),
                        forall|c: int|
                            0 <= c < columns@.len() ==> (#[trigger] columns@[c])@.len() == count,
                        forall|c: int, j: int|
                            0 <= c < columns@.len() && 0 <= j < count ==> value_indices_below(
                                #[trigger] columns@[c]@[j],
                                self.nodes@.len() as int,
                            ),
                        forall|j: int|
                            0 <= j < values@.len() ==> value_indices_below(
                                #[trigger] values@[j],
                                self.nodes@.len() as int,
                            ),
                    decreases count - index,
                {
                    let ghost mid = *self;
                    let mut node_values: Vec<Value> = Vec::new();
                    let mut c: usize = 0;
                    while c < columns.len()
                        invariant
                            mid == *self,
                            index < count,
                            c <= columns@.len(),
                            node_values@.len() == c,
                            forall|x: int|
                                0 <= x < columns@.len() ==> (#[trigger] columns@[x])@.len()
                                    == count,
                            forall|x: int, j: int|
                                0 <= x < columns@.len() && 0 <= j < count ==> value_indices_below(
                                    #[trigger] columns@[x]@[j],
                                    self.nodes@.len() as int,
                                ),
                            forall|x: int|
                                0 <= x < node_values@.len() ==> value_indices_below(
                                    #[trigger] node_values@[x],
                                    self.nodes@.len() as int,
                                ),
                            ctotal is Some ==> gcols.len() == columns@.len(),
                            ctotal is Some ==> forall|x: int, j: int|
                                0 <= x < columns@.len() && 0 <= j
                                    < count ==> column_element_matches(
                                    #[trigger] columns@[x]@[j],
                                    gcols[x],
                                    j,
                                ),
                            ctotal is Some ==> forall|x: int|
                                0 <= x < node_values@.len() ==> column_element_matches(
                                    #[trigger] node_values@[x],
                                    gcols[x],
                                    index as int,
                                ),
                        decreases columns@.len() - c,
                    {
                        let v = columns[c][index].clone();
                        proof {
                            lemma_value_like_indices(
                                v,
                                columns@[c as int]@[index as int],
                                self.nodes@.len() as int,
                            );
                            if ctotal is Some {
                                lemma_value_like_column_element(
                                    v,
                                    columns@[c as int]@[index as int],
                                    gcols[c as int],
                                    index as int,
                                );
                            }
                        }
                        node_values.push(v);
                        c = c + 1;
                    }
                    let node = Node {
                        definition: definition.clone(),
                        field_mask: copy_mask(&stored_fields),
                        values: node_values,
                    };
                    let node_index = self.nodes.len();
                    let ghost before_push = *self;
                    self.nodes.push(Some(node));
                    proof {
                        assert(node_wf(node, before_push.nodes@.len() as int));
                        assert forall|i: int| 0 <= i < self.nodes@.len() implies ((
                        #[trigger] self.nodes@[i]) is Some ==> node_wf(
                            self.nodes@[i]->0,
                            self.nodes@.len() as int,
                        )) by {
                            if self.nodes@[i] is Some {
                                if i < before_push.nodes@.len() {
                                    lemma_node_wf_grow(
                                        self.nodes@[i]->0,
                                        before_push.nodes@.len() as int,
                                        self.nodes@.len() as int,
                                    );
                                } else {
                                    lemma_node_wf_grow(
                                        node,
                                        before_push.nodes@.len() as int,
                                        self.nodes@.len() as int,
                                    );
                                }
                            }
                        }
                        lemma_parse_step_refl(before_push);
                        lemma_parse_step_trans(*old(self), before_push, *self);
                        lemma_values_still_below(
                            values@,
                            mid.nodes@.len() as int,
                            self.nodes@.len() as int,
                        );
                        assert forall|x: int, j: int|
                            0 <= x < columns@.len() && 0 <= j < count implies value_indices_below(
                            #[trigger] columns@[x]@[j],
                            self.nodes@.len() as int,
                        ) by {
                            lemma_value_indices_mono(
                                columns@[x]@[j],
                                mid.nodes@.len() as int,
                                self.nodes@.len() as int,
                            );
                        }
                    }
                    values.push(Value::Node(node_index));
                    index = index + 1;
                }
                proof {
                    let p0 = old(self).pos as int;
                    let mseq = bitfield_mask(dv, p0, fields@.len());
                    assert(mseq =~= stored_fields@);
                    assert(columns_read(
                        dv,
                        p0 + bitfield_bytes(fields@.len() as int),
                        strings_view(old(self).strings@),
                        old(self).references@,
                        fields@,
                        mseq,
                        0,
                        count as nat,
                    ) == ctotal);
                    if ctotal is Some {
                        assert(count_true(mseq) == count_true(stored_fields@));
                        assert forall|j: int, c: int|
                            0 <= j < count && 0 <= c < gcols.len() implies ((
                        #[trigger] self.nodes@[self.nodes@.len() - count + j]) matches Some(n)
                            && column_element_matches(n.values@[c], #[trigger] gcols[c], j)) by {
                            assert(values@[j] matches Value::Node(ix) && ix == cbase + j);
                        }
                    }
                    match spec_find_definition(old(self).definitions@, definition_name@, 0) {
                        Some(d) => {
                            assert(*d == *definition);
                            assert(inherited_fields(*d) == fields@);
                            let mseq3 = bitfield_mask(dv, p0, fields@.len());
                            assert(mseq3 =~= mseq);
                            assert(mseq3 == mseq && mseq == stored_fields@);
                            match columns_read(
                                dv,
                                p0 + bitfield_bytes(fields@.len() as int),
                                strings_view(old(self).strings@),
                                old(self).references@,
                                fields@,
                                mseq3,
                                0,
                                count as nat,
                            ) {
                                Some((cols, end, pool_end)) => {
                                    assert(cols == gcols && end == self.pos as int && pool_end
                                        == strings_view(self.strings@));
                                    assert(cols.len() == count_true(mseq3));
                                    assert forall|j: int, c: int|
                                        0 <= j < count && 0 <= c < cols.len() implies ((
                                    #[trigger] self.nodes@[self.nodes@.len() - count
                                        + j]) matches Some(n) && column_element_matches(
                                        n.values@[c],
                                        #[trigger] cols[c],
                                        j,
                                    )) by {
                                        assert(values@[j] matches Value::Node(ix) && ix == cbase
                                            + j);
                                    }
                                },
                                None => {},
                            }
                        },
                        None => {
                            assert(false);
                        },
                    }
                }
                Ok(values)
            },
            FieldKind::Array(inner, array_count) => {
                if !(matches!(**inner, FieldKind::Float) && (*array_count == 4 || *array_count == 8
                    || *array_count == 12 || *array_count == 16)) {
                    return Err(Error::Invalid("unexpected vector of array kind"));
                }
                let mut values: Vec<Value> = Vec::new();
                let mut i: usize = 0;
                proof {
                    lemma_parse_step_refl(*old(self));
                }
                while i < count
                    invariant
                        kind matches FieldKind::Array(inner2, ac) && inner2 == inner && ac
                            == array_count,
                        self.strings == old(self).strings,
                        *array_count == 4 || *array_count == 8 || *array_count == 12
                            || *array_count == 16,
                        float_arrays_read(
                            old(self).data@,
                            old(self).pos as int,
                            *array_count as int,
                            count as nat,
                        ) == (match float_arrays_read(
                            old(self).data@,
                            self.pos as int,
                            *array_count as int,
                            (count - i) as nat,
                        ) {
                            None => None::<(Seq<Seq<u32>>, int)>,
                            Some((rest, e)) => Some((f32_vecs_of(values@) + rest, e)),
                        }),
                        state_wf(*self),
                        parse_step(*old(self), *self),
                        nones_stay(*old(self), *self),
                        self.references == old(self).references,
                        i <= count,
                        values@.len() == i,
                        forall|j: int|
                            0 <= j < values@.len() ==> ((#[trigger] values@[j]) matches
                            Value::Vector(av) && (forall|k: int|
                                0 <= k < av@.len() ==> (#[trigger] av@[k]) is F32) && (
                            if *array_count == 4 {
                                av@.len() == 3 || av@.len() == 4
                            } else {
                                av@.len() == *array_count
                            })),
                        forall|j: int|
                            0 <= j < values@.len() ==> value_indices_below(
                                #[trigger] values@[j],
                                self.nodes@.len() as int,
                            ),
                    decreases count - i,
                {
                    let ghost mid = *self;
                    let ghost pre_values = values@;
                    // A four-float array may be stored with only three
                    // floats; each element carries its own count.
                    let mut final_count: usize = *array_count;
                    if final_count == 4 {
                        let effective = read_i32(self.data.as_slice(), &mut self.pos)?;
                        if !(effective == 3 || effective == 4) {
                            return Err(Error::Invalid("unexpected array length"));
                        }
                        final_count = effective as usize;
                    }
                    let ghost fp0 = self.pos as int;
                    let mut array: Vec<Value> = Vec::new();
                    let mut k: usize = 0;
                    proof {
                        lemma_parse_step_refl(mid);
                        lemma_parse_step_trans(*old(self), mid, *self);
                    }
                    while k < final_count
                        invariant
                            kind matches FieldKind::Array(inner2, ac) && ac == array_count,
                            self.strings == old(self).strings,
                            i < count,
                            if *array_count == 4 {
                                final_count == 3 || final_count == 4
                            } else {
                                final_count == *array_count as int
                            },
                            float_arrays_read(
                                old(self).data@,
                                old(self).pos as int,
                                *array_count as int,
                                count as nat,
                            ) == (match floats_read(
                                old(self).data@,
                                fp0,
                                final_count as nat,
                            ) {
                                None => None::<(Seq<Seq<u32>>, int)>,
                                Some((bits, e1)) => match float_arrays_read(
                                    old(self).data@,
                                    e1,
                                    *array_count as int,
                                    (count - i - 1) as nat,
                                ) {
                                    None => None::<(Seq<Seq<u32>>, int)>,
                                    Some((rest, e)) => Some(
                                        (f32_vecs_of(values@) + (seq![bits] + rest), e),
                                    ),
                                },
                            }),
                            floats_read(old(self).data@, fp0, final_count as nat) == (match
                            floats_read(
                                old(self).data@,
                                self.pos as int,
                                (final_count - k) as nat,
                            ) {
                                None => None::<(Seq<u32>, int)>,
                                Some((rest, e)) => Some((u32s_of(array@) + rest, e)),
                            }),
                            state_wf(*self),
                            parse_step(*old(self), *self),
                            nones_stay(*old(self), *self),
                            self.references == old(self).references,
                            parse_step(mid, *self),
                            self.nodes == mid.nodes,
                            k <= final_count,
                            array@.len() == k,
                            forall|j: int| 0 <= j < array@.len() ==> (#[trigger] array@[j]) is F32,
                        decreases final_count - k,
                    {
                        let ghost mid2 = *self;
                        let ghost pre_array = array@;
                        let bits = read_u32(self.data.as_slice(), &mut self.pos)?;
                        array.push(Value::F32(bits));
                        proof {
                            lemma_parse_step_refl(mid2);
                            lemma_parse_step_trans(*old(self), mid2, *self);
                            lemma_parse_step_trans(mid, mid2, *self);
                            assert(u32s_of(array@) =~= u32s_of(pre_array).push(bits));
                            match floats_read(
                                old(self).data@,
                                self.pos as int,
                                (final_count - k - 1) as nat,
                            ) {
                                Some((rest, e)) => {
                                    assert(u32s_of(pre_array) + (seq![bits] + rest) =~= u32s_of(
                                        array@,
                                    ) + rest);
                                },
                                None => {},
                            }
                        }
                        k = k + 1;
                    }
                    proof {
                        assert(u32s_of(array@) + Seq::<u32>::empty() =~= u32s_of(array@));
                        assert forall|j: int| 0 <= j < array@.len() implies value_indices_below(
                            #[trigger] array@[j],
                            self.nodes@.len() as int,
                        ) by {}
                        assert(value_indices_below(Value::Vector(array), self.nodes@.len() as int));
                        lemma_values_still_below(
                            values@,
                            mid.nodes@.len() as int,
                            self.nodes@.len() as int,
                        );
                    }
                    values.push(Value::Vector(array));
                    proof {
                        assert(f32_vecs_of(values@) =~= f32_vecs_of(pre_values).push(
                            u32s_of(array@),
                        ));
                        match float_arrays_read(
                            old(self).data@,
                            self.pos as int,
                            *array_count as int,
                            (count - i - 1) as nat,
                        ) {
                            Some((rest, e)) => {
                                assert(f32_vecs_of(pre_values) + (seq![u32s_of(array@)] + rest)
                                    =~= f32_vecs_of(values@) + rest);
                            },
                            None => {},
                        }
                    }
                    i = i + 1;
                }
                proof {
                    assert(f32_vecs_of(values@) + Seq::<Seq<u32>>::empty() =~= f32_vecs_of(
                        values@,
                    ));
                }
                Ok(values)
            },
            _ => Err(Error::Invalid("unhandled vector kind")),
        }
    }

    /// Read a node instance. A reference-storing read first serves a pending
    /// reservation for its reference index; otherwise the node takes a fresh
    /// slot at the tail. The definition is resolved from the stream when not
    /// supplied, then the field mask and one value per set field follow.
    #[verifier::rlimit(60)]
    pub fn read_node(&mut self, definition: Option<Rc<Definition>>, store_reference: bool) -> (r:
        Result<usize, Error>)
        requires
            state_wf(*old(self)),
        ensures
            parse_step(*old(self), *final(self)),
            !store_reference ==> nones_stay(*old(self), *final(self)),
            state_wf(*final(self)),
            !store_reference ==> final(self).references == old(self).references,
            store_reference ==> final(self).references@.len() == old(self).references@.len() + 1,
            (definition matches Some(d) && inherited_fields(*d).len() == 0 && old(self).pos <= old(self).data@.len()) ==> r is Ok,
            (definition is None && (varint_end(old(self).data@, old(self).pos as int) matches
            Some(e1) && {
                let vi = varint_value(old(self).data@, old(self).pos as int) as int;
                &&& 0 <= vi < old(self).definitions@.len()
                &&& old(self).definitions@[vi] matches Some(d) && inherited_fields(*d).len() == 0
            })) ==> r is Ok,
            match r {
                Ok(idx) => {
                    &&& idx < final(self).nodes@.len()
                    &&& final(self).nodes@[idx as int] is Some
                    &&& if store_reference {
                        &&& final(self).references@ == old(self).references@.push(idx)
                        &&& match pending_find(
                            old(self).pending_references@,
                            old(self).references@.len() as usize,
                        ) {
                            Some(slot) => idx == slot,
                            None => idx == old(self).nodes@.len(),
                        }
                    } else {
                        idx == old(self).nodes@.len()
                    }
                    &&& final(self).nodes@[idx as int] matches Some(n) && {
                        let dv = old(self).data@;
                        let p0 = old(self).pos as int;
                        &&& (definition matches Some(d) ==> n.definition == d)
                        &&& (definition is None ==> (varint_end(dv, p0) matches Some(e1) && {
                            let vi = varint_value(dv, p0) as int;
                            &&& 0 <= vi < old(self).definitions@.len()
                            &&& old(self).definitions@[vi] == Some(n.definition)
                            &&& mask_read_at(dv, e1, n.field_mask@)
                        }))
                        &&& (definition is Some ==> mask_read_at(dv, p0, n.field_mask@))
                        &&& n.field_mask@.len() == inherited_fields(*n.definition).len()
                        &&& n.values@.len() == count_true(n.field_mask@)
                    }
                },
                Err(_) => true,
            },
        decreases self.data@.len() - self.pos, 0int,
    {
        proof {
            lemma_parse_step_refl(*old(self));
        }
        let mut node_index = self.nodes.len();

        // A reference-storing node may already have a reserved slot.
        if store_reference {
            let reference_index = self.references.len();
            let ghost pre_take = *self;
            let taken = self.pending_take(reference_index);
            match taken {
                Some(slot) => {
                    node_index = slot;
                },
                None => {},
            }
            self.references.push(node_index);
            proof {
                if taken is Some {
                    let jf = choose|j: int|
                        0 <= j < pre_take.pending_references@.len()
                            && pre_take.pending_references@[j] == (reference_index, taken->0)
                            && self.pending_references@ == pre_take.pending_references@.remove(j);
                    crate::tagfile::state::lemma_pending_find_unique(
                        pre_take.pending_references@,
                        reference_index,
                        jf,
                    );
                } else {
                    crate::tagfile::state::lemma_pending_find_absent(
                        pre_take.pending_references@,
                        reference_index,
                    );
                }
                assert(match pending_find(
                    old(self).pending_references@,
                    old(self).references@.len() as usize,
                ) {
                    Some(slot) => node_index == slot,
                    None => node_index == old(self).nodes@.len(),
                });
                if taken is Some {
                    let j = choose|j: int|
                        0 <= j < pre_take.pending_references@.len()
                            && pre_take.pending_references@[j] == (reference_index, taken->0)
                            && self.pending_references@ == pre_take.pending_references@.remove(j);
                    assert(pre_take.pending_references@[j].1 < pre_take.nodes@.len());
                    assert forall|k: int| 0 <= k < self.pending_references@.len() implies {
                        let e = #[trigger] self.pending_references@[k];
                        e.1 < self.nodes@.len() && e.0 >= self.references@.len()
                            && self.nodes@[e.1 as int] is None && e.1 != node_index
                    } by {
                        if k < j {
                            assert(self.pending_references@[k] == pre_take.pending_references@[k]);
                        } else {
                            assert(self.pending_references@[k] == pre_take.pending_references@[k
                                + 1]);
                        }
                    }
                }
            }
        }

        // Reserve a tail slot when none was pre-reserved.
        if node_index == self.nodes.len() {
            self.nodes.push(None);
        }
        proof {
            assert forall|i: int| 0 <= i < self.nodes@.len() implies ((
            #[trigger] self.nodes@[i]) is Some ==> node_wf(
                self.nodes@[i]->0,
                self.nodes@.len() as int,
            )) by {
                if i < old(self).nodes@.len() && self.nodes@[i] is Some {
                    lemma_node_wf_grow(
                        self.nodes@[i]->0,
                        old(self).nodes@.len() as int,
                        self.nodes@.len() as int,
                    );
                }
            }
        }
        let ghost setup = *self;
        proof {
            assert(state_wf(setup));
            assert(parse_step(*old(self), setup));
            assert(node_index < setup.nodes@.len());
            assert(setup.nodes@[node_index as int] is None);
            assert forall|j: int| 0 <= j < setup.pending_references@.len() implies (
            #[trigger] setup.pending_references@[j]).1 != node_index by {}
        }

        // Resolve the definition from the stream when not supplied.
        let defn = match &definition {
            Some(d) => d.clone(),
            None => {
                let definition_index = read_i32(self.data.as_slice(), &mut self.pos)?;
                if definition_index < 0 || (definition_index as u64) >= (self.definitions.len()
                    as u64) {
                    return Err(Error::Invalid("definition index out of range"));
                }
                match &self.definitions[definition_index as usize] {
                    Some(rc) => rc.clone(),
                    None => {
                        return Err(Error::Invalid("definition slot is unset"));
                    },
                }
            },
        };

        // Values follow the definition's field order, sparse per the mask.
        let ghost gmpos = self.pos as int;
        let fields = defn.fields();
        let stored_fields = self.read_bitfield(fields.len())?;
        proof {
            if fields@.len() >= 1 {
                assert(bitfield_bytes(fields@.len() as int) >= 1);
            }
            lemma_parse_step_refl(*self);
            assert(mask_read_at(old(self).data@, gmpos, stored_fields@));
        }
        let mut values: Vec<Value> = Vec::new();
        let mut fi: usize = 0;
        while fi < fields.len()
            invariant
                state_wf(*self),
                parse_step(*old(self), *self),
                nones_stay(setup, *self),
                nones_stay(*old(self), *self),
                !store_reference ==> self.references == old(self).references,
                store_reference ==> self.references@ == old(self).references@.push(node_index),
                !store_reference ==> node_index == old(self).nodes@.len(),
                store_reference ==> (match pending_find(
                    old(self).pending_references@,
                    old(self).references@.len() as usize,
                ) {
                    Some(slot) => node_index == slot,
                    None => node_index == old(self).nodes@.len(),
                }),
                definition matches Some(d2) ==> fields@.len() == inherited_fields(*d2).len(),
                (match definition {
                    Some(d) => defn == d && gmpos == old(self).pos as int,
                    None => (varint_end(old(self).data@, old(self).pos as int) matches Some(e1)
                        && {
                        let vi = varint_value(old(self).data@, old(self).pos as int) as int;
                        &&& 0 <= vi < old(self).definitions@.len()
                        &&& old(self).definitions@[vi] == Some(defn)
                        &&& gmpos == e1
                    }),
                }),
                mask_read_at(old(self).data@, gmpos, stored_fields@),
                setup.nodes@.len() <= self.nodes@.len(),
                node_index < setup.nodes@.len(),
                setup.nodes@[node_index as int] is None,
                old(self).nodes@[node_index as int] is None || node_index >= old(self).nodes@.len(),
                forall|j: int|
                    0 <= j < self.pending_references@.len() ==> (
                #[trigger] self.pending_references@[j]).1 != node_index,
                stored_fields@.len() >= 1 ==> self.pos > old(self).pos,
                fields@ == inherited_fields(*defn),
                fi <= fields@.len(),
                stored_fields@.len() == fields@.len(),
                values@.len() == count_true(stored_fields@.subrange(0, fi as int)),
                forall|j: int|
                    0 <= j < values@.len() ==> value_indices_below(
                        #[trigger] values@[j],
                        self.nodes@.len() as int,
                    ),
            decreases fields@.len() - fi,
        {
            proof {
                assert(stored_fields@.subrange(0, fi + 1).drop_last() =~= stored_fields@.subrange(
                    0,
                    fi as int,
                ));
            }
            if stored_fields[fi] {
                let ghost mid = *self;
                let v = self.read_value(&fields[fi])?;
                proof {
                    lemma_parse_step_trans(*old(self), mid, *self);
                    lemma_nones_stay_trans(setup, mid, *self);
                    lemma_nones_stay_trans(*old(self), mid, *self);
                    lemma_values_still_below(
                        values@,
                        mid.nodes@.len() as int,
                        self.nodes@.len() as int,
                    );
                    assert forall|j: int| 0 <= j < self.pending_references@.len() implies (
                    #[trigger] self.pending_references@[j]).1 != node_index by {
                        let e = self.pending_references@[j];
                        if mid.pending_references@.contains(e) {
                            let k = choose|k: int|
                                0 <= k < mid.pending_references@.len()
                                    && mid.pending_references@[k] == e;
                            assert(mid.pending_references@[k].1 != node_index);
                        }
                    }
                }
                values.push(v);
            }
            fi = fi + 1;
        }
        proof {
            assert(stored_fields@.subrange(0, stored_fields@.len() as int) =~= stored_fields@);
        }

        let node = Node { definition: defn, field_mask: stored_fields, values };
        let ghost before_set = *self;
        self.nodes[node_index] = Some(node);
        proof {
            assert(node_wf(node, self.nodes@.len() as int));
            assert forall|i: int| 0 <= i < self.nodes@.len() implies ((
            #[trigger] self.nodes@[i]) is Some ==> node_wf(
                self.nodes@[i]->0,
                self.nodes@.len() as int,
            )) by {}
            lemma_parse_step_refl(before_set);
            lemma_parse_step_trans(*old(self), before_set, *self);
            if !store_reference {
                assert(nones_stay(*old(self), *self));
            }
        }
        Ok(node_index)
    }
}


impl Tagfile {
    /// Read a node instance with its definition resolved from the stream
    /// and no reference recorded, as struct-valued fields are stored.
    pub fn read_instance(&mut self) -> (r: Result<usize, Error>)
        requires
            state_wf(*old(self)),
        ensures
            parse_step(*old(self), *final(self)),
            nones_stay(*old(self), *final(self)),
            state_wf(*final(self)),
            final(self).references == old(self).references,
            (varint_end(old(self).data@, old(self).pos as int) matches Some(e1) && {
                let vi = varint_value(old(self).data@, old(self).pos as int) as int;
                &&& 0 <= vi < old(self).definitions@.len()
                &&& old(self).definitions@[vi] matches Some(d) && inherited_fields(*d).len() == 0
            }) ==> r is Ok,
            match r {
                Ok(idx) => {
                    &&& idx == old(self).nodes@.len()
                    &&& idx < final(self).nodes@.len()
                    &&& final(self).nodes@[idx as int] matches Some(n) && {
                        let dv = old(self).data@;
                        let p0 = old(self).pos as int;
                        &&& (varint_end(dv, p0) matches Some(e1) && {
                            let vi = varint_value(dv, p0) as int;
                            &&& 0 <= vi < old(self).definitions@.len()
                            &&& old(self).definitions@[vi] == Some(n.definition)
                            &&& mask_read_at(dv, e1, n.field_mask@)
                        })
                        &&& n.field_mask@.len() == inherited_fields(*n.definition).len()
                        &&& n.values@.len() == count_true(n.field_mask@)
                    }
                },
                Err(_) => true,
            },
    {
        self.read_node(None, false)
    }
}

} // verus!
