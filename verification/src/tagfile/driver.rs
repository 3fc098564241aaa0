//! The top-level drive loop: magic, tag dispatch, and closing checks.
use vstd::prelude::*;

verus! {

use std::rc::Rc;
use crate::error::Error;
use crate::node::{node_wf, Node};
use crate::tagfile::common::{le_bytes_val, read_u64};
use crate::tagfile::state::{state_wf, Tagfile};
use crate::tagfile::varint::{lemma_varint_end_bounds, read_i32, varint_end, varint_value};
use crate::walker::NodeWalker;

/// The eight-byte little-endian magic that opens every tagfile.
pub const MAGIC: u64 = 0xD011FACECAB00D1E;

/// The drive loop's verdict as long as only metadata tags appear.
pub enum SimpleDrive {
    /// The end-of-file tag was reached; holds the version then in force.
    Done(i32),
    /// The stream is certainly rejected: truncated, an unknown tag, or an
    /// unsupported version.
    Fails,
    /// A definition or node tag appeared; this simple view stops there.
    Complex,
}

/// Walk the tag stream from `pos` while the tags are metadata (1) or
/// end-of-file (7): reaching the end succeeds with the version then in
/// force, a version other than 3, an unknown tag or a truncation certainly
/// fails, and a definition or node tag ends this simple view.
pub open spec fn spec_simple_drive(data: Seq<u8>, pos: int, version: i32) -> SimpleDrive
    decreases data.len() - pos,
        via spec_simple_drive_decreases
{
    match varint_end(data, pos) {
        None => SimpleDrive::Fails,
        Some(e1) => {
            let tag = varint_value(data, pos) as int;
            if tag == 7 {
                SimpleDrive::Done(version)
            } else if tag == 1 {
                match varint_end(data, e1) {
                    None => SimpleDrive::Fails,
                    Some(e2) => if varint_value(data, e1) != 3 {
                        SimpleDrive::Fails
                    } else {
                        spec_simple_drive(data, e2, 3)
                    },
                }
            } else if tag == 2 || tag == 4 {
                SimpleDrive::Complex
            } else {
                SimpleDrive::Fails
            }
        },
    }
}

#[via_fn]
proof fn spec_simple_drive_decreases(data: Seq<u8>, pos: int, version: i32) {
    lemma_varint_end_bounds(data, pos);
    match varint_end(data, pos) {
        Some(e1) => {
            lemma_varint_end_bounds(data, e1);
        },
        None => {},
    }
}

impl Tagfile {
    /// Drive the tag stream: check the magic, then dispatch metadata,
    /// definition and node tags until the end-of-file tag. On success every
    /// node slot is filled and no reference is left pending.
    pub fn read(&mut self) -> (r: Result<(), Error>)
        requires
            state_wf(*old(self)),
        ensures
            state_wf(*final(self)),
            final(self).data == old(self).data,
            match r {
                Ok(_) => {
                    &&& old(self).pos + 8 <= old(self).data@.len()
                    &&& le_bytes_val(old(self).data@, old(self).pos as int, 8) == MAGIC
                    &&& final(self).version == 3 || final(self).version == old(self).version
                    &&& final(self).pending_references@.len() == 0
                    &&& forall|i: int|
                        0 <= i < final(self).nodes@.len() ==> (
                        #[trigger] final(self).nodes@[i]) is Some
                },
                Err(_) => true,
            },
            (old(self).pos + 8 <= old(self).data@.len() && le_bytes_val(
                old(self).data@,
                old(self).pos as int,
                8,
            ) == MAGIC) ==> match spec_simple_drive(
                old(self).data@,
                old(self).pos + 8,
                old(self).version,
            ) {
                SimpleDrive::Done(v) => (old(self).pending_references@.len() == 0 && (forall|
                    i: int,
                |
                    0 <= i < old(self).nodes@.len() ==> (#[trigger] old(self).nodes@[i])
                        is Some)) ==> {
                    &&& r is Ok
                    &&& final(self).version == v
                    &&& final(self).nodes == old(self).nodes
                    &&& final(self).references == old(self).references
                    &&& final(self).pending_references == old(self).pending_references
                },
                SimpleDrive::Fails => r is Err,
                SimpleDrive::Complex => true,
            },
    {
        let magic = read_u64(self.data.as_slice(), &mut self.pos)?;
        if magic != MAGIC {
            return Err(Error::Invalid("unexpected magic"));
        }
        let ghost gsd = spec_simple_drive(
            old(self).data@,
            old(self).pos + 8,
            old(self).version,
        );

        loop
            invariant_except_break
                gsd == SimpleDrive::Complex || (spec_simple_drive(
                    self.data@,
                    self.pos as int,
                    self.version,
                ) == gsd && self.nodes == old(self).nodes && self.references == old(
                    self,
                ).references && self.pending_references == old(self).pending_references),
            invariant
                state_wf(*self),
                self.data == old(self).data,
                self.version == 3 || self.version == old(self).version,
                self.pos <= self.data@.len(),
                gsd == spec_simple_drive(old(self).data@, old(self).pos + 8, old(self).version),
            ensures
                state_wf(*self),
                self.data == old(self).data,
                self.version == 3 || self.version == old(self).version,
                gsd == SimpleDrive::Complex || (gsd == SimpleDrive::Done(self.version)
                    && self.nodes == old(self).nodes && self.references == old(self).references
                    && self.pending_references == old(self).pending_references),
            decreases self.data@.len() - self.pos,
        {
            let tag = read_i32(self.data.as_slice(), &mut self.pos)?;
            match tag {
                1 => {
                    // Metadata: the format version.
                    self.version = read_i32(self.data.as_slice(), &mut self.pos)?;
                    if self.version != 3 {
                        return Err(Error::Invalid("unsupported file version"));
                    }
                },
                2 => {
                    // Definitions are referenced after reading via the pool.
                    let ghost pre = *self;
                    self.read_definition()?;
                    proof {
                        assert(state_wf(*self)) by {
                            assert(self.nodes == pre.nodes && self.references == pre.references
                                && self.pending_references == pre.pending_references);
                        }
                    }
                },
                4 => {
                    self.read_node(None, true)?;
                },
                7 => {
                    break ;
                },
                _ => {
                    return Err(Error::Invalid("unhandled tag kind"));
                },
            }
        }

        // No pending reference may be left dangling.
        if self.pending_references.len() > 0 {
            return Err(Error::Invalid("dangling references at end of file"));
        }

        // Every reserved node slot must have been filled.
        let mut i: usize = 0;
        while i < self.nodes.len()
            invariant
                state_wf(*self),
                self.data == old(self).data,
                self.version == 3 || self.version == old(self).version,
                gsd == spec_simple_drive(old(self).data@, old(self).pos + 8, old(self).version),
                gsd == SimpleDrive::Complex || (gsd == SimpleDrive::Done(self.version)
                    && self.nodes == old(self).nodes && self.references == old(self).references
                    && self.pending_references == old(self).pending_references),
                i <= self.nodes@.len(),
                self.pending_references@.len() == 0,
                forall|k: int| 0 <= k < i ==> (#[trigger] self.nodes@[k]) is Some,
            decreases self.nodes@.len() - i,
        {
            if self.nodes[i].is_none() {
                return Err(Error::Invalid("reserved node slot left unfilled"));
            }
            i = i + 1;
        }

        Ok(())
    }
}

impl Tagfile {
    /// Trade the finished state for a walker at the root node: the first
    /// stored reference after the sentinel. Fails exactly when no reference
    /// was stored.
    pub fn into_walker(self) -> (r: Result<NodeWalker, Error>)
        requires
            state_wf(self),
            forall|i: int| 0 <= i < self.nodes@.len() ==> (#[trigger] self.nodes@[i]) is Some,
        ensures
            match r {
                Ok(w) => {
                    &&& self.references@.len() >= 2
                    &&& w.spec_index() == self.references@[1]
                    &&& w.spec_nodes().len() == self.nodes@.len()
                    &&& forall|i: int|
                        0 <= i < self.nodes@.len() ==> #[trigger] self.nodes@[i] == Some(
                            w.spec_nodes()[i],
                        )
                },
                Err(_) => self.references@.len() < 2,
            },
    {
        let mut tagfile = self;

        // The root node is the first stored reference, after the sentinel.
        if tagfile.references.len() < 2 {
            return Err(Error::Invalid("no root object found"));
        }
        let root_index = tagfile.references[1];

        // All slots are filled, so unwrap them in order.
        let ghost onodes = tagfile.nodes@;
        let ghost orefs = tagfile.references@;
        let mut nodes: Vec<Node> = Vec::new();
        loop
            invariant
                tagfile.references@ == orefs,
                nodes@.len() + tagfile.nodes@.len() == onodes.len(),
                forall|k: int|
                    0 <= k < tagfile.nodes@.len() ==> #[trigger] tagfile.nodes@[k]
                        == onodes[nodes@.len() + k],
                forall|k: int| 0 <= k < nodes@.len() ==> onodes[k] == Some(#[trigger] nodes@[k]),
                forall|k: int| 0 <= k < onodes.len() ==> (#[trigger] onodes[k]) is Some,
                forall|k: int|
                    0 <= k < onodes.len() ==> ((#[trigger] onodes[k]) matches Some(nd) && node_wf(
                        nd,
                        onodes.len() as int,
                    )),
                root_index < onodes.len(),
            ensures
                nodes@.len() == onodes.len(),
                forall|k: int| 0 <= k < nodes@.len() ==> onodes[k] == Some(#[trigger] nodes@[k]),
                forall|k: int|
                    0 <= k < onodes.len() ==> ((#[trigger] onodes[k]) matches Some(nd) && node_wf(
                        nd,
                        onodes.len() as int,
                    )),
                root_index < onodes.len(),
            decreases tagfile.nodes@.len(),
        {
            if tagfile.nodes.len() == 0 {
                break ;
            }
            match tagfile.nodes.remove(0) {
                Some(node) => {
                    nodes.push(node);
                },
                None => {
                    proof {
                        assert(false);
                    }
                },
            }
        }
        proof {
            assert forall|k: int| 0 <= k < nodes@.len() implies node_wf(
                #[trigger] nodes@[k],
                nodes@.len() as int,
            ) by {
                assert(onodes[k] == Some(nodes@[k]));
            }
        }
        Ok(NodeWalker::from_parts(Rc::new(nodes), root_index))
    }
}

/// Read a whole tagfile and hand back a walker aimed at its root node: the
/// first stored reference after the sentinel.
pub fn read(data: Vec<u8>) -> (r: Result<NodeWalker, Error>)
    ensures
        match r {
            Ok(w) => data@.len() >= 8 && le_bytes_val(data@, 0, 8) == MAGIC && w.spec_nodes().len()
                >= 1,
            Err(_) => true,
        },
        (data@.len() < 8 || le_bytes_val(data@, 0, 8) != MAGIC) ==> r is Err,
        (data@.len() >= 8 && le_bytes_val(data@, 0, 8) == MAGIC) ==> match spec_simple_drive(
            data@,
            8,
            -1i32,
        ) {
            SimpleDrive::Done(_) => r is Err,
            SimpleDrive::Fails => r is Err,
            SimpleDrive::Complex => true,
        },
{
    let mut tagfile = Tagfile::new(data);
    tagfile.read()?;
    tagfile.into_walker()
}

} // verus!
