//! The tagfile reader state: input cursor, version, node array and caches.
use vstd::prelude::*;

verus! {

use std::rc::Rc;
use crate::error::Error;
use crate::node::{Definition, Node};

/// Reader state for one tagfile parse: the input bytes and cursor, the
/// version from the metadata tag, the node array (with `None` for reserved
/// but not yet filled slots), and the append-only caches.
pub struct Tagfile {
    /// The whole input.
    pub data: Vec<u8>,
    /// Cursor into `data`.
    pub pos: usize,
    /// Version from the metadata tag; -1 until one is read.
    pub version: i32,
    /// Node slots; `None` marks a slot reserved for a forward reference.
    pub nodes: Vec<Option<Node>>,
    /// Definition pool; index 0 is the unset slot.
    pub definitions: Vec<Option<Rc<Definition>>>,
    /// String pool; index 0 is the empty string, index 1 the unset slot.
    pub strings: Vec<Option<String>>,
    /// Node index of each reference read so far; index 0 is a sentinel.
    pub references: Vec<usize>,
    /// Pairs of (reference index, reserved node slot) for forward references.
    pub pending_references: Vec<(usize, usize)>,
}

/// The parts of the state a primitive read never touches: everything but the
/// cursor and the string pool.
pub open spec fn same_but_pos_strings(pre: Tagfile, post: Tagfile) -> bool {
    &&& post.data == pre.data
    &&& post.version == pre.version
    &&& post.nodes == pre.nodes
    &&& post.definitions == pre.definitions
    &&& post.references == pre.references
    &&& post.pending_references == pre.pending_references
}

/// Prefixes compose: a prefix of a prefix is a prefix.
pub proof fn lemma_seq_prefix_trans<T>(a: Seq<T>, b: Seq<T>, c: Seq<T>)
    requires
        a.is_prefix_of(b),
        b.is_prefix_of(c),
    ensures
        a.is_prefix_of(c),
{
    assert(a =~= c.subrange(0, a.len() as int));
}

impl Tagfile {
    /// Fresh reader state over `data`, with the pools holding their
    /// pre-supplied sentinel entries.
    pub fn new(data: Vec<u8>) -> (r: Tagfile)
        ensures
            r.data == data,
            r.pos == 0,
            r.version == -1,
            r.nodes@.len() == 0,
            r.definitions@.len() == 1 && r.definitions@[0] is None,
            r.strings@.len() == 2 && (r.strings@[0] matches Some(s) && s@ == Seq::<char>::empty())
                && r.strings@[1] is None,
            r.references@.len() == 1 && r.references@[0] == usize::MAX,
            r.pending_references@.len() == 0,
    {
        let mut definitions: Vec<Option<Rc<Definition>>> = Vec::new();
        definitions.push(None);
        let mut strings: Vec<Option<String>> = Vec::new();
        strings.push(Some(String::new()));
        strings.push(None);
        let mut references: Vec<usize> = Vec::new();
        references.push(usize::MAX);
        Tagfile {
            data,
            pos: 0,
            version: -1,
            nodes: Vec::new(),
            definitions,
            strings,
            references,
            pending_references: Vec::new(),
        }
    }
}


/// First slot recorded for reference index `rid`, if any.
pub open spec fn pending_find(s: Seq<(usize, usize)>, rid: usize) -> Option<usize>
    decreases s.len(),
{
    if s.len() == 0 {
        None
    } else if s[0].0 == rid {
        Some(s[0].1)
    } else {
        pending_find(s.drop_first(), rid)
    }
}

/// A found pending entry is an entry.
pub proof fn lemma_pending_find_mem(s: Seq<(usize, usize)>, rid: usize)
    ensures
        match pending_find(s, rid) {
            Some(v) => exists|j: int| 0 <= j < s.len() && s[j] == (rid, v),
            None => true,
        },
    decreases s.len(),
{
    if s.len() > 0 && s[0].0 != rid {
        lemma_pending_find_mem(s.drop_first(), rid);
        if pending_find(s, rid) is Some {
            let v = pending_find(s, rid)->0;
            let j = choose|j: int| 0 <= j < s.drop_first().len() && s.drop_first()[j] == (rid, v);
            assert(s[j + 1] == (rid, v));
        }
    }
}

/// Under unique keys, any entry is the one `pending_find` returns.
pub proof fn lemma_pending_find_unique(s: Seq<(usize, usize)>, rid: usize, j: int)
    requires
        pending_unique(s),
        0 <= j < s.len(),
        s[j].0 == rid,
    ensures
        pending_find(s, rid) == Some(s[j].1),
    decreases s.len(),
{
    if j > 0 {
        assert(s[0].0 != rid);
        assert(s.drop_first()[j - 1] == s[j]);
        assert forall|j1: int, j2: int| 0 <= j1 < j2 < s.drop_first().len() implies (
        #[trigger] s.drop_first()[j1]).0 != (#[trigger] s.drop_first()[j2]).0 by {
            assert(s.drop_first()[j1] == s[j1 + 1] && s.drop_first()[j2] == s[j2 + 1]);
        }
        lemma_pending_find_unique(s.drop_first(), rid, j - 1);
    }
}

/// With no entry under `rid`, `pending_find` returns nothing.
pub proof fn lemma_pending_find_absent(s: Seq<(usize, usize)>, rid: usize)
    requires
        forall|j: int| 0 <= j < s.len() ==> (#[trigger] s[j]).0 != rid,
    ensures
        pending_find(s, rid) is None,
    decreases s.len(),
{
    if s.len() > 0 {
        assert forall|j: int| 0 <= j < s.drop_first().len() implies (
        #[trigger] s.drop_first()[j]).0 != rid by {
            assert(s.drop_first()[j] == s[j + 1]);
        }
        lemma_pending_find_absent(s.drop_first(), rid);
    }
}

/// No two pending entries share a reference index.
pub open spec fn pending_unique(s: Seq<(usize, usize)>) -> bool {
    forall|j1: int, j2: int| 0 <= j1 < j2 < s.len() ==> (#[trigger] s[j1]).0 != (#[trigger] s[j2]).0
}

/// The structural invariant of the reader state between reads: the sentinel
/// reference, every later reference and every reserved slot naming a node
/// slot in range, every filled node well-formed, pending entries unique and
/// all waiting on reference indices not yet read.
pub open spec fn state_wf(t: Tagfile) -> bool {
    &&& forall|i: int|
        0 <= i < t.nodes@.len() ==> ((#[trigger] t.nodes@[i]) matches Some(nd) ==> crate::node::node_wf(
            nd,
            t.nodes@.len() as int,
        ))
    &&& t.references@.len() >= 1
    &&& t.references@[0] == usize::MAX
    &&& forall|i: int| 1 <= i < t.references@.len() ==> (#[trigger] t.references@[i]) < t.nodes@.len()
    &&& forall|j: int|
        0 <= j < t.pending_references@.len() ==> {
            let e = #[trigger] t.pending_references@[j];
            e.1 < t.nodes@.len() && e.0 >= t.references@.len() && t.nodes@[e.1 as int] is None
        }
    &&& pending_unique(t.pending_references@)
    &&& forall|j1: int, j2: int|
        0 <= j1 < j2 < t.pending_references@.len() ==> (#[trigger] t.pending_references@[j1]).1
            != (#[trigger] t.pending_references@[j2]).1
}

impl Tagfile {
    /// Look up the reserved slot for reference index `rid`.
    pub fn pending_lookup(&self, rid: usize) -> (r: Option<usize>)
        ensures
            r == pending_find(self.pending_references@, rid),
            r is None ==> forall|j: int|
                0 <= j < self.pending_references@.len() ==> (#[trigger] self.pending_references@[j]).0
                    != rid,
    {
        let mut j: usize = 0;
        proof {
            assert(self.pending_references@.skip(0) =~= self.pending_references@);
        }
        while j < self.pending_references.len()
            invariant
                j <= self.pending_references@.len(),
                pending_find(self.pending_references@, rid) == pending_find(
                    self.pending_references@.skip(j as int),
                    rid,
                ),
                forall|k: int|
                    0 <= k < j ==> (#[trigger] self.pending_references@[k]).0 != rid,
            decreases self.pending_references@.len() - j,
        {
            let e = self.pending_references[j];
            proof {
                assert(self.pending_references@.skip(j as int)[0] == e);
                assert(self.pending_references@.skip(j as int).drop_first()
                    =~= self.pending_references@.skip(j + 1));
            }
            if e.0 == rid {
                return Some(e.1);
            }
            j = j + 1;
        }
        proof {
            assert(self.pending_references@.skip(self.pending_references@.len() as int).len()
                == 0);
        }
        None
    }

    /// Remove and return the reserved slot for reference index `rid`, if one
    /// was recorded.
    pub fn pending_take(&mut self, rid: usize) -> (r: Option<usize>)
        ensures
            same_but_pending(*old(self), *final(self)),
            match r {
                Some(slot) => exists|j: int|
                    0 <= j < old(self).pending_references@.len() && old(
                        self,
                    ).pending_references@[j] == (rid, slot) && final(self).pending_references@
                        == old(self).pending_references@.remove(j),
                None => final(self).pending_references == old(self).pending_references
                    && (forall|j: int|
                    0 <= j < old(self).pending_references@.len() ==> (#[trigger] old(
                        self,
                    ).pending_references@[j]).0 != rid),
            },
    {
        let mut j: usize = 0;
        while j < self.pending_references.len()
            invariant
                *self == *old(self),
                j <= self.pending_references@.len(),
                forall|k: int|
                    0 <= k < j ==> (#[trigger] self.pending_references@[k]).0 != rid,
            decreases self.pending_references@.len() - j,
        {
            let e = self.pending_references[j];
            if e.0 == rid {
                self.pending_references.remove(j);
                return Some(e.1);
            }
            j = j + 1;
        }
        None
    }
}

/// The parts of the state `pending_take` never touches.
pub open spec fn same_but_pending(pre: Tagfile, post: Tagfile) -> bool {
    &&& post.data == pre.data
    &&& post.pos == pre.pos
    &&& post.version == pre.version
    &&& post.nodes == pre.nodes
    &&& post.definitions == pre.definitions
    &&& post.strings == pre.strings
    &&& post.references == pre.references
}


impl Tagfile {
    /// Read one byte at the cursor.
    pub fn read_u8(&mut self) -> (r: Result<u8, Error>)
        ensures
            same_but_pos_strings(*old(self), *final(self)),
            final(self).strings == old(self).strings,
            match r {
                Ok(b) => old(self).pos < old(self).data@.len() && b == old(self).data@[old(
                    self,
                ).pos as int] && final(self).pos == old(self).pos + 1,
                Err(_) => old(self).pos >= old(self).data@.len() && final(self).pos == old(
                    self,
                ).pos,
            },
    {
        crate::tagfile::common::read_u8(self.data.as_slice(), &mut self.pos)
    }

    /// Read a little-endian u64 at the cursor.
    pub fn read_u64(&mut self) -> (r: Result<u64, Error>)
        ensures
            same_but_pos_strings(*old(self), *final(self)),
            final(self).strings == old(self).strings,
            match r {
                Ok(v) => old(self).pos + 8 <= old(self).data@.len() && v
                    == crate::tagfile::common::le_bytes_val(
                    old(self).data@,
                    old(self).pos as int,
                    8,
                ) && final(self).pos == old(self).pos + 8,
                Err(_) => old(self).pos + 8 > old(self).data@.len() && final(self).pos == old(
                    self,
                ).pos,
            },
    {
        crate::tagfile::common::read_u64(self.data.as_slice(), &mut self.pos)
    }

    /// Read the bit pattern of a little-endian f32 at the cursor.
    pub fn read_f32(&mut self) -> (r: Result<u32, Error>)
        ensures
            same_but_pos_strings(*old(self), *final(self)),
            final(self).strings == old(self).strings,
            match r {
                Ok(v) => old(self).pos + 4 <= old(self).data@.len() && v
                    == crate::tagfile::common::le_bytes_val(
                    old(self).data@,
                    old(self).pos as int,
                    4,
                ) && final(self).pos == old(self).pos + 4,
                Err(_) => old(self).pos + 4 > old(self).data@.len() && final(self).pos == old(
                    self,
                ).pos,
            },
    {
        crate::tagfile::common::read_u32(self.data.as_slice(), &mut self.pos)
    }

    /// Read a signed variable-length integer at the cursor.
    pub fn read_i32(&mut self) -> (r: Result<i32, Error>)
        ensures
            same_but_pos_strings(*old(self), *final(self)),
            final(self).strings == old(self).strings,
            match r {
                Ok(v) => crate::tagfile::varint::varint_end(old(self).data@, old(self).pos as int)
                    == Some(final(self).pos as int) && v == crate::tagfile::varint::varint_value(
                    old(self).data@,
                    old(self).pos as int,
                ),
                Err(_) => crate::tagfile::varint::varint_end(
                    old(self).data@,
                    old(self).pos as int,
                ) is None,
            },
    {
        crate::tagfile::varint::read_i32(self.data.as_slice(), &mut self.pos)
    }
}

} // verus!
