//! Extracting spline-compressed animations from a decoded node graph.
use vstd::prelude::*;

verus! {

use crate::error::Error;
use crate::node::{chain_has_name, Node};
use crate::value::Value;
use crate::walker::{spec_field_of, NodeWalker};
use crate::compressedanimation::splinecompressedanimation::{
    block_wf, track_wf, tracks_readable, Block,
};

/// Duration and track count shared by every animation kind. The duration is
/// an f32 carried as its bit pattern.
#[derive(Clone, Copy, Debug)]
pub struct BaseCompressedAnimation {
    /// Bit pattern of the animation duration in seconds.
    pub duration_bits: u32,
    /// Number of transform tracks (bones).
    pub num_tracks: usize,
}

impl BaseCompressedAnimation {
    /// Read the shared animation fields; the node must inherit from
    /// `hkaAnimation`.
    pub fn new(node: &NodeWalker) -> (r: Result<Self, Error>)
        ensures
            match r {
                Ok(b) => {
                    &&& chain_has_name(*node.spec_current().definition, "hkaAnimation"@)
                    &&& node.spec_field("duration"@) == Some(Value::F32(b.duration_bits))
                    &&& node.spec_field("numberOfTransformTracks"@) matches Some(v) && v
                        == Value::I32(b.num_tracks as i32)
                },
                Err(_) => !({
                    &&& chain_has_name(*node.spec_current().definition, "hkaAnimation"@)
                    &&& node.spec_field("duration"@) matches Some(d) && d is F32
                    &&& node.spec_field("numberOfTransformTracks"@) matches Some(v) && (v matches
                    Value::I32(n) && n >= 0)
                }),
            },
    {
        if !node.is_or_inherited_from("hkaAnimation") {
            return Err(Error::Invalid("given node is not a valid animation"));
        }

        let duration_bits = node.field_f32("duration", None)?;
        let num_transform_tracks = node.field_i32("numberOfTransformTracks", None)?;
        if num_transform_tracks < 0 {
            return Err(Error::Invalid("negative number of transform tracks"));
        }

        Ok(Self { duration_bits, num_tracks: num_transform_tracks as usize })
    }
}

/// Frames still uncovered after the first `i` blocks, each taking at most
/// `max` frames.
pub open spec fn frames_pending(total: int, max: int, i: int) -> int
    decreases i,
{
    if i <= 0 {
        total
    } else {
        let p = frames_pending(total, max, i - 1);
        p - (if p < max {
            p
        } else {
            max
        })
    }
}

/// The payload bytes of a vector of byte values.
pub open spec fn u8_payload(vs: Seq<Value>) -> Seq<u8> {
    Seq::new(vs.len(), |j: int| vs[j]->U8_0)
}

/// Offset `i` of the stored block offsets, with the payload length appended
/// as the final bound.
pub open spec fn block_offset(ovs: Seq<Value>, plen: int, i: int) -> int {
    if i < ovs.len() {
        ovs[i]->I32_0 as int
    } else {
        plen
    }
}

/// One block decoded from its half-open byte range of the payload.
pub open spec fn block_segment_ok(b: Block, payload: Seq<u8>, from: int, to: int, nt: int) -> bool {
    &&& 0 <= from <= to <= payload.len()
    &&& 4 * nt <= to - from
    &&& forall|t: int|
        0 <= t < nt ==> track_wf(
            #[trigger] b.tracks@[t],
            Block::spec_mask_at(payload.subrange(from, to), t),
        )
}

/// The spline-specific fields are present with the right kinds: the node
/// inherits from `hkaSplineCompressedAnimation`, the counts are non-negative
/// integers, the durations are floats, and the payload is a byte vector.
pub open spec fn spline_fields_ok(node: NodeWalker) -> bool {
    &&& chain_has_name(*node.spec_current().definition, "hkaSplineCompressedAnimation"@)
    &&& node.spec_field("maxFramesPerBlock"@) matches Some(v) && (v matches Value::I32(x) && x
        >= 0)
    &&& node.spec_field("blockDuration"@) matches Some(v) && v is F32
    &&& node.spec_field("frameDuration"@) matches Some(v) && v is F32
    &&& node.spec_field("numFrames"@) matches Some(v) && (v matches Value::I32(x) && x >= 0)
    &&& node.spec_field("data"@) matches Some(v) && (v matches Value::Vector(pvs) && (forall|
        j: int,
    |
        0 <= j < pvs@.len() ==> (#[trigger] pvs@[j]) is U8))
}

/// The block payload is fully readable: the stored offsets are integer,
/// non-negative, ordered and in range, and every block's byte range holds
/// `num_tracks` masks and readable tracks.
pub open spec fn spline_payload_readable(node: NodeWalker, num_tracks: int) -> bool {
    &&& node.spec_field("blockOffsets"@) matches Some(Value::Vector(ovs)) && (node.spec_field(
        "data"@,
    ) matches Some(Value::Vector(pvs)) && ({
        let payload = u8_payload(pvs@);
        &&& forall|i: int|
            0 <= i < ovs@.len() ==> ((#[trigger] ovs@[i]) matches Value::I32(x) && x >= 0)
        &&& forall|i: int|
            0 <= i < ovs@.len() ==> ({
                let from = #[trigger] block_offset(ovs@, payload.len() as int, i);
                let to = block_offset(ovs@, payload.len() as int, i + 1);
                &&& from <= to <= payload.len()
                &&& 4 * num_tracks <= to - from
                &&& tracks_readable(payload.subrange(from, to), num_tracks, 0)
            })
    }))
}

/// A spline-compressed animation, structurally decoded: the shared fields,
/// the block and frame timing fields (durations as f32 bit patterns), and
/// the blocks cut out of the payload at the stored offsets.
#[derive(Debug)]
pub struct SplineCompressedAnimation {
    /// Duration and track count.
    pub base: BaseCompressedAnimation,
    /// Total frame count.
    pub num_frames: usize,
    /// Upper bound on frames per block.
    pub max_frames_per_block: usize,
    /// Bit pattern of the seconds covered by one full block.
    pub block_duration_bits: u32,
    /// Bit pattern of the seconds between adjacent integer spline
    /// parameters.
    pub frame_duration_bits: u32,
    /// The decoded blocks, in order.
    pub blocks: Vec<Block>,
}

impl SplineCompressedAnimation {
    /// Read a spline-compressed animation positioned at `node`, which must
    /// inherit from `hkaSplineCompressedAnimation`. The stored block
    /// offsets, with the payload length appended, cut the payload into one
    /// half-open byte range per block; block `i` covers
    /// `min(frames_pending(numFrames, maxFramesPerBlock, i), maxFramesPerBlock)`
    /// frames.
    pub fn new(node: &NodeWalker, base: BaseCompressedAnimation) -> (r: Result<Self, Error>)
        ensures
            match r {
                Ok(s) => {
                    &&& chain_has_name(
                        *node.spec_current().definition,
                        "hkaSplineCompressedAnimation"@,
                    )
                    &&& s.base == base
                    &&& node.spec_field("maxFramesPerBlock"@) matches Some(v) && v == Value::I32(
                        s.max_frames_per_block as i32,
                    )
                    &&& node.spec_field("blockDuration"@) == Some(
                        Value::F32(s.block_duration_bits),
                    )
                    &&& node.spec_field("frameDuration"@) == Some(
                        Value::F32(s.frame_duration_bits),
                    )
                    &&& node.spec_field("numFrames"@) matches Some(v) && v == Value::I32(
                        s.num_frames as i32,
                    )
                    &&& forall|i: int|
                        0 <= i < s.blocks@.len() ==> {
                            let p = frames_pending(
                                s.num_frames as int,
                                s.max_frames_per_block as int,
                                i,
                            );
                            (#[trigger] s.blocks@[i]).num_frames == (if p
                                < s.max_frames_per_block as int {
                                p
                            } else {
                                s.max_frames_per_block as int
                            }) && s.blocks@[i].tracks@.len() == base.num_tracks && block_wf(
                                s.blocks@[i],
                            )
                        }
                    &&& node.spec_field("blockOffsets"@) matches Some(Value::Vector(ovs)) && (
                    node.spec_field("data"@) matches Some(Value::Vector(pvs)) && {
                        let payload = u8_payload(pvs@);
                        &&& s.blocks@.len() == ovs@.len()
                        &&& forall|i: int|
                            0 <= i < s.blocks@.len() ==> block_segment_ok(
                                #[trigger] s.blocks@[i],
                                payload,
                                block_offset(ovs@, payload.len() as int, i),
                                block_offset(ovs@, payload.len() as int, i + 1),
                                base.num_tracks as int,
                            )
                    })
                },
                Err(_) => true,
            },
            !spline_fields_ok(*node) ==> r is Err,
            (spline_fields_ok(*node) && (node.spec_field("blockOffsets"@) matches Some(
                Value::Vector(ovs),
            ) && ovs@.len() == 0)) ==> r is Ok,
            (spline_fields_ok(*node) && spline_payload_readable(*node, base.num_tracks as int))
                ==> r is Ok,
    {
        if !node.is_or_inherited_from("hkaSplineCompressedAnimation") {
            return Err(Error::Invalid("given node is not a spline compressed animation"));
        }

        let max_frames_per_block_i = node.field_i32("maxFramesPerBlock", None)?;
        if max_frames_per_block_i < 0 {
            return Err(Error::Invalid("negative maximum frames per block"));
        }
        let max_frames_per_block = max_frames_per_block_i as usize;
        let block_duration_bits = node.field_f32("blockDuration", None)?;
        let frame_duration_bits = node.field_f32("frameDuration", None)?;
        let block_offsets_i = node.field_i32_vec("blockOffsets", None)?;
        let data = node.field_u8_vec("data", None)?;
        let num_frames_i = node.field_i32("numFrames", None)?;
        if num_frames_i < 0 {
            return Err(Error::Invalid("negative frame count"));
        }
        let num_frames = num_frames_i as usize;
        let ghost gbase: bool = spline_fields_ok(*node);
        let ghost gowed: bool = spline_payload_readable(*node, base.num_tracks as int);
        proof {
            match node.spec_field("data"@) {
                Some(Value::Vector(pvs)) => {
                    assert forall|j: int| 0 <= j < pvs@.len() implies (#[trigger] pvs@[j])
                        is U8 by {
                        assert(pvs@[j] == Value::U8(data@[j]));
                    }
                },
                _ => {},
            }
            assert(gbase);
        }

        proof {
            match node.spec_field("data"@) {
                Some(Value::Vector(pvs)) => {
                    assert(u8_payload(pvs@) =~= data@);
                },
                _ => {},
            }
        }

        // The stored offsets plus the payload length bound the blocks.
        let mut offsets: Vec<usize> = Vec::new();
        let mut i: usize = 0;
        while i < block_offsets_i.len()
            invariant
                gbase == spline_fields_ok(*node),
                gbase,
                gowed == spline_payload_readable(*node, base.num_tracks as int),
                node.spec_field("blockOffsets"@) matches Some(Value::Vector(ovs)) && (
                ovs@.len() == block_offsets_i@.len() && (forall|j: int|
                    0 <= j < ovs@.len() ==> #[trigger] ovs@[j] == Value::I32(
                        block_offsets_i@[j],
                    ))),
                i <= block_offsets_i@.len(),
                offsets@.len() == i,
                forall|j: int| 0 <= j < i ==> #[trigger] offsets@[j] == block_offsets_i@[j],
            decreases block_offsets_i@.len() - i,
        {
            let o = block_offsets_i[i];
            if o < 0 {
                proof {
                    if gowed {
                        match node.spec_field("blockOffsets"@) {
                            Some(Value::Vector(ovs3)) => {
                                assert(ovs3@[i as int] == Value::I32(block_offsets_i@[i as int]));
                            },
                            _ => {},
                        }
                    }
                }
                return Err(Error::Invalid("negative block offset"));
            }
            offsets.push(o as usize);
            i = i + 1;
        }
        offsets.push(data.len());

        // Walk the consecutive offset pairs, handing each block its frame
        // budget.
        let mut blocks: Vec<Block> = Vec::new();
        let num_blocks = offsets.len() - 1;
        let mut num_pending_frames = num_frames;
        let mut b: usize = 0;
        while b < num_blocks
            invariant
                gbase == spline_fields_ok(*node),
                gbase,
                gowed == spline_payload_readable(*node, base.num_tracks as int),
                node.spec_field("blockOffsets"@) matches Some(Value::Vector(ovs)) && (
                ovs@.len() == block_offsets_i@.len() && (forall|j: int|
                    0 <= j < ovs@.len() ==> #[trigger] ovs@[j] == Value::I32(
                        block_offsets_i@[j],
                    ))),
                node.spec_field("data"@) matches Some(Value::Vector(pvs2)) && u8_payload(pvs2@)
                    == data@,
                offsets@.len() >= 1,
                num_blocks == offsets@.len() - 1,
                num_blocks == block_offsets_i@.len(),
                b <= num_blocks,
                blocks@.len() == b,
                forall|j: int|
                    0 <= j < num_blocks ==> #[trigger] offsets@[j] == block_offsets_i@[j],
                offsets@[num_blocks as int] == data@.len(),
                num_pending_frames == frames_pending(
                    num_frames as int,
                    max_frames_per_block as int,
                    b as int,
                ),
                forall|k: int|
                    0 <= k < b ==> {
                        let p = frames_pending(num_frames as int, max_frames_per_block as int, k);
                        (#[trigger] blocks@[k]).num_frames == (if p < max_frames_per_block as int {
                            p
                        } else {
                            max_frames_per_block as int
                        }) && blocks@[k].tracks@.len() == base.num_tracks && block_wf(blocks@[k])
                    },
                forall|k: int|
                    0 <= k < b ==> block_segment_ok(
                        #[trigger] blocks@[k],
                        data@,
                        offsets@[k] as int,
                        offsets@[k + 1] as int,
                        base.num_tracks as int,
                    ),
            decreases offsets@.len() - b,
        {
            let from = offsets[b];
            let to = offsets[b + 1];
            proof {
                if gowed {
                    match node.spec_field("blockOffsets"@) {
                        Some(Value::Vector(ovs3)) => {
                            match node.spec_field("data"@) {
                                Some(Value::Vector(pvs3)) => {
                                    let plen = u8_payload(pvs3@).len() as int;
                                    assert(u8_payload(pvs3@) == data@);
                                    assert(block_offset(ovs3@, plen, b as int) == from as int);
                                    assert(block_offset(ovs3@, plen, b as int + 1) == to as int);
                                },
                                _ => {},
                            }
                        },
                        _ => {},
                    }
                }
            }
            if !(from <= to && to <= data.len()) {
                return Err(Error::Invalid("block offsets out of order or out of range"));
            }

            let block_num_frames = if num_pending_frames < max_frames_per_block {
                num_pending_frames
            } else {
                max_frames_per_block
            };
            num_pending_frames = num_pending_frames - block_num_frames;

            // Cut out this block's bytes.
            let mut segment: Vec<u8> = Vec::new();
            let mut j: usize = from;
            while j < to
                invariant
                    gbase == spline_fields_ok(*node),
                    gbase,
                    gowed == spline_payload_readable(*node, base.num_tracks as int),
                    node.spec_field("blockOffsets"@) matches Some(Value::Vector(ovs)) && (
                    ovs@.len() == block_offsets_i@.len() && (forall|j2: int|
                        0 <= j2 < ovs@.len() ==> #[trigger] ovs@[j2] == Value::I32(
                            block_offsets_i@[j2],
                        ))),
                    node.spec_field("data"@) matches Some(Value::Vector(pvs2)) && u8_payload(
                        pvs2@,
                    ) == data@,
                    b < num_blocks,
                    num_blocks == block_offsets_i@.len(),
                    forall|j2: int|
                        0 <= j2 < num_blocks ==> #[trigger] offsets@[j2] == block_offsets_i@[j2],
                    offsets@[num_blocks as int] == data@.len(),
                    from == offsets@[b as int] && to == offsets@[b + 1],
                    from <= j <= to,
                    to <= data@.len(),
                    segment@ =~= data@.subrange(from as int, j as int),
                decreases to - j,
            {
                segment.push(data[j]);
                proof {
                    assert(segment@ =~= data@.subrange(from as int, j + 1));
                }
                j = j + 1;
            }

            proof {
                if gowed {
                    assert(segment@ == data@.subrange(from as int, to as int));
                }
            }
            let block = Block::from_bytes(segment.as_slice(), base.num_tracks, block_num_frames)?;
            blocks.push(block);
            proof {
                let seg = data@.subrange(from as int, to as int);
                assert(segment@ == seg);
                assert forall|t: int| 0 <= t < base.num_tracks implies track_wf(
                    blocks@[b as int].tracks@[t],
                    Block::spec_mask_at(seg, t),
                ) by {
                    assert(track_wf(blocks@[b as int].tracks@[t], Block::spec_mask_at(segment@, t)));
                }
                assert(offsets@[b as int] == from && offsets@[b + 1] == to);
                assert(block_segment_ok(
                    blocks@[b as int],
                    data@,
                    from as int,
                    to as int,
                    base.num_tracks as int,
                ));
            }
            b = b + 1;
        }

        Ok(
            Self {
                base,
                num_frames,
                max_frames_per_block,
                block_duration_bits,
                frame_duration_bits,
                blocks,
            },
        )
    }
}

/// The node indices of the animations reachable from a tagfile root: the
/// first entry of `namedVariants`, its `variant`, and that node's
/// `animations`, when every link has the expected shape.
pub open spec fn spec_animation_nodes(nodes: Seq<Node>, root: int) -> Option<Seq<int>> {
    match spec_field_of(nodes, root, "namedVariants"@) {
        Some(Value::Vector(vs)) => if vs@.len() >= 1 && (forall|j: int|
            0 <= j < vs@.len() ==> (#[trigger] vs@[j]) is Node) {
            match spec_field_of(nodes, vs@[0]->Node_0 as int, "variant"@) {
                Some(Value::Node(var)) => match spec_field_of(nodes, var as int, "animations"@) {
                    Some(Value::Vector(avs)) => if forall|j: int|
                        0 <= j < avs@.len() ==> (#[trigger] avs@[j]) is Node {
                        Some(Seq::new(avs@.len(), |j: int| avs@[j]->Node_0 as int))
                    } else {
                        None
                    },
                    _ => None,
                },
                _ => None,
            }
        } else {
            None
        },
        _ => None,
    }
}

/// The animation nodes reachable from a tagfile root: the first entry of
/// `namedVariants`, its `variant`, and that node's `animations`; fails
/// exactly when that chain does not have the expected shape.
pub fn animation_nodes_from_root(root_node: &NodeWalker) -> (r: Result<Vec<NodeWalker>, Error>)
    ensures
        match r {
            Ok(ws) => spec_animation_nodes(root_node.spec_nodes(), root_node.spec_index()) matches
                Some(idxs) && ws@.len() == idxs.len() && (forall|j: int|
                0 <= j < ws@.len() ==> ((#[trigger] ws@[j]).spec_nodes()
                    == root_node.spec_nodes() && ws@[j].spec_index() == idxs[j])),
            Err(_) => spec_animation_nodes(root_node.spec_nodes(), root_node.spec_index()) is None,
        },
{
    let variants = root_node.field_node_vec("namedVariants")?;
    if variants.len() == 0 {
        return Err(Error::Invalid("no named variants"));
    }
    let variant = variants[0].field_node("variant")?;
    variant.field_node_vec("animations")
}

} // verus!
