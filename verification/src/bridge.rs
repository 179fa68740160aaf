//! The streaming bridge into a native demuxer, modeled precisely.
//!
//! The native layer pulls bytes on demand through a callback instead of
//! being handed a whole buffer. This module carries the two invariants that
//! make the bridge safe: the pull side delivers the reader's bytes
//! completely and in order — zero-length reads notwithstanding — and
//! reports end of stream only once the stream is exhausted; the ownership
//! side releases each native resource exactly once, in dependency order,
//! however often teardown runs. The layer around the library binds these
//! models to the real native contexts and its blocking I/O.

use vstd::prelude::*;

verus! {

/// What one pull call yields: bytes, or the end of the stream.
#[derive(Debug, Clone, PartialEq, Eq)]
pub enum Pull {
    /// At least one byte, at most the requested count.
    Data(Vec<u8>),
    /// The stream is exhausted. Nothing is ever delivered after this.
    Eof,
}

/// The bytes of the chunk sequence from chunk `i` on.
pub open spec fn concat_from(cs: Seq<Seq<u8>>, i: int) -> Seq<u8>
    decreases cs.len() - i,
{
    if i < 0 || i >= cs.len() {
        Seq::empty()
    } else {
        cs[i] + concat_from(cs, i + 1)
    }
}

/// A pull-based byte source: an owned reader that yields its bytes in
/// irregular chunks, including empty ones, and a cursor over them.
pub struct StreamingInput {
    chunks: Vec<Vec<u8>>,
    chunk_idx: usize,
    offset: usize,
    bridge: NativeBridge,
}

impl StreamingInput {
    /// The chunk views.
    pub closed spec fn chunk_views(self) -> Seq<Seq<u8>> {
        self.chunks@.map_values(|v: Vec<u8>| v@)
    }

    /// Every byte the underlying reader will ever yield.
    pub closed spec fn stream(self) -> Seq<u8> {
        concat_from(self.chunk_views(), 0)
    }

    /// The bytes not yet delivered.
    pub closed spec fn remaining(self) -> Seq<u8> {
        if self.chunk_idx < self.chunk_views().len() {
            self.chunk_views()[self.chunk_idx as int].skip(self.offset as int) + concat_from(
                self.chunk_views(),
                self.chunk_idx + 1,
            )
        } else {
            Seq::empty()
        }
    }

    /// The native resources this adapter owns.
    pub closed spec fn bridge_state(self) -> NativeBridge {
        self.bridge
    }

    /// The cursor sits inside the chunks.
    pub closed spec fn wf(self) -> bool {
        &&& self.chunk_idx <= self.chunk_views().len()
        &&& (self.chunk_idx < self.chunk_views().len() ==> self.offset
            <= self.chunk_views()[self.chunk_idx as int].len())
        &&& (self.chunk_idx == self.chunk_views().len() ==> self.offset == 0)
        &&& self.bridge.wf()
    }

    /// Adopts a reader — its future output given as chunks — and brings up
    /// the native contexts around it. Nothing is delivered yet: the whole
    /// stream remains.
    pub fn new(source: Vec<Vec<u8>>) -> (r: StreamingInput)
        ensures
            r.wf(),
            r.stream() == concat_from(source@.map_values(|v: Vec<u8>| v@), 0),
            r.remaining() == r.stream(),
            r.bridge_state().phase() is Open,
            r.bridge_state().alloc_count() == NATIVE_RESOURCE_COUNT,
            r.bridge_state().free_count() == 0,
    {
        let mut bridge = NativeBridge::new();
        bridge.open();
        let r = StreamingInput { chunks: source, chunk_idx: 0, offset: 0, bridge };
        proof {
            if r.chunk_views().len() > 0 {
                assert(r.chunk_views()[0].skip(0) =~= r.chunk_views()[0]);
            }
        }
        r
    }

    /// One pull call, as the native layer makes them while the adapter is
    /// open: delivers between one and `cap` of the next undelivered bytes,
    /// skipping however many zero-length reads the reader produces, and
    /// yields end-of-stream
    /// exactly when nothing remains. After end-of-stream the source is
    /// unchanged, so every later pull reports it again and delivers
    /// nothing.
    pub fn pull(&mut self, cap: usize) -> (r: Pull)
        requires
            old(self).wf(),
            old(self).bridge_state().phase() is Open,
            cap >= 1,
        ensures
            final(self).wf(),
            final(self).stream() == old(self).stream(),
            final(self).bridge_state() == old(self).bridge_state(),
            match r {
                Pull::Data(v) => 1 <= v@.len() <= cap && v@ + final(self).remaining() == old(
                    self,
                ).remaining(),
                Pull::Eof => old(self).remaining().len() == 0 && final(self).remaining() == old(
                    self,
                ).remaining(),
            },
    {
        let ghost cs = self.chunk_views();
        while self.chunk_idx < self.chunks.len() && self.offset == self.chunks[self.chunk_idx].len()
            invariant
                self.wf(),
                cs == self.chunk_views(),
                self.remaining() == old(self).remaining(),
                self.chunks@ == old(self).chunks@,
                self.bridge == old(self).bridge,
            decreases cs.len() - self.chunk_idx,
        {
            let ghost i = self.chunk_idx as int;
            proof {
                assert(cs[i].skip(self.offset as int) =~= Seq::<u8>::empty());
            }
            self.chunk_idx += 1;
            self.offset = 0;
            proof {
                if self.chunk_idx < cs.len() {
                    assert(concat_from(cs, i + 1) == cs[i + 1] + concat_from(cs, i + 2));
                    assert(cs[i + 1].skip(0) =~= cs[i + 1]);
                }
            }
        }
        if self.chunk_idx == self.chunks.len() {
            return Pull::Eof;
        }
        let ghost i = self.chunk_idx as int;
        let chunk_len = self.chunks[self.chunk_idx].len();
        let avail = chunk_len - self.offset;
        let take = if avail < cap {
            avail
        } else {
            cap
        };
        let mut v: Vec<u8> = Vec::new();
        let start = self.offset;
        let end = start + take;
        let mut k: usize = start;
        while k < end
            invariant
                start <= k <= end,
                self.wf(),
                cs == self.chunk_views(),
                0 <= i < cs.len(),
                self.chunk_idx == i,
                self.offset == start,
                end == start + take,
                end <= cs[i].len(),
                v@ == cs[i].subrange(start as int, k as int),
            decreases end - k,
        {
            v.push(self.chunks[self.chunk_idx][k]);
            k += 1;
            proof {
                assert(v@ =~= cs[i].subrange(start as int, k as int));
            }
        }
        self.offset = end;
        proof {
            assert(v@ + self.remaining() =~= old(self).remaining());
        }
        Pull::Data(v)
    }

    /// Pulls until end of stream, with the given per-call capacity. What
    /// comes out is every remaining byte of the stream, in order, however
    /// irregularly the reader chunked them — the delivery guarantee the
    /// native layer depends on.
    pub fn drain_all(&mut self, cap: usize) -> (r: Vec<u8>)
        requires
            old(self).wf(),
            old(self).bridge_state().phase() is Open,
            cap >= 1,
        ensures
            final(self).wf(),
            r@ == old(self).remaining(),
            final(self).remaining().len() == 0,
            final(self).stream() == old(self).stream(),
            final(self).bridge_state() == old(self).bridge_state(),
    {
        let mut out: Vec<u8> = Vec::new();
        loop
            invariant
                self.wf(),
                cap >= 1,
                self.bridge.phase() is Open,
                out@ + self.remaining() == old(self).remaining(),
                self.stream() == old(self).stream(),
                self.bridge == old(self).bridge,
            decreases self.remaining().len(),
        {
            let ghost before = self.remaining();
            match self.pull(cap) {
                Pull::Data(mut v) => {
                    let ghost vlen = v@.len();
                    out.append(&mut v);
                    proof {
                        assert(self.remaining().len() < before.len());
                    }
                },
                Pull::Eof => {
                    proof {
                        assert(out@ + self.remaining() =~= out@);
                    }
                    return out;
                },
            }
        }
    }

    /// Tears the adapter down: releases the native contexts exactly once,
    /// in dependency order. Safe to call again; a second teardown releases
    /// nothing.
    pub fn close(&mut self)
        requires
            old(self).wf(),
        ensures
            final(self).wf(),
            final(self).stream() == old(self).stream(),
            final(self).remaining() == old(self).remaining(),
            final(self).bridge_state().phase() is Closed,
            final(self).bridge_state().alloc_count() == final(self).bridge_state().free_count(),
            old(self).bridge_state().phase() is Open ==> final(self).bridge_state().free_order()
                == seq![
                NativeResource::FormatContext,
                NativeResource::IoContext,
                NativeResource::IoBuffer,
            ],
            old(self).bridge_state().phase() is Closed ==> final(self).bridge_state() == old(
                self,
            ).bridge_state(),
    {
        self.bridge.close();
    }
}

/// How many native allocations the adapter owns when open: the I/O
/// buffer, the I/O context wrapping it, and the format context.
pub const NATIVE_RESOURCE_COUNT: u32 = 3;

/// One of the native allocations the adapter is responsible for.
#[derive(Debug, Clone, Copy, PartialEq, Eq, Structural)]
pub enum NativeResource {
    /// The demux/format context; it depends on the I/O context.
    FormatContext,
    /// The custom I/O context; it depends on the buffer.
    IoContext,
    /// The fixed-size native read buffer.
    IoBuffer,
}

/// Where the bridge stands in its life.
#[derive(Debug, Clone, Copy, PartialEq, Eq, Structural)]
pub enum BridgePhase {
    /// Created, nothing allocated yet.
    Constructing,
    /// All native resources allocated and possibly in use.
    Open,
    /// Torn down; nothing will be touched again.
    Closed,
}

/// The ownership state machine of the native bridge, with a counting
/// allocator: every native allocation and release is tallied, and the
/// release order is recorded, so that a teardown can be held to "each
/// resource exactly once, in dependency order" — the crux of the bridge's
/// safety argument.
pub struct NativeBridge {
    phase: BridgePhase,
    allocs: u32,
    frees: u32,
    free_log: Vec<NativeResource>,
}

impl NativeBridge {
    /// Where the bridge stands.
    pub closed spec fn phase(self) -> BridgePhase {
        self.phase
    }

    /// How many native allocations were made.
    pub closed spec fn alloc_count(self) -> u32 {
        self.allocs
    }

    /// How many native releases were made.
    pub closed spec fn free_count(self) -> u32 {
        self.frees
    }

    /// The order resources were released in.
    pub closed spec fn free_order(self) -> Seq<NativeResource> {
        self.free_log@
    }

    /// Every allocation is accounted for: nothing freed before open,
    /// nothing freed twice, nothing leaked after close.
    pub closed spec fn wf(self) -> bool {
        match self.phase {
            BridgePhase::Constructing => self.allocs == 0 && self.frees == 0 && self.free_log@
                =~= Seq::<NativeResource>::empty(),
            BridgePhase::Open => self.allocs == NATIVE_RESOURCE_COUNT && self.frees == 0
                && self.free_log@ =~= Seq::<NativeResource>::empty(),
            BridgePhase::Closed => self.allocs == self.frees && (self.allocs == 0 ==> self.free_log@
                =~= Seq::<NativeResource>::empty()) && (self.allocs == NATIVE_RESOURCE_COUNT
                ==> self.free_log@ =~= seq![
                NativeResource::FormatContext,
                NativeResource::IoContext,
                NativeResource::IoBuffer,
            ]) && (self.allocs == 0 || self.allocs == NATIVE_RESOURCE_COUNT),
        }
    }

    /// A bridge with nothing allocated.
    pub fn new() -> (r: NativeBridge)
        ensures
            r.wf(),
            r.phase() is Constructing,
            r.alloc_count() == 0,
            r.free_count() == 0,
    {
        NativeBridge { phase: BridgePhase::Constructing, allocs: 0, frees: 0, free_log: Vec::new() }
    }

    /// Allocates the buffer, the I/O context around it, and the format
    /// context around that, in dependency order.
    pub fn open(&mut self)
        requires
            old(self).wf(),
            old(self).phase() is Constructing,
        ensures
            final(self).wf(),
            final(self).phase() is Open,
            final(self).alloc_count() == NATIVE_RESOURCE_COUNT,
            final(self).free_count() == 0,
    {
        self.phase = BridgePhase::Open;
        self.allocs = NATIVE_RESOURCE_COUNT;
    }

    /// Releases everything allocated, exactly once, in dependency order:
    /// the format context first, then the I/O context, then the buffer. A
    /// bridge already closed is left exactly as it is — teardown can run
    /// twice without a double release.
    pub fn close(&mut self)
        requires
            old(self).wf(),
        ensures
            final(self).wf(),
            final(self).phase() is Closed,
            final(self).alloc_count() == old(self).alloc_count(),
            final(self).alloc_count() == final(self).free_count(),
            old(self).phase() is Open ==> final(self).free_count() == old(self).free_count()
                + NATIVE_RESOURCE_COUNT && final(self).free_order() == seq![
                NativeResource::FormatContext,
                NativeResource::IoContext,
                NativeResource::IoBuffer,
            ],
            old(self).phase() is Closed ==> *final(self) == *old(self),
    {
        match self.phase {
            BridgePhase::Closed => {
            },
            BridgePhase::Constructing => {
                self.phase = BridgePhase::Closed;
            },
            BridgePhase::Open => {
                self.free_log.push(NativeResource::FormatContext);
                self.frees = self.frees + 1;
                self.free_log.push(NativeResource::IoContext);
                self.frees = self.frees + 1;
                self.free_log.push(NativeResource::IoBuffer);
                self.frees = self.frees + 1;
                self.phase = BridgePhase::Closed;
                proof {
                    assert(self.free_log@ =~= seq![
                        NativeResource::FormatContext,
                        NativeResource::IoContext,
                        NativeResource::IoBuffer,
                    ]);
                }
            },
        }
    }

    /// The allocation tally, for balance checks around construction and
    /// destruction.
    pub fn allocations(&self) -> (r: u32)
        ensures
            r == self.alloc_count(),
    {
        self.allocs
    }

    /// The release tally.
    pub fn releases(&self) -> (r: u32)
        ensures
            r == self.free_count(),
    {
        self.frees
    }
}

} // verus!
