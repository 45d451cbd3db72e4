//! Frame-transfer engine.
//!
//! Per frame: pack the caller's 16-bit pixels into the owned transfer buffer
//! as little-endian byte pairs, in row-major order; check the buffer and the
//! hardware handle out as one exclusive resource; let the hardware shell run
//! the one-shot bulk transfer; and release the resource on every outcome, so
//! a failed frame is only a dropped frame, never a stuck engine.
//!
//! The bulk-transfer hardware bounds how many bytes one descriptor may cover,
//! so the buffer is described by a chain of contiguous, gap-free descriptors
//! sized `ceil(byte_length / per-descriptor limit)`.

use vstd::prelude::*;

use crate::errors::ResourceMisuseError;
use crate::errors::TransferError;

verus! {

/// Width of the square panel in pixels.
pub const PANEL_WIDTH: usize = 480;

/// Height of the square panel in pixels.
pub const PANEL_HEIGHT: usize = 480;

/// Pixels of one full frame.
pub const PIXEL_COUNT: usize = PANEL_WIDTH * PANEL_HEIGHT;

/// Bytes of one full packed frame: two bytes per pixel.
pub const FRAME_BYTES: usize = 2 * PIXEL_COUNT;

/// Most bytes one bulk-transfer descriptor can cover.
pub const MAX_UNIT_BYTES: usize = 4095;

/// Low byte of a pixel's little-endian encoding.
pub open spec fn le_lo(px: u16) -> u8 {
    (px & 0xff) as u8
}

/// High byte of a pixel's little-endian encoding.
pub open spec fn le_hi(px: u16) -> u8 {
    (px >> 8) as u8
}

/// The packed transfer buffer of a pixel sequence: each pixel's low byte then
/// high byte, pixel order kept.
pub open spec fn packed_bytes(pixels: Seq<u16>) -> Seq<u8> {
    Seq::new(
        pixels.len() * 2,
        |i: int|
            if i % 2 == 0 {
                le_lo(pixels[i / 2])
            } else {
                le_hi(pixels[i / 2])
            },
    )
}

/// Packing is a pure function of the pixel buffer: any two packings of the
/// same pixels are byte-identical.
pub proof fn lemma_packing_pure(pixels: Seq<u16>, a: Seq<u8>, b: Seq<u8>)
    requires
        a == packed_bytes(pixels),
        b == packed_bytes(pixels),
    ensures
        a == b,
{
}

/// A uniform pixel buffer packs to its color's two little-endian bytes
/// repeated once per pixel.
pub proof fn lemma_packing_uniform(pixels: Seq<u16>, color: u16)
    requires
        forall|j: int| 0 <= j < pixels.len() ==> pixels[j] == color,
    ensures
        packed_bytes(pixels).len() == pixels.len() * 2,
        forall|i: int|
            0 <= i < pixels.len() * 2 ==> #[trigger] packed_bytes(pixels)[i] == if i % 2 == 0 {
                le_lo(color)
            } else {
                le_hi(color)
            },
{
}

/// Packs the pixels into `dst` in place: pixel `j`'s low byte lands at
/// `2 * j`, its high byte at `2 * j + 1`. The buffer must already have the
/// frame's exact size.
pub fn pack_frame(dst: &mut Vec<u8>, pixels: &Vec<u16>)
    requires
        old(dst)@.len() == pixels@.len() * 2,
    ensures
        final(dst)@ == packed_bytes(pixels@),
{
    let n = pixels.len();
    let m = dst.len();
    let mut j: usize = 0;
    while j < n
        invariant
            j <= n,
            n == pixels@.len(),
            m == dst@.len(),
            dst@.len() == n * 2,
            forall|i: int|
                0 <= i < 2 * j ==> dst@[i] == #[trigger] packed_bytes(pixels@)[i],
        decreases n - j,
    {
        let px = pixels[j];
        let lo: u8 = #[verifier::truncate] ((px & 0xff) as u8);
        let hi: u8 = #[verifier::truncate] ((px >> 8) as u8);
        dst.set(2 * j, lo);
        dst.set(2 * j + 1, hi);
        proof {
            assert((2 * j as int) % 2 == 0 && (2 * j as int) / 2 == j as int);
            assert((2 * j as int + 1) % 2 == 1 && (2 * j as int + 1) / 2 == j as int);
        }
        j = j + 1;
    }
    proof {
        assert(dst@ =~= packed_bytes(pixels@));
    }
}

/// One record of the descriptor chain: a contiguous slice of the transfer
/// buffer, `len` bytes starting at `offset`.
#[derive(Clone, Copy, PartialEq, Eq, Structural, Debug)]
pub struct Descriptor {
    pub offset: usize,
    pub len: usize,
}

/// Descriptors a buffer of `total` bytes needs when one descriptor covers at
/// most `limit` bytes: `ceil(total / limit)`.
pub open spec fn descriptor_count(total: int, limit: int) -> int {
    (total + limit - 1) / limit
}

/// The canonical descriptor chain of a `total`-byte buffer: descriptor `j`
/// starts at `j * limit` and covers `limit` bytes, except the last, which
/// covers what is left; the chain is contiguous, gap-free and in buffer
/// order.
pub open spec fn chain_wf(ds: Seq<Descriptor>, total: int, limit: int) -> bool {
    &&& ds.len() == descriptor_count(total, limit)
    &&& forall|j: int| 0 <= j < ds.len() ==> (#[trigger] ds[j]).offset == j * limit
    &&& forall|j: int|
        0 <= j < ds.len() ==> (#[trigger] ds[j]).len == if total - j * limit < limit {
            total - j * limit
        } else {
            limit
        }
}

/// Builds the canonical descriptor chain for a `total`-byte buffer.
pub fn build_descriptors(total: usize, limit: usize) -> (ds: Vec<Descriptor>)
    requires
        limit >= 1,
        total + limit <= usize::MAX,
    ensures
        chain_wf(ds@, total as int, limit as int),
{
    let mut ds: Vec<Descriptor> = Vec::new();
    let mut off: usize = 0;
    proof {
        assert(ds@.len() * limit == 0) by (nonlinear_arith)
            requires
                ds@.len() == 0,
        ;
    }
    while off < total
        invariant
            limit >= 1,
            total + limit <= usize::MAX,
            off == ds@.len() * limit || (off == total && ds@.len() * limit >= total),
            ds@.len() >= 1 ==> (ds@.len() - 1) * limit < total,
            forall|j: int| 0 <= j < ds@.len() ==> (#[trigger] ds@[j]).offset == j * limit,
            forall|j: int|
                0 <= j < ds@.len() ==> (#[trigger] ds@[j]).len == if total - j * limit < limit {
                    total - j * limit
                } else {
                    limit as int
                },
        decreases total - off,
    {
        let len = if total - off < limit {
            total - off
        } else {
            limit
        };
        let ghost k = ds@.len() as int;
        ds.push(Descriptor { offset: off, len });
        proof {
            assert((k + 1) * limit == k * limit + limit) by (nonlinear_arith);
        }
        off = off + len;
    }
    proof {
        let n = ds@.len() as int;
        let t = total as int;
        let l = limit as int;
        if t == 0 {
            assert(n == 0);
            assert(descriptor_count(t, l) == (l - 1) / l);
            assert((l - 1) / l == 0) by (nonlinear_arith)
                requires
                    l >= 1,
            ;
        } else {
            assert(n >= 1);
            assert((n - 1) * l < t && t <= n * l);
            assert(descriptor_count(t, l) == n) by (nonlinear_arith)
                requires
                    l >= 1,
                    (n - 1) * l < t,
                    t <= n * l,
            ;
        }
    }
    ds
}

/// A canonical chain is contiguous and non-overlapping: every descriptor
/// covers at least one byte and at most the limit, stays inside the buffer,
/// and each one starts exactly where its predecessor ended.
pub proof fn lemma_chain_contiguous(ds: Seq<Descriptor>, total: int, limit: int)
    requires
        limit >= 1,
        total >= 0,
        chain_wf(ds, total, limit),
    ensures
        forall|j: int|
            0 <= j < ds.len() ==> 1 <= (#[trigger] ds[j]).len <= limit && ds[j].offset + ds[j].len
                <= total,
        forall|j: int|
            0 <= j < ds.len() - 1 ==> (#[trigger] ds[j]).offset + ds[j].len == ds[j + 1].offset,
{
    let n = ds.len() as int;
    assert forall|j: int| 0 <= j < n implies 1 <= (#[trigger] ds[j]).len <= limit && ds[j].offset
        + ds[j].len <= total by {
        assert(j * limit < total) by (nonlinear_arith)
            requires
                limit >= 1,
                0 <= j < n,
                n == (total + limit - 1) / limit,
        ;
    }
    assert forall|j: int| 0 <= j < n - 1 implies (#[trigger] ds[j]).offset + ds[j].len == ds[j
        + 1].offset by {
        assert((j + 1) * limit <= total && (j + 1) * limit == j * limit + limit)
            by (nonlinear_arith)
            requires
                limit >= 1,
                0 <= j,
                j + 1 < n,
                n == (total + limit - 1) / limit,
        ;
    }
}

/// The bytes the descriptor chain describes, in chain order: the
/// concatenation of each descriptor's slice of the buffer.
pub open spec fn chain_slices(bytes: Seq<u8>, ds: Seq<Descriptor>) -> Seq<u8>
    decreases ds.len(),
{
    if ds.len() == 0 {
        seq![]
    } else {
        bytes.subrange(ds[0].offset as int, ds[0].offset + ds[0].len) + chain_slices(
            bytes,
            ds.skip(1),
        )
    }
}

/// From descriptor `k` on, a canonical chain describes exactly the buffer's
/// bytes from `k * limit` on (clamped at the buffer's end).
proof fn lemma_chain_slices_from(bytes: Seq<u8>, ds: Seq<Descriptor>, limit: int, k: int)
    requires
        limit >= 1,
        chain_wf(ds, bytes.len() as int, limit),
        0 <= k <= ds.len(),
    ensures
        chain_slices(bytes, ds.skip(k)) == bytes.skip(
            if k * limit < bytes.len() {
                k * limit
            } else {
                bytes.len() as int
            },
        ),
    decreases ds.len() - k,
{
    let t = bytes.len() as int;
    if k == ds.len() {
        assert(ds.len() * limit >= t) by (nonlinear_arith)
            requires
                limit >= 1,
                ds.len() == (t + limit - 1) / limit,
                t >= 0,
        ;
        assert(k * limit >= t);
        assert(bytes.skip(t) =~= Seq::<u8>::empty());
        assert(ds.skip(k) =~= Seq::<Descriptor>::empty());
    } else {
        assert(k * limit < t) by (nonlinear_arith)
            requires
                limit >= 1,
                0 <= k < ds.len(),
                ds.len() == (t + limit - 1) / limit,
        ;
        lemma_chain_slices_from(bytes, ds, limit, k + 1);
        let rest = ds.skip(k);
        assert(rest[0] == ds[k]);
        assert(rest.skip(1) =~= ds.skip(k + 1));
        assert((k + 1) * limit == k * limit + limit) by (nonlinear_arith);
        let end = ds[k].offset + ds[k].len;
        if t - k * limit < limit {
            assert(end == t);
        } else {
            assert(end == k * limit + limit);
        }
        let next = if (k + 1) * limit < t {
            (k + 1) * limit
        } else {
            t
        };
        assert(next == end);
        assert(chain_slices(bytes, rest) == bytes.subrange(k * limit, end) + bytes.skip(end));
        assert(bytes.subrange(k * limit, end) + bytes.skip(end) =~= bytes.skip(k * limit));
    }
}

/// Concatenating the slices a canonical descriptor chain describes, in chain
/// order, reconstructs the transfer buffer exactly.
pub proof fn lemma_chain_reconstructs(bytes: Seq<u8>, ds: Seq<Descriptor>, limit: int)
    requires
        limit >= 1,
        chain_wf(ds, bytes.len() as int, limit),
    ensures
        chain_slices(bytes, ds) == bytes,
{
    lemma_chain_slices_from(bytes, ds, limit, 0);
    assert(ds.skip(0) =~= ds);
    assert(bytes.skip(0) =~= bytes);
    if bytes.len() == 0 {
        assert(bytes.skip(bytes.len() as int) =~= bytes);
    }
}

/// Owns the transfer buffer and its descriptor chain, and tracks whether
/// they, together with the hardware handle, are checked out for a transfer
/// in flight. The resource lives as long as the process; only its
/// checked-out sub-state cycles, once per frame.
pub struct FrameTransferEngine {
    pub buffer: Vec<u8>,
    pub descriptors: Vec<Descriptor>,
    pub in_flight: bool,
}

impl FrameTransferEngine {
    /// The descriptor chain is the canonical one for the owned buffer.
    pub open spec fn wf(self) -> bool {
        chain_wf(self.descriptors@, self.buffer@.len() as int, MAX_UNIT_BYTES as int)
    }

    /// Allocates the zeroed transfer buffer of `byte_len` bytes and its
    /// descriptor chain; nothing is in flight.
    pub fn new(byte_len: usize) -> (e: Self)
        requires
            byte_len + MAX_UNIT_BYTES <= usize::MAX,
        ensures
            e.wf(),
            !e.in_flight,
            e.buffer@.len() == byte_len,
            forall|i: int| 0 <= i < byte_len ==> e.buffer@[i] == 0u8,
    {
        let mut buffer: Vec<u8> = Vec::new();
        let mut k: usize = 0;
        while k < byte_len
            invariant
                k <= byte_len,
                buffer@.len() == k,
                forall|i: int| 0 <= i < k ==> buffer@[i] == 0u8,
            decreases byte_len - k,
        {
            buffer.push(0);
            k = k + 1;
        }
        let descriptors = build_descriptors(byte_len, MAX_UNIT_BYTES);
        FrameTransferEngine { buffer, descriptors, in_flight: false }
    }

    /// Checks the resource out and packs the pixels into the transfer
    /// buffer. Fails fast with `ResourceMisuseError`, touching nothing, when
    /// the resource is already checked out: that is a caller bug, and two
    /// frames must never interleave in one buffer.
    pub fn begin_transmit(&mut self, pixels: &Vec<u16>) -> (r: Result<(), ResourceMisuseError>)
        requires
            old(self).wf(),
            pixels@.len() * 2 == old(self).buffer@.len(),
        ensures
            final(self).wf(),
            final(self).descriptors@ == old(self).descriptors@,
            final(self).buffer@.len() == old(self).buffer@.len(),
            match r {
                Ok(()) => !old(self).in_flight && final(self).in_flight && final(self).buffer@
                    == packed_bytes(pixels@),
                Err(_) => old(self).in_flight && *final(self) == *old(self),
            },
    {
        if self.in_flight {
            return Err(ResourceMisuseError);
        }
        pack_frame(&mut self.buffer, pixels);
        self.in_flight = true;
        Ok(())
    }

    /// Returns the resource after the hardware has reported the transfer's
    /// outcome. The release happens on success and on error alike — a failed
    /// frame never strands the engine — and the outcome is handed back to be
    /// reported, not swallowed.
    pub fn complete_transmit(&mut self, outcome: Result<(), TransferError>) -> (r: Result<
        (),
        TransferError,
    >)
        requires
            old(self).wf(),
            old(self).in_flight,
        ensures
            final(self).wf(),
            !final(self).in_flight,
            final(self).buffer@ == old(self).buffer@,
            final(self).descriptors@ == old(self).descriptors@,
            r == outcome,
    {
        self.in_flight = false;
        outcome
    }
}

} // verus!
