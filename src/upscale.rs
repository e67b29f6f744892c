use vstd::prelude::*;
use std::collections::BTreeMap;
use crate::error::{Error, ErrorKind};
use crate::frame::{Frame, Raster, RasterView};
use crate::model::Upscaler;

verus! {

broadcast use vstd::std_specs::btree::group_btree_axioms;

/// The ordering barrier as sets of indices: the index due next, and the
/// indices of the frames that finished before their turn.
pub ghost struct BarrierModel {
    pub next: nat,
    pub pending: Set<nat>,
}

/// Releasing from `next` on: the run of consecutive pending indices starting
/// at `next` leaves, in order. The result is the barrier after it, and the
/// indices released.
pub open spec fn release(m: BarrierModel) -> (BarrierModel, Seq<nat>)
    decreases m.pending.len(),
{
    if m.pending.finite() && m.pending.contains(m.next) {
        let (after, out) = release(BarrierModel { next: m.next + 1, pending: m.pending.remove(m.next) });
        (after, seq![m.next] + out)
    } else {
        (m, Seq::empty())
    }
}

/// A frame of the given index finishes: it joins the pending ones, and what
/// is then in turn is released.
pub open spec fn barrier_arrive(m: BarrierModel, index: nat) -> (BarrierModel, Seq<nat>) {
    release(BarrierModel { next: m.next, pending: m.pending.insert(index) })
}

/// The barrier after frames finish in the given order, and every index
/// released on the way, in release order.
pub open spec fn barrier_run(order: Seq<nat>) -> (BarrierModel, Seq<nat>)
    decreases order.len(),
{
    if order.len() == 0 {
        (BarrierModel { next: 0, pending: Set::empty() }, Seq::empty())
    } else {
        let (m, out) = barrier_run(order.drop_last());
        let (m2, more) = barrier_arrive(m, order.last());
        (m2, out + more)
    }
}

/// The indices `lo`, `lo + 1`, ..., up to `hi` excluded.
pub open spec fn index_range(lo: nat, hi: nat) -> Seq<nat> {
    Seq::new((hi - lo) as nat, |i: int| (lo + i) as nat)
}

proof fn lemma_release_shape(m: BarrierModel)
    requires
        m.pending.finite(),
    ensures
        ({
            let (after, out) = release(m);
            &&& after.next >= m.next
            &&& out == index_range(m.next, after.next)
            &&& after.pending.finite()
            &&& !after.pending.contains(after.next)
            &&& forall|k: nat| m.next <= k < after.next ==> m.pending.contains(k)
            &&& forall|k: nat| #[trigger] after.pending.contains(k) <==> (m.pending.contains(k) && !(m.next <= k < after.next))
        }),
    decreases m.pending.len(),
{
    if m.pending.contains(m.next) {
        let m1 = BarrierModel { next: m.next + 1, pending: m.pending.remove(m.next) };
        lemma_release_shape(m1);
        let (after, out) = release(m1);
        assert(seq![m.next] + out =~= index_range(m.next, after.next));
    } else {
        assert(index_range(m.next, m.next) =~= Seq::<nat>::empty());
    }
}

proof fn lemma_barrier_run(order: Seq<nat>)
    requires
        order.no_duplicates(),
    ensures
        ({
            let (m, out) = barrier_run(order);
            &&& out == index_range(0, m.next)
            &&& m.pending.finite()
            &&& !m.pending.contains(m.next)
            &&& forall|k: nat| k < m.next ==> order.contains(k)
            &&& forall|k: nat| #[trigger] m.pending.contains(k) <==> (order.contains(k) && k >= m.next)
        }),
    decreases order.len(),
{
    if order.len() > 0 {
        let prefix = order.drop_last();
        let x = order.last();
        assert(prefix.no_duplicates()) by {
            assert forall|i: int, j: int| 0 <= i < prefix.len() && 0 <= j < prefix.len() && i != j
                implies prefix[i] != prefix[j] by {
                assert(prefix[i] == order[i] && prefix[j] == order[j]);
            }
        }
        assert(!prefix.contains(x)) by {
            if prefix.contains(x) {
                let i = choose|i: int| 0 <= i < prefix.len() && prefix[i] == x;
                assert(order[i] == order[order.len() - 1]);
            }
        }
        lemma_barrier_run(prefix);
        let (m, out) = barrier_run(prefix);
        let m1 = BarrierModel { next: m.next, pending: m.pending.insert(x) };
        lemma_release_shape(m1);
        let (m2, more) = release(m1);
        assert(out + more =~= index_range(0, m2.next));
        assert forall|k: nat| order.contains(k) <==> (prefix.contains(k) || k == x) by {
            if order.contains(k) {
                let i = choose|i: int| 0 <= i < order.len() && order[i] == k;
                if i < prefix.len() {
                    assert(prefix[i] == k);
                }
            }
            if prefix.contains(k) {
                let i = choose|i: int| 0 <= i < prefix.len() && prefix[i] == k;
                assert(order[i] == k);
            }
            if k == x {
                assert(order[order.len() - 1] == k);
            }
        }
        assert(x >= m.next) by {
            if x < m.next {
                assert(prefix.contains(x));
            }
        }
        assert forall|k: nat| k < m2.next implies order.contains(k) by {
            if k < m.next {
                assert(prefix.contains(k));
            } else {
                assert(m1.pending.contains(k));
            }
        }
        assert forall|k: nat| #[trigger] m2.pending.contains(k) <==> (order.contains(k) && k >= m2.next) by {
            assert(m1.pending.contains(k) <==> (m.pending.contains(k) || k == x));
        }
    } else {
        assert(index_range(0, 0) =~= Seq::<nat>::empty());
    }
}

/// Whatever order the workers finish in, the barrier releases the frames
/// 0, 1, ..., n - 1 in that order, all of them and each once.
pub proof fn lemma_release_in_order(order: Seq<nat>, n: nat)
    requires
        order.len() == n,
        order.no_duplicates(),
        forall|i: int| 0 <= i < order.len() ==> #[trigger] order[i] < n,
        forall|k: nat| k < n ==> order.contains(k),
    ensures
        barrier_run(order).1 == index_range(0, n),
{
    lemma_barrier_run(order);
    let (m, out) = barrier_run(order);
    if m.next < n {
        assert(order.contains(m.next));
        assert(m.pending.contains(m.next));
    }
    if m.next > n {
        assert(order.contains(n));
        let i = choose|i: int| 0 <= i < order.len() && order[i] == n;
        assert(order[i] < n);
    }
}

/// The ordering barrier of the upscale stage: workers finish frames in any
/// order, and the barrier hands them on by index, with no gap.
pub struct OrderingBarrier {
    next: usize,
    pending: BTreeMap<usize, Frame>,
    keys: Ghost<Set<nat>>,
}

impl OrderingBarrier {
    /// The barrier as sets of indices.
    pub closed spec fn model(&self) -> BarrierModel {
        BarrierModel { next: self.next as nat, pending: self.keys@ }
    }

    /// The frames waiting for their turn, by index.
    pub closed spec fn waiting(&self) -> Map<usize, Frame> {
        self.pending@
    }

    /// The key set mirrors the map, and every waiting frame sits under its
    /// own index, at or after the one due next.
    pub closed spec fn wf(&self) -> bool {
        &&& self.keys@.finite()
        &&& forall|k: nat| #[trigger] self.keys@.contains(k) ==> k < usize::MAX
        &&& forall|k: usize| #[trigger] self.pending@.contains_key(k) <==> self.keys@.contains(k as nat)
        &&& forall|k: usize| #[trigger] self.pending@.contains_key(k) ==> self.pending@[k].index == k && k >= self.next
    }

    /// A barrier that waits for frame 0.
    pub fn new() -> (r: OrderingBarrier)
        ensures
            r.wf(),
            r.model() == (BarrierModel { next: 0, pending: Set::empty() }),
    {
        OrderingBarrier { next: 0, pending: BTreeMap::new(), keys: Ghost(Set::empty()) }
    }

    /// The index due next.
    pub fn next_index(&self) -> (r: usize)
        ensures
            r == self.model().next,
    {
        self.next
    }

    /// Whether a finished frame of this index can be handed to the barrier:
    /// its turn has not passed and no frame waits under it.
    pub fn accepts(&self, index: usize) -> (r: bool)
        requires
            self.wf(),
        ensures
            r == (self.model().next <= index < usize::MAX && !self.model().pending.contains(index as nat)),
    {
        index >= self.next && index < usize::MAX && !self.pending.contains_key(&index)
    }

    /// Hands a finished frame to the barrier; returns the frames whose turn
    /// has come, in index order, as `barrier_arrive` says.
    pub fn publish(&mut self, frame: Frame) -> (r: Vec<Frame>)
        requires
            old(self).wf(),
            old(self).model().next <= frame.index < usize::MAX,
            !old(self).model().pending.contains(frame.index as nat),
        ensures
            final(self).wf(),
            ({
                let (m, out) = barrier_arrive(old(self).model(), frame.index as nat);
                &&& final(self).model() == m
                &&& r@.len() == out.len()
                &&& forall|i: int| 0 <= i < out.len() ==> (#[trigger] r@[i]).index == out[i]
                &&& forall|i: int| 0 <= i < out.len() ==> #[trigger] r@[i]@ == (
                    if r@[i].index == frame.index { frame@ } else { old(self).waiting()[r@[i].index]@ })
            }),
            forall|k: usize| #[trigger] final(self).waiting().contains_key(k)
                ==> final(self).waiting()[k] == old(self).waiting().insert(frame.index, frame)[k],
    {
        let ghost old_pending = self.pending@;
        let ghost index = frame.index;
        let ghost frame_copy = frame;
        self.keys = Ghost(self.keys@.insert(frame.index as nat));
        self.pending.insert(frame.index, frame);
        let ghost start = self.model();
        let ghost all = self.pending@;
        assert(all == old_pending.insert(index, frame_copy));
        let mut out: Vec<Frame> = Vec::new();
        loop
            invariant
                self.wf(),
                release(start) == ({
                    let (m, rest) = release(self.model());
                    (m, out@.map_values(|f: Frame| f.index as nat) + rest)
                }),
                all == old_pending.insert(index, frame_copy),
                forall|i: int| 0 <= i < out@.len() ==> #[trigger] out@[i] == all[out@[i].index],
                forall|k: usize| #[trigger] self.pending@.contains_key(k) ==> self.pending@[k] == all[k],
            ensures
                !self.keys@.contains(self.next as nat),
            decreases self.keys@.len(),
        {
            if !self.pending.contains_key(&self.next) {
                break;
            }
            let f = self.pending.remove(&self.next).unwrap();
            self.keys = Ghost(self.keys@.remove(self.next as nat));
            self.next = self.next + 1;
            out.push(f);
        }
        proof {
            assert(!self.keys@.contains(self.next as nat));
            let mapped = out@.map_values(|f: Frame| f.index as nat);
            assert(mapped + Seq::<nat>::empty() =~= mapped);
            assert forall|i: int| 0 <= i < out@.len() implies (#[trigger] out@[i]).index == mapped[i] by {}
        }
        out
    }
}

/// A raster scaled by `scale` in both dimensions, over the bytes that the
/// model returned.
pub open spec fn scaled_raster(image: RasterView, scale: nat, pixels: Seq<u8>) -> RasterView {
    RasterView { width: image.width * scale, height: image.height * scale, pixels }
}

/// Whether the scaled dimensions fit the raster's integer type and `len`
/// bytes are three for each scaled pixel.
pub open spec fn fits_scaled(image: RasterView, scale: nat, len: nat) -> bool {
    &&& image.width * scale <= u32::MAX
    &&& image.height * scale <= u32::MAX
    &&& len == (image.width * scale) * (image.height * scale) * 3
}

/// Puts the model's output in place of the frame's raster; index and
/// run-length stay as they were. An `Upscale` error where the output does not
/// hold three bytes for each pixel of the scaled raster.
pub fn apply_upscaled(frame: Frame, scale: u8, pixels: Vec<u8>) -> (r: Result<Frame, Error>)
    ensures
        match r {
            Ok(f) => fits_scaled(frame.image@, scale as nat, pixels@.len())
                && f.index == frame.index && f.duplicates == frame.duplicates
                && f.image@ == scaled_raster(frame.image@, scale as nat, pixels@)
                && f.image@.valid(),
            Err(e) => !fits_scaled(frame.image@, scale as nat, pixels@.len()) && e.kind == ErrorKind::Upscale,
        },
{
    let fw = frame.image.width as u64;
    let fh = frame.image.height as u64;
    let s = scale as u64;
    assert(fw * s <= 0xffff_ffffu64 * 0xffu64 && fh * s <= 0xffff_ffffu64 * 0xffu64) by (nonlinear_arith)
        requires
            fw <= 0xffff_ffffu64,
            fh <= 0xffff_ffffu64,
            s <= 0xffu64,
    ;
    let w = fw * s;
    let h = fh * s;
    if w > u32::MAX as u64 || h > u32::MAX as u64 {
        return Err(Error::with_kind(ErrorKind::Upscale, "upscaled dimensions are too large".to_owned()));
    }
    let w = w as u32;
    let h = h as u32;
    let wide = w as u128;
    let high = h as u128;
    assert(wide * high <= 0xffff_ffffu128 * 0xffff_ffffu128) by (nonlinear_arith)
        requires
            wide <= 0xffff_ffffu128,
            high <= 0xffff_ffffu128,
    ;
    if pixels.len() as u128 != wide * high * 3 {
        return Err(Error::with_kind(ErrorKind::Upscale, "upscaler returned a buffer of the wrong size".to_owned()));
    }
    Ok(Frame {
        index: frame.index,
        duplicates: frame.duplicates,
        image: Raster { width: w, height: h, pixels },
    })
}

/// Runs the model on one frame: it is handed the frame's pixels, width and
/// height. Whatever the model returns, a frame that comes out keeps its index
/// and run-length, its raster is the input's scaled by `scale` in both
/// dimensions, and its pixels are what the model produced from that input.
pub fn process_frame<U: Upscaler + ?Sized>(frame: Frame, upscaler: &U, scale: u8) -> (r: Result<Frame, Error>)
    requires
        frame.image@.valid(),
    ensures
        match r {
            Ok(f) => f.index == frame.index && f.duplicates == frame.duplicates
                && f.image.width == frame.image.width * scale && f.image.height == frame.image.height * scale
                && f.image@.valid()
                && upscaler.produces(
                    frame.image.pixels@,
                    frame.image.width as usize,
                    frame.image.height as usize,
                    f.image.pixels@,
                ),
            Err(_) => true,
        },
{
    let upscaled = upscaler.upscale(frame.image.pixels.as_slice(), frame.image.width as usize, frame.image.height as usize);
    match upscaled {
        Ok(pixels) => apply_upscaled(frame, scale, pixels),
        Err(e) => Err(e),
    }
}

} // verus!
