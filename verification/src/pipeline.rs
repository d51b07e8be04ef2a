//! The audio pipeline's buffers: the capture history, the ring that feeds the
//! output device, and the layout of the blocks that go through separation and
//! pitch shifting. The samples themselves are of any copyable type; the
//! engine uses 32-bit floats, interleaved stereo.

use std::collections::VecDeque;
use vstd::prelude::*;
use crate::routing::{find_cable, is_cable};
use crate::text::same_text;

verus! {

/// Frames per second.
pub const RATE: usize = 44_100;
/// Channels (interleaved stereo).
pub const CH: usize = 2;
/// Frames handed to the pitch shifter at a time.
pub const RB_CHUNK: usize = 4096;
/// The frames of the separation model's window (7.8 s).
pub const WIN: usize = 343_980;
/// Frames between the starts of two separated blocks (0.4 s).
pub const HOP: usize = RATE * 2 / 5;
/// Frames of input after a block that the model sees (1 s).
pub const LOOKAHEAD: usize = RATE;
/// Frames over which two blocks are crossfaded (0.05 s).
pub const XFADE: usize = RATE / 20;
/// Frames of silence put before the output when it starts (0.25 s).
pub const CUSHION: usize = RATE / 4;
/// Frames of input history kept.
pub const KEEP_FRAMES: usize = WIN + 3 * RATE;

/// How the output ring is filled and trimmed.
pub struct BufferPlan {
    /// Frames the ring must hold before the output starts.
    pub arm_frames: usize,
    /// Frames of silence put before the ring when the output starts.
    pub cushion_frames: usize,
    /// Frames above which the ring is trimmed (the clocks drift apart).
    pub max_ring_frames: usize,
    /// Frames the ring is trimmed to.
    pub trim_ring_frames: usize,
}

/// The buffer plan, with or without separation.
pub open spec fn plan_spec(windowed: bool) -> BufferPlan {
    if windowed {
        BufferPlan {
            arm_frames: (HOP * 3 / 5) as usize,
            cushion_frames: CUSHION,
            max_ring_frames: (RATE * 5 / 2) as usize,
            trim_ring_frames: (CUSHION + HOP) as usize,
        }
    } else {
        BufferPlan {
            arm_frames: (RATE / 10) as usize,
            cushion_frames: 0,
            max_ring_frames: (RATE * 2 / 5) as usize,
            trim_ring_frames: (RATE * 3 / 20) as usize,
        }
    }
}

/// The buffer plan for a pipeline with or without separation.
pub fn buffer_plan(windowed: bool) -> (plan: BufferPlan)
    ensures
        plan == plan_spec(windowed),
{
    if windowed {
        BufferPlan {
            arm_frames: HOP * 3 / 5,
            cushion_frames: CUSHION,
            max_ring_frames: RATE * 5 / 2,
            trim_ring_frames: CUSHION + HOP,
        }
    } else {
        BufferPlan {
            arm_frames: RATE / 10,
            cushion_frames: 0,
            max_ring_frames: RATE * 2 / 5,
            trim_ring_frames: RATE * 3 / 20,
        }
    }
}

/// Either plan trims the ring to less than its limit, and starts the output
/// before the ring reaches its limit, cushion included.
pub proof fn lemma_plans_fit(windowed: bool)
    ensures
        plan_spec(windowed).trim_ring_frames < plan_spec(windowed).max_ring_frames,
        plan_spec(windowed).arm_frames + plan_spec(windowed).cushion_frames
            <= plan_spec(windowed).max_ring_frames,
{
}

/// The ring after new samples: they go at the end, and when the ring then
/// holds more than its limit, the oldest samples go until it holds the trim size.
pub open spec fn ring_after_push<T>(ring: Seq<T>, samples: Seq<T>, max_samples: nat, trim_samples: nat) -> Seq<T> {
    let all = ring + samples;
    if all.len() > max_samples {
        all.skip(all.len() - trim_samples)
    } else {
        all
    }
}

/// Adds processed samples to the output ring, trimming it to `trim_samples`
/// when it grew past `max_samples`.
pub fn push_ring<T: Copy>(ring: &mut VecDeque<T>, samples: Vec<T>, max_samples: usize, trim_samples: usize)
    requires
        trim_samples <= max_samples,
        old(ring)@.len() + samples@.len() <= usize::MAX,
    ensures
        final(ring)@ == ring_after_push(old(ring)@, samples@, max_samples as nat, trim_samples as nat),
{
    let ghost start = ring@;
    let ghost all = start + samples@;
    let n = samples.len();
    let mut i: usize = 0;
    while i < n
        invariant
            i <= n,
            n == samples@.len(),
            all == start + samples@,
            ring@ == all.subrange(0, start.len() + i),
        decreases n - i,
    {
        ring.push_back(samples[i]);
        i = i + 1;
        assert(ring@ =~= all.subrange(0, start.len() + i));
    }
    assert(ring@ =~= all);
    if ring.len() > max_samples {
        let drop = ring.len() - trim_samples;
        let mut d: usize = 0;
        while d < drop
            invariant
                d <= drop,
                drop <= all.len(),
                ring@ == all.skip(d as int),
            decreases drop - d,
        {
            let _ = ring.pop_front();
            d = d + 1;
            assert(ring@ =~= all.skip(d as int));
        }
    }
}

/// A push never leaves more than `max_samples` in the ring, and what the ring
/// holds is always the newest samples, in the order they came: a trim drops
/// only the oldest.
pub proof fn lemma_ring_stays_bounded<T>(ring: Seq<T>, samples: Seq<T>, max_samples: nat, trim_samples: nat)
    requires
        trim_samples <= max_samples,
    ensures
        ring_after_push(ring, samples, max_samples, trim_samples).len() <= max_samples,
        ring.len() + samples.len() > max_samples ==> ring_after_push(ring, samples, max_samples, trim_samples).len()
            == trim_samples,
        ({
            let all = ring + samples;
            let r = ring_after_push(ring, samples, max_samples, trim_samples);
            r == all.skip(all.len() - r.len())
        }),
{
    let all = ring + samples;
    if all.len() <= max_samples {
        assert(all.skip(0) =~= all);
    }
}

/// The output after a request for `count` samples, as the render thread
/// fills the device's buffer: the next state of the ring and of `armed`, the
/// samples to play, and whether the ring ran dry.
pub open spec fn fill_spec<T>(ring: Seq<T>, armed: bool, count: nat, silence: T, arm_samples: nat, cushion_samples: nat) -> (Seq<T>, bool, Seq<T>, bool) {
    let arm_now = !armed && ring.len() >= arm_samples;
    let ring1 = if arm_now { Seq::new(cushion_samples, |i: int| silence) + ring } else { ring };
    let armed1 = armed || arm_now;
    if armed1 {
        if count <= ring1.len() {
            (ring1.skip(count as int), true, ring1.take(count as int), false)
        } else {
            (Seq::empty(), false, ring1 + Seq::new((count - ring1.len()) as nat, |i: int| silence), true)
        }
    } else {
        (ring1, false, Seq::new(count, |i: int| silence), false)
    }
}

/// The output never loses, repeats or reorders a sample: a request is
/// answered with exactly `count` samples. An output that is armed, or gets
/// armed now (its ring holds `arm_samples`, and `cushion_samples` of silence
/// go in front), plays the ring's samples in order: what it plays followed by
/// what stays in the ring is that ring, padded with silence when it ran dry,
/// which happens exactly when it held fewer than asked, and the output then
/// waits to be armed again. An output that is not armed plays silence and
/// keeps its ring.
pub proof fn lemma_fill_keeps_order<T>(ring: Seq<T>, armed: bool, count: nat, silence: T, arm_samples: nat, cushion_samples: nat)
    ensures
        ({
            let (r2, a2, out, dry) = fill_spec(ring, armed, count, silence, arm_samples, cushion_samples);
            let arming = !armed && ring.len() >= arm_samples;
            let r1 = if arming { Seq::new(cushion_samples, |i: int| silence) + ring } else { ring };
            let short: nat = if count > r1.len() { (count - r1.len()) as nat } else { 0 };
            &&& out.len() == count
            &&& (armed || arming) ==> out + r2 == r1 + Seq::new(short, |i: int| silence)
            &&& (armed || arming) ==> (dry <==> count > r1.len()) && (a2 <==> !dry)
            &&& !(armed || arming) ==> r2 == ring && !a2 && !dry && out == Seq::new(count, |i: int| silence)
        }),
{
    let (r2, a2, out, dry) = fill_spec(ring, armed, count, silence, arm_samples, cushion_samples);
    let arming = !armed && ring.len() >= arm_samples;
    let r1 = if arming { Seq::new(cushion_samples, |i: int| silence) + ring } else { ring };
    let short: nat = if count > r1.len() { (count - r1.len()) as nat } else { 0 };
    if armed || arming {
        if count <= r1.len() {
            assert(out + r2 =~= r1 + Seq::new(short, |i: int| silence));
        } else {
            assert(out + r2 =~= r1 + Seq::new(short, |i: int| silence));
        }
    }
}

/// Fills a request of the output device for `count` samples. The output
/// starts (is armed) once the ring holds `arm_samples`, with
/// `cushion_samples` of silence put in front; while armed, the samples are
/// played in order; when the ring runs dry the rest is silence and the output
/// waits to be armed again.
pub fn fill_output<T: Copy>(ring: &mut VecDeque<T>, armed: &mut bool, count: usize, silence: T, arm_samples: usize, cushion_samples: usize) -> (res: (Vec<T>, bool))
    requires
        old(ring)@.len() + cushion_samples <= usize::MAX,
    ensures
        (final(ring)@, *final(armed), res.0@, res.1) == fill_spec(
            old(ring)@,
            *old(armed),
            count as nat,
            silence,
            arm_samples as nat,
            cushion_samples as nat,
        ),
{
    let ghost r0 = ring@;
    let arm_now = !*armed && ring.len() >= arm_samples;
    if arm_now {
        *armed = true;
        let c = cushion_samples;
        let mut i: usize = 0;
        while i < c
            invariant
                i <= c,
                ring@ == Seq::new(i as nat, |j: int| silence) + r0,
            decreases c - i,
        {
            ring.push_front(silence);
            i = i + 1;
            assert(ring@ =~= Seq::new(i as nat, |j: int| silence) + r0);
        }
    }
    let ghost r1 = ring@;
    let mut out: Vec<T> = Vec::new();
    if *armed {
        let mut ran_dry = false;
        let mut i: usize = 0;
        while i < count
            invariant
                i <= count,
                out@.len() == i,
                !ran_dry ==> i <= r1.len() && out@ == r1.take(i as int) && ring@ == r1.skip(i as int),
                ran_dry ==> i > r1.len() && ring@.len() == 0
                    && out@ == r1 + Seq::new((i - r1.len()) as nat, |j: int| silence),
            decreases count - i,
        {
            match ring.pop_front() {
                Some(x) => {
                    out.push(x);
                    assert(out@ =~= r1.take(i + 1));
                    assert(ring@ =~= r1.skip(i + 1));
                },
                None => {
                    out.push(silence);
                    if !ran_dry {
                        assert(out@ =~= r1 + Seq::new((i + 1 - r1.len()) as nat, |j: int| silence));
                    } else {
                        assert(out@ =~= r1 + Seq::new((i + 1 - r1.len()) as nat, |j: int| silence));
                    }
                    ran_dry = true;
                },
            }
            i = i + 1;
        }
        if ran_dry {
            *armed = false;
        }
        (out, ran_dry)
    } else {
        let mut i: usize = 0;
        while i < count
            invariant
                i <= count,
                out@ == Seq::new(i as nat, |j: int| silence),
            decreases count - i,
        {
            out.push(silence);
            i = i + 1;
            assert(out@ =~= Seq::new(i as nat, |j: int| silence));
        }
        (out, false)
    }
}

/// The capture history: the last captured frames, interleaved, with the
/// number of the first frame kept (`base`) and of all frames captured (`total`).
pub struct History<T> {
    buf: VecDeque<T>,
    base: u64,
    total: u64,
}

/// The history's state.
pub struct HistoryView<T> {
    pub buf: Seq<T>,
    pub base: nat,
    pub total: nat,
}

/// The history holds whole frames, at most `KEEP_FRAMES` of them, and exactly
/// the frames from `base` up to `total`: the most recent ones.
pub open spec fn history_ok<T>(h: HistoryView<T>) -> bool {
    &&& h.buf.len() % (CH as nat) == 0
    &&& h.buf.len() <= KEEP_FRAMES * CH
    &&& h.base + h.buf.len() / CH as nat == h.total
}

/// Channel `c` of frame `frame` as the history holds it, or `silence` when the
/// history does not hold that frame.
pub open spec fn frame_sample<T>(h: HistoryView<T>, frame: int, c: int, silence: T) -> T {
    let at = frame - h.base;
    if 0 <= at && (at + 1) * CH <= h.buf.len() {
        h.buf[at * CH + c]
    } else {
        silence
    }
}

/// The history after a capture of `samples`: they are appended, the frame
/// count grows by their frames, and the oldest frames beyond `KEEP_FRAMES` go.
pub open spec fn record_spec<T>(h: HistoryView<T>, samples: Seq<T>) -> HistoryView<T> {
    let all = h.buf + samples;
    let total = h.total + samples.len() / CH as nat;
    if all.len() > KEEP_FRAMES * CH {
        let drop = (all.len() - KEEP_FRAMES * CH) as nat;
        HistoryView { buf: all.skip(drop as int), base: h.base + drop / CH as nat, total }
    } else {
        HistoryView { buf: all, base: h.base, total }
    }
}

/// A capture keeps the latest frames: the frame count grows by the frames
/// captured, the history holds the last `KEEP_FRAMES` frames (or all, when
/// fewer) of what it held followed by the capture, and it stays consistent.
pub proof fn lemma_record_keeps_latest<T>(h: HistoryView<T>, samples: Seq<T>)
    requires
        history_ok(h),
        samples.len() % (CH as nat) == 0,
    ensures
        ({
            let h2 = record_spec(h, samples);
            let all = h.buf + samples;
            &&& h2.total == h.total + samples.len() / CH as nat
            &&& h2.buf.len() == if all.len() > KEEP_FRAMES * CH { (KEEP_FRAMES * CH) as int } else { all.len() as int }
            &&& h2.buf == all.skip(all.len() - h2.buf.len())
            &&& history_ok(h2)
        }),
{
    let all = h.buf + samples;
    if all.len() <= KEEP_FRAMES * CH {
        assert(all.skip(0) =~= all);
    }
}

impl<T> View for History<T> {
    type V = HistoryView<T>;

    closed spec fn view(&self) -> HistoryView<T> {
        HistoryView { buf: self.buf@, base: self.base as nat, total: self.total as nat }
    }
}

impl<T> History<T> {
    #[verifier::type_invariant]
    closed spec fn valid(self) -> bool {
        history_ok(self@)
    }
}

impl<T: Copy> History<T> {
    /// An empty history.
    pub fn new() -> (h: History<T>)
        ensures
            h@ == (HistoryView::<T> { buf: Seq::empty(), base: 0, total: 0 }),
    {
        History { buf: VecDeque::new(), base: 0, total: 0 }
    }

    /// The number of frames captured so far.
    pub fn total(&self) -> (t: u64)
        ensures
            t == self@.total,
    {
        self.total
    }

    /// The history is always consistent.
    pub fn check_ok(&self)
        ensures
            history_ok(self@),
    {
        proof {
            use_type_invariant(self);
        }
    }

    /// Adds captured frames.
    pub fn record(&mut self, samples: Vec<T>)
        requires
            samples@.len() % (CH as nat) == 0,
            old(self)@.total + samples@.len() / CH as nat <= u64::MAX,
        ensures
            final(self)@ == record_spec(old(self)@, samples@),
    {
        proof {
            use_type_invariant(&*self);
        }
        let ghost h0 = self@;
        let ghost all = self.buf@ + samples@;
        let ghost keep: int = (KEEP_FRAMES * CH) as int;
        let n = samples.len();
        let mut old = History::new();
        std::mem::swap(self, &mut old);
        let History { buf: mut buf, base: old_base, total: old_total } = old;
        assert(buf@ == h0.buf && old_base == h0.base && old_total == h0.total);
        assert(all.subrange(0, h0.buf.len() as int) =~= h0.buf);
        let mut dropped: usize = 0;
        let mut i: usize = 0;
        while i < n
            invariant
                i <= n,
                n == samples@.len(),
                all == h0.buf + samples@,
                h0.buf.len() <= keep,
                keep == KEEP_FRAMES * CH,
                dropped == (if h0.buf.len() + i > keep { h0.buf.len() + i - keep } else { 0 }),
                buf@ == all.subrange(dropped as int, h0.buf.len() + i),
            decreases n - i,
        {
            buf.push_back(samples[i]);
            assert(buf@ =~= all.subrange(dropped as int, h0.buf.len() + i + 1));
            if buf.len() > KEEP_FRAMES * CH {
                let _ = buf.pop_front();
                dropped = dropped + 1;
                assert(buf@ =~= all.subrange(dropped as int, h0.buf.len() + i + 1));
            }
            i = i + 1;
        }
        assert(buf@ =~= all.skip(dropped as int));
        proof {
            if all.len() <= keep {
                assert(dropped == 0);
                assert(all.skip(0) =~= all);
            } else {
                assert(dropped == all.len() - keep);
            }
        }
        let frames: u64 = (n / CH) as u64;
        let total = old_total + frames;
        let base = old_base + (dropped / CH) as u64;
        *self = History { buf, base, total };
    }

    /// The frames captured since frame `next` (or since the oldest frame kept,
    /// when `next` is older); nothing when no frame came since.
    pub fn read_since(&self, next: u64) -> (chunk: Option<Vec<T>>)
        ensures
            self@.total <= next ==> chunk is None,
            self@.total > next ==> chunk is Some && chunk->0@ == self@.buf.skip(
                ((if next >= self@.base { next as int } else { self@.base as int }) - self@.base) * CH,
            ),
    {
        proof {
            use_type_invariant(self);
        }
        if self.total <= next {
            return None;
        }
        let first = if next >= self.base { next } else { self.base };
        let from = ((first - self.base) as usize) * CH;
        let mut out: Vec<T> = Vec::new();
        let mut i: usize = from;
        while i < self.buf.len()
            invariant
                from <= i <= self.buf@.len(),
                out@ == self.buf@.subrange(from as int, i as int),
            decreases self.buf@.len() - i,
        {
            out.push(self.buf[i]);
            i = i + 1;
            assert(out@ =~= self.buf@.subrange(from as int, i as int));
        }
        assert(out@ =~= self.buf@.skip(from as int));
        Some(out)
    }

    /// Channel `c` of frame `frame`, or `silence` when it is not kept.
    fn sample_at(&self, frame: u64, c: usize, silence: T) -> (x: T)
        requires
            c < CH,
        ensures
            x == frame_sample(self@, frame as int, c as int, silence),
    {
        proof {
            use_type_invariant(self);
        }
        if frame < self.base {
            return silence;
        }
        let at = frame - self.base;
        if at < (self.buf.len() / CH) as u64 {
            let i = (at as usize) * CH + c;
            self.buf[i]
        } else {
            silence
        }
    }

    /// `frames` frames from frame `start`, interleaved; frames that are not
    /// kept are silent.
    pub fn block(&self, start: u64, frames: usize, silence: T) -> (block: Vec<T>)
        requires
            start + frames <= u64::MAX,
            frames * CH <= usize::MAX,
        ensures
            block@.len() == frames * CH,
            forall|j: int, c: int|
                0 <= j < frames && 0 <= c < CH ==> #[trigger] block@[j * CH + c] == frame_sample(
                    self@,
                    start + j,
                    c,
                    silence,
                ),
    {
        let mut block: Vec<T> = Vec::new();
        let mut j: usize = 0;
        while j < frames
            invariant
                j <= frames,
                start + frames <= u64::MAX,
                block@.len() == j * CH,
                forall|k: int, c: int|
                    0 <= k < j && 0 <= c < CH ==> #[trigger] block@[k * CH + c] == frame_sample(
                        self@,
                        start + k,
                        c,
                        silence,
                    ),
            decreases frames - j,
        {
            let frame = start + j as u64;
            block.push(self.sample_at(frame, 0, silence));
            block.push(self.sample_at(frame, 1, silence));
            proof {
                assert forall|k: int, c: int| 0 <= k < j + 1 && 0 <= c < CH implies #[trigger] block@[k * CH + c]
                    == frame_sample(self@, start + k, c, silence) by {
                    if k == j {
                        assert(k * CH + c == j * CH + c);
                    } else {
                        assert(k * CH + c < j * CH) by (nonlinear_arith)
                            requires k < j, 0 <= c < CH, CH == 2;
                    }
                }
            }
            j = j + 1;
        }
        block
    }

    /// The separation model's window: `len` frames ending at frame `end`,
    /// the left channel, then the right; frames that are not kept are silent.
    pub fn window(&self, end: u64, len: usize, silence: T) -> (window: Vec<T>)
        requires
            len * CH <= usize::MAX,
        ensures
            window@.len() == len * CH,
            forall|i: int|
                0 <= i < len ==> #[trigger] window@[i] == frame_sample(self@, end - len + i, 0, silence),
            forall|i: int|
                0 <= i < len ==> #[trigger] window@[len + i] == frame_sample(
                    self@,
                    end - len + i,
                    1,
                    silence,
                ),
    {
        let mut window: Vec<T> = Vec::new();
        let mut i: usize = 0;
        while i < len
            invariant
                i <= len,
                window@.len() == i,
                forall|k: int|
                    0 <= k < i ==> #[trigger] window@[k] == frame_sample(self@, end - len + k, 0, silence),
            decreases len - i,
        {
            let x = if end >= (len - i) as u64 {
                self.sample_at(end - (len - i) as u64, 0, silence)
            } else {
                silence
            };
            window.push(x);
            i = i + 1;
        }
        let mut i: usize = 0;
        while i < len
            invariant
                i <= len,
                len * CH <= usize::MAX,
                window@.len() == len + i,
                forall|k: int|
                    0 <= k < len ==> #[trigger] window@[k] == frame_sample(self@, end - len + k, 0, silence),
                forall|k: int|
                    0 <= k < i ==> #[trigger] window@[len + k] == frame_sample(
                        self@,
                        end - len + k,
                        1,
                        silence,
                    ),
            decreases len - i,
        {
            let x = if end >= (len - i) as u64 {
                self.sample_at(end - (len - i) as u64, 1, silence)
            } else {
                silence
            };
            window.push(x);
            i = i + 1;
        }
        window
    }
}
/// Frames from the start of a separated block to the end of its window.
pub const NEED: usize = HOP + XFADE + LOOKAHEAD;

/// Frames in a separated block: one hop, plus the crossfade into the next.
pub const BLOCK_FRAMES: usize = HOP + XFADE;

/// Where block `k` starts and where its window ends, in frames counted from
/// the first frame captured; block `k` starts `k` hops after `origin`.
pub fn block_bounds(origin: u64, k: u64) -> (bounds: (u64, u64))
    requires
        origin + k * HOP + NEED <= u64::MAX,
    ensures
        bounds.0 == origin + k * HOP,
        bounds.1 == origin + k * HOP + NEED,
{
    let start = origin + k * (HOP as u64);
    (start, start + NEED as u64)
}

/// A block counts as late when, once it is done, the capture has gone more
/// than a hop past the end of its window.
pub fn is_late(total: u64, end: u64) -> (late: bool)
    ensures
        late == (total > end + HOP),
{
    total as u128 > end as u128 + HOP as u128
}

/// The index, within the model's window, where a block starts whose window
/// runs from `start` to `end`.
pub fn window_offset(start: u64, end: u64) -> (first: usize)
    requires
        start <= end,
        end - start <= WIN,
    ensures
        first == WIN - (end - start),
{
    WIN - ((end - start) as usize)
}

/// Stereo frames taken out of planar data (one channel after another, each
/// channel `plane_len` long): the left channel is plane `plane`, the right
/// plane `plane + 1`; `frames` frames from index `first` on, interleaved.
pub fn stereo_from_planes<T: Copy>(src: &Vec<T>, plane: usize, plane_len: usize, first: usize, frames: usize) -> (block: Vec<T>)
    requires
        (plane + 2) * plane_len <= src@.len(),
        first + frames <= plane_len,
        frames * CH <= usize::MAX,
    ensures
        block@.len() == frames * CH,
        forall|j: int| 0 <= j < frames ==> #[trigger] block@[j * 2] == src@[plane * plane_len + first + j],
        forall|j: int|
            0 <= j < frames ==> #[trigger] block@[j * 2 + 1] == src@[(plane + 1) * plane_len + first + j],
{
    let sl = src.len();
    proof {
        assert((plane + 2) * plane_len == (plane + 1) * plane_len + plane_len) by (nonlinear_arith);
        assert((plane + 1) * plane_len == plane * plane_len + plane_len) by (nonlinear_arith);
    }
    let left = plane * plane_len + first;
    let right = left + plane_len;
    let mut block: Vec<T> = Vec::new();
    let mut j: usize = 0;
    while j < frames
        invariant
            j <= frames,
            left == plane * plane_len + first,
            right == (plane + 1) * plane_len + first,
            right + frames <= src@.len(),
            sl == src@.len(),
            left + frames <= right,
            block@.len() == j * 2,
            forall|k: int| 0 <= k < j ==> #[trigger] block@[k * 2] == src@[left + k],
            forall|k: int| 0 <= k < j ==> #[trigger] block@[k * 2 + 1] == src@[right + k],
        decreases frames - j,
    {
        block.push(src[left + j]);
        block.push(src[right + j]);
        j = j + 1;
    }
    block
}

/// The two channels of frames `pos .. pos + n` of interleaved stereo input.
pub fn split_channels<T: Copy>(input: &[T], pos: usize, n: usize) -> (channels: (Vec<T>, Vec<T>))
    requires
        (pos + n) * 2 <= input@.len(),
    ensures
        channels.0@.len() == n,
        channels.1@.len() == n,
        forall|i: int| 0 <= i < n ==> #[trigger] channels.0@[i] == input@[(pos + i) * 2],
        forall|i: int| 0 <= i < n ==> #[trigger] channels.1@[i] == input@[(pos + i) * 2 + 1],
{
    let il = input.len();
    let mut l: Vec<T> = Vec::new();
    let mut r: Vec<T> = Vec::new();
    let mut i: usize = 0;
    while i < n
        invariant
            il == input@.len(),
            i <= n,
            (pos + n) * 2 <= input@.len(),
            l@.len() == i,
            r@.len() == i,
            forall|k: int| 0 <= k < i ==> #[trigger] l@[k] == input@[(pos + k) * 2],
            forall|k: int| 0 <= k < i ==> #[trigger] r@[k] == input@[(pos + k) * 2 + 1],
        decreases n - i,
    {
        l.push(input[(pos + i) * 2]);
        r.push(input[(pos + i) * 2 + 1]);
        i = i + 1;
    }
    (l, r)
}

/// Appends frames `from .. to` of two channels to interleaved output.
pub fn push_frames<T: Copy>(out: &mut Vec<T>, l: &[T], r: &[T], from: usize, to: usize)
    requires
        from <= to,
        to <= l@.len(),
        to <= r@.len(),
    ensures
        final(out)@.len() == old(out)@.len() + (to - from) * 2,
        final(out)@.subrange(0, old(out)@.len() as int) == old(out)@,
        forall|i: int|
            0 <= i < to - from ==> #[trigger] final(out)@[old(out)@.len() + i * 2] == l@[from + i],
        forall|i: int|
            0 <= i < to - from ==> #[trigger] final(out)@[old(out)@.len() + i * 2 + 1] == r@[from + i],
{
    let ghost o = out@;
    let mut i: usize = from;
    while i < to
        invariant
            from <= i <= to,
            to <= l@.len(),
            to <= r@.len(),
            out@.len() == o.len() + (i - from) * 2,
            out@.subrange(0, o.len() as int) == o,
            forall|k: int| 0 <= k < i - from ==> #[trigger] out@[o.len() + k * 2] == l@[from + k],
            forall|k: int| 0 <= k < i - from ==> #[trigger] out@[o.len() + k * 2 + 1] == r@[from + k],
        decreases to - i,
    {
        out.push(l[i]);
        out.push(r[i]);
        i = i + 1;
        assert(out@.subrange(0, o.len() as int) =~= o);
    }
}

/// How many of `got` new output frames the shifter's start delay still
/// swallows, and how much delay is left after them.
pub fn swallow(delay: usize, got: usize) -> (res: (usize, usize))
    ensures
        res.0 == if delay < got { delay } else { got },
        res.1 == delay - res.0,
{
    let skip = if delay < got { delay } else { got };
    (skip, delay - skip)
}

/// The frames handed to the shifter next, from position `pos` of `frames`.
pub fn chunk_frames(frames: usize, pos: usize) -> (n: usize)
    requires
        pos < frames,
    ensures
        n == if RB_CHUNK < frames - pos { RB_CHUNK as int } else { frames - pos },
        0 < n <= RB_CHUNK,
{
    let rest = frames - pos;
    if RB_CHUNK < rest { RB_CHUNK } else { rest }
}

/// The three parts of a separated block: the part crossfaded with the tail
/// of the block before, the part played as it is, and the tail kept for the
/// crossfade into the next block.
pub fn block_parts<T: Copy>(block: &Vec<T>) -> (parts: (Vec<T>, Vec<T>, Vec<T>))
    requires
        block@.len() == BLOCK_FRAMES * CH,
    ensures
        parts.0@ == block@.subrange(0, (XFADE * CH) as int),
        parts.1@ == block@.subrange((XFADE * CH) as int, (HOP * CH) as int),
        parts.2@ == block@.subrange((HOP * CH) as int, (BLOCK_FRAMES * CH) as int),
{
    let head = copy_range(block, 0, XFADE * CH);
    let body = copy_range(block, XFADE * CH, HOP * CH);
    let tail = copy_range(block, HOP * CH, BLOCK_FRAMES * CH);
    (head, body, tail)
}

/// A copy of `v[from..to]`.
pub fn copy_range<T: Copy>(v: &Vec<T>, from: usize, to: usize) -> (part: Vec<T>)
    requires
        from <= to <= v@.len(),
    ensures
        part@ == v@.subrange(from as int, to as int),
{
    let mut part: Vec<T> = Vec::new();
    let mut i: usize = from;
    while i < to
        invariant
            from <= i <= to <= v@.len(),
            part@ == v@.subrange(from as int, i as int),
        decreases to - i,
    {
        part.push(v[i]);
        i = i + 1;
        assert(part@ =~= v@.subrange(from as int, i as int));
    }
    part
}
/// The cable that the pipeline listens to: the first output device named like
/// it, or the message shown when there is none.
pub fn start_cable(outputs: &Vec<(String, String)>) -> (cable: Result<usize, String>)
    ensures
        match cable {
            Ok(i) => i < outputs@.len() && is_cable(outputs@[i as int].1@) && forall|j: int|
                0 <= j < i ==> !is_cable(#[trigger] outputs@[j].1@),
            Err(message) => message@ == "No virtual cable is installed."@ && forall|j: int|
                0 <= j < outputs@.len() ==> !is_cable(#[trigger] outputs@[j].1@),
        },
{
    match find_cable(outputs) {
        Some(i) => Ok(i),
        None => Err(String::from_str("No virtual cable is installed.")),
    }
}

/// The pipeline plays to the default output device, which must not be the
/// cable it listens to: Spotify's sound would come straight back.
pub fn check_output(output_id: &str, cable_id: &str) -> (r: Result<(), String>)
    ensures
        r is Err <==> output_id@ == cable_id@,
        r is Err ==> r->Err_0@
            == "The default output device is the virtual cable. Choose your speakers or headphones as the Windows default output."@,
{
    if same_text(output_id, cable_id) {
        return Err(String::from_str(
            "The default output device is the virtual cable. Choose your speakers or headphones as the Windows default output.",
        ));
    }
    Ok(())
}

/// A pipeline is healthy while all its threads run and the default output
/// device is still the one it plays to.
pub fn healthy(threads_running: bool, default_output: Option<&str>, output_id: &str) -> (ok: bool)
    ensures
        ok == (threads_running && match default_output {
            Some(id) => id@ == output_id@,
            None => false,
        }),
{
    if !threads_running {
        return false;
    }
    match default_output {
        Some(id) => same_text(id, output_id),
        None => false,
    }
}

/// The threads of a pipeline, each of which reports once whether it started.
pub const THREADS: usize = 3;

/// Where starting a pipeline stands.
pub enum Startup {
    /// That many threads have reported a start; the others are awaited.
    Waiting(usize),
    /// Every thread started.
    Started,
    /// Starting failed, with the message to show.
    Failed(String),
}

/// The start after one more report: `None` when none came in time. The first
/// failure, or a wait that timed out, ends the start with its message; the
/// last of the threads to report a start ends it well.
pub fn on_report(started: usize, report: Option<Result<(), String>>) -> (next: Startup)
    requires
        started < THREADS,
    ensures
        match report {
            None => next is Failed && next->Failed_0@ == "Timed out starting the audio."@,
            Some(Err(message)) => next == Startup::Failed(message),
            Some(Ok(())) => if started + 1 == THREADS {
                next is Started
            } else {
                next == Startup::Waiting((started + 1) as usize)
            },
        },
{
    match report {
        None => Startup::Failed(String::from_str("Timed out starting the audio.")),
        Some(Err(message)) => Startup::Failed(message),
        Some(Ok(())) => {
            if started + 1 == THREADS {
                Startup::Started
            } else {
                Startup::Waiting(started + 1)
            }
        },
    }
}
} // verus!
