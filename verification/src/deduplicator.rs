//! Sliding-window packet deduplicator for GameTunnel sequence numbers.
//!
//! Remembers which of the 1024 sequence numbers up to the highest one seen
//! have arrived, in a bitmap of 16 64-bit words: bit `lag % 64` of word
//! `lag / 64` stands for the sequence number `lag` below the highest. Accepts
//! new and out-of-order packets, drops duplicates and packets older than the
//! window, and handles wrapping of the 32-bit sequence numbers.
use vstd::prelude::*;

verus! {

/// Number of sequence numbers the window remembers.
pub const WINDOW_SIZE: usize = 1024;

/// Number of 64-bit words in the bitmap.
pub const WORDS: usize = 16;

/// A lag beyond this, backwards, is taken as a restarted sequence stream.
pub const RESYNC_LAG: u32 = 2048;

/// Duplicate and staleness filter over a 1024-packet window.
#[derive(Debug)]
pub struct Deduplicator {
    highest_seq: Option<u32>,
    bitmap: [u64; 16],
    pub total_received: u64,
    pub accepted_in_order: u64,
    pub accepted_out_of_order: u64,
    pub duplicates_dropped: u64,
    pub stale_dropped: u64,
}

/// The abstract state of a `Deduplicator`: the highest sequence number seen,
/// which of the 1024 sequence numbers at or below it have been seen
/// (`window[lag]` stands for `highest - lag`), and the counters.
pub struct DedupView {
    pub highest: Option<u32>,
    pub window: Seq<bool>,
    pub total_received: u64,
    pub accepted_in_order: u64,
    pub accepted_out_of_order: u64,
    pub duplicates_dropped: u64,
    pub stale_dropped: u64,
}

/// Bit `lag` of the bitmap `bm`.
pub open spec fn bit_of(bm: Seq<u64>, lag: int) -> bool {
    (bm[lag / 64] >> ((lag % 64) as u64)) & 1u64 == 1u64
}

/// The window that the bitmap `bm` stands for.
pub open spec fn window_of(bm: Seq<u64>) -> Seq<bool> {
    Seq::new(1024, |i: int| bit_of(bm, i))
}

impl View for Deduplicator {
    type V = DedupView;

    closed spec fn view(&self) -> DedupView {
        DedupView {
            highest: self.highest_seq,
            window: window_of(self.bitmap@),
            total_received: self.total_received,
            accepted_in_order: self.accepted_in_order,
            accepted_out_of_order: self.accepted_out_of_order,
            duplicates_dropped: self.duplicates_dropped,
            stale_dropped: self.stale_dropped,
        }
    }
}

/// A counter incremented with wrap-around.
pub open spec fn inc(x: u64) -> u64 {
    if x == u64::MAX {
        0
    } else {
        (x + 1) as u64
    }
}

/// `a - b` modulo 2^32.
pub open spec fn sub32(a: u32, b: u32) -> int {
    (a - b) % 0x1_0000_0000
}

/// The empty window.
pub open spec fn empty_window() -> Seq<bool> {
    Seq::new(1024, |i: int| false)
}

/// `w` after its first bitmap word has been overwritten with 1: only the
/// newest sequence number is marked among the first 64.
pub open spec fn restart_window(w: Seq<bool>) -> Seq<bool> {
    Seq::new(1024, |i: int| if i == 0 { true } else if i < 64 { false } else { w[i] })
}

/// `w` moved `shift` places towards older lags; lags that had no predecessor
/// become unseen.
pub open spec fn shift_window_spec(w: Seq<bool>, shift: int) -> Seq<bool> {
    Seq::new(1024, |i: int| if i >= shift { w[i - shift] } else { false })
}

/// The abstract state after `reset`.
pub open spec fn reset_view() -> DedupView {
    DedupView {
        highest: None,
        window: empty_window(),
        total_received: 0,
        accepted_in_order: 0,
        accepted_out_of_order: 0,
        duplicates_dropped: 0,
        stale_dropped: 0,
    }
}

/// Whether `seq` comes after the highest sequence number `h` (by less than
/// half the sequence space).
pub open spec fn is_newer(seq: u32, h: u32) -> bool {
    0 < sub32(seq, h) < 0x8000_0000
}

/// The new state and verdict when `seq` arrives in state `v`.
pub open spec fn spec_process(v: DedupView, seq: u32) -> (DedupView, bool) {
    let counted = DedupView { total_received: inc(v.total_received), ..v };
    match v.highest {
        None => (
            DedupView {
                highest: Some(seq),
                window: restart_window(v.window),
                accepted_in_order: inc(v.accepted_in_order),
                ..counted
            },
            true,
        ),
        Some(h) => if is_newer(seq, h) {
            (
                DedupView {
                    highest: Some(seq),
                    window: shift_window_spec(v.window, sub32(seq, h)).update(0, true),
                    accepted_in_order: inc(v.accepted_in_order),
                    ..counted
                },
                true,
            )
        } else {
            let lag = sub32(h, seq);
            if lag >= 1024 {
                if lag > 2048 {
                    (
                        DedupView {
                            highest: Some(seq),
                            window: restart_window(empty_window()),
                            accepted_in_order: 1,
                            ..reset_view()
                        },
                        true,
                    )
                } else {
                    (DedupView { stale_dropped: inc(v.stale_dropped), ..counted }, false)
                }
            } else if v.window[lag] {
                (DedupView { duplicates_dropped: inc(v.duplicates_dropped), ..counted }, false)
            } else {
                (
                    DedupView {
                        window: v.window.update(lag, true),
                        accepted_out_of_order: inc(v.accepted_out_of_order),
                        ..counted
                    },
                    true,
                )
            }
        },
    }
}

// ---------------------------------------------------------------------------
// Bit-level facts
// ---------------------------------------------------------------------------
proof fn lemma_bit_or_mask(x: u64, b: u64, c: u64)
    by (bit_vector)
    requires
        b < 64,
        c < 64,
    ensures
        ((x | (1u64 << b)) >> c) & 1u64 == (if c == b { 1u64 } else { (x >> c) & 1u64 }),
        ((x & (1u64 << b)) != 0u64) == ((x >> b) & 1u64 == 1u64),
{
}

proof fn lemma_bit_constants(c: u64)
    by (bit_vector)
    requires
        c < 64,
    ensures
        (0u64 >> c) & 1u64 == 0u64,
        (1u64 >> c) & 1u64 == (if c == 0 { 1u64 } else { 0u64 }),
{
}

proof fn lemma_shift_combine(x: u64, y: u64, bs: u64, b: u64)
    by (bit_vector)
    requires
        0 < bs < 64,
        b < 64,
    ensures
        (((x << bs) | (y >> (64 - bs) as u64)) >> b) & 1u64 == (if b >= bs {
            (x >> (b - bs) as u64) & 1u64
        } else {
            (y >> (64 - bs + b) as u64) & 1u64
        }),
{
}

proof fn lemma_shift_only(x: u64, bs: u64, b: u64)
    by (bit_vector)
    requires
        bs < 64,
        b < 64,
    ensures
        ((x << bs) >> b) & 1u64 == (if b >= bs { (x >> (b - bs) as u64) & 1u64 } else { 0u64 }),
{
}

/// Word `j` of the bitmap after shifting `bm` by `ws` words and `bs` bits.
pub open spec fn shifted_word(bm: Seq<u64>, j: int, ws: int, bs: u64) -> u64 {
    if j >= ws {
        let src = j - ws;
        if bs > 0 && src > 0 {
            (bm[src] << bs) | (bm[src - 1] >> (64 - bs) as u64)
        } else {
            bm[src] << bs
        }
    } else {
        0u64
    }
}

proof fn lemma_shifted_bits(old_bm: Seq<u64>, new_bm: Seq<u64>, ws: int, bs: u64)
    requires
        old_bm.len() == 16,
        new_bm.len() == 16,
        0 <= ws < 16,
        bs < 64,
        forall|j: int| 0 <= j < 16 ==> new_bm[j] == shifted_word(old_bm, j, ws, bs),
    ensures
        window_of(new_bm) == shift_window_spec(window_of(old_bm), 64 * ws + bs),
{
    let shift = 64 * ws + bs;
    assert forall|l: int| 0 <= l < 1024 implies bit_of(new_bm, l) == (if l >= shift {
        bit_of(old_bm, l - shift)
    } else {
        false
    }) by {
        let j = l / 64;
        let b = (l % 64) as u64;
        assert(l == 64 * j + b);
        assert(0 <= j < 16);
        if j >= ws {
            let src = j - ws;
            if b >= bs {
                assert(l - shift == 64 * src + (b - bs));
                assert((l - shift) / 64 == src);
                assert((l - shift) % 64 == b - bs);
                if bs > 0 && src > 0 {
                    lemma_shift_combine(old_bm[src], old_bm[src - 1], bs, b);
                } else {
                    lemma_shift_only(old_bm[src], bs, b);
                }
            } else {
                assert(bs > 0);
                if src > 0 {
                    assert(l - shift == 64 * (src - 1) + (64 - bs + b));
                    assert((l - shift) / 64 == src - 1);
                    assert((l - shift) % 64 == 64 - bs + b);
                    lemma_shift_combine(old_bm[src], old_bm[src - 1], bs, b);
                } else {
                    assert(l < shift);
                    lemma_shift_only(old_bm[src], bs, b);
                }
            }
        } else {
            assert(l < shift);
            lemma_bit_constants(b);
        }
    }
    assert(window_of(new_bm) =~= shift_window_spec(window_of(old_bm), shift));
}

proof fn lemma_zero_window(bm: Seq<u64>)
    requires
        bm.len() == 16,
        forall|j: int| 0 <= j < 16 ==> bm[j] == 0u64,
    ensures
        window_of(bm) == empty_window(),
{
    assert forall|l: int| 0 <= l < 1024 implies !bit_of(bm, l) by {
        lemma_bit_constants((l % 64) as u64);
    }
    assert(window_of(bm) =~= empty_window());
}

proof fn lemma_restart_window(bm: Seq<u64>)
    requires
        bm.len() == 16,
    ensures
        window_of(bm.update(0, 1u64)) == restart_window(window_of(bm)),
{
    let nb = bm.update(0, 1u64);
    assert forall|l: int| 0 <= l < 1024 implies bit_of(nb, l) == (if l == 0 {
        true
    } else if l < 64 {
        false
    } else {
        bit_of(bm, l)
    }) by {
        if l < 64 {
            lemma_bit_constants((l % 64) as u64);
        }
    }
    assert(window_of(nb) =~= restart_window(window_of(bm)));
}

proof fn lemma_set_bit(bm: Seq<u64>, lag: int)
    requires
        bm.len() == 16,
        0 <= lag < 1024,
    ensures
        window_of(bm.update(lag / 64, bm[lag / 64] | (1u64 << (lag % 64) as u64))) == window_of(
            bm,
        ).update(lag, true),
{
    let w = lag / 64;
    let nb = bm.update(w, bm[w] | (1u64 << (lag % 64) as u64));
    assert forall|l: int| 0 <= l < 1024 implies bit_of(nb, l) == (if l == lag {
        true
    } else {
        bit_of(bm, l)
    }) by {
        lemma_bit_or_mask(bm[w], (lag % 64) as u64, (l % 64) as u64);
        if l / 64 == w && l % 64 == lag % 64 {
            assert(l == lag);
        }
    }
    assert(window_of(nb) =~= window_of(bm).update(lag, true));
}

impl Deduplicator {
    /// A deduplicator that has seen nothing, with all counters at zero.
    pub fn new() -> (d: Self)
        ensures
            d@ == reset_view(),
    {
        let d = Deduplicator {
            highest_seq: None,
            bitmap: [0u64; 16],
            total_received: 0,
            accepted_in_order: 0,
            accepted_out_of_order: 0,
            duplicates_dropped: 0,
            stale_dropped: 0,
        };
        proof {
            lemma_zero_window(d.bitmap@);
        }
        d
    }

    /// Forgets every sequence number seen and zeroes the counters.
    pub fn reset(&mut self)
        ensures
            final(self)@ == reset_view(),
    {
        self.highest_seq = None;
        self.bitmap = [0u64; 16];
        self.total_received = 0;
        self.accepted_in_order = 0;
        self.accepted_out_of_order = 0;
        self.duplicates_dropped = 0;
        self.stale_dropped = 0;
        proof {
            lemma_zero_window(self.bitmap@);
        }
    }

    /// Moves the window `shift` places towards older lags.
    fn shift_window(&mut self, shift: usize)
        ensures
            final(self)@ == (DedupView {
                window: shift_window_spec(old(self)@.window, shift as int),
                ..old(self)@
            }),
    {
        if shift >= WINDOW_SIZE {
            self.bitmap = [0u64; 16];
            proof {
                lemma_zero_window(self.bitmap@);
                assert(shift_window_spec(old(self)@.window, shift as int) =~= empty_window());
            }
            return;
        }
        let ws: usize = shift / 64;
        let bs: u64 = (shift % 64) as u64;
        let ghost old_bm = self.bitmap@;
        let mut i: usize = WORDS;
        while i > 0
            invariant
                i <= 16,
                ws < 16,
                bs < 64,
                old_bm.len() == 16,
                self.bitmap@.len() == 16,
                forall|j: int| i <= j < 16 ==> self.bitmap@[j] == shifted_word(old_bm, j, ws as int, bs),
                forall|j: int| 0 <= j < i ==> self.bitmap@[j] == old_bm[j],
                self.highest_seq == old(self).highest_seq,
                self.total_received == old(self).total_received,
                self.accepted_in_order == old(self).accepted_in_order,
                self.accepted_out_of_order == old(self).accepted_out_of_order,
                self.duplicates_dropped == old(self).duplicates_dropped,
                self.stale_dropped == old(self).stale_dropped,
            decreases i,
        {
            i = i - 1;
            if i >= ws {
                let src = i - ws;
                let mut val = self.bitmap[src] << bs;
                if bs > 0 && src > 0 {
                    val = val | (self.bitmap[src - 1] >> (64 - bs));
                }
                self.bitmap[i] = val;
            } else {
                self.bitmap[i] = 0;
            }
        }
        proof {
            lemma_shifted_bits(old_bm, self.bitmap@, ws as int, bs);
        }
    }

    /// Counts the packet with sequence number `seq` and decides whether it is
    /// fresh (`true`: forward it) or a duplicate or stale (`false`: drop it).
    ///
    /// The first packet, and any packet newer than the highest seen, is
    /// accepted in order and becomes the highest. A packet at most 1023 behind
    /// the highest is accepted out of order unless it was seen already. A
    /// packet 1024 to 2048 behind is stale. A packet more than 2048 behind is
    /// taken as a restarted stream: the state and counters are reset and the
    /// packet is accepted as the new highest.
    pub fn process_packet(&mut self, seq: u32) -> (accepted: bool)
        ensures
            (final(self)@, accepted) == spec_process(old(self)@, seq),
    {
        self.total_received = self.total_received.wrapping_add(1);
        let highest = match self.highest_seq {
            None => {
                let ghost bm = self.bitmap@;
                self.highest_seq = Some(seq);
                self.bitmap[0] = 1;
                self.accepted_in_order = self.accepted_in_order.wrapping_add(1);
                proof {
                    lemma_restart_window(bm);
                }
                return true;
            },
            Some(h) => h,
        };
        let diff = seq.wrapping_sub(highest);
        if diff > 0 && diff < 0x8000_0000 {
            let shift = diff as usize;
            self.shift_window(shift);
            let ghost bm = self.bitmap@;
            self.highest_seq = Some(seq);
            self.bitmap[0] = self.bitmap[0] | 1;
            self.accepted_in_order = self.accepted_in_order.wrapping_add(1);
            proof {
                assert(1u64 << 0u64 == 1u64) by (bit_vector);
                lemma_set_bit(bm, 0);
            }
            true
        } else {
            let lag = highest.wrapping_sub(seq) as usize;
            if lag >= WINDOW_SIZE {
                if lag > 2048 {
                    self.reset();
                    let ghost bm = self.bitmap@;
                    self.highest_seq = Some(seq);
                    self.bitmap[0] = 1;
                    self.accepted_in_order = self.accepted_in_order.wrapping_add(1);
                    proof {
                        lemma_restart_window(bm);
                    }
                    return true;
                }
                self.stale_dropped = self.stale_dropped.wrapping_add(1);
                false
            } else {
                let word_idx = lag / 64;
                let bit_idx = lag % 64;
                let mask = 1u64 << (bit_idx as u64);
                proof {
                    lemma_bit_or_mask(self.bitmap@[word_idx as int], bit_idx as u64, bit_idx as u64);
                }
                if (self.bitmap[word_idx] & mask) != 0 {
                    self.duplicates_dropped = self.duplicates_dropped.wrapping_add(1);
                    false
                } else {
                    let ghost bm = self.bitmap@;
                    self.bitmap[word_idx] = self.bitmap[word_idx] | mask;
                    self.accepted_out_of_order = self.accepted_out_of_order.wrapping_add(1);
                    proof {
                        lemma_set_bit(bm, lag as int);
                    }
                    true
                }
            }
        }
    }

    /// How many packets have been counted since the last reset.
    pub fn total_received(&self) -> (r: u64)
        ensures
            r == self@.total_received,
    {
        self.total_received
    }

    /// How many packets were accepted as the newest so far.
    pub fn accepted_in_order(&self) -> (r: u64)
        ensures
            r == self@.accepted_in_order,
    {
        self.accepted_in_order
    }

    /// How many packets were accepted out of order.
    pub fn accepted_out_of_order(&self) -> (r: u64)
        ensures
            r == self@.accepted_out_of_order,
    {
        self.accepted_out_of_order
    }

    /// How many packets were dropped as duplicates.
    pub fn duplicates_dropped(&self) -> (r: u64)
        ensures
            r == self@.duplicates_dropped,
    {
        self.duplicates_dropped
    }

    /// How many packets were dropped as older than the window.
    pub fn stale_dropped(&self) -> (r: u64)
        ensures
            r == self@.stale_dropped,
    {
        self.stale_dropped
    }

    /// The highest sequence number seen so far, if any.
    pub fn highest_seq(&self) -> (r: Option<u32>)
        ensures
            r == self@.highest,
    {
        self.highest_seq
    }
}

impl Clone for Deduplicator {
    /// A deduplicator in the same state.
    fn clone(&self) -> (d: Self)
        ensures
            d@ == self@,
    {
        Deduplicator {
            highest_seq: self.highest_seq,
            bitmap: self.bitmap,
            total_received: self.total_received,
            accepted_in_order: self.accepted_in_order,
            accepted_out_of_order: self.accepted_out_of_order,
            duplicates_dropped: self.duplicates_dropped,
            stale_dropped: self.stale_dropped,
        }
    }
}

impl Default for Deduplicator {
    fn default() -> (d: Self)
        ensures
            d@ == reset_view(),
    {
        Self::new()
    }
}

// ---------------------------------------------------------------------------
// Laws of the window
// ---------------------------------------------------------------------------
/// Whether `seq` is remembered as already received in state `v`.
pub open spec fn is_seen(v: DedupView, seq: u32) -> bool {
    match v.highest {
        Some(h) => sub32(h, seq) < 1024 && v.window[sub32(h, seq)],
        None => false,
    }
}

/// Whether processing `seq` in state `v` resets the window because `seq` lies
/// more than 2048 behind the highest sequence number.
pub open spec fn is_resync(v: DedupView, seq: u32) -> bool {
    match v.highest {
        Some(h) => !is_newer(seq, h) && sub32(h, seq) > 2048,
        None => false,
    }
}

/// The window of every deduplicator holds exactly 1024 entries.
pub proof fn lemma_view_window_len(d: &Deduplicator)
    ensures
        d@.window.len() == 1024,
{
}

/// Processing a packet keeps the window at 1024 entries.
pub proof fn lemma_process_window_len(v: DedupView, seq: u32)
    requires
        v.window.len() == 1024,
    ensures
        spec_process(v, seq).0.window.len() == 1024,
{
}

/// A packet that is accepted is remembered as received afterwards.
pub proof fn lemma_accepted_is_seen(v: DedupView, seq: u32)
    requires
        v.window.len() == 1024,
        spec_process(v, seq).1,
    ensures
        is_seen(spec_process(v, seq).0, seq),
{
}

/// A packet that is remembered as received is dropped as a duplicate.
pub proof fn lemma_seen_is_dropped(v: DedupView, seq: u32)
    requires
        v.window.len() == 1024,
        is_seen(v, seq),
    ensures
        !spec_process(v, seq).1,
        spec_process(v, seq).0.duplicates_dropped == inc(v.duplicates_dropped),
{
}

/// The same sequence number is never accepted twice in a row: whatever the
/// first verdict, the immediate repetition is dropped.
pub proof fn lemma_repeat_dropped(v: DedupView, seq: u32)
    requires
        v.window.len() == 1024,
    ensures
        !spec_process(spec_process(v, seq).0, seq).1,
{
    let (v1, r1) = spec_process(v, seq);
    if r1 {
        lemma_accepted_is_seen(v, seq);
        lemma_seen_is_dropped(v1, seq);
    } else if is_seen(v, seq) {
        lemma_seen_is_dropped(v1, seq);
    }
}

/// A received sequence number stays recognised as a duplicate after another
/// packet is processed, as long as that packet does not reset the window and
/// the number stays within 1024 of the highest.
pub proof fn lemma_seen_persists(v: DedupView, seq: u32, other: u32)
    requires
        v.window.len() == 1024,
        is_seen(v, seq),
        !is_resync(v, other),
        spec_process(v, other).0.highest matches Some(h2) && sub32(h2, seq) < 1024,
    ensures
        is_seen(spec_process(v, other).0, seq),
{
    let h = v.highest->0;
    let lag = sub32(h, seq);
    if is_newer(other, h) {
        let d = sub32(other, h);
        assert(sub32(other, seq) == d + lag);
        let w2 = shift_window_spec(v.window, d).update(0, true);
        assert(w2[d + lag] == true);
    }
}

/// The sequence number right after the highest seen, wrapping from
/// 4294967295 to 0, is always accepted in order and becomes the highest.
pub proof fn lemma_successor_accepted(v: DedupView, h: u32)
    requires
        v.highest == Some(h),
    ensures
        ({
            let next = ((h + 1) % 0x1_0000_0000) as u32;
            &&& spec_process(v, next).1
            &&& spec_process(v, next).0.highest == Some(next)
            &&& spec_process(v, next).0.accepted_in_order == inc(v.accepted_in_order)
        }),
{
    let next = ((h + 1) % 0x1_0000_0000) as u32;
    assert(sub32(next, h) == 1);
}

/// The state after processing the sequence numbers `hist` in order from `v`.
pub open spec fn run_history(v: DedupView, hist: Seq<u32>) -> DedupView
    decreases hist.len(),
{
    if hist.len() == 0 {
        v
    } else {
        spec_process(run_history(v, hist.drop_last()), hist.last()).0
    }
}

/// Whether, while `hist` is processed from `v`, no packet resets the window
/// (by lying more than 2048 behind) and `seq` stays less than 1024 behind the
/// highest sequence number.
pub open spec fn keeps_in_window(v: DedupView, hist: Seq<u32>, seq: u32) -> bool {
    forall|j: int|
        0 <= j < hist.len() ==> !is_resync(#[trigger] run_history(v, hist.take(j)), hist[j]) && (run_history(
            v,
            hist.take(j + 1),
        ).highest matches Some(h) && sub32(h, seq) < 1024)
}

/// A received sequence number stays received through any history that keeps
/// it in the window, and each time it comes again it is dropped as a
/// duplicate.
pub proof fn lemma_seen_through_history(v: DedupView, seq: u32, hist: Seq<u32>)
    requires
        v.window.len() == 1024,
        is_seen(v, seq),
        keeps_in_window(v, hist, seq),
    ensures
        run_history(v, hist).window.len() == 1024,
        is_seen(run_history(v, hist), seq),
        forall|j: int|
            0 <= j < hist.len() && hist[j] == seq ==> !spec_process(#[trigger] run_history(v, hist.take(j)), seq).1
                && spec_process(run_history(v, hist.take(j)), seq).0.duplicates_dropped == inc(
                run_history(v, hist.take(j)).duplicates_dropped,
            ),
    decreases hist.len(),
{
    if hist.len() > 0 {
        let n = hist.len() - 1;
        let init = hist.drop_last();
        assert forall|j: int| 0 <= j <= init.len() implies #[trigger] init.take(j) == hist.take(j) by {
            assert(init.take(j) =~= hist.take(j));
        }
        assert forall|j: int| 0 <= j < init.len() implies !is_resync(#[trigger] run_history(v, init.take(j)), init[j])
            && (run_history(v, init.take(j + 1)).highest matches Some(h) && sub32(h, seq) < 1024) by {
            assert(init.take(j) == hist.take(j));
            assert(init.take(j + 1) == hist.take(j + 1));
            assert(init[j] == hist[j]);
            assert(!is_resync(run_history(v, hist.take(j)), hist[j]));
        }
        lemma_seen_through_history(v, seq, init);
        let u = run_history(v, init);
        assert(hist.take(n) =~= init);
        assert(hist.take(n + 1) =~= hist);
        assert(!is_resync(run_history(v, hist.take(n)), hist[n]));
        assert(run_history(v, hist) == spec_process(u, hist.last()).0);
        lemma_process_window_len(u, hist.last());
        lemma_seen_persists(u, seq, hist.last());
        assert forall|j: int| 0 <= j < hist.len() && hist[j] == seq implies !spec_process(
            #[trigger] run_history(v, hist.take(j)),
            seq,
        ).1 && spec_process(run_history(v, hist.take(j)), seq).0.duplicates_dropped == inc(
            run_history(v, hist.take(j)).duplicates_dropped,
        ) by {
            if j < n {
                assert(init.take(j) == hist.take(j));
                assert(init[j] == hist[j]);
            } else {
                lemma_seen_is_dropped(u, seq);
            }
        }
    }
}

/// A sequence number is delivered at most once within the window: once
/// `process_packet(seq)` has returned true, every later `process_packet(seq)`
/// returns false and counts a duplicate, through any history in which no
/// packet resets the window and `seq` stays less than 1024 behind the highest
/// sequence number (`reset` is not called either: it starts a new view).
pub proof fn lemma_delivered_at_most_once(v: DedupView, seq: u32, hist: Seq<u32>)
    requires
        v.window.len() == 1024,
        spec_process(v, seq).1,
        keeps_in_window(spec_process(v, seq).0, hist, seq),
    ensures
        forall|j: int|
            0 <= j < hist.len() && hist[j] == seq ==> !spec_process(
                #[trigger] run_history(spec_process(v, seq).0, hist.take(j)),
                seq,
            ).1,
{
    lemma_accepted_is_seen(v, seq);
    lemma_process_window_len(v, seq);
    lemma_seen_through_history(spec_process(v, seq).0, seq, hist);
}

/// Whether `v` is a state a deduplicator can be in: while no sequence number
/// has been seen, nothing is remembered.
pub open spec fn fresh_when_empty(v: DedupView) -> bool {
    v.highest is Some || v.window == empty_window()
}

/// A new or reset deduplicator is in such a state, and every packet keeps it
/// so: after a packet there is always a highest sequence number.
pub proof fn lemma_fresh_when_empty_kept(v: DedupView, other: u32)
    ensures
        fresh_when_empty(reset_view()),
        spec_process(v, other).0.highest is Some,
{
}

/// A sequence number that is not remembered stays so after another packet,
/// unless that packet is the number itself and is accepted.
pub proof fn lemma_unseen_persists(v: DedupView, seq: u32, other: u32)
    requires
        v.window.len() == 1024,
        fresh_when_empty(v),
        !is_seen(v, seq),
        !(other == seq && spec_process(v, other).1),
    ensures
        !is_seen(spec_process(v, other).0, seq),
        fresh_when_empty(spec_process(v, other).0),
{
    let v2 = spec_process(v, other).0;
    match v.highest {
        None => {
            assert(v2.window == restart_window(empty_window()));
            if sub32(other, seq) < 1024 {
                assert(sub32(other, seq) != 0);
            }
        },
        Some(h) => {
            if is_newer(other, h) {
                let d = sub32(other, h);
                let lag2 = sub32(other, seq);
                if lag2 < 1024 {
                    assert(lag2 != 0);
                    if lag2 >= d {
                        assert(sub32(h, seq) == lag2 - d);
                    }
                }
            } else {
                let lag = sub32(h, other);
                if lag >= 1024 {
                    if lag > 2048 {
                        assert(v2.window == restart_window(empty_window()));
                        if sub32(other, seq) < 1024 {
                            assert(sub32(other, seq) != 0);
                        }
                    }
                } else if !v.window[lag] {
                    if sub32(h, seq) == lag {
                        assert(seq == other);
                    }
                }
            }
        },
    }
}

/// A sequence number that is not remembered stays so through any history in
/// which it is never accepted.
pub proof fn lemma_unseen_through_history(v: DedupView, seq: u32, hist: Seq<u32>)
    requires
        v.window.len() == 1024,
        fresh_when_empty(v),
        !is_seen(v, seq),
        forall|j: int|
            0 <= j < hist.len() && hist[j] == seq ==> !spec_process(#[trigger] run_history(v, hist.take(j)), seq).1,
    ensures
        run_history(v, hist).window.len() == 1024,
        fresh_when_empty(run_history(v, hist)),
        !is_seen(run_history(v, hist), seq),
    decreases hist.len(),
{
    if hist.len() > 0 {
        let n = hist.len() - 1;
        let init = hist.drop_last();
        assert forall|j: int| 0 <= j < init.len() && init[j] == seq implies !spec_process(
            #[trigger] run_history(v, init.take(j)),
            seq,
        ).1 by {
            assert(init.take(j) =~= hist.take(j));
            assert(init[j] == hist[j]);
        }
        lemma_seen_through_history_len(v, init);
        lemma_unseen_through_history(v, seq, init);
        assert(hist.take(n) =~= init);
        lemma_process_window_len(run_history(v, init), hist.last());
        lemma_unseen_persists(run_history(v, init), seq, hist.last());
    }
}

/// Processing keeps the window at 1024 entries through any history.
proof fn lemma_seen_through_history_len(v: DedupView, hist: Seq<u32>)
    requires
        v.window.len() == 1024,
    ensures
        run_history(v, hist).window.len() == 1024,
    decreases hist.len(),
{
    if hist.len() > 0 {
        lemma_seen_through_history_len(v, hist.drop_last());
        lemma_process_window_len(run_history(v, hist.drop_last()), hist.last());
    }
}

/// A sequence number inside the window that was never accepted before is
/// accepted, out of order: from a state that does not remember it, through
/// any history in which it is not accepted, a packet with that number less
/// than 1024 behind the highest is accepted and counted as out of order. With
/// `lemma_delivered_at_most_once`, a number inside the window is accepted
/// exactly when it was not accepted before.
pub proof fn lemma_unseen_in_window_accepted(v: DedupView, seq: u32, hist: Seq<u32>)
    requires
        v.window.len() == 1024,
        fresh_when_empty(v),
        !is_seen(v, seq),
        forall|j: int|
            0 <= j < hist.len() && hist[j] == seq ==> !spec_process(#[trigger] run_history(v, hist.take(j)), seq).1,
        run_history(v, hist).highest matches Some(h) && sub32(h, seq) < 1024,
    ensures
        spec_process(run_history(v, hist), seq).1,
        spec_process(run_history(v, hist), seq).0.accepted_out_of_order == inc(
            run_history(v, hist).accepted_out_of_order,
        ),
{
    lemma_unseen_through_history(v, seq, hist);
    let u = run_history(v, hist);
    let h = u.highest->0;
    let lag = sub32(h, seq);
    if lag > 0 {
        assert(sub32(seq, h) == 0x1_0000_0000 - lag);
    } else {
        assert(seq == h);
    }
}

} // verus!
