//! Per-connection replay protection: a 256-entry sliding window keyed on the
//! most recently seen sequence. A sequence is accepted iff it is greater than
//! the high-water mark, or within the window and not previously marked.

use vstd::prelude::*;

verus! {

/// Width of the sliding window, in sequence numbers.
pub const REPLAY_WINDOW_SIZE: usize = 256;

/// Marks a window slot as never seen.
pub const REPLAY_EMPTY_SLOT: u64 = 0xffff_ffff_ffff_ffff;

/// Mathematical model of a replay filter: the high-water mark and the window
/// contents.
pub struct ReplayView {
    /// Highest sequence number seen so far.
    pub most_recent: u64,
    /// One slot per residue class modulo 256.
    pub window: Seq<u64>,
}

impl ReplayView {
    /// The window spans exactly `REPLAY_WINDOW_SIZE` slots.
    pub open spec fn wf(self) -> bool {
        self.window.len() == REPLAY_WINDOW_SIZE
    }

    /// A sequence the filter refuses: at or below the high-water mark and
    /// either fallen out of the window or marked in its slot.
    pub open spec fn blocked(self, seq: u64) -> bool {
        seq <= self.most_recent && (self.most_recent - seq >= REPLAY_WINDOW_SIZE
            || self.window[(seq % 256) as int] == seq)
    }

    /// The filter after recording a delivered sequence: a stale sequence
    /// changes nothing; otherwise the high-water mark rises to the sequence
    /// if it is ahead, and the sequence's slot is marked.
    pub open spec fn advance(self, seq: u64) -> ReplayView {
        if self.most_recent >= REPLAY_WINDOW_SIZE && seq <= self.most_recent
            - REPLAY_WINDOW_SIZE {
            self
        } else {
            ReplayView {
                most_recent: if seq > self.most_recent {
                    seq
                } else {
                    self.most_recent
                },
                window: self.window.update((seq % 256) as int, seq),
            }
        }
    }

    /// The filter after a run of deliveries, first element first.
    pub open spec fn advance_all(self, seqs: Seq<u64>) -> ReplayView
        decreases seqs.len(),
    {
        if seqs.len() == 0 {
            self
        } else {
            self.advance(seqs[0]).advance_all(seqs.skip(1))
        }
    }
}

/// Distinct sequences in one residue class lie at least a window apart.
proof fn lemma_same_slot_far_apart(a: u64, b: u64)
    ensures
        a % 256 == b % 256 && a != b ==> (a >= b + 256 || b >= a + 256),
{
    if a % 256 == b % 256 && a != b {
        let qa = a / 256;
        let qb = b / 256;
        assert(a == 256 * qa + a % 256);
        assert(b == 256 * qb + b % 256);
        if qa > qb {
            assert(256 * qa >= 256 * qb + 256) by (nonlinear_arith)
                requires
                    qa >= qb + 1,
            ;
        } else if qb > qa {
            assert(256 * qb >= 256 * qa + 256) by (nonlinear_arith)
                requires
                    qb >= qa + 1,
            ;
        }
    }
}

/// Recording one sequence never unblocks another: whatever the filter
/// refused, it still refuses.
pub proof fn lemma_advance_preserves_blocked(v: ReplayView, seq: u64, s: u64)
    requires
        v.wf(),
        v.blocked(s),
    ensures
        v.advance(seq).wf(),
        v.advance(seq).blocked(s),
{
    lemma_same_slot_far_apart(s, seq);
}

/// Recording an accepted sequence blocks it.
pub proof fn lemma_advance_blocks(v: ReplayView, seq: u64)
    requires
        v.wf(),
        seq != REPLAY_EMPTY_SLOT,
    ensures
        v.advance(seq).wf(),
        v.advance(seq).blocked(seq),
{
}

/// Replay protection rejects a second delivery of a sequence: once `seq` has
/// been recorded, the filter still blocks `seq` after any later deliveries.
pub proof fn lemma_replay_rejects_second_delivery(v: ReplayView, seq: u64, later: Seq<u64>)
    requires
        v.wf(),
        seq != REPLAY_EMPTY_SLOT,
    ensures
        v.advance(seq).advance_all(later).wf(),
        v.advance(seq).advance_all(later).blocked(seq),
{
    lemma_advance_blocks(v, seq);
    lemma_blocked_persists(v.advance(seq), seq, later);
}

/// A blocked sequence stays blocked across any run of deliveries.
pub proof fn lemma_blocked_persists(v: ReplayView, seq: u64, later: Seq<u64>)
    requires
        v.wf(),
        v.blocked(seq),
    ensures
        v.advance_all(later).wf(),
        v.advance_all(later).blocked(seq),
    decreases later.len(),
{
    if later.len() > 0 {
        lemma_advance_preserves_blocked(v, later[0], seq);
        lemma_blocked_persists(v.advance(later[0]), seq, later.skip(1));
    }
}

/// Sliding-window filter over the sequence numbers one peer has delivered.
#[derive(Debug, Clone)]
pub struct ReplayProtection {
    most_recent: u64,
    window: Vec<u64>,
}

impl View for ReplayProtection {
    type V = ReplayView;

    closed spec fn view(&self) -> ReplayView {
        ReplayView { most_recent: self.most_recent, window: self.window@ }
    }
}

impl ReplayProtection {
    /// Makes a filter that has seen nothing.
    pub fn new() -> (r: ReplayProtection)
        ensures
            r@.wf(),
            r@.most_recent == 0,
            forall|s: u64| !r@.blocked(s),
    {
        let mut window: Vec<u64> = Vec::new();
        let mut i: usize = 0;
        while i < REPLAY_WINDOW_SIZE
            invariant
                i <= REPLAY_WINDOW_SIZE,
                window@.len() == i,
                forall|j: int| 0 <= j < i ==> window@[j] == REPLAY_EMPTY_SLOT,
            decreases REPLAY_WINDOW_SIZE - i,
        {
            window.push(REPLAY_EMPTY_SLOT);
            i = i + 1;
        }
        let r = ReplayProtection { most_recent: 0, window };
        proof {
            assert forall|s: u64| !r@.blocked(s) by {
                if s <= 0 {
                    assert(r@.window[0] == REPLAY_EMPTY_SLOT);
                }
            }
        }
        r
    }

    /// Whether the filter refuses `seq`.
    pub fn is_already_received(&self, seq: u64) -> (r: bool)
        requires
            self@.wf(),
        ensures
            r == self@.blocked(seq),
    {
        if seq > self.most_recent {
            return false;
        }
        if self.most_recent - seq >= REPLAY_WINDOW_SIZE as u64 {
            return true;
        }
        self.window[(seq % 256) as usize] == seq
    }

    /// Copies the filter.
    pub fn duplicate(&self) -> (r: ReplayProtection)
        ensures
            r@ == self@,
    {
        let n: usize = self.window.len();
        let mut window: Vec<u64> = Vec::new();
        let mut i: usize = 0;
        while i < n
            invariant
                i <= n == self.window@.len(),
                window@ =~= self.window@.subrange(0, i as int),
            decreases n - i,
        {
            window.push(self.window[i]);
            proof {
                assert(window@ =~= self.window@.subrange(0, i + 1));
            }
            i = i + 1;
        }
        proof {
            assert(self.window@.subrange(0, n as int) =~= self.window@);
        }
        ReplayProtection { most_recent: self.most_recent, window }
    }

    /// Records a delivered sequence.
    pub fn advance_sequence(&mut self, seq: u64)
        requires
            old(self)@.wf(),
            seq != REPLAY_EMPTY_SLOT,
        ensures
            final(self)@ == old(self)@.advance(seq),
            final(self)@.wf(),
    {
        if self.most_recent >= REPLAY_WINDOW_SIZE as u64 && seq
            <= self.most_recent - REPLAY_WINDOW_SIZE as u64 {
            return ;
        }
        if seq > self.most_recent {
            self.most_recent = seq;
        }
        self.window.set((seq % 256) as usize, seq);
    }
}

} // verus!
