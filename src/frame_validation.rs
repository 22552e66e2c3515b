//! Frame validation policies: which frame counters a receiver accepts.
use vstd::prelude::*;

use crate::error::SframeError;
use crate::header::Header;

verus! {

/// Whether counter `c` passes a replay window with the given tolerance, highest
/// accepted counter `max` and set `seen` of counters accepted inside the window.
pub open spec fn window_accepts(tolerance: u64, max: u64, seen: Set<u64>, c: u64) -> bool {
    c > max || (max - c <= tolerance && !seen.contains(c))
}

/// The highest accepted counter once `c` has been accepted.
pub open spec fn window_next_max(max: u64, c: u64) -> u64 {
    if c > max {
        c
    } else {
        max
    }
}

/// The counters recorded once `c` has been accepted: those that stay inside
/// the window that ends at the new highest counter.
pub open spec fn window_next_seen(tolerance: u64, max: u64, seen: Set<u64>, c: u64) -> Set<u64> {
    let m = window_next_max(max, c);
    seen.insert(c).filter(|x: u64| m - x <= tolerance)
}

/// Replay protection over a sliding window of `tolerance + 1` counters.
///
/// A counter above the highest one accepted so far is accepted and moves the
/// window. A counter inside the window is accepted once. A counter below the
/// window is refused.
pub struct ReplayAttackProtection {
    tolerance: u64,
    last_frame_counter: u64,
    seen: Vec<u64>,
}

impl ReplayAttackProtection {
    pub closed spec fn tolerance_spec(&self) -> u64 {
        self.tolerance
    }

    /// The highest frame counter accepted so far (zero before any).
    pub closed spec fn max_spec(&self) -> u64 {
        self.last_frame_counter
    }

    /// The accepted counters that lie inside the current window.
    pub closed spec fn seen_spec(&self) -> Set<u64> {
        self.seen@.to_set()
    }

    pub closed spec fn wf(&self) -> bool {
        forall|i: int|
            0 <= i < self.seen@.len() ==> self.seen@[i] <= self.last_frame_counter
                && self.last_frame_counter - self.seen@[i] <= self.tolerance
    }

    pub open spec fn accepts(&self, c: u64) -> bool {
        window_accepts(self.tolerance_spec(), self.max_spec(), self.seen_spec(), c)
    }

    /// A fresh window that has accepted nothing.
    pub fn with_tolerance(tolerance: u64) -> (r: Self)
        ensures
            r.wf(),
            r.tolerance_spec() == tolerance,
            r.max_spec() == 0,
            r.seen_spec() == Set::<u64>::empty(),
    {
        let r = ReplayAttackProtection { tolerance, last_frame_counter: 0, seen: Vec::new() };
        proof {
            assert(r.seen@.to_set() =~= Set::<u64>::empty());
        }
        r
    }

    /// Whether `header`'s frame counter passes, without recording it.
    pub fn check(&self, header: &Header) -> (r: Result<(), SframeError>)
        ensures
            self.accepts(header.frame_counter) ==> r == Ok::<(), SframeError>(()),
            !self.accepts(header.frame_counter) ==> r == Err::<(), SframeError>(
                SframeError::FrameValidationFailed,
            ),
    {
        let c = header.frame_counter;
        let max = self.last_frame_counter;
        if c > max {
            return Ok(());
        }
        let mut found = false;
        let mut i: usize = 0;
        while i < self.seen.len()
            invariant
                0 <= i <= self.seen@.len(),
                found <==> exists|k: int| 0 <= k < i && self.seen@[k] == c,
            decreases self.seen@.len() - i,
        {
            if self.seen[i] == c {
                found = true;
            }
            i = i + 1;
        }
        proof {
            assert(found <==> self.seen@.to_set().contains(c));
        }
        if max - c > self.tolerance || found {
            Err(SframeError::FrameValidationFailed)
        } else {
            Ok(())
        }
    }

    /// Records `header`'s frame counter, which passes, as accepted.
    pub fn record(&mut self, header: &Header)
        requires
            old(self).wf(),
            old(self).accepts(header.frame_counter),
        ensures
            final(self).wf(),
            final(self).tolerance_spec() == old(self).tolerance_spec(),
            final(self).max_spec() == window_next_max(old(self).max_spec(), header.frame_counter),
            final(self).seen_spec() == window_next_seen(
                old(self).tolerance_spec(),
                old(self).max_spec(),
                old(self).seen_spec(),
                header.frame_counter,
            ),
    {
        let c = header.frame_counter;
        let max = self.last_frame_counter;
        let ghost old_seen = self.seen@;
        proof {
            assert(old(self).wf());
        }
        if c > max {
            let tol = self.tolerance;
            let ghost keep = |x: u64| c - x <= tol;
            let mut kept: Vec<u64> = Vec::new();
            let mut i: usize = 0;
            proof {
                assert(old_seen.take(0).to_set() =~= Set::<u64>::empty());
                assert(kept@.to_set() =~= Set::<u64>::empty());
            }
            while i < self.seen.len()
                invariant
                    self.seen@ == old_seen,
                    self.last_frame_counter == max,
                    self.tolerance == old(self).tolerance,
                    tol == self.tolerance,
                    keep == (|x: u64| c - x <= tol),
                    max < c,
                    forall|k: int|
                        0 <= k < old_seen.len() ==> old_seen[k] <= max,
                    0 <= i <= old_seen.len(),
                    forall|k: int|
                        0 <= k < kept@.len() ==> kept@[k] <= c && c - kept@[k] <= self.tolerance,
                    kept@.to_set() == old_seen.take(i as int).to_set().filter(keep),
                decreases old_seen.len() - i,
            {
                let x = self.seen[i];
                let ghost pk = kept@;
                proof {
                    assert(old_seen.take(i + 1) =~= old_seen.take(i as int).push(x));
                    old_seen.take(i as int).lemma_push_to_set_commute(x);
                    assert(old_seen.take(i + 1).to_set() == old_seen.take(i as int).to_set().insert(
                        x,
                    ));
                }
                if c - x <= tol {
                    kept.push(x);
                    proof {
                        pk.lemma_push_to_set_commute(x);
                        assert(kept@.to_set() =~= old_seen.take(i + 1).to_set().filter(keep));
                    }
                } else {
                    assert(kept@.to_set() =~= old_seen.take(i + 1).to_set().filter(keep));
                }
                i = i + 1;
            }
            let ghost pk = kept@;
            kept.push(c);
            self.seen = kept;
            self.last_frame_counter = c;
            proof {
                pk.lemma_push_to_set_commute(c);
                assert(old_seen.take(old_seen.len() as int) =~= old_seen);
                let want = window_next_seen(self.tolerance, max, old_seen.to_set(), c);
                assert(self.seen@.to_set() =~= want);
            }
        } else {
            let ghost pre = self.seen@.to_set();
            self.seen.push(c);
            proof {
                let want = window_next_seen(self.tolerance, max, pre, c);
                assert forall|y: u64| self.seen@.to_set().contains(y) <==> want.contains(y) by {
                    if self.seen@.to_set().contains(y) {
                        let k = choose|k: int| 0 <= k < self.seen@.len() && self.seen@[k] == y;
                        if k < old_seen.len() {
                            assert(old_seen[k] == y);
                            assert(old(self).wf());
                        }
                    }
                    if want.contains(y) && y != c {
                        let k = choose|k: int| 0 <= k < old_seen.len() && old_seen[k] == y;
                        assert(self.seen@[k] == y);
                    }
                    if y == c {
                        assert(self.seen@[self.seen@.len() - 1] == c);
                    }
                }
                assert(self.seen@.to_set() =~= want);
                assert forall|k: int| 0 <= k < self.seen@.len() implies self.seen@[k] <= max
                    && max - self.seen@[k] <= self.tolerance by {
                    if k < old_seen.len() {
                        assert(self.seen@[k] == old_seen[k]);
                        assert(old(self).wf());
                    }
                }
            }
        }
    }

    /// Checks `header`'s frame counter and, when it passes, records it.
    pub fn validate(&mut self, header: &Header) -> (r: Result<(), SframeError>)
        requires
            old(self).wf(),
        ensures
            final(self).wf(),
            final(self).tolerance_spec() == old(self).tolerance_spec(),
            old(self).accepts(header.frame_counter) ==> r == Ok::<(), SframeError>(()) && {
                &&& final(self).max_spec() == window_next_max(
                    old(self).max_spec(),
                    header.frame_counter,
                )
                &&& final(self).seen_spec() == window_next_seen(
                    old(self).tolerance_spec(),
                    old(self).max_spec(),
                    old(self).seen_spec(),
                    header.frame_counter,
                )
            },
            !old(self).accepts(header.frame_counter) ==> r == Err::<(), SframeError>(
                SframeError::FrameValidationFailed,
            ) && final(self).max_spec() == old(self).max_spec() && final(self).seen_spec()
                == old(self).seen_spec(),
    {
        match self.check(header) {
            Ok(()) => {
                self.record(header);
                Ok(())
            },
            Err(e) => Err(e),
        }
    }
}

/// The frame validation policy of a receiver.
pub enum FrameValidation {
    /// Refuse replayed and stale frame counters.
    ReplayAttackProtection(ReplayAttackProtection),
    /// Accept every frame counter.
    NoValidation,
}

impl FrameValidation {
    pub open spec fn wf(&self) -> bool {
        match self {
            FrameValidation::ReplayAttackProtection(p) => p.wf(),
            FrameValidation::NoValidation => true,
        }
    }

    /// Whether the policy, in its current state, accepts counter `c`.
    pub open spec fn accepts(&self, c: u64) -> bool {
        match self {
            FrameValidation::ReplayAttackProtection(p) => p.accepts(c),
            FrameValidation::NoValidation => true,
        }
    }

    /// `next` is this policy after it has accepted counter `c`.
    pub open spec fn recorded(&self, next: &Self, c: u64) -> bool {
        match (self, next) {
            (
                FrameValidation::ReplayAttackProtection(p),
                FrameValidation::ReplayAttackProtection(q),
            ) => {
                &&& q.tolerance_spec() == p.tolerance_spec()
                &&& q.max_spec() == window_next_max(p.max_spec(), c)
                &&& q.seen_spec() == window_next_seen(
                    p.tolerance_spec(),
                    p.max_spec(),
                    p.seen_spec(),
                    c,
                )
            },
            (FrameValidation::NoValidation, FrameValidation::NoValidation) => true,
            _ => false,
        }
    }

    /// `next` is in the same state as this policy.
    pub open spec fn same_state(&self, next: &Self) -> bool {
        match (self, next) {
            (
                FrameValidation::ReplayAttackProtection(p),
                FrameValidation::ReplayAttackProtection(q),
            ) => {
                &&& q.tolerance_spec() == p.tolerance_spec()
                &&& q.max_spec() == p.max_spec()
                &&& q.seen_spec() == p.seen_spec()
            },
            (FrameValidation::NoValidation, FrameValidation::NoValidation) => true,
            _ => false,
        }
    }

    /// Whether `header`'s frame counter passes, without recording it.
    pub fn check(&self, header: &Header) -> (r: Result<(), SframeError>)
        ensures
            self.accepts(header.frame_counter) ==> r == Ok::<(), SframeError>(()),
            !self.accepts(header.frame_counter) ==> r == Err::<(), SframeError>(
                SframeError::FrameValidationFailed,
            ),
    {
        match self {
            FrameValidation::ReplayAttackProtection(p) => p.check(header),
            FrameValidation::NoValidation => Ok(()),
        }
    }

    /// Records `header`'s frame counter, which passes, as accepted.
    pub fn record(&mut self, header: &Header)
        requires
            old(self).wf(),
            old(self).accepts(header.frame_counter),
        ensures
            final(self).wf(),
            old(self).recorded(final(self), header.frame_counter),
    {
        match self {
            FrameValidation::ReplayAttackProtection(p) => p.record(header),
            FrameValidation::NoValidation => {},
        }
    }

    /// Checks `header`'s frame counter; an accepted counter is recorded.
    pub fn validate(&mut self, header: &Header) -> (r: Result<(), SframeError>)
        requires
            old(self).wf(),
        ensures
            final(self).wf(),
            old(self).accepts(header.frame_counter) ==> r == Ok::<(), SframeError>(())
                && old(self).recorded(final(self), header.frame_counter),
            !old(self).accepts(header.frame_counter) ==> r == Err::<(), SframeError>(
                SframeError::FrameValidationFailed,
            ) && old(self).same_state(final(self)),
    {
        match self {
            FrameValidation::ReplayAttackProtection(p) => p.validate(header),
            FrameValidation::NoValidation => Ok(()),
        }
    }
}

/// The highest counter and the recorded counters of a fresh replay window
/// with tolerance `tolerance` after it has been handed the counters `cs`.
pub open spec fn replay_run(tolerance: u64, cs: Seq<u64>) -> (u64, Set<u64>)
    decreases cs.len(),
{
    if cs.len() == 0 {
        (0, Set::empty())
    } else {
        let (m, s) = replay_run(tolerance, cs.drop_last());
        (window_next_max(m, cs.last()), window_next_seen(tolerance, m, s, cs.last()))
    }
}

/// A fresh replay window with tolerance `tolerance` accepts each of `cs` in turn.
pub open spec fn accepted_in_order(tolerance: u64, cs: Seq<u64>) -> bool
    decreases cs.len(),
{
    cs.len() == 0 || {
        let (m, s) = replay_run(tolerance, cs.drop_last());
        accepted_in_order(tolerance, cs.drop_last()) && window_accepts(tolerance, m, s, cs.last())
    }
}

/// The state after a run of accepted counters: the highest counter bounds
/// them all, and the recorded counters are exactly those inside the window.
pub proof fn lemma_replay_run_state(tolerance: u64, cs: Seq<u64>)
    requires
        accepted_in_order(tolerance, cs),
    ensures
        forall|i: int| 0 <= i < cs.len() ==> cs[i] <= replay_run(tolerance, cs).0,
        replay_run(tolerance, cs).1 == cs.to_set().filter(
            |x: u64| replay_run(tolerance, cs).0 - x <= tolerance,
        ),
    decreases cs.len(),
{
    if cs.len() == 0 {
        assert(cs.to_set() =~= Set::<u64>::empty());
        assert(Set::<u64>::empty().filter(|x: u64| 0 - x <= tolerance) =~= Set::<u64>::empty());
    } else {
        let p = cs.drop_last();
        let c = cs.last();
        lemma_replay_run_state(tolerance, p);
        let (m, s) = replay_run(tolerance, p);
        let m2 = replay_run(tolerance, cs).0;
        assert(cs =~= p.push(c));
        p.lemma_push_to_set_commute(c);
        assert forall|i: int| 0 <= i < cs.len() implies cs[i] <= m2 by {
            if i < p.len() {
                assert(cs[i] == p[i]);
            }
        }
        let want = cs.to_set().filter(|x: u64| m2 - x <= tolerance);
        assert forall|y: u64| replay_run(tolerance, cs).1.contains(y) <==> want.contains(y) by {
            if p.to_set().contains(y) {
                let k = choose|k: int| 0 <= k < p.len() && p[k] == y;
                assert(y <= m);
            }
        }
        assert(replay_run(tolerance, cs).1 =~= want);
    }
}

/// The replay window law. Once a fresh window has accepted the counters `cs`
/// one after another, with `m` the highest of them: a repeat of any of them
/// is refused; a counter more than `tolerance` below `m` is refused; and a
/// counter at most `tolerance` below `m` that is not among them is accepted.
pub proof fn lemma_replay_window(tolerance: u64, cs: Seq<u64>, c: u64)
    requires
        accepted_in_order(tolerance, cs),
    ensures
        ({
            let (m, s) = replay_run(tolerance, cs);
            &&& cs.contains(c) ==> !window_accepts(tolerance, m, s, c)
            &&& c <= m && m - c > tolerance ==> !window_accepts(tolerance, m, s, c)
            &&& c <= m && m - c <= tolerance && !cs.contains(c) ==> window_accepts(
                tolerance,
                m,
                s,
                c,
            )
        }),
{
    lemma_replay_run_state(tolerance, cs);
    let (m, s) = replay_run(tolerance, cs);
    if cs.contains(c) {
        let k = choose|k: int| 0 <= k < cs.len() && cs[k] == c;
        assert(c <= m);
        assert(cs.to_set().contains(c));
    }
    if !cs.contains(c) {
        assert(!cs.to_set().contains(c));
    }
}

} // verus!
