//! The ptrace manager's attachment registry: a refcount per traced PID, so
//! that nested requesters share one attach/detach pair. The registry decides
//! when the real `PTRACE_ATTACH` and `PTRACE_DETACH` must be performed; the
//! caller carries those decisions out.

use vstd::prelude::*;

verus! {

/// True iff some entry of `s` is for `pid`.
pub open spec fn has_pid(s: Seq<(i32, u64)>, pid: i32) -> bool {
    exists|i: int| 0 <= i < s.len() && (#[trigger] s[i]).0 == pid
}

/// The refcount that `s` records for `pid`, zero when absent. Well defined
/// when entries are unique.
pub open spec fn count_of(s: Seq<(i32, u64)>, pid: i32) -> u64 {
    if has_pid(s, pid) {
        s[choose|i: int| 0 <= i < s.len() && (#[trigger] s[i]).0 == pid].1
    } else {
        0
    }
}

/// No two entries are for the same PID, and every recorded count is positive.
pub open spec fn registry_wf(s: Seq<(i32, u64)>) -> bool {
    &&& forall|i: int, j: int|
        0 <= i < s.len() && 0 <= j < s.len() && i != j
            ==> (#[trigger] s[i]).0 != (#[trigger] s[j]).0
    &&& forall|i: int| 0 <= i < s.len() ==> (#[trigger] s[i]).1 >= 1
}

/// The position of `pid`'s entry; meaningful only when `has_pid` holds and
/// entries are unique.
pub open spec fn idx_of(s: Seq<(i32, u64)>, pid: i32) -> int {
    choose|i: int| 0 <= i < s.len() && (#[trigger] s[i]).0 == pid
}

/// The registry after recording one more requester for `pid`.
pub open spec fn spec_trace(s: Seq<(i32, u64)>, pid: i32) -> Seq<(i32, u64)> {
    if has_pid(s, pid) {
        s.update(idx_of(s, pid), (pid, (count_of(s, pid) + 1) as u64))
    } else {
        s.push((pid, 1))
    }
}

/// The registry after releasing one requester for `pid`.
pub open spec fn spec_detach(s: Seq<(i32, u64)>, pid: i32) -> Seq<(i32, u64)> {
    if count_of(s, pid) == 1 {
        s.update(idx_of(s, pid), s.last()).drop_last()
    } else {
        s.update(idx_of(s, pid), (pid, (count_of(s, pid) - 1) as u64))
    }
}

/// What the caller must do after a registry transition.
#[derive(Clone, Copy, PartialEq, Eq, Structural, Debug)]
pub enum AttachAction {
    /// The refcount went from zero to one: perform `PTRACE_ATTACH` and wait
    /// for the stop.
    Attach,
    /// The process was already attached: share the existing attachment.
    Share,
}

#[derive(Clone, Copy, PartialEq, Eq, Structural, Debug)]
pub enum DetachAction {
    /// The refcount went from one to zero: perform `PTRACE_DETACH`.
    Detach,
    /// Other holders remain: keep the attachment.
    Keep,
}

/// The process-wide registry mapping PID to attachment refcount.
pub struct PtraceManager {
    entries: Vec<(i32, u64)>,
}

impl View for PtraceManager {
    type V = Seq<(i32, u64)>;

    closed spec fn view(&self) -> Seq<(i32, u64)> {
        self.entries@
    }
}

impl PtraceManager {
    pub open spec fn wf(&self) -> bool {
        registry_wf(self@)
    }

    /// The registry with no attachments.
    pub fn new() -> (r: PtraceManager)
        ensures
            r@ =~= Seq::<(i32, u64)>::empty(),
            r.wf(),
    {
        PtraceManager { entries: Vec::new() }
    }

    /// How many PIDs are currently attached.
    pub fn attached_count(&self) -> (r: usize)
        ensures
            r == self@.len(),
    {
        self.entries.len()
    }

    /// The position of `pid` in the registry, if it is present.
    fn find(&self, pid: i32) -> (r: Option<usize>)
        ensures
            r matches Some(i) ==> i < self@.len() && self@[i as int].0 == pid,
            r is None ==> !has_pid(self@, pid),
    {
        let n = self.entries.len();
        let mut i: usize = 0;
        while i < n
            invariant
                n == self@.len(),
                0 <= i <= n,
                forall|j: int| 0 <= j < i ==> (#[trigger] self@[j]).0 != pid,
            decreases n - i,
        {
            if self.entries[i].0 == pid {
                return Some(i);
            }
            i += 1;
        }
        None
    }

    /// The refcount recorded for `pid`, zero when it is not attached.
    pub fn refcount(&self, pid: i32) -> (r: u64)
        requires
            self.wf(),
        ensures
            r == count_of(self@, pid),
    {
        match self.find(pid) {
            Some(i) => {
                proof {
                    let w = choose|k: int|
                        0 <= k < self@.len() && (#[trigger] self@[k]).0 == pid;
                    assert(w == i as int);
                }
                self.entries[i].1
            }
            None => 0,
        }
    }

    /// Record one more requester for `pid`. Returns `Attach` exactly on the
    /// zero-to-one transition; the count of every other PID is unchanged.
    pub fn trace(&mut self, pid: i32) -> (r: AttachAction)
        requires
            old(self).wf(),
            count_of(old(self)@, pid) < u64::MAX,
        ensures
            final(self).wf(),
            r == AttachAction::Attach <==> count_of(old(self)@, pid) == 0,
            count_of(final(self)@, pid) == count_of(old(self)@, pid) + 1,
            forall|q: i32| q != pid ==> count_of(final(self)@, q) == count_of(old(self)@, q),
            final(self)@.len() == old(self)@.len() + (if count_of(old(self)@, pid) == 0 { 1int } else { 0 }),
            final(self)@ == spec_trace(old(self)@, pid),
    {
        match self.find(pid) {
            Some(i) => {
                proof {
                    let w = choose|k: int|
                        0 <= k < self@.len() && (#[trigger] self@[k]).0 == pid;
                    assert(w == i as int);
                }
                let c = self.entries[i].1;
                let ghost before = self@;
                self.entries.set(i, (pid, c + 1));
                proof {
                    assert(self@ =~= before.update(i as int, (before[i as int].0, (c + 1) as u64)));
                    assert forall|q: i32| #[trigger] count_of(self@, q) == (
                        if q == pid { (c + 1) as u64 } else { count_of(before, q) }
                    ) by {
                        lemma_update_count(before, i as int, (c + 1) as u64, q);
                    }
                    lemma_update_wf(before, i as int, (c + 1) as u64);
                    assert(idx_of(before, pid) == i as int);
                    assert(self@ =~= spec_trace(before, pid));
                }
                AttachAction::Share
            }
            None => {
                let ghost before = self@;
                self.entries.push((pid, 1));
                proof {
                    assert(self@ =~= before.push((pid, 1u64)));
                    assert forall|q: i32| #[trigger] count_of(self@, q) == (
                        if q == pid { 1u64 } else { count_of(before, q) }
                    ) by {
                        lemma_push_count(before, pid, q);
                    }
                    lemma_push_wf(before, pid);
                    assert(self@ =~= spec_trace(before, pid));
                }
                AttachAction::Attach
            }
        }
    }

    /// Release one requester for `pid`. Returns `Detach` exactly on the
    /// one-to-zero transition, which removes the entry; the count of every
    /// other PID is unchanged.
    pub fn detach(&mut self, pid: i32) -> (r: DetachAction)
        requires
            old(self).wf(),
            count_of(old(self)@, pid) >= 1,
        ensures
            final(self).wf(),
            r == DetachAction::Detach <==> count_of(old(self)@, pid) == 1,
            count_of(final(self)@, pid) == count_of(old(self)@, pid) - 1,
            forall|q: i32| q != pid ==> count_of(final(self)@, q) == count_of(old(self)@, q),
            final(self)@.len() == old(self)@.len() - (if count_of(old(self)@, pid) == 1 { 1int } else { 0 }),
            final(self)@ == spec_detach(old(self)@, pid),
    {
        let i = match self.find(pid) {
            Some(i) => i,
            None => {
                proof {
                    assert(count_of(old(self)@, pid) == 0);
                }
                // Unreachable: the precondition guarantees the entry exists.
                return DetachAction::Keep;
            }
        };
        proof {
            let w = choose|k: int| 0 <= k < self@.len() && (#[trigger] self@[k]).0 == pid;
            assert(w == i as int);
        }
        let c = self.entries[i].1;
        if c == 1 {
            // Swap-removal keeps the registry compact; order is irrelevant.
            let ghost before = self@;
            let _ = self.entries.swap_remove(i);
            proof {
                assert forall|q: i32| q != pid
                    implies count_of(self@, q) == count_of(before, q) by {
                    lemma_swap_remove_counts(before, i as int, q);
                }
                lemma_swap_remove_counts_gone(before, i as int);
                assert(idx_of(before, pid) == i as int);
                assert(self@ =~= spec_detach(before, pid));
            }
            DetachAction::Detach
        } else {
            let ghost before = self@;
            self.entries.set(i, (pid, c - 1));
            proof {
                assert(self@ =~= before.update(i as int, (before[i as int].0, (c - 1) as u64)));
                assert forall|q: i32| #[trigger] count_of(self@, q) == (
                    if q == pid { (c - 1) as u64 } else { count_of(before, q) }
                ) by {
                    lemma_update_count(before, i as int, (c - 1) as u64, q);
                }
                lemma_update_wf(before, i as int, (c - 1) as u64);
                assert(idx_of(before, pid) == i as int);
                assert(self@ =~= spec_detach(before, pid));
            }
            DetachAction::Keep
        }
    }
}

/// Updating the count stored at position `i` changes only that PID's count.
proof fn lemma_update_count(s: Seq<(i32, u64)>, i: int, v: u64, q: i32)
    requires
        registry_wf(s),
        0 <= i < s.len(),
    ensures
        count_of(s.update(i, (s[i].0, v)), q)
            == if q == s[i].0 { v } else { count_of(s, q) },
{
    let t = s.update(i, (s[i].0, v));
    assert(forall|k: int| 0 <= k < t.len() ==> (#[trigger] t[k]).0 == s[k].0);
    if q == s[i].0 {
        assert(t[i].0 == q);
        assert(has_pid(t, q));
        let a = choose|k: int| 0 <= k < t.len() && (#[trigger] t[k]).0 == q;
        assert(s[a].0 == q);
        assert(a == i);
    } else {
        if has_pid(t, q) {
            let a = choose|k: int| 0 <= k < t.len() && (#[trigger] t[k]).0 == q;
            assert(s[a].0 == q);
            assert(has_pid(s, q));
            let b = choose|k: int| 0 <= k < s.len() && (#[trigger] s[k]).0 == q;
            assert(a == b);
            assert(a != i);
            assert(t[a] == s[a]);
        }
        if has_pid(s, q) {
            let b = choose|k: int| 0 <= k < s.len() && (#[trigger] s[k]).0 == q;
            assert(t[b].0 == q);
            assert(has_pid(t, q));
        }
    }
}

/// Updating a count to a positive value keeps the registry well formed.
proof fn lemma_update_wf(s: Seq<(i32, u64)>, i: int, v: u64)
    requires
        registry_wf(s),
        0 <= i < s.len(),
        v >= 1,
    ensures
        registry_wf(s.update(i, (s[i].0, v))),
{
    let t = s.update(i, (s[i].0, v));
    assert(forall|k: int| 0 <= k < t.len() ==> (#[trigger] t[k]).0 == s[k].0);
    assert forall|k: int| 0 <= k < t.len() implies (#[trigger] t[k]).1 >= 1 by {
        if k != i {
            assert(t[k] == s[k]);
        }
    }
}

/// Pushing an entry for an absent PID records count one for it and leaves
/// every other count unchanged.
proof fn lemma_push_count(s: Seq<(i32, u64)>, pid: i32, q: i32)
    requires
        registry_wf(s),
        !has_pid(s, pid),
    ensures
        count_of(s.push((pid, 1)), q) == if q == pid { 1u64 } else { count_of(s, q) },
{
    let t = s.push((pid, 1));
    assert(forall|k: int| 0 <= k < s.len() ==> #[trigger] t[k] == s[k]);
    assert(t[s.len() as int].0 == pid);
    if q == pid {
        assert(has_pid(t, q));
        let a = choose|k: int| 0 <= k < t.len() && (#[trigger] t[k]).0 == q;
        if a != s.len() {
            assert(s[a].0 == q);
            assert(false);
        }
    } else {
        if has_pid(t, q) {
            let a = choose|k: int| 0 <= k < t.len() && (#[trigger] t[k]).0 == q;
            assert(a != s.len());
            assert(s[a].0 == q);
            assert(has_pid(s, q));
            let b = choose|k: int| 0 <= k < s.len() && (#[trigger] s[k]).0 == q;
            assert(a == b);
        }
        if has_pid(s, q) {
            let b = choose|k: int| 0 <= k < s.len() && (#[trigger] s[k]).0 == q;
            assert(t[b].0 == q);
            assert(has_pid(t, q));
        }
    }
}

/// Pushing an entry for an absent PID keeps the registry well formed.
proof fn lemma_push_wf(s: Seq<(i32, u64)>, pid: i32)
    requires
        registry_wf(s),
        !has_pid(s, pid),
    ensures
        registry_wf(s.push((pid, 1))),
{
    let t = s.push((pid, 1));
    assert forall|k: int, l: int|
        0 <= k < t.len() && 0 <= l < t.len() && k != l
        implies (#[trigger] t[k]).0 != (#[trigger] t[l]).0 by {
        if k < s.len() && l < s.len() {
            assert(t[k] == s[k] && t[l] == s[l]);
        } else if k < s.len() {
            assert(t[k] == s[k] && t[l].0 == pid);
        } else {
            assert(t[k].0 == pid && t[l] == s[l]);
        }
    }
    assert forall|k: int| 0 <= k < t.len() implies (#[trigger] t[k]).1 >= 1 by {
        if k < s.len() {
            assert(t[k] == s[k]);
        }
    }
}

/// Removing the entry at `i` by swap-removal leaves every other PID's count
/// unchanged.
proof fn lemma_swap_remove_counts(s: Seq<(i32, u64)>, i: int, q: i32)
    requires
        registry_wf(s),
        0 <= i < s.len(),
        q != s[i].0,
    ensures
        count_of(s.update(i, s[s.len() - 1]).drop_last(), q) == count_of(s, q),
{
    let t = s.update(i, s[s.len() - 1]).drop_last();
    if has_pid(s, q) {
        let b = choose|k: int| 0 <= k < s.len() && (#[trigger] s[k]).0 == q;
        if b == s.len() - 1 {
            // The moved entry: it now lives at position i, unless it was the
            // removed entry itself, which the precondition rules out.
            assert(b != i);
            if i < s.len() - 1 {
                assert(t[i] == s[b]);
                assert(has_pid(t, q));
            } else {
                assert(t =~= s.drop_last());
                assert(s[b].0 == q);
                assert(false);
            }
        } else {
            if b == i {
                assert(s[b].0 == q);
                assert(false);
            }
            assert(t[b] == s[b]);
            assert(has_pid(t, q));
        }
        let a = choose|k: int| 0 <= k < t.len() && (#[trigger] t[k]).0 == q;
        // Uniqueness carries over: every entry of t is an entry of s.
        assert(t[a].0 == q);
        if a == i && i < s.len() - 1 {
            assert(t[a] == s[s.len() - 1]);
            assert(count_of(s, q) == s[s.len() - 1].1);
        } else {
            assert(t[a] == s[a]);
            assert(count_of(s, q) == s[a].1);
        }
    } else {
        if has_pid(t, q) {
            let a = choose|k: int| 0 <= k < t.len() && (#[trigger] t[k]).0 == q;
            if a == i && i < s.len() - 1 {
                assert(s[s.len() - 1].0 == q);
            } else {
                assert(s[a].0 == q);
            }
            assert(false);
        }
    }
}

/// After swap-removing the entry at `i`, its PID is gone and the registry is
/// still well formed.
proof fn lemma_swap_remove_counts_gone(s: Seq<(i32, u64)>, i: int)
    requires
        registry_wf(s),
        0 <= i < s.len(),
    ensures
        registry_wf(s.update(i, s[s.len() - 1]).drop_last()),
        !has_pid(s.update(i, s[s.len() - 1]).drop_last(), s[i].0),
{
    let t = s.update(i, s[s.len() - 1]).drop_last();
    assert forall|k: int| 0 <= k < t.len() implies (#[trigger] t[k]).1 >= 1 by {
        if k == i && i < s.len() - 1 {
            assert(t[k] == s[s.len() - 1]);
        } else {
            assert(t[k] == s[k]);
        }
    }
    assert forall|k: int, l: int|
        0 <= k < t.len() && 0 <= l < t.len() && k != l
        implies (#[trigger] t[k]).0 != (#[trigger] t[l]).0 by {
        let sk: int = if k == i && i < s.len() - 1 { s.len() - 1 } else { k };
        let sl: int = if l == i && i < s.len() - 1 { s.len() - 1 } else { l };
        assert(t[k] == s[sk]);
        assert(t[l] == s[sl]);
    }
    if has_pid(t, s[i].0) {
        let a = choose|k: int| 0 <= k < t.len() && (#[trigger] t[k]).0 == s[i].0;
        if a == i && i < s.len() - 1 {
            assert(t[a] == s[s.len() - 1]);
            assert(s[s.len() - 1].0 == s[i].0);
            assert(i != s.len() - 1);
            assert(false);
        } else {
            assert(t[a] == s[a]);
            assert(a != i);
            assert(false);
        }
    }
}

/// A trace keeps the registry well formed.
pub proof fn lemma_spec_trace_wf(s: Seq<(i32, u64)>, pid: i32)
    requires
        registry_wf(s),
        count_of(s, pid) < u64::MAX,
    ensures
        registry_wf(spec_trace(s, pid)),
        count_of(spec_trace(s, pid), pid) == count_of(s, pid) + 1,
        forall|q: i32| q != pid ==> count_of(spec_trace(s, pid), q) == count_of(s, q),
{
    if has_pid(s, pid) {
        let i = idx_of(s, pid);
        assert(s[i].0 == pid);
        lemma_update_wf(s, i, (count_of(s, pid) + 1) as u64);
        assert forall|q: i32| #[trigger] count_of(spec_trace(s, pid), q) == (
            if q == pid { (count_of(s, pid) + 1) as u64 } else { count_of(s, q) }
        ) by {
            lemma_update_count(s, i, (count_of(s, pid) + 1) as u64, q);
        }
    } else {
        lemma_push_wf(s, pid);
        assert forall|q: i32| #[trigger] count_of(spec_trace(s, pid), q) == (
            if q == pid { 1u64 } else { count_of(s, q) }
        ) by {
            lemma_push_count(s, pid, q);
        }
    }
}

/// Attachment balance, one victim: releasing a requester right after
/// recording one restores the registry exactly, so a balanced sequence of
/// nested `trace`/`detach` pairs leaves the PID map as it began - empty,
/// when it began empty.
pub proof fn lemma_attachment_balance(s: Seq<(i32, u64)>, pid: i32)
    requires
        registry_wf(s),
        count_of(s, pid) < u64::MAX,
    ensures
        spec_detach(spec_trace(s, pid), pid) == s,
{
    let t = spec_trace(s, pid);
    lemma_spec_trace_wf(s, pid);
    assert(count_of(t, pid) == count_of(s, pid) + 1);
    if has_pid(s, pid) {
        let i = idx_of(s, pid);
        assert(s[i].0 == pid);
        assert(t[i].0 == pid);
        assert(has_pid(t, pid));
        let j = idx_of(t, pid);
        assert(t[j].0 == pid);
        assert(forall|k: int| 0 <= k < t.len() ==> (#[trigger] t[k]).0 == s[k].0);
        assert(j == i);
        assert(count_of(t, pid) >= 2);
        assert(spec_detach(t, pid) =~= s);
    } else {
        assert(t == s.push((pid, 1)));
        assert(t[t.len() - 1].0 == pid);
        assert(has_pid(t, pid));
        let j = idx_of(t, pid);
        assert(t[j].0 == pid);
        if j != t.len() - 1 {
            assert(s[j].0 == pid);
            assert(false);
        }
        assert(count_of(t, pid) == 1);
        assert(spec_detach(t, pid) =~= s);
    }
}

/// The registry after tracing each PID of `pids` in order.
pub open spec fn trace_all(s: Seq<(i32, u64)>, pids: Seq<i32>) -> Seq<(i32, u64)>
    decreases pids.len(),
{
    if pids.len() == 0 {
        s
    } else {
        trace_all(spec_trace(s, pids[0]), pids.skip(1))
    }
}

/// The registry after detaching each PID of `pids` in reverse order.
pub open spec fn detach_all_rev(s: Seq<(i32, u64)>, pids: Seq<i32>) -> Seq<(i32, u64)>
    decreases pids.len(),
{
    if pids.len() == 0 {
        s
    } else {
        spec_detach(detach_all_rev(s, pids.skip(1)), pids[0])
    }
}

/// Tracing one more PID after a batch.
pub proof fn lemma_trace_all_snoc(s: Seq<(i32, u64)>, pids: Seq<i32>, p: i32)
    ensures
        trace_all(s, pids.push(p)) == spec_trace(trace_all(s, pids), p),
    decreases pids.len(),
{
    let t = pids.push(p);
    assert(t.len() > 0);
    assert(trace_all(s, t) == trace_all(spec_trace(s, t[0]), t.skip(1)));
    if pids.len() == 0 {
        assert(t[0] == p);
        assert(t.skip(1) =~= Seq::<i32>::empty());
        assert(trace_all(spec_trace(s, p), t.skip(1)) == spec_trace(s, p));
        assert(trace_all(s, pids) == s);
    } else {
        assert(t[0] == pids[0]);
        assert(t.skip(1) =~= pids.skip(1).push(p));
        lemma_trace_all_snoc(spec_trace(s, pids[0]), pids.skip(1), p);
        assert(trace_all(s, pids) == trace_all(spec_trace(s, pids[0]), pids.skip(1)));
    }
}

/// Attachment balance, a batch of victims: tracing every PID of a batch and
/// then detaching them all (latest first) restores the registry exactly.
/// An interposition that attaches during `prepare` and detaches on `resume`
/// therefore ends with the PID map it started from - empty, when it began
/// empty.
pub proof fn lemma_attachment_balance_batch(s: Seq<(i32, u64)>, pids: Seq<i32>)
    requires
        registry_wf(s),
        forall|q: i32| count_of(s, q) as int + pids.len() <= u64::MAX as int,
    ensures
        detach_all_rev(trace_all(s, pids), pids) == s,
    decreases pids.len(),
{
    if pids.len() > 0 {
        let p = pids[0];
        let t = spec_trace(s, p);
        lemma_spec_trace_wf(s, p);
        assert forall|q: i32| count_of(t, q) as int + pids.skip(1).len() <= u64::MAX as int by {
            assert(count_of(s, q) as int + pids.len() <= u64::MAX as int);
        }
        lemma_attachment_balance_batch(t, pids.skip(1));
        assert(detach_all_rev(trace_all(t, pids.skip(1)), pids.skip(1)) == t);
        lemma_attachment_balance(s, p);
    }
}

} // verus!
