//! Shader hot reload: the decision of when a watched shader file has changed.
//! The file's modification time is polled at most twice a second; a change is
//! a modification time that exists and differs from the last one seen.
//! Times are handed in by the caller: a monotonic clock in nanoseconds, and
//! modification times in nanoseconds relative to the Unix epoch.
use vstd::prelude::*;

verus! {

/// The least time between two polls of the file, in nanoseconds.
pub const POLL_INTERVAL_NS: u64 = 500_000_000;

/// A watched file.
#[derive(Debug)]
pub struct Watch {
    pub path: String,
    /// The modification time last seen, if the file could be read.
    pub mtime: Option<i128>,
    /// When the file was last polled (monotonic clock, nanoseconds).
    pub last_check: u64,
}

pub struct WatchV {
    pub path: Seq<char>,
    pub mtime: Option<i128>,
    pub last_check: u64,
}

impl View for Watch {
    type V = WatchV;

    open spec fn view(&self) -> WatchV {
        WatchV { path: self.path@, mtime: self.mtime, last_check: self.last_check }
    }
}

/// Whether a poll is due at `now`: half a second has passed since the last
/// one (a clock reading before it counts as no time).
pub open spec fn due_spec(last: u64, now: u64) -> bool {
    now >= last && now - last >= POLL_INTERVAL_NS
}

/// `changed`: the watch after asking at `now`, when the file's modification
/// time reads `mtime`, and the answer.
pub open spec fn changed_spec(w: WatchV, now: u64, mtime: Option<i128>) -> (WatchV, bool) {
    if !due_spec(w.last_check, now) {
        (w, false)
    } else if mtime != w.mtime && mtime is Some {
        (WatchV { mtime, last_check: now, ..w }, true)
    } else {
        (WatchV { last_check: now, ..w }, false)
    }
}

impl Watch {
    /// Watch `path`, whose modification time reads `mtime` now (`now`).
    pub fn new(path: &str, mtime: Option<i128>, now: u64) -> (r: Watch)
        ensures
            r@ == (WatchV { path: path@, mtime, last_check: now }),
    {
        Watch { path: path.to_string(), mtime, last_check: now }
    }

    /// Whether the file is due to be polled at `now`.
    pub fn due(&self, now: u64) -> (r: bool)
        ensures
            r == due_spec(self.last_check, now),
    {
        now >= self.last_check && now - self.last_check >= POLL_INTERVAL_NS
    }

    /// True (at most twice a second) when the file changed since last time:
    /// at a due poll, a modification time that exists and differs from the
    /// one last seen is recorded and reported.
    pub fn changed(&mut self, now: u64, mtime: Option<i128>) -> (r: bool)
        ensures
            (final(self)@, r) == changed_spec(old(self)@, now, mtime),
    {
        if !self.due(now) {
            return false;
        }
        self.last_check = now;
        if mtime != self.mtime && mtime.is_some() {
            self.mtime = mtime;
            true
        } else {
            false
        }
    }

    /// The watched file.
    pub fn path(&self) -> (r: &str)
        ensures
            r@ == self.path@,
    {
        self.path.as_str()
    }
}

/// At most twice a second: of two consecutive questions that both report a
/// change, the second comes half a second or more after the first.
pub proof fn lemma_changes_spaced(w: WatchV, t1: u64, m1: Option<i128>, t2: u64, m2: Option<i128>)
    requires
        changed_spec(w, t1, m1).1,
        changed_spec(changed_spec(w, t1, m1).0, t2, m2).1,
    ensures
        t2 >= t1 + POLL_INTERVAL_NS,
{
}

/// A reported change is a readable modification time that differs from the
/// one seen before, and it becomes the one seen.
pub proof fn lemma_change_is_new_mtime(w: WatchV, now: u64, mtime: Option<i128>)
    requires
        changed_spec(w, now, mtime).1,
    ensures
        mtime is Some,
        mtime != w.mtime,
        changed_spec(w, now, mtime).0.mtime == mtime,
        changed_spec(w, now, mtime).0.path == w.path,
{
}

/// An unchanged file is never reported, and a failed read is never a change.
pub proof fn lemma_no_change_without_new_mtime(w: WatchV, now: u64, mtime: Option<i128>)
    requires
        mtime == w.mtime || mtime is None,
    ensures
        !changed_spec(w, now, mtime).1,
        changed_spec(w, now, mtime).0.mtime == w.mtime,
{
}


/// The watch after the first `n` questions, asked at times `ts` with the
/// file's modification time reading `ms`.
pub open spec fn watch_after(w: WatchV, ts: Seq<u64>, ms: Seq<Option<i128>>, n: nat) -> WatchV
    decreases n,
{
    if n == 0 {
        w
    } else {
        changed_spec(watch_after(w, ts, ms, (n - 1) as nat), ts[n - 1], ms[n - 1]).0
    }
}

/// The answer to question `k` of such a sequence.
pub open spec fn answer(w: WatchV, ts: Seq<u64>, ms: Seq<Option<i128>>, k: nat) -> bool {
    changed_spec(watch_after(w, ts, ms, k), ts[k as int], ms[k as int]).1
}

proof fn lemma_last_check_grows(w: WatchV, ts: Seq<u64>, ms: Seq<Option<i128>>, a: nat, b: nat)
    requires
        a <= b,
    ensures
        watch_after(w, ts, ms, a).last_check <= watch_after(w, ts, ms, b).last_check,
    decreases b - a,
{
    if a < b {
        lemma_last_check_grows(w, ts, ms, a, (b - 1) as nat);
    }
}

/// At most twice a second, over any sequence of questions (whatever the
/// clock reads): of any two questions that report a change, the later one
/// comes half a second or more after the earlier.
pub proof fn lemma_changes_spaced_always(
    w: WatchV,
    ts: Seq<u64>,
    ms: Seq<Option<i128>>,
    i: nat,
    j: nat,
)
    requires
        i < j < ts.len(),
        ts.len() == ms.len(),
        answer(w, ts, ms, i),
        answer(w, ts, ms, j),
    ensures
        ts[j as int] >= ts[i as int] + POLL_INTERVAL_NS,
{
    lemma_last_check_grows(w, ts, ms, i + 1, j);
    assert(watch_after(w, ts, ms, i + 1).last_check == ts[i as int]);
}

/// Over any sequence of questions, the path never changes, and the
/// modification time held is the one of the last reported change (the first
/// one seen when none was reported).
pub proof fn lemma_watch_holds_last_change(w: WatchV, ts: Seq<u64>, ms: Seq<Option<i128>>, n: nat)
    requires
        n <= ts.len(),
        ts.len() == ms.len(),
    ensures
        watch_after(w, ts, ms, n).path == w.path,
        watch_after(w, ts, ms, n).mtime == w.mtime || exists|k: nat|
            k < n && answer(w, ts, ms, k) && watch_after(w, ts, ms, n).mtime == ms[k as int] && forall|
                l: nat,
            |
                k < l < n ==> !answer(w, ts, ms, l),
    decreases n,
{
    if n > 0 {
        let m = (n - 1) as nat;
        lemma_watch_holds_last_change(w, ts, ms, m);
        if answer(w, ts, ms, m) {
            assert(k_witness(w, ts, ms, n, m));
        } else {
            let cur = watch_after(w, ts, ms, n);
            assert(cur.mtime == watch_after(w, ts, ms, m).mtime);
            if watch_after(w, ts, ms, m).mtime != w.mtime {
                let k = choose|k: nat|
                    k < m && answer(w, ts, ms, k) && watch_after(w, ts, ms, m).mtime == ms[k as int]
                        && forall|l: nat| k < l < m ==> !answer(w, ts, ms, l);
                assert(k_witness(w, ts, ms, n, k));
            }
        }
    }
}

spec fn k_witness(w: WatchV, ts: Seq<u64>, ms: Seq<Option<i128>>, n: nat, k: nat) -> bool {
    k < n && answer(w, ts, ms, k) && watch_after(w, ts, ms, n).mtime == ms[k as int] && forall|l: nat|
        k < l < n ==> !answer(w, ts, ms, l)
}

} // verus!
