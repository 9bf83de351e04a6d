//! Sliding-window tracking of authentication failures, one tracker per
//! detection pattern.
//!
//! A tracker records the timestamp of every matched line, prunes the
//! timestamps that have fallen out of the window, and decides when an
//! alert fires. After an alert, the occurrence list is cleared and a
//! cooldown starts: no further alert for the same pattern until a full
//! window has passed since the last one, however many matches keep
//! arriving. This deliberately trades recall for alert-spam suppression.

use vstd::prelude::*;
use vstd::string::StrSliceExecFns;
use vstd::string::StringSliceAdditionalSpecFns;

verus! {

/// The sliding window, in seconds.
pub const TIME_LIMIT: u64 = 300;

/// How many occurrences within the window fire an alert.
pub const RATE_LIMIT: usize = 3;

/// Which failure signature a pattern detects.
#[derive(Clone, Copy, PartialEq, Eq, Structural, Debug)]
pub enum Auth {
    Sudo,
    System,
}

/// A detection pattern: the literal to look for in a log line and the
/// text to emit when its threshold is crossed.
pub struct AuthFailure {
    pub kind: Auth,
    pub message: Vec<u8>,
    pub notify: String,
}

/// A pattern together with its window of occurrence timestamps and the
/// time of the last alert, if any.
pub struct FailureMap {
    pub auth_failure: AuthFailure,
    pub auth_failure_time: Vec<u64>,
    pub notify_time: Option<u64>,
}

/// A timestamp still counts at `now` if it is no older than the window.
/// A timestamp ahead of `now` (an out-of-order clock reading) is kept.
pub open spec fn within_window(t: u64, now: u64) -> bool {
    t > now || now - t <= TIME_LIMIT
}

/// The occurrences that still count at `now`, their order kept.
pub open spec fn pruned(times: Seq<u64>, now: u64) -> Seq<u64> {
    times.filter(|t: u64| within_window(t, now))
}

/// Whether enough time has passed since the last alert for a new one.
pub open spec fn cooldown_over(notify_time: Option<u64>, now: u64) -> bool {
    match notify_time {
        None => true,
        Some(t) => t <= now && now - t >= TIME_LIMIT,
    }
}

/// Whether recording one more occurrence at `now` fires an alert: the
/// occurrences within the window, the new one included, reach the
/// threshold, and the tracker is not in cooldown.
pub open spec fn fires(times: Seq<u64>, notify_time: Option<u64>, now: u64) -> bool {
    pruned(times, now).len() + 1 >= RATE_LIMIT as int && cooldown_over(notify_time, now)
}

impl FailureMap {
    /// A fresh tracker for `failure`: no occurrences, no alert yet.
    pub fn new(failure: AuthFailure) -> (m: FailureMap)
        ensures
            m.auth_failure == failure,
            m.auth_failure_time@ == Seq::<u64>::empty(),
            m.notify_time is None,
    {
        FailureMap { auth_failure: failure, auth_failure_time: Vec::new(), notify_time: None }
    }

    /// Records one occurrence at `now`.
    pub fn add(&mut self, now: u64)
        ensures
            final(self).auth_failure_time@ == old(self).auth_failure_time@.push(now),
            final(self).auth_failure == old(self).auth_failure,
            final(self).notify_time == old(self).notify_time,
    {
        self.auth_failure_time.push(now);
    }

    /// Drops every occurrence that has fallen out of the window at `now`,
    /// keeping the rest in order.
    pub fn clean(&mut self, now: u64)
        ensures
            final(self).auth_failure_time@ == pruned(old(self).auth_failure_time@, now),
            final(self).auth_failure == old(self).auth_failure,
            final(self).notify_time == old(self).notify_time,
    {
        let mut kept: Vec<u64> = Vec::new();
        let mut i: usize = 0;
        proof {
            reveal(Seq::filter);
            assert(old(self).auth_failure_time@.take(0) =~= Seq::<u64>::empty());
        }
        while i < self.auth_failure_time.len()
            invariant
                0 <= i <= self.auth_failure_time.len(),
                self.auth_failure_time@ == old(self).auth_failure_time@,
                self.auth_failure == old(self).auth_failure,
                self.notify_time == old(self).notify_time,
                kept@ == pruned(old(self).auth_failure_time@.take(i as int), now),
            decreases self.auth_failure_time.len() - i,
        {
            let t = self.auth_failure_time[i];
            proof {
                reveal(Seq::filter);
                let whole = old(self).auth_failure_time@;
                assert(whole.take(i + 1).drop_last() =~= whole.take(i as int));
                assert(whole.take(i + 1).last() == t);
            }
            if t > now || now - t <= TIME_LIMIT {
                kept.push(t);
            }
            i = i + 1;
        }
        proof {
            assert(old(self).auth_failure_time@.take(
                old(self).auth_failure_time@.len() as int,
            ) =~= old(self).auth_failure_time@);
        }
        self.auth_failure_time = kept;
    }
}

/// Records an occurrence at `now` and decides whether the alert fires:
/// prune, append, then check the threshold and the cooldown. On a fired
/// alert the occurrence list is cleared and the cooldown is anchored at
/// `now`; otherwise the pruned occurrences, the new one included, are
/// kept.
pub fn notify(fm: &mut FailureMap, now: u64) -> (fired: bool)
    ensures
        fired == fires(old(fm).auth_failure_time@, old(fm).notify_time, now),
        fired ==> final(fm).auth_failure_time@ == Seq::<u64>::empty() && final(fm).notify_time
            == Some(now),
        !fired ==> final(fm).auth_failure_time@ == pruned(old(fm).auth_failure_time@, now).push(
            now,
        ) && final(fm).notify_time == old(fm).notify_time,
        final(fm).auth_failure == old(fm).auth_failure,
{
    fm.clean(now);
    fm.add(now);
    if fm.auth_failure_time.len() >= RATE_LIMIT {
        let over = match fm.notify_time {
            None => true,
            Some(t) => t <= now && now - t >= TIME_LIMIT,
        };
        if over {
            fm.notify_time = Some(now);
            fm.auth_failure_time = Vec::new();
            proof {
                assert(fm.auth_failure_time@ =~= Seq::<u64>::empty());
            }
            return true;
        }
    }
    false
}

/// Window correctness: of three occurrences at `t1 < t2 < t3` where `t1`
/// has fallen out of the window by `t3` and `t2` has not, a tracker
/// queried at `t3` counts only `t2` and the new occurrence as active, so
/// the threshold of three is not crossed even though three occurrences
/// were recorded historically.
pub proof fn lemma_window_correctness(t1: u64, t2: u64, t3: u64)
    requires
        t1 < t2 < t3,
        t3 - t1 > TIME_LIMIT,
        t3 - t2 <= TIME_LIMIT,
    ensures
        pruned(seq![t1, t2], t3) == seq![t2],
        pruned(seq![t1, t2], t3).push(t3) == seq![t2, t3],
        !fires(seq![t1, t2], None, t3),
{
    reveal_with_fuel(Seq::filter, 4);
    assert(seq![t1, t2].drop_last() =~= seq![t1]);
    assert(seq![t1].drop_last() =~= Seq::<u64>::empty());
    assert(pruned(seq![t1, t2], t3) =~= seq![t2]);
    assert(pruned(seq![t1, t2], t3).push(t3) =~= seq![t2, t3]);
}

/// Threshold edge: with a threshold of three, the first and second
/// occurrence within one window fire no alert, and the third fires one;
/// the reset into cooldown then leaves no active occurrence behind, so no
/// alert can repeat before a fresh burst accumulates.
pub proof fn lemma_threshold_edge(t1: u64, t2: u64, t3: u64)
    requires
        t1 <= t2 <= t3,
        t3 - t1 <= TIME_LIMIT,
    ensures
        !fires(Seq::empty(), None, t1),
        !fires(seq![t1], None, t2),
        fires(seq![t1, t2], None, t3),
        forall|t4: u64| !fires(Seq::empty(), Some(t3), t4),
{
    reveal_with_fuel(Seq::filter, 4);
    assert(seq![t1].drop_last() =~= Seq::<u64>::empty());
    assert(seq![t1, t2].drop_last() =~= seq![t1]);
    assert(pruned(seq![t1, t2], t3) =~= seq![t1, t2]);
    assert forall|t4: u64| !fires(Seq::<u64>::empty(), Some(t3), t4) by {
        assert(pruned(Seq::<u64>::empty(), t4) =~= Seq::<u64>::empty());
    }
}

/// The literal that marks a failed sudo authentication.
pub open spec fn sudo_message() -> Seq<u8> {
    "pam_unix(sudo:auth): authentication failure;".spec_bytes()
}

/// The literal that marks a failed system authentication.
pub open spec fn system_message() -> Seq<u8> {
    "pam_unix(system-auth:auth): authentication failure;".spec_bytes()
}

/// The two standard trackers: sudo failures first, system-auth failures
/// second, both fresh.
pub fn default_failure_maps() -> (maps: Vec<FailureMap>)
    ensures
        maps@.len() == 2,
        maps@[0].auth_failure.kind == Auth::Sudo,
        maps@[0].auth_failure.message@ == sudo_message(),
        maps@[0].auth_failure.notify@ == "sudo bashing detected"@,
        maps@[0].auth_failure_time@ == Seq::<u64>::empty(),
        maps@[0].notify_time is None,
        maps@[1].auth_failure.kind == Auth::System,
        maps@[1].auth_failure.message@ == system_message(),
        maps@[1].auth_failure.notify@ == "system-auth bashing detected"@,
        maps@[1].auth_failure_time@ == Seq::<u64>::empty(),
        maps@[1].notify_time is None,
{
    let sudo = AuthFailure {
        kind: Auth::Sudo,
        message: "pam_unix(sudo:auth): authentication failure;".as_bytes_vec(),
        notify: "sudo bashing detected".to_owned(),
    };
    let system = AuthFailure {
        kind: Auth::System,
        message: "pam_unix(system-auth:auth): authentication failure;".as_bytes_vec(),
        notify: "system-auth bashing detected".to_owned(),
    };
    let mut maps: Vec<FailureMap> = Vec::new();
    maps.push(FailureMap::new(sudo));
    maps.push(FailureMap::new(system));
    maps
}

} // verus!
