//! The watch over the certificate files: when the relay restarts to use new ones.

use vstd::prelude::*;

verus! {

/// How often the certificate files are looked at, in seconds.
pub const CERT_POLL_INTERVAL_SECS: u64 = 30;

/// What is looked at in the two files: when each was changed, in nanoseconds from the Unix epoch,
/// and its length.
#[derive(Debug, Clone, Copy, PartialEq, Eq, Structural)]
pub struct CertSnapshot {
    pub cert_modified: i128,
    pub cert_len: u64,
    pub key_modified: i128,
    pub key_len: u64,
}

/// What follows from a look at the files.
#[derive(Debug, Clone, Copy, PartialEq, Eq, Structural)]
pub enum WatchStep {
    /// They could not be read: the process goes on as it is.
    Unreadable,
    /// They are as they were.
    Unchanged,
    /// They changed: whether they are a valid pair is to be found out.
    CheckPair(CertSnapshot),
}

/// The watch: the files as they were when the process took them up.
#[derive(Debug, Clone, Copy)]
pub struct CertWatcher {
    pub current: CertSnapshot,
}

/// What follows from a look at the files, given how they were.
pub open spec fn watch_step(current: CertSnapshot, seen: Option<CertSnapshot>) -> WatchStep {
    match seen {
        None => WatchStep::Unreadable,
        Some(next) => if next == current {
            WatchStep::Unchanged
        } else {
            WatchStep::CheckPair(next)
        },
    }
}

/// How the files are remembered after a changed pair was checked: as they are now, if they are
/// taken up.
pub open spec fn after_check(current: CertSnapshot, next: CertSnapshot, valid: bool) -> CertSnapshot {
    if valid {
        next
    } else {
        current
    }
}

impl CertWatcher {
    /// A watch that starts from the files as they are.
    pub fn new(current: CertSnapshot) -> (watcher: CertWatcher)
        ensures
            watcher.current == current,
    {
        CertWatcher { current }
    }

    /// Looks at the files; there is nothing to see where they cannot be read.
    pub fn observe(&self, seen: Option<CertSnapshot>) -> (step: WatchStep)
        ensures
            step == watch_step(self.current, seen),
    {
        match seen {
            None => WatchStep::Unreadable,
            Some(next) => if next == self.current {
                WatchStep::Unchanged
            } else {
                WatchStep::CheckPair(next)
            },
        }
    }

    /// Decides whether the process restarts after a changed pair was checked.
    pub fn conclude(&mut self, next: CertSnapshot, valid: bool) -> (restart: bool)
        ensures
            restart == valid,
            final(self).current == after_check(old(self).current, next, valid),
    {
        if valid {
            self.current = next;
        }
        valid
    }
}

/// A look that gives no reason to check leaves the process alone: only files that could be read
/// and differ from those in use are checked.
pub proof fn law_only_changed_files_are_checked(current: CertSnapshot, seen: Option<CertSnapshot>)
    ensures
        watch_step(current, seen) is CheckPair <==> seen is Some && seen != Some(current),
{
}

/// A pair that was not valid yet is checked again at the next look, until it is.
pub proof fn law_invalid_pair_is_checked_again(current: CertSnapshot, next: CertSnapshot)
    requires
        watch_step(current, Some(next)) is CheckPair,
    ensures
        watch_step(after_check(current, next, false), Some(next)) == WatchStep::CheckPair(next),
{
}

/// Files that were taken up are not taken up again before they change.
pub proof fn law_files_are_taken_up_once(current: CertSnapshot, next: CertSnapshot)
    ensures
        watch_step(after_check(current, next, true), Some(next)) == WatchStep::Unchanged,
{
}

/// Files are as they were exactly if both have the same times and lengths as before; files that
/// cannot be read are not taken for unchanged ones.
pub proof fn law_files_are_compared_by_time_and_length(current: CertSnapshot, next: CertSnapshot)
    ensures
        watch_step(current, Some(next)) == WatchStep::Unchanged <==> next.cert_modified
            == current.cert_modified && next.cert_len == current.cert_len && next.key_modified
            == current.key_modified && next.key_len == current.key_len,
        watch_step(current, Some(next)) == WatchStep::Unchanged || watch_step(current, Some(next))
            == WatchStep::CheckPair(next),
        watch_step(current, None) == WatchStep::Unreadable,
{
}

/// A pair that is not valid leaves the watch as it was: whatever is seen next means what it would
/// have meant before.
pub proof fn law_invalid_pairs_leave_the_watch_alone(
    current: CertSnapshot,
    next: CertSnapshot,
    seen: Option<CertSnapshot>,
)
    ensures
        watch_step(after_check(current, next, false), seen) == watch_step(current, seen),
        watch_step(after_check(current, next, true), seen) == watch_step(next, seen),
{
}

} // verus!
