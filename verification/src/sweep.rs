//! The sweep that deletes old log files.

use vstd::prelude::*;

use crate::log_name;

verus! {

/// How long a log file is kept, in seconds: 24 hours. An older one is deleted.
pub const LOG_RETENTION_SECS: u64 = 86400;

/// What is known of the age of a directory entry.
#[derive(Clone, Copy, Debug, PartialEq, Eq, Structural)]
pub enum Age {
    /// It has not been looked up.
    Unread,
    /// It cannot be told, or the entry was modified in the future.
    Unknown,
    /// It was modified this long ago: whole seconds, and nanoseconds within
    /// the second.
    Known { secs: u64, nanos: u32 },
}

/// What to do about a directory entry.
#[derive(Clone, Copy, Debug, PartialEq, Eq, Structural)]
pub enum SweepAction {
    /// Leave it and go on to the next one.
    NextEntry,
    /// Look up its age and ask again.
    ReadAge,
    /// Delete it and go on to the next one.
    Remove,
    /// Leave it and end the sweep.
    Finish,
}

/// Whether an age, in seconds and nanoseconds, is more than 24 hours.
pub open spec fn is_old(secs: u64, nanos: u32) -> bool {
    secs > LOG_RETENTION_SECS || (secs == LOG_RETENTION_SECS && nanos > 0)
}

/// What to do about an entry: `stop` says that the sweep is to end, `name`
/// is its name, where there is one that is text.
pub open spec fn sweep_action(stop: bool, name: Option<Seq<char>>, age: Age) -> SweepAction {
    if stop {
        SweepAction::Finish
    } else if name is None || !log_name::is_log_name(name->0) {
        SweepAction::NextEntry
    } else {
        match age {
            Age::Unread => SweepAction::ReadAge,
            Age::Unknown => SweepAction::NextEntry,
            Age::Known { secs, nanos } => if is_old(secs, nanos) {
                SweepAction::Remove
            } else {
                SweepAction::NextEntry
            },
        }
    }
}

/// What the sweep does about a directory entry. `stop` is the flag that ends
/// the sweep; `name` is `None` where the entry cannot be read or its name is
/// not text.
pub fn gc_sweep(stop: bool, name: Option<&str>, age: Age) -> (action: SweepAction)
    ensures
        name is None ==> action == sweep_action(stop, None, age),
        name matches Some(text) ==> action == sweep_action(stop, Some(text@), age),
        action == SweepAction::Finish <==> stop,
        action == SweepAction::Remove <==> {
            &&& !stop
            &&& name matches Some(text)
            &&& log_name::is_log_name(text@)
            &&& age matches Age::Known { secs, nanos }
            &&& secs > 86400 || (secs == 86400 && nanos > 0)
        },
        action == SweepAction::ReadAge <==> {
            &&& !stop
            &&& name matches Some(text)
            &&& log_name::is_log_name(text@)
            &&& age == Age::Unread
        },
{
    if stop {
        return SweepAction::Finish;
    }
    match name {
        None => SweepAction::NextEntry,
        Some(text) => {
            if !log_name::is_temp_log_name(text) {
                return SweepAction::NextEntry;
            }
            match age {
                Age::Unread => SweepAction::ReadAge,
                Age::Unknown => SweepAction::NextEntry,
                Age::Known { secs, nanos } => if secs > LOG_RETENTION_SECS || (secs
                    == LOG_RETENTION_SECS && nanos > 0) {
                    SweepAction::Remove
                } else {
                    SweepAction::NextEntry
                },
            }
        },
    }
}

/// A directory entry as a sweep finds it.
pub struct Entry {
    /// Its name, where there is one that is text.
    pub name: Option<Seq<char>>,
    /// Its age in seconds and nanoseconds, where it can be told.
    pub age: Option<(u64, u32)>,
    /// Whether the sweep has been told to end by then.
    pub stop: bool,
}

impl Entry {
    /// What the look-up of the age gives.
    pub open spec fn looked_up(self) -> Age {
        match self.age {
            Some((secs, nanos)) => Age::Known { secs, nanos },
            None => Age::Unknown,
        }
    }

    /// What becomes of the entry, the age being looked up if it is asked for.
    pub open spec fn fate(self) -> SweepAction {
        if sweep_action(self.stop, self.name, Age::Unread) == SweepAction::ReadAge {
            sweep_action(self.stop, self.name, self.looked_up())
        } else {
            sweep_action(self.stop, self.name, Age::Unread)
        }
    }
}

/// Whether a sweep over some entries, in their order, deletes number `i`.
pub open spec fn removes(entries: Seq<Entry>, i: int) -> bool
    decreases entries.len(),
{
    if i < 0 || entries.len() <= i || entries[0].fate() == SweepAction::Finish {
        false
    } else if i == 0 {
        entries[0].fate() == SweepAction::Remove
    } else {
        removes(entries.drop_first(), i - 1)
    }
}

/// A sweep deletes exactly the files that have a log file's name and are
/// older than 24 hours, up to the entry at which it is told to end.
pub proof fn law_sweep_removes_old_logs_only(entries: Seq<Entry>, i: int)
    requires
        0 <= i < entries.len(),
    ensures
        removes(entries, i) <==> {
            &&& forall|j: int| 0 <= j <= i ==> !(#[trigger] entries[j]).stop
            &&& entries[i].name matches Some(name)
            &&& log_name::is_log_name(name)
            &&& entries[i].age matches Some((secs, nanos))
            &&& secs > 86400 || (secs == 86400 && nanos > 0)
        },
    decreases entries.len(),
{
    let rest = entries.drop_first();
    if i > 0 {
        law_sweep_removes_old_logs_only(rest, i - 1);
        if forall|j: int| 0 <= j <= i ==> !(#[trigger] entries[j]).stop {
            assert forall|j: int| 0 <= j <= i - 1 implies !(#[trigger] rest[j]).stop by {
                assert(rest[j] == entries[j + 1]);
            }
        }
        if !entries[0].stop && forall|j: int| 0 <= j <= i - 1 ==> !(#[trigger] rest[j]).stop {
            assert forall|j: int| 0 <= j <= i implies !(#[trigger] entries[j]).stop by {
                if j > 0 {
                    assert(rest[j - 1] == entries[j]);
                }
            }
        }
    }
}

/// An entry is deleted only if it was modified at least 86400 seconds ago, and
/// a log file always if it was modified more than 86400 seconds ago.
pub proof fn law_a_day_decides(name: Seq<char>, secs: u64, nanos: u32)
    ensures
        sweep_action(false, Some(name), Age::Known { secs, nanos }) == SweepAction::Remove ==> secs
            >= 86400 && log_name::is_log_name(name),
        secs < 86400 ==> sweep_action(false, Some(name), Age::Known { secs, nanos })
            == SweepAction::NextEntry,
        secs == 86400 && nanos == 0 ==> sweep_action(false, Some(name), Age::Known { secs, nanos })
            == SweepAction::NextEntry,
        log_name::is_log_name(name) && secs > 86400 ==> sweep_action(
            false,
            Some(name),
            Age::Known { secs, nanos },
        ) == SweepAction::Remove,
        log_name::is_log_name(name) && secs == 86400 && nanos > 0 ==> sweep_action(
            false,
            Some(name),
            Age::Known { secs, nanos },
        ) == SweepAction::Remove,
{
}

/// An older log file is deleted wherever a younger one is.
pub proof fn law_older_goes_first(
    name: Seq<char>,
    secs: u64,
    nanos: u32,
    older_secs: u64,
    older_nanos: u32,
)
    requires
        secs < older_secs || (secs == older_secs && nanos <= older_nanos),
        sweep_action(false, Some(name), Age::Known { secs, nanos }) == SweepAction::Remove,
    ensures
        sweep_action(false, Some(name), Age::Known { secs: older_secs, nanos: older_nanos })
            == SweepAction::Remove,
{
}

/// What has another name is left alone whatever its age, which is not even
/// looked up; a log file's age is looked up; one whose age cannot be told
/// stays; and the flag ends the sweep at any entry.
pub proof fn law_age_is_asked_of_logs_only(stop: bool, name: Option<Seq<char>>, age: Age)
    ensures
        sweep_action(stop, name, age) == SweepAction::Finish <==> stop,
        sweep_action(stop, name, age) == SweepAction::ReadAge <==> {
            &&& !stop
            &&& age == Age::Unread
            &&& name matches Some(text)
            &&& log_name::is_log_name(text)
        },
        age == Age::Unknown || name is None ==> sweep_action(false, name, age)
            == SweepAction::NextEntry,
        name matches Some(text) && !log_name::is_log_name(text) ==> sweep_action(false, name, age)
            == SweepAction::NextEntry,
{
}

} // verus!
