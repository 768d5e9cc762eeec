//! Watching a project for changes: the settings, and what each check of the memory
//! count reports. Sleeping, counting and printing are left to the program.

use vstd::prelude::*;
use crate::text::{owned, append_str, push_decimal, decimal};

verus! {

/// How a project is watched.
#[derive(Debug, Clone)]
pub struct WatchConfig {
    /// Seconds between checks.
    pub interval_secs: u64,
    pub auto_sync: bool,
    pub auto_backup: bool,
    pub notify: bool,
}

impl Default for WatchConfig {
    /// A check every thirty seconds, no automatic sync or backup, notifications on.
    fn default() -> (c: Self)
        ensures
            c.interval_secs == 30,
            !c.auto_sync,
            !c.auto_backup,
            c.notify,
    {
        WatchConfig { interval_secs: 30, auto_sync: false, auto_backup: false, notify: true }
    }
}

/// The report of a change in the number of memories.
pub open spec fn change_report(last: nat, current: nat) -> Option<Seq<char>> {
    if current > last {
        Some("[+] "@ + decimal((current - last) as nat) + " new memories added"@)
    } else if current < last {
        Some("[-] "@ + decimal((last - current) as nat) + " memories removed"@)
    } else {
        None
    }
}

/// One check of a watched project: the count to compare with next time, and the
/// line to print when the number of memories changed.
pub fn watch_step(last: usize, current: usize) -> (r: (usize, Option<String>))
    ensures
        r.0 == current,
        match r.1 {
            Some(s) => change_report(last as nat, current as nat) == Some(s@),
            None => change_report(last as nat, current as nat) is None,
        },
{
    if current > last {
        let mut s = owned("[+] ");
        push_decimal(&mut s, current - last);
        append_str(&mut s, " new memories added");
        (current, Some(s))
    } else if current < last {
        let mut s = owned("[-] ");
        push_decimal(&mut s, last - current);
        append_str(&mut s, " memories removed");
        (current, Some(s))
    } else {
        (current, None)
    }
}

/// Whether an automatic backup is due: backups are on and more than an hour (in
/// nanoseconds) has passed since the last one.
pub fn backup_due(config: &WatchConfig, nanos_since_backup: u128) -> (r: bool)
    ensures
        r == (config.auto_backup && nanos_since_backup > 3_600_000_000_000),
{
    config.auto_backup && nanos_since_backup > 3_600_000_000_000u128
}

} // verus!
