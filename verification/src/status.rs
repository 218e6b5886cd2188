//! What the status page shows: vault counts, uptime and sync health.
use vstd::prelude::*;
use crate::config::{Config, SyncCheck};
use crate::text::{decimal, push_decimal, push_str, string_from_chars};

verus! {

/// A span of seconds as the status page writes it: `just now` under a minute,
/// then `{m}m`, `{h}h {m}m` under a day, and `{d}d {h}h` from a day on.
pub open spec fn duration_text(secs: nat) -> Seq<char> {
    let days = secs / 86400;
    let hours = (secs % 86400) / 3600;
    let mins = (secs % 3600) / 60;
    if days == 0 && hours == 0 && mins == 0 {
        "just now"@
    } else if days == 0 && hours == 0 {
        decimal(mins) + "m"@
    } else if days == 0 {
        decimal(hours) + "h "@ + decimal(mins) + "m"@
    } else {
        decimal(days) + "d "@ + decimal(hours) + "h"@
    }
}

/// Writes a span of `secs` seconds for the status page.
pub fn format_duration(secs: u64) -> (r: String)
    ensures
        r@ == duration_text(secs as nat),
{
    let days = secs / 86400;
    let hours = (secs % 86400) / 3600;
    let mins = (secs % 3600) / 60;
    let mut out: Vec<char> = Vec::new();
    if days == 0 && hours == 0 && mins == 0 {
        push_str(&mut out, "just now");
    } else if days == 0 && hours == 0 {
        push_decimal(&mut out, mins);
        push_str(&mut out, "m");
    } else if days == 0 {
        push_decimal(&mut out, hours);
        push_str(&mut out, "h ");
        push_decimal(&mut out, mins);
        push_str(&mut out, "m");
    } else {
        push_decimal(&mut out, days);
        push_str(&mut out, "d ");
        push_decimal(&mut out, hours);
        push_str(&mut out, "h");
    }
    string_from_chars(&out)
}

/// Sync is `Running` when the watched age is under five minutes, `Stale` when
/// it is older, and `Unknown` when there is no age to judge or no check.
pub open spec fn sync_status_spec(
    check: SyncCheck,
    modified_age_secs: Option<u64>,
    heartbeat_age_secs: Option<u64>,
) -> Seq<char> {
    let age = match check {
        SyncCheck::File => modified_age_secs,
        SyncCheck::Heartbeat => heartbeat_age_secs,
        _ => None,
    };
    match age {
        Some(a) => if a < 300 { "Running"@ } else { "Stale"@ },
        None => "Unknown"@,
    }
}

/// The sync health shown on the status page. `modified_age_secs` is the age in
/// whole seconds of the vault's last modification (0 for a time in the
/// future), `heartbeat_age_secs` that of the sync heartbeat.
pub fn determine_sync_status(
    check: SyncCheck,
    modified_age_secs: Option<u64>,
    heartbeat_age_secs: Option<u64>,
) -> (r: &'static str)
    ensures
        r@ == sync_status_spec(check, modified_age_secs, heartbeat_age_secs),
{
    let age = match check {
        SyncCheck::File => modified_age_secs,
        SyncCheck::Heartbeat => heartbeat_age_secs,
        SyncCheck::NoCheck | SyncCheck::Kubernetes => None,
    };
    match age {
        Some(a) => if a < 300 { "Running" } else { "Stale" },
        None => "Unknown",
    }
}

/// The sum of the note counts of a folder list.
pub open spec fn total_notes(folders: Seq<(String, usize)>) -> nat
    decreases folders.len(),
{
    if folders.len() == 0 {
        0
    } else {
        total_notes(folders.drop_last()) + folders.last().1 as nat
    }
}

/// The number of notes and of folders in a folder list, or `None` where the
/// number of notes does not fit a `usize`.
pub fn vault_stats_checked(folders: &Vec<(String, usize)>) -> (r: Option<(usize, usize)>)
    ensures
        match r {
            Some((notes, count)) => notes == total_notes(folders@) && count == folders@.len(),
            None => total_notes(folders@) > usize::MAX,
        },
{
    let n = folders.len();
    let mut sum: usize = 0;
    let mut i: usize = 0;
    while i < n
        invariant
            n == folders@.len(),
            i <= n,
            sum == total_notes(folders@.take(i as int)),
        decreases n - i,
    {
        assert(folders@.take(i + 1).drop_last() == folders@.take(i as int));
        match sum.checked_add(folders[i].1) {
            Some(s) => sum = s,
            None => {
                proof {
                    lemma_total_notes_prefix(folders@, i + 1);
                }
                return None;
            },
        }
        i = i + 1;
    }
    assert(folders@.take(n as int) == folders@);
    Some((sum, n))
}

proof fn lemma_total_notes_prefix(s: Seq<(String, usize)>, k: int)
    requires
        0 <= k <= s.len(),
    ensures
        total_notes(s.take(k)) <= total_notes(s),
    decreases s.len(),
{
    if k < s.len() {
        assert(s.drop_last().take(k) == s.take(k));
        lemma_total_notes_prefix(s.drop_last(), k);
    } else {
        assert(s.take(k) == s);
    }
}

/// The number of notes and of folders in a folder list.
pub fn vault_stats(folders: &Vec<(String, usize)>) -> (r: (usize, usize))
    requires
        total_notes(folders@) <= usize::MAX,
    ensures
        r.0 == total_notes(folders@),
        r.1 == folders@.len(),
{
    match vault_stats_checked(folders) {
        Some(r) => r,
        None => (0, 0),
    }
}

/// The authentication shown on the status page.
pub open spec fn auth_status_spec(auth_enabled: bool) -> Seq<char> {
    if auth_enabled { "OIDC"@ } else { "Disabled (dev)"@ }
}

/// The authentication shown on the status page.
pub fn auth_status(auth_enabled: bool) -> (r: &'static str)
    ensures
        r@ == auth_status_spec(auth_enabled),
{
    if auth_enabled { "OIDC" } else { "Disabled (dev)" }
}

/// When the vault last changed, as the status page writes it: `Never`, or its age.
pub open spec fn last_modified_spec(age_secs: Option<u64>) -> Seq<char> {
    match age_secs {
        Some(a) => duration_text(a as nat),
        None => "Never"@,
    }
}

/// When the vault last changed, as the status page writes it.
pub fn last_modified_text(age_secs: Option<u64>) -> (r: String)
    ensures
        r@ == last_modified_spec(age_secs),
{
    match age_secs {
        Some(a) => format_duration(a),
        None => "Never".to_string(),
    }
}

/// Everything the status page and its refreshed part show.
pub struct StatusView {
    pub note_count: usize,
    pub folder_count: usize,
    pub uptime: String,
    pub last_modified: String,
    pub vault_path: String,
    pub sync_status: &'static str,
    pub auth_status: &'static str,
    pub version: String,
}

/// The status page's content, from the configuration, the folder list of the
/// vault, the server's uptime and the ages the sync check watches.
pub fn status_view(
    cfg: &Config,
    folders: &Vec<(String, usize)>,
    uptime_secs: u64,
    modified_age_secs: Option<u64>,
    heartbeat_age_secs: Option<u64>,
) -> (r: StatusView)
    requires
        total_notes(folders@) <= usize::MAX,
    ensures
        r.note_count == total_notes(folders@),
        r.folder_count == folders@.len(),
        r.uptime@ == duration_text(uptime_secs as nat),
        r.last_modified@ == last_modified_spec(modified_age_secs),
        r.vault_path@ == cfg.vault_dir@,
        r.sync_status@ == sync_status_spec(cfg.sync_check, modified_age_secs, heartbeat_age_secs),
        r.auth_status@ == auth_status_spec(cfg.auth_enabled),
        r.version@ == cfg.version@,
{
    let (note_count, folder_count) = vault_stats(folders);
    StatusView {
        note_count,
        folder_count,
        uptime: format_duration(uptime_secs),
        last_modified: last_modified_text(modified_age_secs),
        vault_path: cfg.vault_dir.clone(),
        sync_status: determine_sync_status(cfg.sync_check, modified_age_secs, heartbeat_age_secs),
        auth_status: auth_status(cfg.auth_enabled),
        version: cfg.version.clone(),
    }
}


/// The vault counts as in sync exactly while the age that the configured
/// check reads (the vault's last change for `File`, the heartbeat for
/// `Heartbeat`) is under five minutes, and as stale from then on; with no
/// such check, or no age to read, its state is unknown. So a vault in sync at
/// some age is in sync at every smaller one.
pub proof fn lemma_sync_status(
    check: SyncCheck,
    modified: Option<u64>,
    heartbeat: Option<u64>,
    younger: u64,
)
    ensures
        ({
            let age = match check {
                SyncCheck::File => modified,
                SyncCheck::Heartbeat => heartbeat,
                _ => None,
            };
            &&& age is None ==> sync_status_spec(check, modified, heartbeat) == "Unknown"@
            &&& (age is Some && age.unwrap() < 5 * 60) ==> sync_status_spec(
                check,
                modified,
                heartbeat,
            ) == "Running"@
            &&& (age is Some && age.unwrap() >= 5 * 60) ==> sync_status_spec(
                check,
                modified,
                heartbeat,
            ) == "Stale"@
            &&& (check is File && modified is Some && younger <= modified.unwrap() && sync_status_spec(
                check,
                modified,
                heartbeat,
            ) == "Running"@) ==> sync_status_spec(check, Some(younger), heartbeat) == "Running"@
        }),
{
}

/// The number of notes of a folder list is the sum of the folders' counts:
/// that of two lists put together is the sum of theirs, and it is at least
/// the count of any one folder.
pub proof fn lemma_total_notes(a: Seq<(String, usize)>, b: Seq<(String, usize)>)
    ensures
        total_notes(a + b) == total_notes(a) + total_notes(b),
        forall|i: int| 0 <= i < a.len() ==> (#[trigger] a[i]).1 <= total_notes(a),
    decreases b.len(),
{
    if b.len() > 0 {
        lemma_total_notes(a, b.drop_last());
        assert((a + b).drop_last() =~= a + b.drop_last());
    } else {
        assert(a + b =~= a);
    }
    lemma_total_at_least_each(a);
}

proof fn lemma_total_at_least_each(a: Seq<(String, usize)>)
    ensures
        forall|i: int| 0 <= i < a.len() ==> (#[trigger] a[i]).1 <= total_notes(a),
    decreases a.len(),
{
    if a.len() > 0 {
        lemma_total_at_least_each(a.drop_last());
        assert forall|i: int| 0 <= i < a.len() implies (#[trigger] a[i]).1 <= total_notes(a) by {
            if i < a.len() - 1 {
                assert(a[i] == a.drop_last()[i]);
            }
        }
    }
}

} // verus!
