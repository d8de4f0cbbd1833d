//! The bookkeeping of the connection pool: which idle connections close,
//! what the status file reports for each, and the messages the pool prints.
//! The connections themselves, their clocks and the status file live with
//! the caller.

use vstd::prelude::*;
use crate::config::contains_string;
use crate::hosts::dedup;
use crate::paths::{join_path, spec_join_path};
use crate::text::{append_chars, dec, dec_chars, from_chars, to_chars};

verus! {

/// The state of one pooled connection as written to the status file.
#[derive(Debug, Clone, PartialEq, Eq)]
pub struct ConnectionStatus {
    pub host: String,
    pub last_used_timestamp: u64,
    pub idle_timeout_secs: u64,
    pub status: String,
}

/// A connection running commands is `Executing` as of now; an idle one is
/// `Active`, last used `idle_secs` ago (not before the epoch).
pub fn connection_status(
    host: &str,
    active_operations: usize,
    now_unix: u64,
    idle_secs: u64,
    idle_timeout_secs: u64,
) -> (r: ConnectionStatus)
    ensures
        r.host@ == host@,
        r.idle_timeout_secs == idle_timeout_secs,
        active_operations > 0 ==> r.last_used_timestamp == now_unix && r.status@ == "Executing"@,
        active_operations == 0 ==> r.last_used_timestamp == (if now_unix >= idle_secs {
            now_unix - idle_secs
        } else {
            0
        }) && r.status@ == "Active"@,
{
    if active_operations > 0 {
        ConnectionStatus {
            host: host.to_owned(),
            last_used_timestamp: now_unix,
            idle_timeout_secs,
            status: "Executing".to_owned(),
        }
    } else {
        ConnectionStatus {
            host: host.to_owned(),
            last_used_timestamp: now_unix.saturating_sub(idle_secs),
            idle_timeout_secs,
            status: "Active".to_owned(),
        }
    }
}

/// A connection stays open while it runs commands, and while it has been
/// idle no longer than the timeout (both in nanoseconds).
pub fn keep_connection(active_operations: usize, idle_nanos: u128, timeout_nanos: u128) -> (r: bool)
    ensures
        r == (active_operations > 0 || idle_nanos <= timeout_nanos),
{
    if active_operations > 0 {
        true
    } else if idle_nanos > timeout_nanos {
        false
    } else {
        true
    }
}

/// The count of running operations after one ends, and whether the
/// connection becomes idle (its last-used time is then reset).
pub fn finish_operation(active_operations: usize) -> (r: (usize, bool))
    ensures
        r.0 == (if active_operations > 0 {
            active_operations - 1
        } else {
            0
        }),
        r.1 == (r.0 == 0),
{
    let left = active_operations.saturating_sub(1);
    (left, left == 0)
}

/// The line printed while a quiet command runs.
pub open spec fn spec_progress_message(bytes_read: nat, elapsed_secs: nat) -> Seq<char> {
    "[agentic_ssh] -> [Progress: "@ + dec(bytes_read / 1024) + "KB read from streams...] (elapsed: "@
        + dec(elapsed_secs) + "s)\n"@
}

pub fn progress_message(stdout_len: usize, stderr_len: usize, elapsed_secs: u64) -> (r: String)
    requires
        stdout_len + stderr_len <= usize::MAX,
    ensures
        r@ == spec_progress_message((stdout_len + stderr_len) as nat, elapsed_secs as nat),
{
    let kb = (stdout_len + stderr_len) / 1024;
    let mut out: Vec<char> = Vec::new();
    append_chars(&mut out, to_chars("[agentic_ssh] -> [Progress: ").as_slice());
    append_chars(&mut out, dec_chars(kb as u64).as_slice());
    append_chars(&mut out, to_chars("KB read from streams...] (elapsed: ").as_slice());
    append_chars(&mut out, dec_chars(elapsed_secs).as_slice());
    append_chars(&mut out, to_chars("s)\n").as_slice());
    assert(out@ =~= spec_progress_message((stdout_len + stderr_len) as nat, elapsed_secs as nat));
    from_chars(out.as_slice())
}

/// Why a connection to a host is refused before it is opened.
pub fn blocked_host_message(host: &str, resolved: &str) -> (r: String)
    ensures
        r@ == "Access to host '"@ + host@ + "' (resolved: '"@ + resolved@
            + "') is blocked by ignore rules"@,
{
    let mut r = String::from_str("Access to host '");
    r.append(host);
    r.append("' (resolved: '");
    r.append(resolved);
    r.append("') is blocked by ignore rules");
    r
}

/// One line of the pool dashboard.
#[derive(Debug, Clone, PartialEq, Eq)]
pub struct DashboardRow {
    pub host: String,
    pub last_used: String,
    pub auto_close: String,
    pub status: String,
}

/// The dashboard line for a connection, if it is still open: executing,
/// or idle for less than its timeout.
pub fn dashboard_row(s: &ConnectionStatus, now_unix: u64) -> (r: Option<DashboardRow>)
    ensures
        ({
            let elapsed = if now_unix >= s.last_used_timestamp {
                now_unix - s.last_used_timestamp
            } else {
                0
            };
            let remaining = if s.idle_timeout_secs >= elapsed {
                s.idle_timeout_secs - elapsed
            } else {
                0
            };
            let executing = s.status@ == "Executing"@;
            match r {
                Some(row) => (remaining > 0 || executing) && row.host@ == s.host@ && row.last_used@
                    == (if executing {
                    "now"@
                } else {
                    dec(elapsed as nat) + "s ago"@
                }) && row.auto_close@ == (if executing {
                    "pinned"@
                } else {
                    dec(remaining as nat) + "s left"@
                }) && row.status@ == (if s.status@.len() == 0 {
                    "Active"@
                } else {
                    s.status@
                }),
                None => !(remaining > 0 || executing),
            }
        }),
{
    let elapsed = now_unix.saturating_sub(s.last_used_timestamp);
    let remaining = s.idle_timeout_secs.saturating_sub(elapsed);
    let st = to_chars(s.status.as_str());
    let executing = crate::text::chars_eq(st.as_slice(), to_chars("Executing").as_slice());
    if !(remaining > 0 || executing) {
        return None;
    }
    let last_used = if executing {
        "now".to_owned()
    } else {
        let mut v = dec_chars(elapsed);
        append_chars(&mut v, to_chars("s ago").as_slice());
        from_chars(v.as_slice())
    };
    let auto_close = if executing {
        "pinned".to_owned()
    } else {
        let mut v = dec_chars(remaining);
        append_chars(&mut v, to_chars("s left").as_slice());
        from_chars(v.as_slice())
    };
    let status = if st.len() == 0 {
        "Active".to_owned()
    } else {
        s.status.clone()
    };
    Some(DashboardRow { host: s.host.clone(), last_used, auto_close, status })
}

/// The key files OpenSSH tries by default, under `~/.ssh`.
pub open spec fn default_key_files(ssh_dir: Seq<char>) -> Seq<Seq<char>> {
    seq![
        spec_join_path(ssh_dir, "id_rsa"@),
        spec_join_path(ssh_dir, "id_ed25519"@),
        spec_join_path(ssh_dir, "id_ecdsa"@),
        spec_join_path(ssh_dir, "id_dsa"@),
    ]
}

/// The private keys to try, in order: the configured identity files, then
/// (when the home directory is known) the default keys in `ssh_dir`, each
/// file once, at its first place.
pub fn identity_key_candidates(configured: &Vec<String>, ssh_dir: Option<&str>) -> (r: Vec<String>)
    ensures
        r.deep_view() == dedup(
            configured.deep_view() + match ssh_dir {
                Some(d) => default_key_files(d@),
                None => Seq::<Seq<char>>::empty(),
            },
        ),
{
    let mut all: Vec<String> = Vec::new();
    let mut i: usize = 0;
    while i < configured.len()
        invariant
            i <= configured@.len(),
            all.deep_view() == configured.deep_view().take(i as int),
        decreases configured.len() - i,
    {
        let ghost before = all.deep_view();
        let c = configured[i].clone();
        assert(configured.deep_view()[i as int] == c@);
        all.push(c);
        assert(all.deep_view() =~= before.push(c@));
        assert(configured.deep_view().take(i + 1) =~= configured.deep_view().take(i as int).push(c@));
        i = i + 1;
    }
    assert(configured.deep_view().take(configured@.len() as int) =~= configured.deep_view());
    let ghost base = all.deep_view();
    match ssh_dir {
        Some(d) => {
            all.push(join_path(d, "id_rsa"));
            all.push(join_path(d, "id_ed25519"));
            all.push(join_path(d, "id_ecdsa"));
            all.push(join_path(d, "id_dsa"));
            assert(all.deep_view() =~= base + default_key_files(d@));
        },
        None => {
            assert(all.deep_view() =~= base + Seq::<Seq<char>>::empty());
        },
    }
    let ghost ex = all.deep_view();
    let mut result: Vec<String> = Vec::new();
    let mut j: usize = 0;
    assert(ex.take(0) =~= Seq::<Seq<char>>::empty());
    assert(result.deep_view() =~= Seq::<Seq<char>>::empty());
    while j < all.len()
        invariant
            ex == all.deep_view(),
            j <= ex.len(),
            result.deep_view() == dedup(ex.take(j as int)),
        decreases all.len() - j,
    {
        let h = &all[j];
        assert(ex.take(j + 1).drop_last() =~= ex.take(j as int));
        assert(ex.take(j + 1).last() == h@);
        if !contains_string(&result, h) {
            let ghost before = result.deep_view();
            result.push(h.clone());
            assert(result.deep_view() =~= before.push(h@));
        }
        j = j + 1;
    }
    assert(ex.take(ex.len() as int) =~= ex);
    result
}

} // verus!
