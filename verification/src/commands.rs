//! The remote commands behind the log tools, with every value the caller
//! gives quoted for the shell.

use vstd::prelude::*;
use crate::template::{shell_escape, spec_shell_escape};
use crate::text::{dec, dec_chars, from_chars};

verus! {

/// `tail -n <lines> '<file>'`: the last lines of a file.
pub fn tail_command(file_path: &str, lines: u64) -> (r: String)
    ensures
        r@ == "tail -n "@ + dec(lines as nat) + " "@ + spec_shell_escape(file_path@),
{
    let mut r = String::from_str("tail -n ");
    let n = from_chars(dec_chars(lines).as_slice());
    r.append(n.as_str());
    r.append(" ");
    let q = shell_escape(file_path);
    r.append(q.as_str());
    r
}

/// `docker logs --tail <lines> [--timestamps] '<container>'`: the last log
/// lines of a container (with an empty flag, two spaces, when no timestamps
/// are asked for).
pub fn container_logs_command(container: &str, lines: u64, timestamps: bool) -> (r: String)
    ensures
        r@ == "docker logs --tail "@ + dec(lines as nat) + " "@ + (if timestamps {
            "--timestamps"@
        } else {
            ""@
        }) + " "@ + spec_shell_escape(container@),
{
    let mut r = String::from_str("docker logs --tail ");
    let n = from_chars(dec_chars(lines).as_slice());
    r.append(n.as_str());
    r.append(" ");
    if timestamps {
        r.append("--timestamps");
    } else {
        r.append("");
    }
    r.append(" ");
    let q = shell_escape(container);
    r.append(q.as_str());
    r
}

/// The command that streams a log while waiting for a pattern: the file
/// with `tail -f` when one is given, else the container's logs with
/// `docker logs -f`; neither given, none.
pub fn follow_log_command(file_path: Option<&str>, container: Option<&str>) -> (r: Option<String>)
    ensures
        match file_path {
            Some(p) => r matches Some(c) && c@ == "tail -f -n 10 "@ + spec_shell_escape(p@),
            None => match container {
                Some(k) => r matches Some(c) && c@ == "docker logs -f --tail 10 "@
                    + spec_shell_escape(k@),
                None => r is None,
            },
        },
{
    match file_path {
        Some(p) => {
            let mut r = String::from_str("tail -f -n 10 ");
            let q = shell_escape(p);
            r.append(q.as_str());
            Some(r)
        },
        None => match container {
            Some(k) => {
                let mut r = String::from_str("docker logs -f --tail 10 ");
                let q = shell_escape(k);
                r.append(q.as_str());
                Some(r)
            },
            None => None,
        },
    }
}

} // verus!
