//! What an SSH host alias connects to: the parameters the user's OpenSSH
//! configuration gives the alias, and the host, port, user and keys the
//! connection is made with.

use vstd::prelude::*;
use crate::hosts::dedup;
use crate::outside::ssh_host_params;
use crate::paths::{join_path, spec_join_path};
use crate::pool::{default_key_files, identity_key_candidates};
use crate::text::{from_chars, starts_with, starts_with_chars, slice_range, to_chars};

verus! {

/// The settings the OpenSSH configuration gives one host alias.
#[derive(Debug, Clone, PartialEq, Eq)]
pub struct SshHostParams {
    pub host_name: Option<String>,
    pub port: Option<u16>,
    pub user: Option<String>,
    pub identity_files: Option<Vec<String>>,
}

pub struct HostParamsSpec {
    pub host_name: Option<Seq<char>>,
    pub port: Option<u16>,
    pub user: Option<Seq<char>>,
    pub identity_files: Option<Seq<Seq<char>>>,
}

impl DeepView for SshHostParams {
    type V = HostParamsSpec;

    open spec fn deep_view(&self) -> HostParamsSpec {
        HostParamsSpec {
            host_name: match self.host_name {
                Some(h) => Some(h@),
                None => None,
            },
            port: self.port,
            user: match self.user {
                Some(u) => Some(u@),
                None => None,
            },
            identity_files: match self.identity_files {
                Some(f) => Some(f.deep_view()),
                None => None,
            },
        }
    }
}

/// Where a connection goes and how it authenticates.
#[derive(Debug, Clone, PartialEq, Eq)]
pub struct SshTarget {
    pub host: String,
    pub port: u16,
    pub user: String,
    pub keys: Vec<String>,
}

pub struct TargetSpec {
    pub host: Seq<char>,
    pub port: u16,
    pub user: Seq<char>,
    pub keys: Seq<Seq<char>>,
}

impl DeepView for SshTarget {
    type V = TargetSpec;

    open spec fn deep_view(&self) -> TargetSpec {
        TargetSpec { host: self.host@, port: self.port, user: self.user@, keys: self.keys.deep_view() }
    }
}

/// An alias the configuration says nothing about.
pub open spec fn no_params() -> HostParamsSpec {
    HostParamsSpec { host_name: None, port: None, user: None, identity_files: None }
}

/// A path with a leading `~/` taken from the home directory.
pub open spec fn expand_home(path: Seq<char>, home: Option<Seq<char>>) -> Seq<char> {
    match home {
        Some(h) => if starts_with(path, "~/"@) {
            spec_join_path(h, path.skip(2))
        } else {
            path
        },
        None => path,
    }
}

/// The host name an alias resolves to: the configured `HostName`, else the
/// alias itself.
pub open spec fn spec_target_host(alias: Seq<char>, p: HostParamsSpec) -> Seq<char> {
    match p.host_name {
        Some(h) => h,
        None => alias,
    }
}

/// The connection for `alias`: the configured host name, else the alias;
/// the configured port, else 22; the configured user, else the current
/// one; the configured identity files (with `~/` expanded), then the
/// default keys of `~/.ssh` when the home directory is known, each once.
pub open spec fn spec_ssh_target(
    alias: Seq<char>,
    p: HostParamsSpec,
    current_user: Seq<char>,
    home: Option<Seq<char>>,
) -> TargetSpec {
    let files = match p.identity_files {
        Some(f) => f.map_values(|x: Seq<char>| expand_home(x, home)),
        None => Seq::empty(),
    };
    TargetSpec {
        host: spec_target_host(alias, p),
        port: match p.port {
            Some(n) => n,
            None => 22,
        },
        user: match p.user {
            Some(u) => u,
            None => current_user,
        },
        keys: dedup(
            files + match home {
                Some(h) => default_key_files(spec_join_path(h, ".ssh"@)),
                None => Seq::<Seq<char>>::empty(),
            },
        ),
    }
}

pub open spec fn opt_str(o: Option<&str>) -> Option<Seq<char>> {
    match o {
        Some(s) => Some(s@),
        None => None,
    }
}

fn empty_params() -> (r: SshHostParams)
    ensures
        r.deep_view() == no_params(),
{
    SshHostParams { host_name: None, port: None, user: None, identity_files: None }
}

/// The settings of `alias` in the configuration text `config_text` (the
/// contents of `~/.ssh/config`, or `None` when there is no such file).
/// A configuration that does not parse gives no settings, as a missing one
/// does. What a parsed configuration gives depends on the files it
/// includes and on the home directory, so it is not stated here.
pub fn host_params_for(config_text: Option<&[u8]>, alias: &str) -> (r: SshHostParams)
    ensures
        config_text is None ==> r.deep_view() == no_params(),
{
    match config_text {
        None => empty_params(),
        Some(text) => match ssh_host_params(text, alias) {
            Ok(p) => p,
            Err(_) => empty_params(),
        },
    }
}

/// The host name `alias` resolves to under the settings `p`.
pub fn target_host(alias: &str, p: &SshHostParams) -> (r: String)
    ensures
        r@ == spec_target_host(alias@, p.deep_view()),
{
    match &p.host_name {
        Some(h) => h.clone(),
        None => String::from_str(alias),
    }
}

fn expand_home_exec(path: &String, home: Option<&str>) -> (r: String)
    ensures
        r@ == expand_home(path@, opt_str(home)),
{
    let cs = to_chars(path.as_str());
    match home {
        Some(h) => {
            let tilde: Vec<char> = vec!['~', '/'];
            assert(tilde@ =~= "~/"@) by {
                reveal_strlit("~/");
            }
            if starts_with_chars(cs.as_slice(), tilde.as_slice()) {
                let rest = slice_range(cs.as_slice(), 2, cs.len());
                assert(rest@ =~= path@.skip(2));
                let rest_s = from_chars(rest.as_slice());
                join_path(h, rest_s.as_str())
            } else {
                path.clone()
            }
        },
        None => path.clone(),
    }
}

/// Where the connection for `alias` goes and how it authenticates, under
/// the settings `p`, the name of the current user and the home directory.
pub fn ssh_target(alias: &str, p: &SshHostParams, current_user: &str, home: Option<&str>) -> (r: SshTarget)
    ensures
        r.deep_view() == spec_ssh_target(alias@, p.deep_view(), current_user@, opt_str(home)),
{
    let host = target_host(alias, p);
    let port: u16 = match p.port {
        Some(n) => n,
        None => 22,
    };
    let user = match &p.user {
        Some(u) => u.clone(),
        None => String::from_str(current_user),
    };
    let ghost files = match p.deep_view().identity_files {
        Some(f) => f.map_values(|x: Seq<char>| expand_home(x, opt_str(home))),
        None => Seq::<Seq<char>>::empty(),
    };
    let mut expanded: Vec<String> = Vec::new();
    match &p.identity_files {
        Some(fs) => {
            let mut i: usize = 0;
            while i < fs.len()
                invariant
                    i <= fs@.len(),
                    p.identity_files == Some(*fs),
                    files == fs.deep_view().map_values(|x: Seq<char>| expand_home(x, opt_str(home))),
                    expanded.deep_view() == files.take(i as int),
                decreases fs.len() - i,
            {
                let e = expand_home_exec(&fs[i], home);
                let ghost before = expanded.deep_view();
                expanded.push(e);
                assert(expanded.deep_view() =~= before.push(e@));
                assert(files.take(i + 1) =~= files.take(i as int).push(e@));
                i = i + 1;
            }
            assert(files.take(fs@.len() as int) =~= files);
        },
        None => {
            assert(expanded.deep_view() =~= files);
        },
    }
    let ssh_dir: Option<String> = match home {
        Some(h) => Some(join_path(h, ".ssh")),
        None => None,
    };
    let keys = match &ssh_dir {
        Some(d) => identity_key_candidates(&expanded, Some(d.as_str())),
        None => identity_key_candidates(&expanded, None),
    };
    SshTarget { host, port, user, keys }
}

} // verus!
