//! Host boundaries: which hosts a configuration lets the agent reach, and on
//! which hosts a custom tool may run. Patterns are shell-style globs compared
//! without regard to case, against the alias and against the resolved name.

use vstd::prelude::*;
use crate::config::Config;
use crate::outside::{compile_glob, glob_is_match, glob_matches, glob_valid, spec_lowercase, to_lowercase};
use crate::text::{chars_eq, to_chars};

verus! {

pub open spec fn opt_view(o: Option<&str>) -> Option<Seq<char>> {
    match o {
        Some(s) => Some(s@),
        None => None,
    }
}

/// Whether pattern `p` matches the host alias or its resolved name.
pub open spec fn pattern_hits(p: Seq<char>, host: Seq<char>, resolved: Option<Seq<char>>) -> bool {
    let pl = spec_lowercase(p);
    glob_valid(pl) && (glob_matches(pl, spec_lowercase(host)) || (resolved matches Some(r)
        && glob_matches(pl, spec_lowercase(r))))
}

pub open spec fn any_hits(ps: Seq<Seq<char>>, host: Seq<char>, resolved: Option<Seq<char>>) -> bool {
    exists|i: int| 0 <= i < ps.len() && pattern_hits(#[trigger] ps[i], host, resolved)
}

/// A tool runs everywhere when its allow list is empty, else only on hosts
/// that one of its patterns matches.
pub open spec fn spec_host_allowed_for_tool(
    host: Seq<char>,
    resolved: Option<Seq<char>>,
    allow: Seq<Seq<char>>,
) -> bool {
    allow.len() == 0 || any_hits(allow, host, resolved)
}

/// An ignore pattern that applies: all of them, except `*` when an allow list
/// exists (the allow list has then already decided).
pub open spec fn ignore_applies(p: Seq<char>, allow: Seq<Seq<char>>) -> bool {
    !(p == "*"@ && allow.len() > 0)
}

/// A host is blocked when an allow list exists and none of it matches, or
/// when an applicable ignore pattern matches.
pub open spec fn spec_host_ignored(
    host: Seq<char>,
    resolved: Option<Seq<char>>,
    ignore: Seq<Seq<char>>,
    allow: Seq<Seq<char>>,
) -> bool {
    (allow.len() > 0 && !any_hits(allow, host, resolved)) || exists|i: int|
        0 <= i < ignore.len() && ignore_applies(#[trigger] ignore[i], allow) && pattern_hits(
            ignore[i],
            host,
            resolved,
        )
}

fn pattern_hits_exec(p: &String, host_lower: &str, resolved_lower: &Option<String>) -> (r: bool)
    ensures
        r == {
            let pl = spec_lowercase(p@);
            glob_valid(pl) && (glob_matches(pl, host_lower@) || (resolved_lower matches Some(
                rl,
            ) && glob_matches(pl, rl@)))
        },
{
    let pl = to_lowercase(p.as_str());
    match compile_glob(pl.as_str()) {
        Some(pattern) => {
            if glob_is_match(&pattern, host_lower) {
                return true;
            }
            match resolved_lower {
                Some(rl) => glob_is_match(&pattern, rl.as_str()),
                None => false,
            }
        },
        None => false,
    }
}

fn lower_resolved(resolved_host: Option<&str>) -> (r: Option<String>)
    ensures
        match resolved_host {
            Some(h) => r matches Some(l) && l@ == spec_lowercase(h@),
            None => r is None,
        },
{
    match resolved_host {
        Some(h) => Some(to_lowercase(h)),
        None => None,
    }
}

fn any_hits_exec(ps: &[String], host: &str, resolved_host: Option<&str>) -> (r: bool)
    ensures
        r == any_hits(ps.deep_view(), host@, opt_view(resolved_host)),
{
    let host_lower = to_lowercase(host);
    let resolved_lower = lower_resolved(resolved_host);
    let mut i: usize = 0;
    while i < ps.len()
        invariant
            i <= ps@.len(),
            host_lower@ == spec_lowercase(host@),
            match resolved_host {
                Some(h) => resolved_lower matches Some(l) && l@ == spec_lowercase(h@),
                None => resolved_lower is None,
            },
            forall|j: int|
                0 <= j < i ==> !pattern_hits(#[trigger] ps.deep_view()[j], host@, opt_view(resolved_host)),
        decreases ps.len() - i,
    {
        assert(ps.deep_view()[i as int] == ps@[i as int]@);
        if pattern_hits_exec(&ps[i], host_lower.as_str(), &resolved_lower) {
            assert(pattern_hits(ps.deep_view()[i as int], host@, opt_view(resolved_host)));
            return true;
        }
        i = i + 1;
    }
    false
}

/// Whether a custom tool may run on `host` (or on the name it resolves to).
pub fn is_host_allowed_for_tool(host: &str, resolved_host: Option<&str>, allow_hosts: &[String]) -> (r:
    bool)
    ensures
        r == spec_host_allowed_for_tool(host@, opt_view(resolved_host), allow_hosts.deep_view()),
{
    if allow_hosts.len() == 0 {
        return true;
    }
    any_hits_exec(allow_hosts, host, resolved_host)
}

/// Whether the ignore and allow lists block `host`.
pub fn is_host_ignored_impl(
    host: &str,
    resolved_host: Option<&str>,
    ignore_hosts: &[String],
    allow_hosts: &[String],
) -> (r: bool)
    ensures
        r == spec_host_ignored(
            host@,
            opt_view(resolved_host),
            ignore_hosts.deep_view(),
            allow_hosts.deep_view(),
        ),
{
    let ghost res = opt_view(resolved_host);
    if allow_hosts.len() > 0 {
        if !any_hits_exec(allow_hosts, host, resolved_host) {
            return true;
        }
    }
    let host_lower = to_lowercase(host);
    let resolved_lower = lower_resolved(resolved_host);
    let star = to_chars("*");
    let mut i: usize = 0;
    while i < ignore_hosts.len()
        invariant
            i <= ignore_hosts@.len(),
            star@ == "*"@,
            host_lower@ == spec_lowercase(host@),
            res == opt_view(resolved_host),
            allow_hosts.len() > 0 ==> any_hits(allow_hosts.deep_view(), host@, res),
            match resolved_host {
                Some(h) => resolved_lower matches Some(l) && l@ == spec_lowercase(h@),
                None => resolved_lower is None,
            },
            forall|j: int|
                0 <= j < i ==> !(ignore_applies(
                    #[trigger] ignore_hosts.deep_view()[j],
                    allow_hosts.deep_view(),
                ) && pattern_hits(ignore_hosts.deep_view()[j], host@, res)),
        decreases ignore_hosts.len() - i,
    {
        assert(ignore_hosts.deep_view()[i as int] == ignore_hosts@[i as int]@);
        let pc = to_chars(ignore_hosts[i].as_str());
        let is_star = chars_eq(pc.as_slice(), star.as_slice());
        if !(is_star && allow_hosts.len() > 0) {
            if pattern_hits_exec(&ignore_hosts[i], host_lower.as_str(), &resolved_lower) {
                assert(ignore_applies(ignore_hosts.deep_view()[i as int], allow_hosts.deep_view()));
                return true;
            }
        }
        i = i + 1;
    }
    false
}

/// Whether the configuration's host boundaries block `host`.
pub fn is_host_ignored(host: &str, resolved_host: Option<&str>, config: &Config) -> (r: bool)
    ensures
        r == spec_host_ignored(
            host@,
            opt_view(resolved_host),
            config.ignore_hosts.deep_view(),
            config.allow_hosts.deep_view(),
        ),
{
    is_host_ignored_impl(
        host,
        resolved_host,
        config.ignore_hosts.as_slice(),
        config.allow_hosts.as_slice(),
    )
}

/// The hosts of `hosts` (with their resolved names at the same places in
/// `resolved`) that the boundaries do not block, in order.
pub open spec fn authorized(
    hosts: Seq<Seq<char>>,
    resolved: Seq<Seq<char>>,
    ignore: Seq<Seq<char>>,
    allow: Seq<Seq<char>>,
) -> Seq<Seq<char>>
    decreases hosts.len(),
{
    if hosts.len() == 0 || resolved.len() < hosts.len() {
        Seq::empty()
    } else {
        let n = hosts.len() - 1;
        let prev = authorized(hosts.drop_last(), resolved.take(n), ignore, allow);
        if spec_host_ignored(hosts[n], Some(resolved[n]), ignore, allow) {
            prev
        } else {
            prev.push(hosts[n])
        }
    }
}

/// The SSH host aliases an agent is shown: those the configuration's
/// boundaries do not block, judged by alias and by resolved name.
pub fn authorized_hosts(hosts: &Vec<String>, resolved: &Vec<String>, config: &Config) -> (r: Vec<String>)
    requires
        hosts@.len() == resolved@.len(),
    ensures
        r.deep_view() == authorized(
            hosts.deep_view(),
            resolved.deep_view(),
            config.ignore_hosts.deep_view(),
            config.allow_hosts.deep_view(),
        ),
{
    let ghost hs = hosts.deep_view();
    let ghost rs = resolved.deep_view();
    let ghost ig = config.ignore_hosts.deep_view();
    let ghost al = config.allow_hosts.deep_view();
    let mut r: Vec<String> = Vec::new();
    let mut i: usize = 0;
    assert(hs.take(0) =~= Seq::<Seq<char>>::empty());
    assert(r.deep_view() =~= Seq::<Seq<char>>::empty());
    while i < hosts.len()
        invariant
            hs == hosts.deep_view(),
            rs == resolved.deep_view(),
            ig == config.ignore_hosts.deep_view(),
            al == config.allow_hosts.deep_view(),
            hs.len() == rs.len(),
            i <= hs.len(),
            r.deep_view() == authorized(hs.take(i as int), rs.take(i as int), ig, al),
        decreases hosts.len() - i,
    {
        let ghost ht = hs.take(i + 1);
        let ghost rt = rs.take(i + 1);
        assert(ht.drop_last() =~= hs.take(i as int));
        assert(rt.take(i as int) =~= rs.take(i as int));
        assert(ht[i as int] == hosts@[i as int]@);
        assert(rt[i as int] == resolved@[i as int]@);
        if !is_host_ignored(hosts[i].as_str(), Some(resolved[i].as_str()), config) {
            let ghost before = r.deep_view();
            r.push(hosts[i].clone());
            assert(r.deep_view() =~= before.push(hosts@[i as int]@));
        }
        i = i + 1;
    }
    assert(hs.take(hs.len() as int) =~= hs);
    assert(rs.take(rs.len() as int) =~= rs);
    r
}

// ---------------------------------------------------------------------------
// Laws
// ---------------------------------------------------------------------------

/// Without an allow list and without ignore patterns every host is reachable,
/// and a tool without an allow list runs on every host.
pub proof fn law_no_boundaries_block_nothing(host: Seq<char>, resolved: Option<Seq<char>>)
    ensures
        !spec_host_ignored(host, resolved, Seq::empty(), Seq::empty()),
        spec_host_allowed_for_tool(host, resolved, Seq::empty()),
{
}

/// With an allow list, a host that no allow pattern matches is blocked,
/// whatever the ignore list says.
pub proof fn law_allow_list_blocks_others(
    host: Seq<char>,
    resolved: Option<Seq<char>>,
    ignore: Seq<Seq<char>>,
    allow: Seq<Seq<char>>,
)
    requires
        allow.len() > 0,
        !any_hits(allow, host, resolved),
    ensures
        spec_host_ignored(host, resolved, ignore, allow),
{
}

/// With an allow list, ignoring `*` does not block the allowed hosts: a host
/// that the allow list matches is blocked only by a specific ignore pattern.
pub proof fn law_ignore_all_keeps_allowed(
    host: Seq<char>,
    resolved: Option<Seq<char>>,
    allow: Seq<Seq<char>>,
)
    requires
        allow.len() > 0,
        any_hits(allow, host, resolved),
    ensures
        !spec_host_ignored(host, resolved, seq!["*"@], allow),
{
}

/// Adding an ignore pattern never unblocks a host.
pub proof fn law_more_ignores_block_more(
    host: Seq<char>,
    resolved: Option<Seq<char>>,
    ignore: Seq<Seq<char>>,
    allow: Seq<Seq<char>>,
    extra: Seq<char>,
)
    requires
        spec_host_ignored(host, resolved, ignore, allow),
    ensures
        spec_host_ignored(host, resolved, ignore.push(extra), allow),
{
    if !(allow.len() > 0 && !any_hits(allow, host, resolved)) {
        let i = choose|i: int|
            0 <= i < ignore.len() && ignore_applies(#[trigger] ignore[i], allow) && pattern_hits(
                ignore[i],
                host,
                resolved,
            );
        assert(ignore.push(extra)[i] == ignore[i]);
    }
}

} // verus!
