//! Expansion of host groups into the list of hosts a request runs on.
//!
//! A group maps a name to members, each a host or another group. Expansion
//! follows groups depth first, skips a group that is already being expanded
//! further up (so cycles end), and keeps the first occurrence of each host.

use vstd::prelude::*;
use crate::config::contains_string;
use crate::strmap::{al_contains, al_find, al_get, lemma_al_find, StrMap};

verus! {

/// How many group entries have a name that is not on `path`.
pub open spec fn unvisited(groups: Seq<(Seq<char>, Seq<Seq<char>>)>, path: Seq<Seq<char>>) -> nat
    decreases groups.len(),
{
    if groups.len() == 0 {
        0
    } else {
        unvisited(groups.drop_last(), path) + if path.contains(groups.last().0) {
            0nat
        } else {
            1nat
        }
    }
}

pub proof fn lemma_unvisited_push(
    groups: Seq<(Seq<char>, Seq<Seq<char>>)>,
    path: Seq<Seq<char>>,
    x: Seq<char>,
)
    ensures
        unvisited(groups, path.push(x)) <= unvisited(groups, path),
        (exists|j: int| 0 <= j < groups.len() && groups[j].0 == x) && !path.contains(x) ==> unvisited(
            groups,
            path.push(x),
        ) < unvisited(groups, path),
    decreases groups.len(),
{
    if groups.len() > 0 {
        let init = groups.drop_last();
        let k = groups.last().0;
        lemma_unvisited_push(init, path, x);
        assert(path.push(x).contains(k) <==> (path.contains(k) || k == x)) by {
            if path.push(x).contains(k) {
                let m = choose|m: int| 0 <= m < path.push(x).len() && path.push(x)[m] == k;
                if m < path.len() {
                    assert(path[m] == k);
                }
            }
            if path.contains(k) {
                let m = choose|m: int| 0 <= m < path.len() && path[m] == k;
                assert(path.push(x)[m] == k);
            }
            if k == x {
                assert(path.push(x)[path.len() as int] == k);
            }
        }
        if (exists|j: int| 0 <= j < groups.len() && groups[j].0 == x) && !path.contains(x) {
            let j = choose|j: int| 0 <= j < groups.len() && groups[j].0 == x;
            if j < groups.len() - 1 {
                assert(init[j].0 == x);
            }
        }
    }
}

/// A group name that is not on `path` lowers the count once it is pushed.
pub proof fn lemma_unvisited_key(
    groups: Seq<(Seq<char>, Seq<Seq<char>>)>,
    path: Seq<Seq<char>>,
    x: Seq<char>,
)
    requires
        al_contains(groups, x),
        !path.contains(x),
    ensures
        unvisited(groups, path.push(x)) < unvisited(groups, path),
{
    lemma_al_find(groups, x);
    let j = al_find(groups, x).unwrap();
    assert(groups[j].0 == x);
    lemma_unvisited_push(groups, path, x);
}

/// The hosts that `x` stands for: itself when it is not a group; the
/// expansion of its members when it is a group not already on `path`;
/// nothing when it is a group on `path`.
pub open spec fn expand_host(
    groups: Seq<(Seq<char>, Seq<Seq<char>>)>,
    x: Seq<char>,
    path: Seq<Seq<char>>,
) -> Seq<Seq<char>>
    decreases unvisited(groups, path), 0nat,
{
    match al_get(groups, x) {
        Some(members) => {
            if path.contains(x) {
                Seq::empty()
            } else {
                proof {
                    lemma_unvisited_key(groups, path, x);
                }
                expand_members(groups, members, path.push(x))
            }
        },
        None => seq![x],
    }
}

/// The expansions of each of `ms`, one after the other.
pub open spec fn expand_members(
    groups: Seq<(Seq<char>, Seq<Seq<char>>)>,
    ms: Seq<Seq<char>>,
    path: Seq<Seq<char>>,
) -> Seq<Seq<char>>
    decreases unvisited(groups, path), ms.len() + 1,
{
    if ms.len() == 0 {
        Seq::empty()
    } else {
        expand_host(groups, ms[0], path) + expand_members(groups, ms.drop_first(), path)
    }
}

/// Appends to `expanded` the hosts that `host_or_group` stands for, with
/// `visited` the groups being expanded further up; `visited` is the same
/// again on return.
pub fn expand_host_recursive(
    host_or_group: &str,
    groups: &StrMap<Vec<String>>,
    visited: &mut Vec<String>,
    expanded: &mut Vec<String>,
)
    ensures
        final(visited).deep_view() == old(visited).deep_view(),
        final(expanded).deep_view() == old(expanded).deep_view() + expand_host(
            groups.deep_view(),
            host_or_group@,
            old(visited).deep_view(),
        ),
    decreases unvisited(groups.deep_view(), old(visited).deep_view()), 0nat,
{
    let ghost g = groups.deep_view();
    let ghost x = host_or_group@;
    let ghost path = visited.deep_view();
    let ghost start = expanded.deep_view();
    match groups.get(host_or_group) {
        Some(members) => {
            let name = host_or_group.to_owned();
            if contains_string(visited, &name) {
                assert(expand_host(g, x, path) =~= Seq::<Seq<char>>::empty());
                assert(expanded.deep_view() =~= start + expand_host(g, x, path));
                return;
            }
            proof {
                lemma_al_find(g, x);
                lemma_unvisited_key(g, path, x);
            }
            let ghost ms = members.deep_view();
            visited.push(name);
            assert(visited.deep_view() =~= path.push(x));
            let mut i: usize = 0;
            assert(ms.skip(0) =~= ms);
            while i < members.len()
                invariant
                    g == groups.deep_view(),
                    ms == members.deep_view(),
                    i <= ms.len(),
                    visited.deep_view() == path.push(x),
                    path == old(visited).deep_view(),
                    unvisited(g, path.push(x)) < unvisited(g, path),
                    start + expand_members(g, ms, path.push(x)) == expanded.deep_view()
                        + expand_members(g, ms.skip(i as int), path.push(x)),
                decreases members.len() - i,
            {
                let ghost before = expanded.deep_view();
                let ghost rest = ms.skip(i as int);
                assert(rest.drop_first() =~= ms.skip(i + 1));
                assert(rest[0] == members@[i as int]@);
                expand_host_recursive(members[i].as_str(), groups, visited, expanded);
                assert(before + expand_members(g, rest, path.push(x)) =~= expanded.deep_view()
                    + expand_members(g, ms.skip(i + 1), path.push(x)));
                i = i + 1;
            }
            assert(ms.skip(ms.len() as int) =~= Seq::<Seq<char>>::empty());
            let ghost full = visited@;
            let ghost fulld = visited.deep_view();
            visited.pop();
            assert(visited@ =~= full.drop_last());
            assert forall|k: int| 0 <= k < path.len() implies visited.deep_view()[k] == path[k] by {
                assert(visited@[k] == full[k]);
                assert(fulld[k] == path.push(x)[k]);
            }
            assert(visited.deep_view() =~= path);
            assert(expanded.deep_view() =~= start + expand_host(g, x, path));
        },
        None => {
            expanded.push(host_or_group.to_owned());
            assert(expanded.deep_view() =~= start + expand_host(g, x, path));
        },
    }
}

/// `s` without repeats, each element where it first occurs.
pub open spec fn dedup(s: Seq<Seq<char>>) -> Seq<Seq<char>>
    decreases s.len(),
{
    if s.len() == 0 {
        Seq::empty()
    } else {
        let r = dedup(s.drop_last());
        if r.contains(s.last()) {
            r
        } else {
            r.push(s.last())
        }
    }
}

/// The hosts a list of hosts and groups stands for, each once, in the
/// order of first appearance.
pub open spec fn spec_resolve_hosts(
    groups: Seq<(Seq<char>, Seq<Seq<char>>)>,
    input: Seq<Seq<char>>,
) -> Seq<Seq<char>> {
    dedup(expand_members(groups, input, Seq::empty()))
}

/// Expands every host or group of `hosts_input` and removes repeats,
/// keeping first occurrences.
pub fn resolve_hosts(hosts_input: &[String], groups: &StrMap<Vec<String>>) -> (r: Vec<String>)
    ensures
        r.deep_view() == spec_resolve_hosts(groups.deep_view(), hosts_input.deep_view()),
{
    let ghost g = groups.deep_view();
    let ghost input = hosts_input.deep_view();
    let ghost root = Seq::<Seq<char>>::empty();
    let mut expanded: Vec<String> = Vec::new();
    let mut visited: Vec<String> = Vec::new();
    let mut i: usize = 0;
    assert(input.skip(0) =~= input);
    assert(expanded.deep_view() =~= root);
    while i < hosts_input.len()
        invariant
            g == groups.deep_view(),
            input == hosts_input.deep_view(),
            i <= input.len(),
            visited.deep_view() == root,
            expand_members(g, input, root) == expanded.deep_view() + expand_members(
                g,
                input.skip(i as int),
                root,
            ),
        decreases hosts_input.len() - i,
    {
        let ghost before = expanded.deep_view();
        let ghost rest = input.skip(i as int);
        assert(rest.drop_first() =~= input.skip(i + 1));
        assert(rest[0] == hosts_input@[i as int]@);
        expand_host_recursive(hosts_input[i].as_str(), groups, &mut visited, &mut expanded);
        assert(before + expand_members(g, rest, root) =~= expanded.deep_view() + expand_members(
            g,
            input.skip(i + 1),
            root,
        ));
        i = i + 1;
    }
    assert(input.skip(input.len() as int) =~= Seq::<Seq<char>>::empty());
    assert(expanded.deep_view() =~= expand_members(g, input, root));
    let ghost ex = expanded.deep_view();
    let mut result: Vec<String> = Vec::new();
    let mut j: usize = 0;
    assert(ex.take(0) =~= Seq::<Seq<char>>::empty());
    assert(result.deep_view() =~= Seq::<Seq<char>>::empty());
    while j < expanded.len()
        invariant
            ex == expanded.deep_view(),
            j <= ex.len(),
            result.deep_view() == dedup(ex.take(j as int)),
        decreases expanded.len() - j,
    {
        let h = &expanded[j];
        assert(ex.take(j + 1).drop_last() =~= ex.take(j as int));
        assert(ex.take(j + 1).last() == h@);
        if !contains_string(&result, h) {
            let ghost before = result.deep_view();
            result.push(h.clone());
            assert(result.deep_view() =~= before.push(h@));
        }
        j = j + 1;
    }
    assert(ex.take(ex.len() as int) =~= ex);
    result
}

/// No element of `s` is the name of a group.
pub open spec fn no_group_names(groups: Seq<(Seq<char>, Seq<Seq<char>>)>, s: Seq<Seq<char>>) -> bool {
    forall|k: int| 0 <= k < s.len() ==> !al_contains(groups, #[trigger] s[k])
}

pub proof fn lemma_expand_host_no_groups(
    groups: Seq<(Seq<char>, Seq<Seq<char>>)>,
    x: Seq<char>,
    path: Seq<Seq<char>>,
)
    ensures
        no_group_names(groups, expand_host(groups, x, path)),
    decreases unvisited(groups, path), 0nat,
{
    match al_get(groups, x) {
        Some(members) => {
            if !path.contains(x) {
                lemma_unvisited_key(groups, path, x);
                lemma_expand_members_no_groups(groups, members, path.push(x));
            }
        },
        None => {
            assert(expand_host(groups, x, path)[0] == x);
        },
    }
}

pub proof fn lemma_expand_members_no_groups(
    groups: Seq<(Seq<char>, Seq<Seq<char>>)>,
    ms: Seq<Seq<char>>,
    path: Seq<Seq<char>>,
)
    ensures
        no_group_names(groups, expand_members(groups, ms, path)),
    decreases unvisited(groups, path), ms.len() + 1,
{
    if ms.len() > 0 {
        let a = expand_host(groups, ms[0], path);
        let b = expand_members(groups, ms.drop_first(), path);
        lemma_expand_host_no_groups(groups, ms[0], path);
        lemma_expand_members_no_groups(groups, ms.drop_first(), path);
        assert forall|k: int| 0 <= k < (a + b).len() implies !al_contains(groups, #[trigger] (a + b)[k]) by {
            if k < a.len() {
                assert((a + b)[k] == a[k]);
            } else {
                assert((a + b)[k] == b[k - a.len()]);
            }
        }
    }
}

pub proof fn lemma_dedup(s: Seq<Seq<char>>)
    ensures
        forall|i: int, j: int| 0 <= i < j < dedup(s).len() ==> dedup(s)[i] != dedup(s)[j],
        forall|y: Seq<char>| dedup(s).contains(y) <==> s.contains(y),
    decreases s.len(),
{
    if s.len() > 0 {
        let init = s.drop_last();
        lemma_dedup(init);
        let r = dedup(init);
        assert forall|y: Seq<char>| dedup(s).contains(y) <==> s.contains(y) by {
            if s.contains(y) {
                let m = choose|m: int| 0 <= m < s.len() && s[m] == y;
                if m < s.len() - 1 {
                    assert(init[m] == y);
                    assert(init.contains(y));
                    let n = choose|n: int| 0 <= n < r.len() && r[n] == y;
                    if !r.contains(s.last()) {
                        assert(r.push(s.last())[n] == y);
                    }
                } else if !r.contains(s.last()) {
                    assert(r.push(s.last())[r.len() as int] == y);
                }
            }
            if dedup(s).contains(y) {
                let n = choose|n: int| 0 <= n < dedup(s).len() && dedup(s)[n] == y;
                if n < r.len() {
                    assert(r[n] == y);
                    assert(r.contains(y));
                    assert(init.contains(y));
                    let m = choose|m: int| 0 <= m < init.len() && init[m] == y;
                    assert(s[m] == y);
                } else {
                    assert(s[s.len() - 1] == y);
                }
            }
        }
    }
}

/// Resolution never names a host twice.
pub proof fn law_resolved_hosts_unique(
    groups: Seq<(Seq<char>, Seq<Seq<char>>)>,
    input: Seq<Seq<char>>,
)
    ensures
        forall|i: int, j: int|
            0 <= i < j < spec_resolve_hosts(groups, input).len() ==> spec_resolve_hosts(
                groups,
                input,
            )[i] != spec_resolve_hosts(groups, input)[j],
{
    lemma_dedup(expand_members(groups, input, Seq::empty()));
}

/// Resolution leaves no group name in the result: every group is replaced
/// by its members, and a cycle ends instead of being listed.
pub proof fn law_resolved_hosts_are_not_groups(
    groups: Seq<(Seq<char>, Seq<Seq<char>>)>,
    input: Seq<Seq<char>>,
)
    ensures
        no_group_names(groups, spec_resolve_hosts(groups, input)),
{
    let ex = expand_members(groups, input, Seq::empty());
    lemma_expand_members_no_groups(groups, input, Seq::empty());
    lemma_dedup(ex);
    let r = dedup(ex);
    assert forall|k: int| 0 <= k < r.len() implies !al_contains(groups, #[trigger] r[k]) by {
        assert(r.contains(r[k]));
        assert(ex.contains(r[k]));
        let m = choose|m: int| 0 <= m < ex.len() && ex[m] == r[k];
        assert(!al_contains(groups, ex[m]));
    }
}

pub proof fn lemma_members_contain(
    groups: Seq<(Seq<char>, Seq<Seq<char>>)>,
    ms: Seq<Seq<char>>,
    path: Seq<Seq<char>>,
    k: int,
)
    requires
        0 <= k < ms.len(),
        !al_contains(groups, ms[k]),
    ensures
        expand_members(groups, ms, path).contains(ms[k]),
    decreases k,
{
    let a = expand_host(groups, ms[0], path);
    let b = expand_members(groups, ms.drop_first(), path);
    if k == 0 {
        assert(a[0] == ms[0]);
        assert((a + b)[0] == ms[0]);
    } else {
        lemma_members_contain(groups, ms.drop_first(), path, k - 1);
        assert(ms.drop_first()[k - 1] == ms[k]);
        let n = choose|n: int| 0 <= n < b.len() && b[n] == ms[k];
        assert((a + b)[a.len() + n] == ms[k]);
    }
}

/// A requested name that is not a group is kept in the result.
pub proof fn law_plain_hosts_kept(
    groups: Seq<(Seq<char>, Seq<Seq<char>>)>,
    input: Seq<Seq<char>>,
    h: Seq<char>,
)
    requires
        input.contains(h),
        !al_contains(groups, h),
    ensures
        spec_resolve_hosts(groups, input).contains(h),
{
    let k = choose|k: int| 0 <= k < input.len() && input[k] == h;
    lemma_members_contain(groups, input, Seq::empty(), k);
    lemma_dedup(expand_members(groups, input, Seq::empty()));
}

/// `chain` walks through the groups: every element but the last is a group
/// and the next element is one of its members.
pub open spec fn is_group_chain(groups: Seq<(Seq<char>, Seq<Seq<char>>)>, chain: Seq<Seq<char>>) -> bool {
    &&& chain.len() > 0
    &&& forall|i: int|
        #![trigger chain[i]]
        0 <= i < chain.len() - 1 ==> (al_get(groups, chain[i]) matches Some(ms) && ms.contains(
            chain[i + 1],
        ))
}

/// No element of `chain` occurs twice.
pub open spec fn all_distinct(chain: Seq<Seq<char>>) -> bool {
    forall|i: int, j: int| 0 <= i < j < chain.len() ==> chain[i] != chain[j]
}

/// `h` can be reached from one of `input` by following group membership.
pub open spec fn reachable(
    groups: Seq<(Seq<char>, Seq<Seq<char>>)>,
    input: Seq<Seq<char>>,
    h: Seq<char>,
) -> bool {
    exists|chain: Seq<Seq<char>>|
        #![trigger is_group_chain(groups, chain)]
        is_group_chain(groups, chain) && input.contains(chain[0]) && chain.last() == h
}

proof fn lemma_expand_host_sound(
    groups: Seq<(Seq<char>, Seq<Seq<char>>)>,
    x: Seq<char>,
    path: Seq<Seq<char>>,
    h: Seq<char>,
) -> (chain: Seq<Seq<char>>)
    requires
        expand_host(groups, x, path).contains(h),
    ensures
        is_group_chain(groups, chain),
        chain[0] == x,
        chain.last() == h,
    decreases unvisited(groups, path), 0nat,
{
    match al_get(groups, x) {
        Some(members) => {
            if path.contains(x) {
                assert(false);
                seq![x]
            } else {
                lemma_unvisited_key(groups, path, x);
                let (k, c) = lemma_expand_members_sound(groups, members, path.push(x), h);
                let chain = seq![x] + c;
                assert(chain[0] == x);
                assert(chain.last() == c.last());
                assert forall|i: int| #![trigger chain[i]] 0 <= i < chain.len() - 1 implies (al_get(
                    groups,
                    chain[i],
                ) matches Some(ms) && ms.contains(chain[i + 1])) by {
                    if i == 0 {
                        assert(chain[1] == c[0]);
                        assert(members[k] == c[0]);
                    } else {
                        assert(chain[i] == c[i - 1]);
                        assert(chain[i + 1] == c[i]);
                        assert(c[i - 1] == c[i - 1]);
                    }
                }
                chain
            }
        },
        None => {
            let e = expand_host(groups, x, path);
            assert(e == seq![x]);
            let j = choose|j: int| 0 <= j < e.len() && e[j] == h;
            assert(h == x);
            seq![x]
        },
    }
}

proof fn lemma_expand_members_sound(
    groups: Seq<(Seq<char>, Seq<Seq<char>>)>,
    ms: Seq<Seq<char>>,
    path: Seq<Seq<char>>,
    h: Seq<char>,
) -> (r: (int, Seq<Seq<char>>))
    requires
        expand_members(groups, ms, path).contains(h),
    ensures
        0 <= r.0 < ms.len(),
        is_group_chain(groups, r.1),
        r.1[0] == ms[r.0],
        r.1.last() == h,
    decreases unvisited(groups, path), ms.len() + 1,
{
    if ms.len() == 0 {
        assert(false);
        (0, seq![h])
    } else {
        let a = expand_host(groups, ms[0], path);
        let b = expand_members(groups, ms.drop_first(), path);
        let e = a + b;
        let j = choose|j: int| 0 <= j < e.len() && e[j] == h;
        if j < a.len() {
            assert(a[j] == h);
            let c = lemma_expand_host_sound(groups, ms[0], path, h);
            (0, c)
        } else {
            assert(b[j - a.len()] == h);
            let (k, c) = lemma_expand_members_sound(groups, ms.drop_first(), path, h);
            assert(ms.drop_first()[k] == ms[k + 1]);
            (k + 1, c)
        }
    }
}

proof fn lemma_members_include(
    groups: Seq<(Seq<char>, Seq<Seq<char>>)>,
    ms: Seq<Seq<char>>,
    path: Seq<Seq<char>>,
    k: int,
    h: Seq<char>,
)
    requires
        0 <= k < ms.len(),
        expand_host(groups, ms[k], path).contains(h),
    ensures
        expand_members(groups, ms, path).contains(h),
    decreases k,
{
    let a = expand_host(groups, ms[0], path);
    let b = expand_members(groups, ms.drop_first(), path);
    if k == 0 {
        let n = choose|n: int| 0 <= n < a.len() && a[n] == h;
        assert((a + b)[n] == h);
    } else {
        assert(ms.drop_first()[k - 1] == ms[k]);
        lemma_members_include(groups, ms.drop_first(), path, k - 1, h);
        let n = choose|n: int| 0 <= n < b.len() && b[n] == h;
        assert((a + b)[a.len() + n] == h);
    }
}

proof fn lemma_expand_host_complete(
    groups: Seq<(Seq<char>, Seq<Seq<char>>)>,
    chain: Seq<Seq<char>>,
    path: Seq<Seq<char>>,
)
    requires
        is_group_chain(groups, chain),
        all_distinct(chain),
        forall|i: int| 0 <= i < chain.len() - 1 ==> !path.contains(#[trigger] chain[i]),
        !al_contains(groups, chain.last()),
    ensures
        expand_host(groups, chain[0], path).contains(chain.last()),
    decreases chain.len(),
{
    let x = chain[0];
    if chain.len() == 1 {
        assert(expand_host(groups, x, path) == seq![x]);
        assert(seq![x][0] == chain.last());
    } else {
        let ms = al_get(groups, x)->Some_0;
        assert(al_get(groups, chain[0]) matches Some(m) && m.contains(chain[1]));
        assert(!path.contains(chain[0]));
        lemma_al_find(groups, x);
        let tail = chain.drop_first();
        let p2 = path.push(x);
        assert forall|i: int| #![trigger tail[i]] 0 <= i < tail.len() - 1 implies (al_get(
            groups,
            tail[i],
        ) matches Some(m) && m.contains(tail[i + 1])) by {
            assert(tail[i] == chain[i + 1]);
            assert(tail[i + 1] == chain[i + 2]);
        }
        assert forall|i: int| 0 <= i < tail.len() - 1 implies !p2.contains(#[trigger] tail[i]) by {
            assert(tail[i] == chain[i + 1]);
            assert(!path.contains(chain[i + 1]));
            assert(chain[i + 1] != chain[0]);
            if p2.contains(tail[i]) {
                let m = choose|m: int| 0 <= m < p2.len() && p2[m] == tail[i];
                if m < path.len() {
                    assert(path[m] == tail[i]);
                }
            }
        }
        assert(tail.last() == chain.last());
        lemma_expand_host_complete(groups, tail, p2);
        let k = choose|k: int| 0 <= k < ms.len() && ms[k] == chain[1];
        lemma_members_include(groups, ms, p2, k, chain.last());
    }
}

/// A chain with a repeated element can be cut short at the repeat.
proof fn lemma_distinct_chain(groups: Seq<(Seq<char>, Seq<Seq<char>>)>, chain: Seq<Seq<char>>) -> (c: Seq<Seq<char>>)
    requires
        is_group_chain(groups, chain),
    ensures
        is_group_chain(groups, c),
        all_distinct(c),
        c[0] == chain[0],
        c.last() == chain.last(),
    decreases chain.len(),
{
    if all_distinct(chain) {
        chain
    } else {
        let (i, j) = choose|i: int, j: int| 0 <= i < j < chain.len() && chain[i] == chain[j];
        let short = chain.take(i + 1) + chain.skip(j + 1);
        assert(short[0] == chain[0]);
        if j == chain.len() - 1 {
            assert(short =~= chain.take(i + 1));
            assert(short.last() == chain[i]);
        } else {
            assert(short.last() == chain.last());
        }
        assert forall|m: int| #![trigger short[m]] 0 <= m < short.len() - 1 implies (al_get(
            groups,
            short[m],
        ) matches Some(ms) && ms.contains(short[m + 1])) by {
            if m < i {
                assert(short[m] == chain[m]);
                assert(short[m + 1] == chain[m + 1]);
            } else if m == i {
                assert(short[m] == chain[i]);
                assert(short[m + 1] == chain[j + 1]);
                assert(chain[j] == chain[i]);
            } else {
                assert(short[m] == chain[m + j - i]);
                assert(short[m + 1] == chain[m + 1 + j - i]);
            }
        }
        lemma_distinct_chain(groups, short)
    }
}

/// Resolution gives exactly the hosts (names that are not groups) that can
/// be reached from the request by following group membership, however the
/// groups nest or loop.
pub proof fn law_resolved_hosts_are_the_reachable_ones(
    groups: Seq<(Seq<char>, Seq<Seq<char>>)>,
    input: Seq<Seq<char>>,
    h: Seq<char>,
)
    ensures
        spec_resolve_hosts(groups, input).contains(h) <==> (!al_contains(groups, h) && reachable(
            groups,
            input,
            h,
        )),
{
    let ex = expand_members(groups, input, Seq::empty());
    lemma_dedup(ex);
    lemma_expand_members_no_groups(groups, input, Seq::empty());
    if ex.contains(h) {
        let (k, c) = lemma_expand_members_sound(groups, input, Seq::empty(), h);
        assert(input.contains(c[0]));
        assert(is_group_chain(groups, c));
        let n = choose|n: int| 0 <= n < ex.len() && ex[n] == h;
        assert(!al_contains(groups, ex[n]));
    }
    if !al_contains(groups, h) && reachable(groups, input, h) {
        let chain = choose|chain: Seq<Seq<char>>|
            #![trigger is_group_chain(groups, chain)]
            is_group_chain(groups, chain) && input.contains(chain[0]) && chain.last() == h;
        let c = lemma_distinct_chain(groups, chain);
        lemma_expand_host_complete(groups, c, Seq::empty());
        let k = choose|k: int| 0 <= k < input.len() && input[k] == c[0];
        lemma_members_include(groups, input, Seq::empty(), k, h);
    }
}

// ---------------------------------------------------------------------------
// The target-host arguments of a tool call
// ---------------------------------------------------------------------------

/// The value given for `hosts`: an array (each item a string, or `None` for
/// an item of another JSON type), a single string, or some other JSON value.
#[derive(Debug, Clone)]
pub enum HostsArg {
    List(Vec<Option<String>>),
    Single(String),
    Other,
}

pub enum HostsArgSpec {
    List(Seq<Option<Seq<char>>>),
    Single(Seq<char>),
    Other,
}

impl DeepView for HostsArg {
    type V = HostsArgSpec;

    open spec fn deep_view(&self) -> HostsArgSpec {
        match self {
            HostsArg::List(items) => HostsArgSpec::List(
                items@.map_values(|o: Option<String>| opt_chars(o)),
            ),
            HostsArg::Single(s) => HostsArgSpec::Single(s@),
            HostsArg::Other => HostsArgSpec::Other,
        }
    }
}

pub open spec fn opt_chars(o: Option<String>) -> Option<Seq<char>> {
    match o {
        Some(s) => Some(s@),
        None => None,
    }
}

/// The target-host part of a tool call's arguments: `hosts` when present,
/// and `host` when it is present and a string.
#[derive(Debug, Clone)]
pub struct HostArgs {
    pub hosts: Option<HostsArg>,
    pub host: Option<String>,
}

/// Why the target hosts of a call cannot be read.
#[derive(Debug, Clone, PartialEq, Eq)]
pub enum HostArgsError {
    InvalidHosts,
    EmptyHosts,
    MissingTarget,
}

impl HostArgsError {
    pub open spec fn spec_message(&self) -> Seq<char> {
        match self {
            HostArgsError::InvalidHosts => "Invalid 'hosts' argument: must be an array of strings"@,
            HostArgsError::EmptyHosts => "The 'hosts' list cannot be empty"@,
            HostArgsError::MissingTarget => "Missing target host(s): specify either 'host' (string) or 'hosts' (array of strings)"@,
        }
    }

    pub fn message(&self) -> (r: String)
        ensures
            r@ == self.spec_message(),
    {
        match self {
            HostArgsError::InvalidHosts => "Invalid 'hosts' argument: must be an array of strings".to_owned(),
            HostArgsError::EmptyHosts => "The 'hosts' list cannot be empty".to_owned(),
            HostArgsError::MissingTarget => "Missing target host(s): specify either 'host' (string) or 'hosts' (array of strings)".to_owned(),
        }
    }
}

/// The string items of a list, in order; other items are dropped.
pub open spec fn strings_only(items: Seq<Option<Seq<char>>>) -> Seq<Seq<char>>
    decreases items.len(),
{
    if items.len() == 0 {
        Seq::empty()
    } else {
        let r = strings_only(items.drop_last());
        match items.last() {
            Some(s) => r.push(s),
            None => r,
        }
    }
}

/// What `parse_hosts` gives: the resolved hosts and whether the call runs
/// in multi-host mode, or why the arguments are refused.
pub open spec fn spec_parse_hosts(
    hosts: Option<HostsArgSpec>,
    host: Option<Seq<char>>,
    groups: Seq<(Seq<char>, Seq<Seq<char>>)>,
) -> Result<(Seq<Seq<char>>, bool), HostArgsError> {
    match hosts {
        Some(h) => {
            let input = match h {
                HostsArgSpec::List(items) => Some(strings_only(items)),
                HostsArgSpec::Single(s) => Some(seq![s]),
                HostsArgSpec::Other => None,
            };
            match input {
                None => Err(HostArgsError::InvalidHosts),
                Some(inp) => if inp.len() == 0 {
                    Err(HostArgsError::EmptyHosts)
                } else {
                    Ok((spec_resolve_hosts(groups, inp), true))
                },
            }
        },
        None => match host {
            Some(h) => if al_contains(groups, h) {
                Ok((spec_resolve_hosts(groups, seq![h]), true))
            } else {
                Ok((seq![h], false))
            },
            None => Err(HostArgsError::MissingTarget),
        },
    }
}

fn collect_strings(items: &Vec<Option<String>>) -> (r: Vec<String>)
    ensures
        r.deep_view() == strings_only(items@.map_values(|o: Option<String>| opt_chars(o))),
{
    let ghost d = items@.map_values(|o: Option<String>| opt_chars(o));
    let mut r: Vec<String> = Vec::new();
    let mut i: usize = 0;
    assert(d.take(0) =~= Seq::<Option<Seq<char>>>::empty());
    assert(r.deep_view() =~= Seq::<Seq<char>>::empty());
    while i < items.len()
        invariant
            d == items@.map_values(|o: Option<String>| opt_chars(o)),
            i <= items@.len(),
            r.deep_view() == strings_only(d.take(i as int)),
        decreases items.len() - i,
    {
        assert(d.take(i + 1).drop_last() =~= d.take(i as int));
        assert(d.take(i + 1).last() == opt_chars(items@[i as int]));
        match &items[i] {
            Some(s) => {
                let ghost before = r.deep_view();
                r.push(s.clone());
                assert(r.deep_view() =~= before.push(s@));
            },
            None => {},
        }
        i = i + 1;
    }
    assert(d.take(items@.len() as int) =~= d);
    r
}

/// Reads the target hosts of a tool call. `hosts` (an array of strings or
/// one string) is resolved through `groups` and runs in multi-host mode;
/// otherwise `host` names a group (resolved, multi-host) or one host.
pub fn parse_hosts(arguments: &HostArgs, groups: &StrMap<Vec<String>>) -> (r: Result<
    (Vec<String>, bool),
    HostArgsError,
>)
    ensures
        match r {
            Ok((v, multi)) => spec_parse_hosts(
                match arguments.hosts {
                    Some(h) => Some(h.deep_view()),
                    None => None,
                },
                opt_chars(arguments.host),
                groups.deep_view(),
            ) == Ok::<(Seq<Seq<char>>, bool), HostArgsError>((v.deep_view(), multi)),
            Err(e) => spec_parse_hosts(
                match arguments.hosts {
                    Some(h) => Some(h.deep_view()),
                    None => None,
                },
                opt_chars(arguments.host),
                groups.deep_view(),
            ) == Err::<(Seq<Seq<char>>, bool), HostArgsError>(e),
        },
{
    match &arguments.hosts {
        Some(h) => {
            let input: Vec<String> = match h {
                HostsArg::List(items) => collect_strings(items),
                HostsArg::Single(s) => {
                    let mut v: Vec<String> = Vec::new();
                    v.push(s.clone());
                    assert(v.deep_view() =~= seq![s@]);
                    v
                },
                HostsArg::Other => {
                    return Err(HostArgsError::InvalidHosts);
                },
            };
            if input.len() == 0 {
                return Err(HostArgsError::EmptyHosts);
            }
            let expanded = resolve_hosts(input.as_slice(), groups);
            Ok((expanded, true))
        },
        None => match &arguments.host {
            Some(h) => {
                if groups.contains_key(h.as_str()) {
                    let mut one: Vec<String> = Vec::new();
                    one.push(h.clone());
                    assert(one.deep_view() =~= seq![h@]);
                    let expanded = resolve_hosts(one.as_slice(), groups);
                    Ok((expanded, true))
                } else {
                    let mut one: Vec<String> = Vec::new();
                    one.push(h.clone());
                    assert(one.deep_view() =~= seq![h@]);
                    Ok((one, false))
                }
            },
            None => Err(HostArgsError::MissingTarget),
        },
    }
}

} // verus!
