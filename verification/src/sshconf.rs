//! Reading `~/.ssh/config` line by line: the host aliases it declares, the
//! `Include` directives it follows, and the `ConnectTimeout` of a host.
//! Opening files and expanding `Include` globs is left to the caller, which
//! feeds the lines of each file here.

use vstd::prelude::*;
use crate::outside::{
    compile_glob, glob_is_match, glob_matches, glob_valid, spec_lowercase, to_lowercase,
};
use crate::text::{
    find_char, find_char_chars, from_chars, is_ws, is_whitespace, parse_u64_chars, parse_uint,
    slice_range, split_ws, split_ws_chars, starts_with, starts_with_chars, strip_prefixes,
    strip_prefixes_chars, strip_suffix_char, strip_suffix_char_chars, to_chars, trim, trim_chars,
    vv,
};

verus! {

/// The first character that ends a keyword: white space or `=`.
pub open spec fn first_sep_from(s: Seq<char>, i: int) -> Option<int>
    decreases s.len() - i,
{
    if i < 0 || i >= s.len() {
        None
    } else if is_ws(s[i]) || s[i] == '=' {
        Some(i)
    } else {
        first_sep_from(s, i + 1)
    }
}

/// Leading and trailing double quotes removed.
pub open spec fn strip_quotes(s: Seq<char>) -> Seq<char> {
    strip_suffix_char(strip_prefixes(s, seq!['"']), '"')
}

/// A directive line as (keyword in lower case, value): blank lines,
/// comments and lines without a value give none.
pub open spec fn spec_directive(line: Seq<char>) -> Option<(Seq<char>, Seq<char>)> {
    let t = trim(line);
    if t.len() == 0 || starts_with(t, seq!['#']) {
        None
    } else {
        match first_sep_from(t, 0) {
            None => None,
            Some(k) => Some((spec_lowercase(t.take(k)), strip_quotes(trim(t.skip(k + 1))))),
        }
    }
}

fn first_sep_exec(s: &[char]) -> (r: Option<usize>)
    ensures
        match r {
            Some(k) => first_sep_from(s@, 0) == Some(k as int) && k < s@.len(),
            None => first_sep_from(s@, 0) is None,
        },
{
    let mut i: usize = 0;
    while i < s.len()
        invariant
            i <= s@.len(),
            first_sep_from(s@, 0) == first_sep_from(s@, i as int),
        decreases s.len() - i,
    {
        if is_whitespace(s[i]) || s[i] == '=' {
            return Some(i);
        }
        i = i + 1;
    }
    None
}

/// Reads a directive line.
pub fn parse_directive(line: &str) -> (r: Option<(String, String)>)
    ensures
        match r {
            Some((k, v)) => spec_directive(line@) == Some((k@, v@)),
            None => spec_directive(line@) is None,
        },
{
    let cs = to_chars(line);
    let t = trim_chars(cs.as_slice());
    let hash_mark: Vec<char> = vec!['#'];
    assert(hash_mark@ =~= seq!['#']);
    if t.len() == 0 || starts_with_chars(t.as_slice(), hash_mark.as_slice()) {
        return None;
    }
    match first_sep_exec(t.as_slice()) {
        None => None,
        Some(k) => {
            let key_chars = slice_range(t.as_slice(), 0, k);
            assert(key_chars@ =~= t@.take(k as int));
            let key_text = from_chars(key_chars.as_slice());
            let key = to_lowercase(key_text.as_str());
            let rest = slice_range(t.as_slice(), k + 1, t.len());
            assert(rest@ =~= t@.skip(k + 1));
            let rest_trimmed = trim_chars(rest.as_slice());
            let quote: Vec<char> = vec!['"'];
            assert(quote@ =~= seq!['"']);
            let unquoted_front = strip_prefixes_chars(rest_trimmed.as_slice(), quote.as_slice());
            let value = strip_suffix_char_chars(unquoted_front.as_slice(), '"');
            Some((key, from_chars(value.as_slice())))
        },
    }
}

/// A `Host` pattern that names one host: no `*` or `?`, and not `!`.
pub open spec fn is_plain_alias(p: Seq<char>) -> bool {
    find_char(p, '*') is None && find_char(p, '?') is None && p != seq!['!']
}

pub open spec fn plain_aliases(ps: Seq<Seq<char>>) -> Seq<Seq<char>>
    decreases ps.len(),
{
    if ps.len() == 0 {
        Seq::empty()
    } else {
        let prev = plain_aliases(ps.drop_last());
        if is_plain_alias(ps.last()) {
            prev.push(ps.last())
        } else {
            prev
        }
    }
}

/// What one line contributes to the list of host aliases.
#[derive(Debug, Clone)]
pub enum HostsLine {
    Hosts(Vec<String>),
    Include(String),
    Other,
}

pub open spec fn spec_hosts_line(line: Seq<char>) -> (Option<Seq<Seq<char>>>, Option<Seq<char>>) {
    match spec_directive(line) {
        Some((k, v)) => if k == "host"@ {
            (Some(plain_aliases(split_ws(v))), None)
        } else if k == "include"@ {
            (None, Some(v))
        } else {
            (None, None)
        },
        None => (None, None),
    }
}

fn plain_aliases_exec(value: &str) -> (r: Vec<String>)
    ensures
        r.deep_view() == plain_aliases(split_ws(value@)),
{
    let cs = to_chars(value);
    let ws = split_ws_chars(cs.as_slice());
    let ghost p = vv(ws@);
    let mut r: Vec<String> = Vec::new();
    let mut i: usize = 0;
    assert(p.take(0) =~= Seq::<Seq<char>>::empty());
    assert(r.deep_view() =~= Seq::<Seq<char>>::empty());
    while i < ws.len()
        invariant
            p == vv(ws@),
            i <= p.len(),
            r.deep_view() == plain_aliases(p.take(i as int)),
        decreases ws.len() - i,
    {
        assert(p.take(i + 1).drop_last() =~= p.take(i as int));
        assert(p.take(i + 1).last() == ws@[i as int]@);
        let w = ws[i].as_slice();
        let bang: Vec<char> = vec!['!'];
        assert(bang@ =~= seq!['!']);
        if find_char_chars(w, '*').is_none() && find_char_chars(w, '?').is_none()
            && !crate::text::chars_eq(w, bang.as_slice()) {
            let ghost before = r.deep_view();
            r.push(from_chars(w));
            assert(r.deep_view() =~= before.push(w@));
        }
        i = i + 1;
    }
    assert(p.take(p.len() as int) =~= p);
    r
}

fn key_is(k: &String, word: &str) -> (b: bool)
    ensures
        b == (k@ == word@),
{
    let a = to_chars(k.as_str());
    let b = to_chars(word);
    crate::text::chars_eq(a.as_slice(), b.as_slice())
}

/// Reads one line for the alias list: the plain aliases of a `Host` line,
/// or the value of an `Include` line.
pub fn hosts_line(line: &str) -> (r: HostsLine)
    ensures
        match r {
            HostsLine::Hosts(h) => spec_hosts_line(line@) == (
                Some(h.deep_view()),
                None::<Seq<char>>,
            ),
            HostsLine::Include(v) => spec_hosts_line(line@) == (
                None::<Seq<Seq<char>>>,
                Some(v@),
            ),
            HostsLine::Other => spec_hosts_line(line@) == (
                None::<Seq<Seq<char>>>,
                None::<Seq<char>>,
            ),
        },
{
    match parse_directive(line) {
        Some((k, v)) => {
            if key_is(&k, "host") {
                HostsLine::Hosts(plain_aliases_exec(v.as_str()))
            } else if key_is(&k, "include") {
                HostsLine::Include(v)
            } else {
                HostsLine::Other
            }
        },
        None => HostsLine::Other,
    }
}

// ---------------------------------------------------------------------------
// ConnectTimeout
// ---------------------------------------------------------------------------

/// Whether one of the `Host` patterns, lower-cased, matches the target.
pub open spec fn any_pattern_matches(ps: Seq<Seq<char>>, target_lower: Seq<char>) -> bool {
    exists|i: int|
        0 <= i < ps.len() && glob_valid(spec_lowercase(#[trigger] ps[i])) && glob_matches(
            spec_lowercase(ps[i]),
            target_lower,
        )
}

/// What one line means while looking for a host's `ConnectTimeout`.
#[derive(Debug, Clone)]
pub enum TimeoutLine {
    Found(u64),
    Include(String),
    Continue,
}

/// The effect of a line: a `Host` line sets whether the following lines
/// apply to the target; a numeric `ConnectTimeout` inside a matching block
/// is the answer; an `Include` line is followed.
pub open spec fn spec_timeout_step(matching: bool, line: Seq<char>, target_lower: Seq<char>) -> (
    bool,
    Option<nat>,
    Option<Seq<char>>,
) {
    match spec_directive(line) {
        Some((k, v)) => if k == "host"@ {
            (any_pattern_matches(split_ws(v), target_lower), None, None)
        } else if k == "connecttimeout"@ && matching {
            (matching, parse_uint(v, u64::MAX as nat), None)
        } else if k == "include"@ {
            (matching, None, Some(v))
        } else {
            (matching, None, None)
        },
        None => (matching, None, None),
    }
}

fn any_pattern_matches_exec(value: &str, target_lower: &str) -> (r: bool)
    ensures
        r == any_pattern_matches(split_ws(value@), target_lower@),
{
    let cs = to_chars(value);
    let ws = split_ws_chars(cs.as_slice());
    let ghost p = vv(ws@);
    let mut i: usize = 0;
    while i < ws.len()
        invariant
            p == vv(ws@),
            p == split_ws(value@),
            i <= p.len(),
            forall|j: int|
                0 <= j < i ==> !(glob_valid(spec_lowercase(#[trigger] p[j])) && glob_matches(
                    spec_lowercase(p[j]),
                    target_lower@,
                )),
        decreases ws.len() - i,
    {
        assert(p[i as int] == ws@[i as int]@);
        let pattern = from_chars(ws[i].as_slice());
        let lower = to_lowercase(pattern.as_str());
        match compile_glob(lower.as_str()) {
            Some(g) => {
                if glob_is_match(&g, target_lower) {
                    assert(glob_valid(spec_lowercase(p[i as int])) && glob_matches(
                        spec_lowercase(p[i as int]),
                        target_lower@,
                    ));
                    return true;
                }
            },
            None => {},
        }
        i = i + 1;
    }
    false
}

/// Reads one line while looking for the `ConnectTimeout` of the host whose
/// lower-cased name is `target_lower`; `matching` says whether the current
/// `Host` block applies to it.
pub fn timeout_line_step(matching: &mut bool, line: &str, target_lower: &str) -> (r: TimeoutLine)
    ensures
        ({
            let (m, found, follow) = spec_timeout_step(*old(matching), line@, target_lower@);
            &&& *final(matching) == m
            &&& match r {
                TimeoutLine::Found(secs) => found == Some(secs as nat) && follow is None,
                TimeoutLine::Include(v) => found is None && follow == Some(v@),
                TimeoutLine::Continue => found is None && follow is None,
            }
        }),
{
    match parse_directive(line) {
        Some((k, v)) => {
            if key_is(&k, "host") {
                *matching = any_pattern_matches_exec(v.as_str(), target_lower);
                TimeoutLine::Continue
            } else if key_is(&k, "connecttimeout") && *matching {
                let vc = to_chars(v.as_str());
                match parse_u64_chars(vc.as_slice()) {
                    Some(secs) => TimeoutLine::Found(secs),
                    None => TimeoutLine::Continue,
                }
            } else if key_is(&k, "include") {
                TimeoutLine::Include(v)
            } else {
                TimeoutLine::Continue
            }
        },
        None => TimeoutLine::Continue,
    }
}

// ---------------------------------------------------------------------------
// The alias list: sorted, without repeats
// ---------------------------------------------------------------------------

/// The order of `str`: lexicographic by character (as by UTF-8 bytes).
pub open spec fn lex_lt(a: Seq<char>, b: Seq<char>) -> bool
    decreases a.len(),
{
    if a.len() == 0 {
        b.len() > 0
    } else if b.len() == 0 {
        false
    } else if a[0] != b[0] {
        a[0] < b[0]
    } else {
        lex_lt(a.drop_first(), b.drop_first())
    }
}

pub proof fn lemma_lex_irreflexive(a: Seq<char>)
    ensures
        !lex_lt(a, a),
    decreases a.len(),
{
    if a.len() > 0 {
        lemma_lex_irreflexive(a.drop_first());
    }
}

pub proof fn lemma_lex_transitive(a: Seq<char>, b: Seq<char>, c: Seq<char>)
    requires
        lex_lt(a, b),
        lex_lt(b, c),
    ensures
        lex_lt(a, c),
    decreases a.len(),
{
    if a.len() > 0 && b.len() > 0 && c.len() > 0 && a[0] == b[0] && b[0] == c[0] {
        lemma_lex_transitive(a.drop_first(), b.drop_first(), c.drop_first());
    }
}

pub proof fn lemma_lex_total(a: Seq<char>, b: Seq<char>)
    requires
        a != b,
    ensures
        lex_lt(a, b) || lex_lt(b, a),
    decreases a.len(),
{
    if a.len() > 0 && b.len() > 0 && a[0] == b[0] {
        if a.drop_first() == b.drop_first() {
            assert(a =~= seq![a[0]] + a.drop_first());
            assert(b =~= seq![b[0]] + b.drop_first());
        }
        lemma_lex_total(a.drop_first(), b.drop_first());
    } else if a.len() == 0 && b.len() == 0 {
        assert(a =~= b);
    }
}

fn lex_lt_exec(a: &[char], b: &[char]) -> (r: bool)
    ensures
        r == lex_lt(a@, b@),
{
    let mut i: usize = 0;
    assert(a@.skip(0) =~= a@);
    assert(b@.skip(0) =~= b@);
    loop
        invariant
            i <= a@.len(),
            i <= b@.len(),
            lex_lt(a@, b@) == lex_lt(a@.skip(i as int), b@.skip(i as int)),
        decreases a.len() - i,
    {
        if i == a.len() {
            return i < b.len();
        }
        if i == b.len() {
            return false;
        }
        let x = a[i];
        let y = b[i];
        assert(a@.skip(i as int)[0] == x);
        assert(b@.skip(i as int)[0] == y);
        if x != y {
            return x < y;
        }
        assert(a@.skip(i as int).drop_first() =~= a@.skip(i + 1));
        assert(b@.skip(i as int).drop_first() =~= b@.skip(i + 1));
        i = i + 1;
    }
}

/// Each element smaller than the next, so no repeats.
pub open spec fn strictly_sorted(s: Seq<Seq<char>>) -> bool {
    forall|i: int, j: int| 0 <= i < j < s.len() ==> lex_lt(#[trigger] s[i], #[trigger] s[j])
}

/// The aliases sorted, each once (`sort` then `dedup`).
pub fn sorted_unique(hosts: &Vec<String>) -> (r: Vec<String>)
    ensures
        strictly_sorted(r.deep_view()),
        forall|h: Seq<char>| r.deep_view().contains(h) <==> hosts.deep_view().contains(h),
{
    let ghost input = hosts.deep_view();
    let mut r: Vec<String> = Vec::new();
    let mut i: usize = 0;
    while i < hosts.len()
        invariant
            input == hosts.deep_view(),
            i <= input.len(),
            strictly_sorted(r.deep_view()),
            forall|h: Seq<char>|
                r.deep_view().contains(h) <==> input.take(i as int).contains(h),
        decreases hosts.len() - i,
    {
        let h = &hosts[i];
        let hc = to_chars(h.as_str());
        let ghost rv = r.deep_view();
        let mut j: usize = 0;
        loop
            invariant_except_break
                j <= r@.len(),
                rv == r.deep_view(),
                hc@ == h@,
                forall|k: int| 0 <= k < j ==> lex_lt(#[trigger] rv[k], h@),
            ensures
                j <= r@.len(),
                rv == r.deep_view(),
                hc@ == h@,
                forall|k: int| 0 <= k < j ==> lex_lt(#[trigger] rv[k], h@),
                j < rv.len() ==> !lex_lt(rv[j as int], h@),
            decreases r@.len() - j,
        {
            if j >= r.len() {
                break;
            }
            let rc = to_chars(r[j].as_str());
            assert(rv[j as int] == rc@);
            if !lex_lt_exec(rc.as_slice(), hc.as_slice()) {
                break;
            }
            j = j + 1;
        }
        let ghost t1 = input.take(i + 1);
        let ghost t0 = input.take(i as int);
        assert(t1 =~= t0.push(h@));
        let present = if j < r.len() {
            let rc = to_chars(r[j].as_str());
            assert(rv[j as int] == rc@);
            crate::text::chars_eq(rc.as_slice(), hc.as_slice())
        } else {
            false
        };
        if present {
            assert(rv[j as int] == h@);
            assert forall|x: Seq<char>| r.deep_view().contains(x) <==> t1.contains(x) by {
                if x == h@ {
                    assert(rv[j as int] == x);
                }
                if t1.contains(x) && x != h@ {
                    let m = choose|m: int| 0 <= m < t1.len() && t1[m] == x;
                    assert(t0[m] == x);
                }
            }
        } else {
            proof {
                if j < rv.len() {
                    lemma_lex_total(rv[j as int], h@);
                }
                assert forall|k: int| j <= k < rv.len() implies lex_lt(h@, #[trigger] rv[k]) by {
                    if k > j {
                        lemma_lex_transitive(h@, rv[j as int], rv[k]);
                    }
                }
            }
            r.insert(j, h.clone());
            let ghost nv = r.deep_view();
            assert(nv =~= rv.insert(j as int, h@));
            assert forall|a: int, b: int| 0 <= a < b < nv.len() implies lex_lt(
                #[trigger] nv[a],
                #[trigger] nv[b],
            ) by {
                if b < j {
                } else if a < j && b == j {
                } else if a < j {
                    assert(nv[b] == rv[b - 1]);
                    lemma_lex_transitive(rv[a], h@, rv[b - 1]);
                } else if a == j {
                    assert(nv[b] == rv[b - 1]);
                } else {
                    assert(nv[a] == rv[a - 1]);
                    assert(nv[b] == rv[b - 1]);
                }
            }
            assert forall|x: Seq<char>| nv.contains(x) <==> t1.contains(x) by {
                if nv.contains(x) {
                    let m = choose|m: int| 0 <= m < nv.len() && nv[m] == x;
                    if m == j {
                        assert(t1[t0.len() as int] == x);
                    } else {
                        if m < j {
                            assert(rv[m] == x);
                        } else {
                            assert(rv[m - 1] == x);
                        }
                        assert(rv.contains(x));
                        assert(t0.contains(x));
                        let q = choose|q: int| 0 <= q < t0.len() && t0[q] == x;
                        assert(t1[q] == x);
                    }
                }
                if t1.contains(x) {
                    if x == h@ {
                        assert(nv[j as int] == x);
                    } else {
                        let m = choose|m: int| 0 <= m < t1.len() && t1[m] == x;
                        assert(t0[m] == x);
                        assert(rv.contains(x));
                        let q = choose|q: int| 0 <= q < rv.len() && rv[q] == x;
                        if q < j {
                            assert(nv[q] == x);
                        } else {
                            assert(nv[q + 1] == x);
                        }
                    }
                }
            }
        }
        i = i + 1;
    }
    assert(input.take(input.len() as int) =~= input);
    r
}

} // verus!
