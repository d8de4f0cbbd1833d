//! Release versions and the once-a-day update check: version parsing and
//! ordering, and what to do with the cached answer and a fetched release.

use vstd::prelude::*;
use crate::text::{
    all_digits, digits_value, is_digit, starts_with, from_chars, parse_u64_chars, parse_uint, split_char, split_char_chars,
    strip_prefixes, strip_prefixes_chars, to_chars, vv,
};

verus! {

/// How long a cached answer is trusted, in seconds.
pub const CHECK_INTERVAL_SECS: u64 = 86400;

/// A version component: the number, or 0 when absent or not a number.
pub open spec fn component(parts: Seq<Seq<char>>, i: int) -> nat {
    if 0 <= i < parts.len() {
        match parse_uint(parts[i], u64::MAX as nat) {
            Some(v) => v,
            None => 0,
        }
    } else {
        0
    }
}

/// `major.minor.patch` after any leading `v`s; a missing or malformed part
/// counts as 0.
pub open spec fn spec_parse_version(v: Seq<char>) -> (nat, nat, nat) {
    let parts = split_char(strip_prefixes(v, seq!['v']), '.');
    (component(parts, 0), component(parts, 1), component(parts, 2))
}

/// Lexicographic order of version triples.
pub open spec fn version_gt(a: (nat, nat, nat), b: (nat, nat, nat)) -> bool {
    a.0 > b.0 || (a.0 == b.0 && (a.1 > b.1 || (a.1 == b.1 && a.2 > b.2)))
}

fn component_exec(parts: &Vec<Vec<char>>, i: usize) -> (r: u64)
    ensures
        r as nat == component(vv(parts@), i as int),
{
    if i < parts.len() {
        assert(vv(parts@)[i as int] == parts@[i as int]@);
        match parse_u64_chars(parts[i].as_slice()) {
            Some(v) => v,
            None => 0,
        }
    } else {
        0
    }
}

/// Reads `major.minor.patch`, with or without a leading `v`.
pub fn parse_version(v: &str) -> (r: (u64, u64, u64))
    ensures
        (r.0 as nat, r.1 as nat, r.2 as nat) == spec_parse_version(v@),
{
    let cs = to_chars(v);
    let vee: Vec<char> = vec!['v'];
    assert(vee@ =~= seq!['v']);
    let clean = strip_prefixes_chars(cs.as_slice(), vee.as_slice());
    let parts = split_char_chars(clean.as_slice(), '.');
    (component_exec(&parts, 0), component_exec(&parts, 1), component_exec(&parts, 2))
}

/// Whether `latest` is a later version than `current`.
pub fn is_newer_version(current: &str, latest: &str) -> (r: bool)
    ensures
        r == version_gt(spec_parse_version(latest@), spec_parse_version(current@)),
{
    let a = parse_version(latest);
    let b = parse_version(current);
    a.0 > b.0 || (a.0 == b.0 && (a.1 > b.1 || (a.1 == b.1 && a.2 > b.2)))
}

proof fn lemma_split_without_sep(q: Seq<char>, c: char)
    requires
        forall|k: int| 0 <= k < q.len() ==> q[k] != c,
    ensures
        split_char(q, c) == seq![q],
    decreases q.len(),
{
    if q.len() > 0 {
        lemma_split_without_sep(q.drop_last(), c);
        assert(q.drop_last().push(q.last()) =~= q);
        assert(seq![q.drop_last()].update(0, q.drop_last().push(q.last())) =~= seq![q]);
    } else {
        assert(q =~= Seq::<char>::empty());
    }
}

proof fn lemma_split_after_sep(p: Seq<char>, q: Seq<char>, c: char)
    requires
        forall|k: int| 0 <= k < q.len() ==> q[k] != c,
    ensures
        split_char(p + seq![c] + q, c) == split_char(p, c).push(q),
    decreases q.len(),
{
    let s = p + seq![c] + q;
    if q.len() == 0 {
        assert(s.drop_last() =~= p);
        assert(s.last() == c);
        assert(q =~= Seq::<char>::empty());
    } else {
        let q0 = q.drop_last();
        lemma_split_after_sep(p, q0, c);
        assert(s.drop_last() =~= p + seq![c] + q0);
        assert(s.last() == q.last());
        crate::text::lemma_split_char_len(p, c);
        let prev = split_char(p, c).push(q0);
        assert(q0.push(q.last()) =~= q);
        assert(prev.update(prev.len() - 1, q) =~= split_char(p, c).push(q));
    }
}

/// A version `a.b.c` made of decimal numbers reads as those three numbers:
/// each component is the value of the whole part between the dots, so
/// `0.10.0` is (0, 10, 0) and comes after `0.9.0`.
pub proof fn law_version_components_are_whole_numbers(a: Seq<char>, b: Seq<char>, c: Seq<char>)
    requires
        a.len() > 0 && all_digits(a) && digits_value(a) <= u64::MAX,
        b.len() > 0 && all_digits(b) && digits_value(b) <= u64::MAX,
        c.len() > 0 && all_digits(c) && digits_value(c) <= u64::MAX,
    ensures
        spec_parse_version(a + seq!['.'] + b + seq!['.'] + c) == (digits_value(a), digits_value(b), digits_value(
            c,
        )),
{
    let v = a + seq!['.'] + b + seq!['.'] + c;
    assert(v[0] == a[0]);
    assert(is_digit(a[0]));
    assert(!starts_with(v, seq!['v'])) by {
        if starts_with(v, seq!['v']) {
            assert(v.take(1)[0] == v[0]);
        }
    }
    assert(strip_prefixes(v, seq!['v']) == v);
    assert forall|k: int| 0 <= k < a.len() implies a[k] != '.' by {
        assert(is_digit(a[k]));
    }
    assert forall|k: int| 0 <= k < b.len() implies b[k] != '.' by {
        assert(is_digit(b[k]));
    }
    assert forall|k: int| 0 <= k < c.len() implies c[k] != '.' by {
        assert(is_digit(c[k]));
    }
    lemma_split_without_sep(a, '.');
    lemma_split_after_sep(a, b, '.');
    lemma_split_after_sep(a + seq!['.'] + b, c, '.');
    let parts = split_char(v, '.');
    assert(parts =~= seq![a, b, c]);
    assert(a[0] != '+' && b[0] != '+' && c[0] != '+') by {
        assert(is_digit(a[0]) && is_digit(b[0]) && is_digit(c[0]));
    }
}

/// With whole-number components, a later version is one whose numbers come
/// later in order: major first, then minor, then patch.
pub proof fn law_newer_compares_whole_components(
    a: Seq<char>,
    b: Seq<char>,
    c: Seq<char>,
    x: Seq<char>,
    y: Seq<char>,
    z: Seq<char>,
)
    requires
        a.len() > 0 && all_digits(a) && digits_value(a) <= u64::MAX,
        b.len() > 0 && all_digits(b) && digits_value(b) <= u64::MAX,
        c.len() > 0 && all_digits(c) && digits_value(c) <= u64::MAX,
        x.len() > 0 && all_digits(x) && digits_value(x) <= u64::MAX,
        y.len() > 0 && all_digits(y) && digits_value(y) <= u64::MAX,
        z.len() > 0 && all_digits(z) && digits_value(z) <= u64::MAX,
    ensures
        version_gt(
            spec_parse_version(x + seq!['.'] + y + seq!['.'] + z),
            spec_parse_version(a + seq!['.'] + b + seq!['.'] + c),
        ) <==> (digits_value(x) > digits_value(a) || (digits_value(x) == digits_value(a) && (
        digits_value(y) > digits_value(b) || (digits_value(y) == digits_value(b) && digits_value(z)
            > digits_value(c))))),
{
    law_version_components_are_whole_numbers(a, b, c);
    law_version_components_are_whole_numbers(x, y, z);
}

/// No version is newer than itself.
pub proof fn law_newer_is_irreflexive(v: Seq<char>)
    ensures
        !version_gt(spec_parse_version(v), spec_parse_version(v)),
{
}

/// Of two versions at most one is newer than the other.
pub proof fn law_newer_is_asymmetric(a: Seq<char>, b: Seq<char>)
    ensures
        !(version_gt(spec_parse_version(a), spec_parse_version(b)) && version_gt(
            spec_parse_version(b),
            spec_parse_version(a),
        )),
{
}

/// A version newer than one newer than a third is newer than the third.
pub proof fn law_newer_is_transitive(a: Seq<char>, b: Seq<char>, c: Seq<char>)
    requires
        version_gt(spec_parse_version(a), spec_parse_version(b)),
        version_gt(spec_parse_version(b), spec_parse_version(c)),
    ensures
        version_gt(spec_parse_version(a), spec_parse_version(c)),
{
}

// ---------------------------------------------------------------------------
// The cached answer
// ---------------------------------------------------------------------------

/// The last answer from the release server and when it came.
#[derive(Debug, Clone)]
pub struct VersionCache {
    pub last_check_timestamp: u64,
    pub latest_version: String,
}

/// What the check does first: answer from the cache, or ask the server.
#[derive(Debug, Clone)]
pub enum UpdateStep {
    Answer(Option<String>),
    Fetch,
}

pub open spec fn cache_fresh(now: u64, ts: u64) -> bool {
    (if now >= ts {
        now - ts
    } else {
        0
    }) < CHECK_INTERVAL_SECS
}

/// A cache younger than a day answers: the cached version when it is newer
/// than `current`, else nothing. Otherwise the server is asked.
pub fn cached_answer(now: u64, cache: &Option<VersionCache>, current: &str) -> (r: UpdateStep)
    ensures
        match cache {
            Some(c) => if cache_fresh(now, c.last_check_timestamp) {
                r matches UpdateStep::Answer(a) && match a {
                    Some(l) => l@ == c.latest_version@ && version_gt(
                        spec_parse_version(c.latest_version@),
                        spec_parse_version(current@),
                    ),
                    None => !version_gt(
                        spec_parse_version(c.latest_version@),
                        spec_parse_version(current@),
                    ),
                }
            } else {
                r is Fetch
            },
            None => r is Fetch,
        },
{
    match cache {
        Some(c) => {
            let elapsed = now.saturating_sub(c.last_check_timestamp);
            if elapsed < CHECK_INTERVAL_SECS {
                if is_newer_version(current, c.latest_version.as_str()) {
                    UpdateStep::Answer(Some(c.latest_version.clone()))
                } else {
                    UpdateStep::Answer(None)
                }
            } else {
                UpdateStep::Fetch
            }
        },
        None => UpdateStep::Fetch,
    }
}

/// After asking the server: a release tag (leading `v`s removed) becomes
/// the new cache, dated `now`, and is the answer when newer than
/// `current`. Without a reply the old cache, however old, still answers.
pub fn after_fetch(now: u64, fetched: Option<String>, cache: Option<VersionCache>, current: &str) -> (r: (
    Option<VersionCache>,
    Option<String>,
))
    ensures
        match fetched {
            Some(tag) => r.0 matches Some(c) && c.last_check_timestamp == now && c.latest_version@
                == strip_prefixes(tag@, seq!['v']) && match r.1 {
                Some(l) => l@ == c.latest_version@ && version_gt(
                    spec_parse_version(l@),
                    spec_parse_version(current@),
                ),
                None => !version_gt(
                    spec_parse_version(c.latest_version@),
                    spec_parse_version(current@),
                ),
            },
            None => r.0 is None && match cache {
                Some(c) => match r.1 {
                    Some(l) => l@ == c.latest_version@ && version_gt(
                        spec_parse_version(l@),
                        spec_parse_version(current@),
                    ),
                    None => !version_gt(
                        spec_parse_version(c.latest_version@),
                        spec_parse_version(current@),
                    ),
                },
                None => r.1 is None,
            },
        },
{
    match fetched {
        Some(tag) => {
            let cs = to_chars(tag.as_str());
            let vee: Vec<char> = vec!['v'];
            assert(vee@ =~= seq!['v']);
            let clean = from_chars(strip_prefixes_chars(cs.as_slice(), vee.as_slice()).as_slice());
            let newer = is_newer_version(current, clean.as_str());
            let answer = if newer {
                Some(clean.clone())
            } else {
                None
            };
            (Some(VersionCache { last_check_timestamp: now, latest_version: clean }), answer)
        },
        None => match cache {
            Some(c) => {
                if is_newer_version(current, c.latest_version.as_str()) {
                    (None, Some(c.latest_version))
                } else {
                    (None, None)
                }
            },
            None => (None, None),
        },
    }
}

/// The notice printed when a newer release exists.
pub fn update_notice(latest: &str, current: &str) -> (r: String)
    ensures
        r@ == "💡 A new version of agentic_ssh is available: v"@ + latest@ + " (current: v"@
            + current@
            + ")\n   Upgrade with `cargo install agentic_ssh` or visit https://github.com/sandbanks/agentic_ssh/releases"@,
{
    let mut r = String::from_str("💡 A new version of agentic_ssh is available: v");
    r.append(latest);
    r.append(" (current: v");
    r.append(current);
    r.append(
        ")\n   Upgrade with `cargo install agentic_ssh` or visit https://github.com/sandbanks/agentic_ssh/releases",
    );
    r
}

} // verus!
