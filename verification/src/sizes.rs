//! Human-readable byte counts, and the session-log statistics and clean-up
//! decisions shown by `agentic_ssh clean`.
//!
//! Sizes of a kilobyte and up are shown as `{:.1}` / `{:.2}` prints the
//! `f64` quotient: the count is first rounded to the nearest `f64` (53
//! significant bits, ties to even), divided by a power of two (exact), and
//! the exact quotient is rounded to the shown decimals, ties to even. All of
//! it is computed here in integers.

use vstd::prelude::*;
use crate::text::{append_chars, dec, dec_chars, from_chars, to_chars};

verus! {

pub open spec fn bit_len(n: nat) -> nat
    decreases n,
{
    if n == 0 {
        0
    } else {
        1 + bit_len(n / 2)
    }
}

pub open spec fn p2(k: nat) -> nat
    decreases k,
{
    if k == 0 {
        1
    } else {
        2 * p2((k - 1) as nat)
    }
}

pub open spec fn p10(k: nat) -> nat
    decreases k,
{
    if k == 0 {
        1
    } else {
        10 * p10((k - 1) as nat)
    }
}

/// `n / d` rounded to the nearest integer, ties to even.
pub open spec fn div_round_even(n: nat, d: nat) -> nat {
    let q = n / d;
    let r = n % d;
    if r * 2 > d || (r * 2 == d && q % 2 == 1) {
        q + 1
    } else {
        q
    }
}

/// The value of `n as f64`: `n` kept to its 53 leading bits, ties to even.
pub open spec fn as_f64(n: nat) -> nat {
    if bit_len(n) <= 53 {
        n
    } else {
        let d = p2((bit_len(n) - 53) as nat);
        div_round_even(n, d) * d
    }
}

/// Two digits, with a leading zero below ten.
pub open spec fn two_digits(n: nat) -> Seq<char> {
    if n < 10 {
        seq!['0'] + dec(n)
    } else {
        dec(n)
    }
}

/// `v / d` written with `places` (one or two) decimals, ties to even.
pub open spec fn fixed_point(v: nat, d: nat, places: nat) -> Seq<char> {
    let q = div_round_even(v * p10(places), d);
    dec(q / p10(places)) + seq!['.'] + if places == 1 {
        dec(q % 10)
    } else {
        two_digits(q % 100)
    }
}

pub open spec fn spec_format_bytes(b: nat) -> Seq<char> {
    if b < 1024 {
        dec(b) + " B"@
    } else if b < 1048576 {
        fixed_point(as_f64(b), 1024, 1) + " KB"@
    } else if b < 1073741824 {
        fixed_point(as_f64(b), 1048576, 1) + " MB"@
    } else {
        fixed_point(as_f64(b), 1073741824, 2) + " GB"@
    }
}

pub proof fn lemma_bit_len_bound(n: nat, k: nat)
    requires
        n < p2(k),
    ensures
        bit_len(n) <= k,
    decreases k,
{
    if n > 0 && k > 0 {
        lemma_bit_len_bound(n / 2, (k - 1) as nat);
    }
}

fn bit_len_exec(n: u64) -> (r: u64)
    ensures
        r as nat == bit_len(n as nat),
        r <= 64,
{
    proof {
        assert(p2(64) == 0x1_0000_0000_0000_0000) by {
            reveal_with_fuel(p2, 65);
        }
        lemma_bit_len_bound(n as nat, 64);
    }
    let mut x = n;
    let mut c: u64 = 0;
    while x > 0
        invariant
            bit_len(n as nat) == c + bit_len(x as nat),
            bit_len(n as nat) <= 64,
        decreases x,
    {
        x = x / 2;
        c = c + 1;
    }
    c
}

fn div_round_even_exec(n: u128, d: u128) -> (r: u128)
    requires
        d > 0,
        d <= 0x1_0000_0000_0000_0000u128,
    ensures
        r as nat == div_round_even(n as nat, d as nat),
{
    let q = n / d;
    let r = n % d;
    proof {
        assert(r < d);
        assert(q <= n) by (nonlinear_arith)
            requires
                q == n / d,
                d > 0,
        ;
    }
    let twice = r as u128 * 2;
    if twice > d || (twice == d && q % 2 == 1) {
        assert(q < u128::MAX) by (nonlinear_arith)
            requires
                q == n / d,
                d >= 2,
        ;
        q + 1
    } else {
        q
    }
}

fn as_f64_exec(n: u64) -> (r: u128)
    ensures
        r as nat == as_f64(n as nat),
        r <= 0x2_0000_0000_0000_0000u128,
{
    let bl = bit_len_exec(n);
    if bl <= 53 {
        return n as u128;
    }
    let s = bl - 53;
    let mut d: u128 = 1;
    let mut k: u64 = 0;
    while k < s
        invariant
            k <= s,
            s <= 11,
            d as nat == p2(k as nat),
            d <= 2048,
            d >= 1,
        decreases s - k,
    {
        proof {
            assert(p2((k + 1) as nat) == 2 * p2(k as nat));
            assert(k + 1 <= 11);
        }
        assert(d * 2 <= p2(11)) by {
            assert(p2(11) == 2048) by {
                reveal_with_fuel(p2, 12);
            }
            lemma_p2_mono(k as nat + 1, 11);
        };
        d = d * 2;
        k = k + 1;
    }
    let q = div_round_even_exec(n as u128, d);
    proof {
        assert(q * d <= n + d) by (nonlinear_arith)
            requires
                q == (n as nat) / (d as nat) + 1 || q == (n as nat) / (d as nat),
                d >= 1,
        ;
        assert(p2(s as nat) == d);
    }
    q * d
}

pub proof fn lemma_p2_mono(a: nat, b: nat)
    requires
        a <= b,
    ensures
        p2(a) <= p2(b),
    decreases b,
{
    if a < b {
        lemma_p2_mono(a, (b - 1) as nat);
    }
}

fn push_fixed(out: &mut Vec<char>, v: u128, d: u128, places: u64)
    requires
        d >= 1024,
        places == 1 || places == 2,
        v <= 0x2_0000_0000_0000_0000u128,
        d <= 0x1_0000_0000_0000_0000u128,
    ensures
        final(out)@ == old(out)@ + fixed_point(v as nat, d as nat, places as nat),
{
    let scale: u128 = if places == 1 {
        10
    } else {
        100
    };
    proof {
        assert(p10(1) == 10 && p10(2) == 100) by {
            reveal_with_fuel(p10, 3);
        }
    }
    let t = v * scale;
    let q = div_round_even_exec(t, d);
    proof {
        assert(q <= t / d + 1);
        assert(t / d <= t / 1024) by (nonlinear_arith)
            requires
                d >= 1024,
        ;
        assert(t <= 0x2_0000_0000_0000_0000u128 * 100);
    }
    let whole = q / scale;
    let frac = q % scale;
    assert(whole <= u64::MAX) by (nonlinear_arith)
        requires
            whole == q / scale,
            scale >= 10,
            q <= t / 1024 + 1,
            t <= 0x2_0000_0000_0000_0000u128 * 100,
    ;
    let ghost start = out@;
    append_chars(out, dec_chars(whole as u64).as_slice());
    out.push('.');
    if places == 1 {
        append_chars(out, dec_chars(frac as u64).as_slice());
    } else {
        if frac < 10 {
            out.push('0');
        }
        append_chars(out, dec_chars(frac as u64).as_slice());
    }
    assert(out@ =~= start + fixed_point(v as nat, d as nat, places as nat));
}

/// A byte count in B, KB, MB or GB, as shown to the user.
pub fn format_bytes(bytes: u64) -> (r: String)
    ensures
        r@ == spec_format_bytes(bytes as nat),
{
    let mut out: Vec<char> = Vec::new();
    if bytes < 1024 {
        append_chars(&mut out, dec_chars(bytes).as_slice());
        append_chars(&mut out, to_chars(" B").as_slice());
    } else {
        let v = as_f64_exec(bytes);
        if bytes < 1048576 {
            push_fixed(&mut out, v, 1024, 1);
            append_chars(&mut out, to_chars(" KB").as_slice());
        } else if bytes < 1073741824 {
            push_fixed(&mut out, v, 1048576, 1);
            append_chars(&mut out, to_chars(" MB").as_slice());
        } else {
            push_fixed(&mut out, v, 1073741824, 2);
            append_chars(&mut out, to_chars(" GB").as_slice());
        }
    }
    assert(out@ =~= spec_format_bytes(bytes as nat));
    from_chars(out.as_slice())
}

// ---------------------------------------------------------------------------
// Session logs
// ---------------------------------------------------------------------------

pub const SECS_PER_DAY: u64 = 86400;

/// Files of one age bracket: how many, and their total size.
#[derive(Debug, Default, Clone, PartialEq, Eq)]
pub struct LogAgeSummary {
    pub count: usize,
    pub total_bytes: u64,
}

/// All session logs, with the brackets of logs older than 2, 3 and 7 days.
#[derive(Debug, Default, Clone, PartialEq, Eq)]
pub struct SessionLogsStats {
    pub total_count: usize,
    pub total_bytes: u64,
    pub older_than_2_days: LogAgeSummary,
    pub older_than_3_days: LogAgeSummary,
    pub older_than_7_days: LogAgeSummary,
}

/// Each bracket lies within the next younger one, and all within the total.
pub open spec fn brackets_nested(s: SessionLogsStats) -> bool {
    &&& s.older_than_7_days.count <= s.older_than_3_days.count
    &&& s.older_than_3_days.count <= s.older_than_2_days.count
    &&& s.older_than_2_days.count <= s.total_count
    &&& s.older_than_7_days.total_bytes <= s.older_than_3_days.total_bytes
    &&& s.older_than_3_days.total_bytes <= s.older_than_2_days.total_bytes
    &&& s.older_than_2_days.total_bytes <= s.total_bytes
}

pub open spec fn bracket_after(b: LogAgeSummary, size: u64, age_secs: u64, days: u64) -> LogAgeSummary {
    if age_secs >= days * 86400 {
        LogAgeSummary { count: (b.count + 1) as usize, total_bytes: (b.total_bytes + size) as u64 }
    } else {
        b
    }
}

impl SessionLogsStats {
    pub fn empty() -> (s: SessionLogsStats)
        ensures
            s.total_count == 0 && s.total_bytes == 0,
            s.older_than_2_days == (LogAgeSummary { count: 0, total_bytes: 0 }),
            s.older_than_3_days == (LogAgeSummary { count: 0, total_bytes: 0 }),
            s.older_than_7_days == (LogAgeSummary { count: 0, total_bytes: 0 }),
    {
        SessionLogsStats {
            total_count: 0,
            total_bytes: 0,
            older_than_2_days: LogAgeSummary { count: 0, total_bytes: 0 },
            older_than_3_days: LogAgeSummary { count: 0, total_bytes: 0 },
            older_than_7_days: LogAgeSummary { count: 0, total_bytes: 0 },
        }
    }

    /// Counts one log file of `size` bytes last written `age_secs` ago.
    pub fn add_file(&mut self, size: u64, age_secs: u64)
        requires
            old(self).total_count < usize::MAX,
            old(self).total_bytes + size <= u64::MAX,
            brackets_nested(*old(self)),
        ensures
            final(self).total_count == old(self).total_count + 1,
            final(self).total_bytes == old(self).total_bytes + size,
            final(self).older_than_2_days == bracket_after(old(self).older_than_2_days, size, age_secs, 2),
            final(self).older_than_3_days == bracket_after(old(self).older_than_3_days, size, age_secs, 3),
            final(self).older_than_7_days == bracket_after(old(self).older_than_7_days, size, age_secs, 7),
            brackets_nested(*final(self)),
    {
        self.total_count = self.total_count + 1;
        self.total_bytes = self.total_bytes + size;
        if age_secs >= 2 * SECS_PER_DAY {
            self.older_than_2_days.count = self.older_than_2_days.count + 1;
            self.older_than_2_days.total_bytes = self.older_than_2_days.total_bytes + size;
        }
        if age_secs >= 3 * SECS_PER_DAY {
            self.older_than_3_days.count = self.older_than_3_days.count + 1;
            self.older_than_3_days.total_bytes = self.older_than_3_days.total_bytes + size;
        }
        if age_secs >= 7 * SECS_PER_DAY {
            self.older_than_7_days.count = self.older_than_7_days.count + 1;
            self.older_than_7_days.total_bytes = self.older_than_7_days.total_bytes + size;
        }
    }
}

/// The number and total size of the files at least `days` days old.
pub open spec fn tally(files: Seq<(u64, u64)>, days: nat) -> (nat, nat)
    decreases files.len(),
{
    if files.len() == 0 {
        (0, 0)
    } else {
        let prev = tally(files.drop_last(), days);
        if files.last().1 >= days * 86400 {
            (prev.0 + 1, prev.1 + files.last().0 as nat)
        } else {
            prev
        }
    }
}

pub proof fn lemma_tally_grows(files: Seq<(u64, u64)>, i: int)
    requires
        0 <= i <= files.len(),
    ensures
        tally(files.take(i), 0).1 <= tally(files, 0).1,
    decreases files.len() - i,
{
    if i < files.len() {
        lemma_tally_grows(files, i + 1);
        assert(files.take(i + 1).drop_last() =~= files.take(i));
    } else {
        assert(files.take(i) =~= files);
    }
}

pub open spec fn matches_tally(b: LogAgeSummary, t: (nat, nat)) -> bool {
    b.count as nat == t.0 && b.total_bytes as nat == t.1
}

/// The statistics of a directory's log files, given as (size, age in
/// seconds); refused (`None`) exactly when the sizes add up beyond `u64`.
pub fn summarize_logs(files: &Vec<(u64, u64)>) -> (r: Option<SessionLogsStats>)
    ensures
        match r {
            Some(s) => {
                &&& s.total_count == files@.len()
                &&& s.total_bytes as nat == tally(files@, 0).1
                &&& matches_tally(s.older_than_2_days, tally(files@, 2))
                &&& matches_tally(s.older_than_3_days, tally(files@, 3))
                &&& matches_tally(s.older_than_7_days, tally(files@, 7))
                &&& brackets_nested(s)
            },
            None => tally(files@, 0).1 > u64::MAX,
        },
{
    let ghost f = files@;
    let mut s = SessionLogsStats::empty();
    let mut i: usize = 0;
    assert(f.take(0) =~= Seq::<(u64, u64)>::empty());
    while i < files.len()
        invariant
            f == files@,
            i <= f.len(),
            s.total_count == i,
            s.total_bytes as nat == tally(f.take(i as int), 0).1,
            matches_tally(s.older_than_2_days, tally(f.take(i as int), 2)),
            matches_tally(s.older_than_3_days, tally(f.take(i as int), 3)),
            matches_tally(s.older_than_7_days, tally(f.take(i as int), 7)),
            brackets_nested(s),
        decreases files.len() - i,
    {
        let (size, age) = files[i];
        assert(f.take(i + 1).drop_last() =~= f.take(i as int));
        assert(f.take(i + 1).last() == (size, age));
        if s.total_bytes > u64::MAX - size {
            proof {
                lemma_tally_grows(f, i + 1);
            }
            return None;
        }
        s.add_file(size, age);
        i = i + 1;
    }
    assert(f.take(f.len() as int) =~= f);
    Some(s)
}

/// The outcome of a clean-up.
#[derive(Debug, Clone, PartialEq, Eq)]
pub struct CleanResult {
    pub deleted_count: usize,
    pub reclaimed_bytes: u64,
    pub target_days: Option<u32>,
}

/// Which age a clean-up removes from: none with `all` (everything goes),
/// else the given number of days or the default.
pub fn clean_target_days(all: bool, numdays: Option<u32>, default_days: u32) -> (r: Option<u32>)
    ensures
        r == (if all {
            None
        } else {
            Some(
                match numdays {
                    Some(d) => d,
                    None => default_days,
                },
            )
        }),
{
    if all {
        None
    } else {
        Some(
            match numdays {
                Some(d) => d,
                None => default_days,
            },
        )
    }
}

/// Whether a log file of age `age_secs` is removed.
pub fn should_delete(all: bool, target_days: Option<u32>, age_secs: u64) -> (r: bool)
    ensures
        r == (all || match target_days {
            Some(d) => age_secs >= d * 86400,
            None => false,
        }),
{
    if all {
        true
    } else {
        match target_days {
            Some(days) => age_secs >= (days as u64) * SECS_PER_DAY,
            None => false,
        }
    }
}

impl CleanResult {
    pub fn start(target_days: Option<u32>) -> (r: CleanResult)
        ensures
            r.deleted_count == 0 && r.reclaimed_bytes == 0 && r.target_days == target_days,
    {
        CleanResult { deleted_count: 0, reclaimed_bytes: 0, target_days }
    }

    /// Counts a removed file of `size` bytes.
    pub fn record_deleted(&mut self, size: u64)
        requires
            old(self).deleted_count < usize::MAX,
            old(self).reclaimed_bytes + size <= u64::MAX,
        ensures
            final(self).deleted_count == old(self).deleted_count + 1,
            final(self).reclaimed_bytes == old(self).reclaimed_bytes + size,
            final(self).target_days == old(self).target_days,
    {
        self.deleted_count = self.deleted_count + 1;
        self.reclaimed_bytes = self.reclaimed_bytes + size;
    }
}

} // verus!
