//! The state behind `watch`: streamed output cut into lines per host, each
//! host's status, and the keys that move the selection or end the session.

use vstd::prelude::*;
use crate::hosts::{resolve_hosts, spec_resolve_hosts};
use crate::text::{dec, dec_chars};
use crate::strmap::StrMap;
use crate::text::{
    append_chars, find_char, find_char_chars, from_chars, split_char, split_char_chars, to_chars,
    trim, trim_chars, vv,
};

verus! {

// ---------------------------------------------------------------------------
// Cutting streamed text into lines
// ---------------------------------------------------------------------------

/// Text received so far that does not yet end in a newline.
#[derive(Debug, Clone)]
pub struct LineBuffer {
    buffer: String,
}

/// The complete lines of `pending + text`, each behind `prefix`.
pub open spec fn lb_lines(pending: Seq<char>, text: Seq<char>, prefix: Seq<char>) -> Seq<Seq<char>> {
    split_char(pending + text, '\n').drop_last().map_values(|l: Seq<char>| prefix + l)
}

/// What stays pending after `text` is added to `pending`.
pub open spec fn lb_rest(pending: Seq<char>, text: Seq<char>) -> Seq<char> {
    split_char(pending + text, '\n').last()
}

impl LineBuffer {
    pub closed spec fn pending(&self) -> Seq<char> {
        self.buffer@
    }

    pub fn new() -> (b: Self)
        ensures
            b.pending() == Seq::<char>::empty(),
    {
        LineBuffer { buffer: String::new() }
    }

    /// Adds `new_str`; each line it completes goes to `log_lines` behind
    /// `prefix`, and the unfinished rest stays pending.
    pub fn push(&mut self, new_str: &str, log_lines: &mut Vec<String>, prefix: &str)
        ensures
            final(self).pending() == lb_rest(old(self).pending(), new_str@),
            final(log_lines).deep_view() == old(log_lines).deep_view() + lb_lines(
                old(self).pending(),
                new_str@,
                prefix@,
            ),
    {
        let ghost start = log_lines.deep_view();
        let mut all = to_chars(self.buffer.as_str());
        let added = to_chars(new_str);
        append_chars(&mut all, added.as_slice());
        let parts = split_char_chars(all.as_slice(), '\n');
        let ghost p = split_char(all@, '\n');
        proof {
            crate::text::lemma_split_char_len(all@, '\n');
        }
        let pc = to_chars(prefix);
        let n = parts.len();
        let mut i: usize = 0;
        assert(p.drop_last().take(0).map_values(|l: Seq<char>| prefix@ + l) =~= Seq::<
            Seq<char>,
        >::empty());
        assert(log_lines.deep_view() =~= start + Seq::<Seq<char>>::empty());
        while i + 1 < n
            invariant
                n == parts@.len(),
                n >= 1,
                p == vv(parts@),
                pc@ == prefix@,
                i + 1 <= n,
                log_lines.deep_view() == start + p.drop_last().take(i as int).map_values(
                    |l: Seq<char>| prefix@ + l,
                ),
            decreases n - i,
        {
            let mut line = pc.clone();
            append_chars(&mut line, parts[i].as_slice());
            let ghost before = log_lines.deep_view();
            log_lines.push(from_chars(line.as_slice()));
            assert(p[i as int] == parts@[i as int]@);
            assert(p.drop_last().take(i + 1).map_values(|l: Seq<char>| prefix@ + l) =~= p.drop_last().take(
                i as int,
            ).map_values(|l: Seq<char>| prefix@ + l).push(prefix@ + p[i as int]));
            assert(log_lines.deep_view() =~= before.push(prefix@ + p[i as int]));
            i = i + 1;
        }
        assert(p.drop_last().take(n - 1) =~= p.drop_last());
        assert(p.last() == parts@[n - 1]@);
        self.buffer = from_chars(parts[n - 1].as_slice());
    }

    /// Sends what is pending, if anything, to `log_lines` as a last line.
    pub fn flush_remaining(&mut self, log_lines: &mut Vec<String>, prefix: &str)
        ensures
            final(self).pending() == Seq::<char>::empty(),
            final(log_lines).deep_view() == if old(self).pending().len() == 0 {
                old(log_lines).deep_view()
            } else {
                old(log_lines).deep_view().push(prefix@ + old(self).pending())
            },
    {
        let b = to_chars(self.buffer.as_str());
        if b.len() > 0 {
            let mut line = to_chars(prefix);
            append_chars(&mut line, b.as_slice());
            let ghost before = log_lines.deep_view();
            log_lines.push(from_chars(line.as_slice()));
            assert(log_lines.deep_view() =~= before.push(prefix@ + b@));
            self.buffer = String::new();
        }
    }
}

pub proof fn lemma_split_without_sep(s: Seq<char>, c: char)
    requires
        forall|i: int| 0 <= i < s.len() ==> s[i] != c,
    ensures
        split_char(s, c) == seq![s],
    decreases s.len(),
{
    if s.len() > 0 {
        lemma_split_without_sep(s.drop_last(), c);
        assert(s.drop_last().push(s.last()) =~= s);
        assert(s[s.len() - 1] != c);
        let prev = split_char(s.drop_last(), c);
        assert(prev.update(prev.len() - 1, prev.last().push(s.last())) =~= seq![s]);
    } else {
        assert(s =~= Seq::<char>::empty());
    }
}

pub proof fn lemma_split_last_without_sep(s: Seq<char>, c: char)
    ensures
        forall|i: int|
            0 <= i < split_char(s, c).last().len() ==> split_char(s, c).last()[i] != c,
    decreases s.len(),
{
    crate::text::lemma_split_char_len(s, c);
    if s.len() > 0 {
        lemma_split_last_without_sep(s.drop_last(), c);
        crate::text::lemma_split_char_len(s.drop_last(), c);
    }
}

/// Splitting `s + t` is splitting `s`, with its last piece continued by `t`.
pub proof fn lemma_split_concat(s: Seq<char>, t: Seq<char>, c: char)
    ensures
        split_char(s + t, c) == split_char(s, c).drop_last() + split_char(
            split_char(s, c).last() + t,
            c,
        ),
    decreases t.len(),
{
    let ps = split_char(s, c);
    let d = ps.drop_last();
    let l = ps.last();
    crate::text::lemma_split_char_len(s, c);
    if t.len() == 0 {
        assert(s + t =~= s);
        assert(l + t =~= l);
        lemma_split_last_without_sep(s, c);
        lemma_split_without_sep(l, c);
        assert(d + seq![l] =~= ps);
    } else {
        let t2 = t.drop_last();
        let x = t.last();
        lemma_split_concat(s, t2, c);
        assert((s + t).drop_last() =~= s + t2);
        assert((l + t).drop_last() =~= l + t2);
        assert((s + t).last() == x);
        assert((l + t).last() == x);
        let q = split_char(l + t2, c);
        crate::text::lemma_split_char_len(l + t2, c);
        if x == c {
            assert((d + q).push(Seq::empty()) =~= d + q.push(Seq::empty()));
        } else {
            assert((d + q).update((d + q).len() - 1, (d + q).last().push(x)) =~= d + q.update(
                q.len() - 1,
                q.last().push(x),
            ));
        }
    }
}

/// Text arriving in two chunks gives the same lines, and leaves the same
/// text pending, as the two chunks arriving at once.
pub proof fn law_line_buffer_chunking(
    pending: Seq<char>,
    a: Seq<char>,
    b: Seq<char>,
    prefix: Seq<char>,
)
    ensures
        lb_rest(lb_rest(pending, a), b) == lb_rest(pending, a + b),
        lb_lines(pending, a, prefix) + lb_lines(lb_rest(pending, a), b, prefix) == lb_lines(
            pending,
            a + b,
            prefix,
        ),
{
    let s = split_char(pending + a, '\n');
    let l = s.last();
    let q = split_char(l + b, '\n');
    lemma_split_concat(pending + a, b, '\n');
    assert(pending + (a + b) =~= (pending + a) + b);
    crate::text::lemma_split_char_len(l + b, '\n');
    crate::text::lemma_split_char_len(pending + a, '\n');
    let whole = s.drop_last() + q;
    assert(whole.drop_last() =~= s.drop_last() + q.drop_last());
    assert((s.drop_last() + q.drop_last()).map_values(|x: Seq<char>| prefix + x) =~= s.drop_last().map_values(
        |x: Seq<char>| prefix + x,
    ) + q.drop_last().map_values(|x: Seq<char>| prefix + x));
}

// ---------------------------------------------------------------------------
// Per-host status
// ---------------------------------------------------------------------------

/// The most lines kept per host; older ones are dropped first.
pub const MAX_LOG_LINES: usize = 1000;

/// The last `n` of `s` (all of `s` when it is shorter).
pub open spec fn keep_last(s: Seq<Seq<char>>, n: nat) -> Seq<Seq<char>> {
    if s.len() > n {
        s.skip(s.len() - n)
    } else {
        s
    }
}

/// How a command ended: `Success` for exit code 0, `Failed` otherwise,
/// also when no exit code came.
pub open spec fn final_status(code: Option<u32>) -> Seq<char> {
    if code == Some(0u32) {
        "Success"@
    } else {
        "Failed"@
    }
}

/// One target host of a watch session.
#[derive(Debug, Clone)]
pub struct HostStatus {
    pub name: String,
    pub status: String,
    pub exit_code: Option<u32>,
    pub log_path: String,
    pub log_lines: Vec<String>,
}

fn keep_last_lines(v: &mut Vec<String>)
    ensures
        final(v).deep_view() == keep_last(old(v).deep_view(), MAX_LOG_LINES as nat),
{
    if v.len() > MAX_LOG_LINES {
        let ghost d = v.deep_view();
        let from = v.len() - MAX_LOG_LINES;
        let mut kept: Vec<String> = Vec::new();
        let mut i = from;
        assert(d.subrange(from as int, from as int) =~= Seq::<Seq<char>>::empty());
        while i < v.len()
            invariant
                from <= i <= v@.len(),
                d == v.deep_view(),
                kept.deep_view() == d.subrange(from as int, i as int),
            decreases v.len() - i,
        {
            let ghost before = kept.deep_view();
            kept.push(v[i].clone());
            assert(kept.deep_view() =~= before.push(d[i as int]));
            assert(d.subrange(from as int, i + 1) =~= d.subrange(from as int, i as int).push(
                d[i as int],
            ));
            i = i + 1;
        }
        assert(d.subrange(from as int, d.len() as int) =~= d.skip(d.len() - MAX_LOG_LINES));
        *v = kept;
    }
}

impl HostStatus {
    /// A host whose command has just started.
    pub fn running(name: String) -> (h: HostStatus)
        ensures
            h.name@ == name@,
            h.status@ == "Running"@,
            h.exit_code is None,
            h.log_path@ == Seq::<char>::empty(),
            h.log_lines@.len() == 0,
    {
        HostStatus {
            name,
            status: "Running".to_owned(),
            exit_code: None,
            log_path: String::new(),
            log_lines: Vec::new(),
        }
    }

    /// Output arrived: complete lines go to the log behind `prefix`, and the
    /// log keeps its last `MAX_LOG_LINES` lines.
    pub fn append_output(&mut self, buf: &mut LineBuffer, text: &str, prefix: &str)
        ensures
            final(buf).pending() == lb_rest(old(buf).pending(), text@),
            final(self).log_lines.deep_view() == keep_last(
                old(self).log_lines.deep_view() + lb_lines(old(buf).pending(), text@, prefix@),
                MAX_LOG_LINES as nat,
            ),
            final(self).name == old(self).name,
            final(self).status == old(self).status,
            final(self).exit_code == old(self).exit_code,
            final(self).log_path == old(self).log_path,
    {
        buf.push(text, &mut self.log_lines, prefix);
        keep_last_lines(&mut self.log_lines);
    }

    /// The host could not run the command: it failed, with `message` logged.
    pub fn fail_with(&mut self, message: String)
        ensures
            final(self).status@ == "Failed"@,
            final(self).log_lines.deep_view() == old(self).log_lines.deep_view().push(message@),
            final(self).name == old(self).name,
            final(self).exit_code == old(self).exit_code,
            final(self).log_path == old(self).log_path,
    {
        self.status = "Failed".to_owned();
        let ghost before = self.log_lines.deep_view();
        let ghost m = message@;
        self.log_lines.push(message);
        assert(self.log_lines.deep_view() =~= before.push(m));
    }

    /// The command ended: pending output is flushed (standard output first),
    /// and the exit code decides the status.
    pub fn finish(&mut self, out: &mut LineBuffer, err: &mut LineBuffer, exit_code: Option<u32>)
        ensures
            final(out).pending() == Seq::<char>::empty(),
            final(err).pending() == Seq::<char>::empty(),
            final(self).log_lines.deep_view() == {
                let a = if old(out).pending().len() == 0 {
                    old(self).log_lines.deep_view()
                } else {
                    old(self).log_lines.deep_view().push(old(out).pending())
                };
                if old(err).pending().len() == 0 {
                    a
                } else {
                    a.push("[STDERR] "@ + old(err).pending())
                }
            },
            final(self).exit_code == exit_code,
            final(self).status@ == final_status(exit_code),
            final(self).name == old(self).name,
            final(self).log_path == old(self).log_path,
    {
        out.flush_remaining(&mut self.log_lines, "");
        proof {
            reveal_strlit("");
        }
        assert(""@ + old(out).pending() =~= old(out).pending());
        err.flush_remaining(&mut self.log_lines, "[STDERR] ");
        self.exit_code = exit_code;
        match exit_code {
            Some(code) => {
                if code == 0 {
                    self.status = "Success".to_owned();
                } else {
                    self.status = "Failed".to_owned();
                }
            },
            None => {
                self.status = "Failed".to_owned();
            },
        }
    }
}

// ---------------------------------------------------------------------------
// The session: selection, teardown and the closing status line
// ---------------------------------------------------------------------------

/// All hosts of a watch session and what the user has done so far.
pub struct WatchState {
    pub hosts: Vec<HostStatus>,
    pub selected_index: usize,
    pub is_teardown: bool,
    pub first_ctrl_c: bool,
}

/// The keys the session reacts to.
#[derive(Debug, Clone, Copy, PartialEq, Eq)]
pub enum WatchKey {
    CtrlC,
    Quit,
    Down,
    Up,
    Other,
}

/// What the session loop does after a key.
#[derive(Debug, Clone, Copy, PartialEq, Eq)]
pub enum WatchAction {
    Continue,
    StartTeardown,
    Exit,
}

/// The part of the session state that keys change.
pub struct KeyState {
    pub selected: nat,
    pub teardown: bool,
    pub first_ctrl_c: bool,
}

/// Ctrl+C starts the teardown and, once it runs, quits; Esc or `q` does the
/// same; Down/`j` and Up/`k` move the selection within the `n` hosts.
pub open spec fn key_step(k: KeyState, n: nat, key: WatchKey) -> (KeyState, WatchAction) {
    match key {
        WatchKey::CtrlC => if k.teardown {
            (k, WatchAction::Exit)
        } else {
            (KeyState { selected: k.selected, teardown: true, first_ctrl_c: true }, WatchAction::StartTeardown)
        },
        WatchKey::Quit => if !k.teardown {
            (
                KeyState { selected: k.selected, teardown: true, first_ctrl_c: k.first_ctrl_c },
                WatchAction::StartTeardown,
            )
        } else {
            (k, WatchAction::Exit)
        },
        WatchKey::Down => if k.selected + 1 < n {
            (
                KeyState {
                    selected: k.selected + 1,
                    teardown: k.teardown,
                    first_ctrl_c: k.first_ctrl_c,
                },
                WatchAction::Continue,
            )
        } else {
            (k, WatchAction::Continue)
        },
        WatchKey::Up => if k.selected > 0 {
            (
                KeyState {
                    selected: (k.selected - 1) as nat,
                    teardown: k.teardown,
                    first_ctrl_c: k.first_ctrl_c,
                },
                WatchAction::Continue,
            )
        } else {
            (k, WatchAction::Continue)
        },
        WatchKey::Other => (k, WatchAction::Continue),
    }
}

/// The selection points at a host, or is 0 when there are none.
pub open spec fn selection_ok(k: KeyState, n: nat) -> bool {
    k.selected == 0 || k.selected < n
}

pub open spec fn count_status(hosts: Seq<HostStatus>, s: Seq<char>) -> nat
    decreases hosts.len(),
{
    if hosts.len() == 0 {
        0
    } else {
        count_status(hosts.drop_last(), s) + if hosts.last().status@ == s {
            1nat
        } else {
            0nat
        }
    }
}

/// Every host has finished (none is `Running`).
pub open spec fn all_finished(hosts: Seq<HostStatus>) -> bool {
    forall|i: int| 0 <= i < hosts.len() ==> hosts[i].status@ != "Running"@
}

/// The line shown once every host has finished.
pub open spec fn status_line_text(total: nat, succeeded: nat, failed: nat) -> Seq<char> {
    if failed > 0 {
        " ✘ Execution complete. Succeeded: "@ + dec(succeeded) + "/"@ + dec(total) + ", Failed: "@
            + dec(failed) + ". Press Esc or Ctrl+C to exit. "@
    } else {
        " ✔ Execution complete. All "@ + dec(total) + " hosts succeeded. Press Esc or Ctrl+C to exit. "@
    }
}

fn status_is(h: &HostStatus, s: &str) -> (r: bool)
    ensures
        r == (h.status@ == s@),
{
    let a = to_chars(h.status.as_str());
    let b = to_chars(s);
    crate::text::chars_eq(a.as_slice(), b.as_slice())
}

fn count_status_exec(hosts: &Vec<HostStatus>, s: &str) -> (r: usize)
    ensures
        r as nat == count_status(hosts@, s@),
{
    let mut c: usize = 0;
    let mut i: usize = 0;
    assert(hosts@.take(0) =~= Seq::<HostStatus>::empty());
    while i < hosts.len()
        invariant
            i <= hosts@.len(),
            c as nat == count_status(hosts@.take(i as int), s@),
            c <= i,
        decreases hosts.len() - i,
    {
        assert(hosts@.take(i + 1).drop_last() =~= hosts@.take(i as int));
        if status_is(&hosts[i], s) {
            c = c + 1;
        }
        i = i + 1;
    }
    assert(hosts@.take(hosts@.len() as int) =~= hosts@);
    c
}

impl WatchState {
    pub open spec fn keys(&self) -> KeyState {
        KeyState {
            selected: self.selected_index as nat,
            teardown: self.is_teardown,
            first_ctrl_c: self.first_ctrl_c,
        }
    }

    /// A session over `hosts`, all running, the first selected.
    pub fn new(hosts: &Vec<String>) -> (s: WatchState)
        ensures
            s.hosts@.len() == hosts@.len(),
            forall|i: int|
                0 <= i < hosts@.len() ==> (#[trigger] s.hosts@[i]).name@ == hosts@[i]@
                    && s.hosts@[i].status@ == "Running"@ && s.hosts@[i].exit_code is None
                    && s.hosts@[i].log_lines@.len() == 0,
            s.selected_index == 0,
            !s.is_teardown,
            !s.first_ctrl_c,
    {
        let mut v: Vec<HostStatus> = Vec::new();
        let mut i: usize = 0;
        while i < hosts.len()
            invariant
                i <= hosts@.len(),
                v@.len() == i,
                forall|j: int|
                    0 <= j < i ==> (#[trigger] v@[j]).name@ == hosts@[j]@ && v@[j].status@
                        == "Running"@ && v@[j].exit_code is None && v@[j].log_lines@.len() == 0,
            decreases hosts.len() - i,
        {
            v.push(HostStatus::running(hosts[i].clone()));
            i = i + 1;
        }
        WatchState { hosts: v, selected_index: 0, is_teardown: false, first_ctrl_c: false }
    }

    /// Reacts to a key.
    pub fn handle_key(&mut self, key: WatchKey) -> (a: WatchAction)
        ensures
            final(self).keys() == key_step(old(self).keys(), old(self).hosts@.len(), key).0,
            a == key_step(old(self).keys(), old(self).hosts@.len(), key).1,
            final(self).hosts == old(self).hosts,
    {
        match key {
            WatchKey::CtrlC => {
                if self.is_teardown {
                    WatchAction::Exit
                } else {
                    self.is_teardown = true;
                    self.first_ctrl_c = true;
                    WatchAction::StartTeardown
                }
            },
            WatchKey::Quit => {
                if !self.is_teardown {
                    self.is_teardown = true;
                    WatchAction::StartTeardown
                } else {
                    WatchAction::Exit
                }
            },
            WatchKey::Down => {
                let n = self.hosts.len();
                if n > 0 && self.selected_index < n - 1 {
                    self.selected_index = self.selected_index + 1;
                }
                WatchAction::Continue
            },
            WatchKey::Up => {
                if self.selected_index > 0 {
                    self.selected_index = self.selected_index - 1;
                }
                WatchAction::Continue
            },
            WatchKey::Other => WatchAction::Continue,
        }
    }

    /// Whether every host has finished.
    pub fn is_complete(&self) -> (b: bool)
        ensures
            b == all_finished(self.hosts@),
    {
        let mut i: usize = 0;
        while i < self.hosts.len()
            invariant
                i <= self.hosts@.len(),
                forall|j: int| 0 <= j < i ==> self.hosts@[j].status@ != "Running"@,
            decreases self.hosts.len() - i,
        {
            if status_is(&self.hosts[i], "Running") {
                return false;
            }
            i = i + 1;
        }
        true
    }

    /// The closing status line, once every host has finished.
    pub fn status_line(&self) -> (r: Option<String>)
        ensures
            match r {
                Some(t) => all_finished(self.hosts@) && t@ == status_line_text(
                    self.hosts@.len() as nat,
                    count_status(self.hosts@, "Success"@),
                    count_status(self.hosts@, "Failed"@),
                ),
                None => !all_finished(self.hosts@),
            },
    {
        if !self.is_complete() {
            return None;
        }
        let total = self.hosts.len();
        let succeeded = count_status_exec(&self.hosts, "Success");
        let failed = count_status_exec(&self.hosts, "Failed");
        let mut out: Vec<char> = Vec::new();
        if failed > 0 {
            append_chars(&mut out, to_chars(" ✘ Execution complete. Succeeded: ").as_slice());
            append_chars(&mut out, dec_chars(succeeded as u64).as_slice());
            append_chars(&mut out, to_chars("/").as_slice());
            append_chars(&mut out, dec_chars(total as u64).as_slice());
            append_chars(&mut out, to_chars(", Failed: ").as_slice());
            append_chars(&mut out, dec_chars(failed as u64).as_slice());
            append_chars(&mut out, to_chars(". Press Esc or Ctrl+C to exit. ").as_slice());
        } else {
            append_chars(&mut out, to_chars(" ✔ Execution complete. All ").as_slice());
            append_chars(&mut out, dec_chars(total as u64).as_slice());
            append_chars(
                &mut out,
                to_chars(" hosts succeeded. Press Esc or Ctrl+C to exit. ").as_slice(),
            );
        }
        assert(out@ =~= status_line_text(
            total as nat,
            succeeded as nat,
            failed as nat,
        ));
        Some(from_chars(out.as_slice()))
    }
}

/// The marker shown beside a host's name.
pub open spec fn spec_status_emoji(status: Seq<char>) -> Seq<char> {
    if status == "Running"@ {
        "🟡"@
    } else if status == "Success"@ {
        "✅"@
    } else if status == "Failed"@ {
        "🔴"@
    } else {
        "⚪"@
    }
}

pub fn status_emoji(status: &str) -> (r: &'static str)
    ensures
        r@ == spec_status_emoji(status@),
{
    let s = to_chars(status);
    if crate::text::chars_eq(s.as_slice(), to_chars("Running").as_slice()) {
        "🟡"
    } else if crate::text::chars_eq(s.as_slice(), to_chars("Success").as_slice()) {
        "✅"
    } else if crate::text::chars_eq(s.as_slice(), to_chars("Failed").as_slice()) {
        "🔴"
    } else {
        "⚪"
    }
}

/// The first log line shown in a pane of `height` rows (two are borders).
pub fn visible_log_start(log_len: usize, height: usize) -> (r: usize)
    ensures
        r as int == if log_len as int > (if height >= 2 { height - 2 } else { 0 }) {
            log_len - (if height >= 2 { height - 2 } else { 0 })
        } else {
            0
        },
{
    log_len.saturating_sub(height.saturating_sub(2))
}

/// The panes per row of the grid for `num_hosts` hosts: one pane alone,
/// two stacked, up to four in two rows of two (only `num_hosts` of them
/// used), more in two rows, the first with the larger half.
pub open spec fn spec_grid_rows(num_hosts: nat) -> Seq<nat> {
    if num_hosts == 0 {
        Seq::empty()
    } else if num_hosts == 1 {
        seq![1nat]
    } else if num_hosts == 2 {
        seq![1nat, 1nat]
    } else if num_hosts <= 4 {
        seq![2nat, 2nat]
    } else {
        let mid = (num_hosts + 1) / 2;
        seq![mid as nat, (num_hosts - mid) as nat]
    }
}

pub fn grid_rows(num_hosts: usize) -> (r: Vec<usize>)
    ensures
        r@.map_values(|x: usize| x as nat) == spec_grid_rows(num_hosts as nat),
{
    let mut r: Vec<usize> = Vec::new();
    if num_hosts == 0 {
    } else if num_hosts == 1 {
        r.push(1);
    } else if num_hosts == 2 {
        r.push(1);
        r.push(1);
    } else if num_hosts <= 4 {
        r.push(2);
        r.push(2);
    } else {
        let mid = num_hosts / 2 + num_hosts % 2;
        r.push(mid);
        r.push(num_hosts - mid);
    }
    assert(r@.map_values(|x: usize| x as nat) =~= spec_grid_rows(num_hosts as nat));
    r
}

// ---------------------------------------------------------------------------
// Choosing the targets
// ---------------------------------------------------------------------------

/// The non-empty trimmed pieces of a comma-separated list.
pub open spec fn nonempty_trimmed(pieces: Seq<Seq<char>>) -> Seq<Seq<char>>
    decreases pieces.len(),
{
    if pieces.len() == 0 {
        Seq::empty()
    } else {
        let prev = nonempty_trimmed(pieces.drop_last());
        let t = trim(pieces.last());
        if t.len() > 0 {
            prev.push(t)
        } else {
            prev
        }
    }
}

/// A target with a comma is a list of hosts and groups; otherwise it is one.
pub open spec fn spec_watch_targets(target: Seq<char>) -> Seq<Seq<char>> {
    if find_char(target, ',') is Some {
        nonempty_trimmed(split_char(target, ','))
    } else {
        seq![target]
    }
}

pub fn watch_targets(target: &str) -> (r: Vec<String>)
    ensures
        r.deep_view() == spec_watch_targets(target@),
{
    let cs = to_chars(target);
    let mut r: Vec<String> = Vec::new();
    if find_char_chars(cs.as_slice(), ',').is_none() {
        r.push(target.to_owned());
        assert(r.deep_view() =~= seq![target@]);
        return r;
    }
    let pieces = split_char_chars(cs.as_slice(), ',');
    let ghost p = vv(pieces@);
    let mut i: usize = 0;
    assert(p.take(0) =~= Seq::<Seq<char>>::empty());
    assert(r.deep_view() =~= Seq::<Seq<char>>::empty());
    while i < pieces.len()
        invariant
            p == vv(pieces@),
            i <= p.len(),
            r.deep_view() == nonempty_trimmed(p.take(i as int)),
        decreases pieces.len() - i,
    {
        assert(p.take(i + 1).drop_last() =~= p.take(i as int));
        assert(p.take(i + 1).last() == pieces@[i as int]@);
        let t = trim_chars(pieces[i].as_slice());
        if t.len() > 0 {
            let ghost before = r.deep_view();
            r.push(from_chars(t.as_slice()));
            assert(r.deep_view() =~= before.push(t@));
        }
        i = i + 1;
    }
    assert(p.take(p.len() as int) =~= p);
    r
}

/// No host resolves from the target.
#[derive(Debug, Clone, PartialEq, Eq)]
pub enum WatchError {
    NoTargets { target: String },
}

impl WatchError {
    pub fn message(&self) -> (r: String)
        ensures
            match self {
                WatchError::NoTargets { target } => r@ == "Configuration Error: No valid target hosts resolved from '"@
                    + target@ + "'"@,
            },
    {
        match self {
            WatchError::NoTargets { target } => {
                let mut r = String::from_str(
                    "Configuration Error: No valid target hosts resolved from '",
                );
                r.append(target.as_str());
                r.append("'");
                r
            },
        }
    }
}

/// The hosts a watch session runs on: the targets resolved through the
/// groups; refused when none remains.
pub fn plan_watch(target: &str, groups: &StrMap<Vec<String>>) -> (r: Result<Vec<String>, WatchError>)
    ensures
        match r {
            Ok(hosts) => hosts.deep_view() == spec_resolve_hosts(
                groups.deep_view(),
                spec_watch_targets(target@),
            ) && hosts@.len() > 0,
            Err(WatchError::NoTargets { target: t }) => t@ == target@ && spec_resolve_hosts(
                groups.deep_view(),
                spec_watch_targets(target@),
            ).len() == 0,
        },
{
    let targets = watch_targets(target);
    let hosts = resolve_hosts(targets.as_slice(), groups);
    if hosts.len() == 0 {
        return Err(WatchError::NoTargets { target: target.to_owned() });
    }
    Ok(hosts)
}

/// Keys never move the selection off the hosts.
pub proof fn law_selection_stays_on_hosts(k: KeyState, n: nat, key: WatchKey)
    requires
        selection_ok(k, n),
    ensures
        selection_ok(key_step(k, n, key).0, n),
{
}

/// Once the teardown has started it never stops, and the session only
/// quits from a teardown, so quitting always takes a second key.
pub proof fn law_quit_needs_teardown(k: KeyState, n: nat, key: WatchKey)
    ensures
        k.teardown ==> key_step(k, n, key).0.teardown,
        key_step(k, n, key).1 == WatchAction::Exit ==> k.teardown,
        key_step(k, n, key).1 == WatchAction::StartTeardown ==> !k.teardown
            && key_step(k, n, key).0.teardown,
{
}

} // verus!
