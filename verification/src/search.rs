//! Searching command output: processes by their command line, and streamed
//! log output line by line for a pattern.

use vstd::prelude::*;
use crate::outside::{
    compile_line_pattern, line_pattern_matches, regex_ci_matches, regex_ci_valid, regex_error_text,
    spec_utf8_lossy, utf8_lossy, LinePattern,
};
use crate::template::join_with;
use crate::text::{
    append_chars, from_chars, lines, lines_chars, parse_u32_chars, parse_uint, split_ws,
    split_ws_chars, to_chars, trim, trim_chars, vv,
};

verus! {

/// One row of `ps -eo pid,user,%cpu,%mem,args`.
#[derive(Debug, Clone, PartialEq, Eq)]
pub struct ProcessEntry {
    pub pid: u32,
    pub user: String,
    pub cpu: String,
    pub mem: String,
    pub command: String,
}

pub struct ProcSpec {
    pub pid: nat,
    pub user: Seq<char>,
    pub cpu: Seq<char>,
    pub mem: Seq<char>,
    pub command: Seq<char>,
}

impl DeepView for ProcessEntry {
    type V = ProcSpec;

    open spec fn deep_view(&self) -> ProcSpec {
        ProcSpec {
            pid: self.pid as nat,
            user: self.user@,
            cpu: self.cpu@,
            mem: self.mem@,
            command: self.command@,
        }
    }
}

/// A row with at least five columns whose first is a pid; the command is
/// the fifth column on, joined by single spaces. The header row has no pid.
pub open spec fn spec_parse_ps_line(line: Seq<char>) -> Option<ProcSpec> {
    let t = trim(line);
    let parts = split_ws(t);
    if t.len() == 0 || parts.len() < 5 {
        None
    } else {
        match parse_uint(parts[0], u32::MAX as nat) {
            None => None,
            Some(pid) => Some(
                ProcSpec {
                    pid,
                    user: parts[1],
                    cpu: parts[2],
                    mem: parts[3],
                    command: join_with(parts.skip(4), seq![' ']),
                },
            ),
        }
    }
}

fn join_words_from(parts: &Vec<Vec<char>>, from: usize) -> (r: Vec<char>)
    requires
        from < parts@.len(),
    ensures
        r@ == join_with(vv(parts@).skip(from as int), seq![' ']),
{
    let ghost ps = vv(parts@);
    let mut out: Vec<char> = Vec::new();
    let mut i: usize = from;
    assert(ps.subrange(from as int, from as int) =~= Seq::<Seq<char>>::empty());
    while i < parts.len()
        invariant
            from <= i <= parts@.len(),
            from < parts@.len(),
            ps == vv(parts@),
            out@ == join_with(ps.subrange(from as int, i as int), seq![' ']),
        decreases parts.len() - i,
    {
        let ghost sub = ps.subrange(from as int, i + 1);
        assert(sub.drop_last() =~= ps.subrange(from as int, i as int));
        assert(sub.last() == parts@[i as int]@);
        if i > from {
            out.push(' ');
        } else {
            assert(sub.len() == 1);
        }
        let ghost before = out@;
        append_chars(&mut out, parts[i].as_slice());
        assert(out@ =~= join_with(sub, seq![' ']));
        i = i + 1;
    }
    assert(ps.subrange(from as int, ps.len() as int) =~= ps.skip(from as int));
    out
}

/// Reads one row of `ps` output.
pub fn parse_ps_line(line: &str) -> (r: Option<ProcessEntry>)
    ensures
        match r {
            Some(e) => spec_parse_ps_line(line@) == Some(e.deep_view()),
            None => spec_parse_ps_line(line@) is None,
        },
{
    let cs = to_chars(line);
    let t = trim_chars(cs.as_slice());
    let parts = split_ws_chars(t.as_slice());
    if t.len() == 0 || parts.len() < 5 {
        return None;
    }
    let ghost ps = vv(parts@);
    assert(ps[0] == parts@[0]@);
    assert(ps[1] == parts@[1]@);
    assert(ps[2] == parts@[2]@);
    assert(ps[3] == parts@[3]@);
    let pid = match parse_u32_chars(parts[0].as_slice()) {
        Some(p) => p,
        None => {
            return None;
        },
    };
    let command = join_words_from(&parts, 4);
    Some(
        ProcessEntry {
            pid,
            user: from_chars(parts[1].as_slice()),
            cpu: from_chars(parts[2].as_slice()),
            mem: from_chars(parts[3].as_slice()),
            command: from_chars(command.as_slice()),
        },
    )
}

/// The rows of `ps` output whose command line the pattern matches.
pub open spec fn matching_processes(ls: Seq<Seq<char>>, pattern: Seq<char>) -> Seq<ProcSpec>
    decreases ls.len(),
{
    if ls.len() == 0 {
        Seq::empty()
    } else {
        let prev = matching_processes(ls.drop_last(), pattern);
        match spec_parse_ps_line(ls.last()) {
            Some(e) => if regex_ci_matches(pattern, e.command) {
                prev.push(e)
            } else {
                prev
            },
            None => prev,
        }
    }
}

/// The processes in `ps` output whose command line matches `pattern`.
pub fn search_processes(ps_output: &str, pattern: &LinePattern) -> (r: Vec<ProcessEntry>)
    ensures
        r.deep_view() == matching_processes(lines(ps_output@), pattern.source_view()),
{
    let cs = to_chars(ps_output);
    let ls = lines_chars(cs.as_slice());
    let ghost l = vv(ls@);
    let mut r: Vec<ProcessEntry> = Vec::new();
    let mut i: usize = 0;
    assert(l.take(0) =~= Seq::<Seq<char>>::empty());
    assert(r.deep_view() =~= Seq::<ProcSpec>::empty());
    while i < ls.len()
        invariant
            l == vv(ls@),
            i <= l.len(),
            r.deep_view() == matching_processes(l.take(i as int), pattern.source_view()),
        decreases ls.len() - i,
    {
        assert(l.take(i + 1).drop_last() =~= l.take(i as int));
        assert(l.take(i + 1).last() == ls@[i as int]@);
        let text = from_chars(ls[i].as_slice());
        match parse_ps_line(text.as_str()) {
            Some(e) => {
                if line_pattern_matches(pattern, e.command.as_str()) {
                    let ghost before = r.deep_view();
                    let ghost ed = e.deep_view();
                    r.push(e);
                    assert(r.deep_view() =~= before.push(ed));
                }
            },
            None => {},
        }
        i = i + 1;
    }
    assert(l.take(l.len() as int) =~= l);
    r
}

// ---------------------------------------------------------------------------
// Waiting for a pattern in streamed output
// ---------------------------------------------------------------------------

/// The first newline at or after `i`.
pub open spec fn newline_from(b: Seq<u8>, i: int) -> Option<int>
    decreases b.len() - i,
{
    if i < 0 || i >= b.len() {
        None
    } else if b[i] == 10u8 {
        Some(i)
    } else {
        newline_from(b, i + 1)
    }
}

pub proof fn lemma_newline_from(b: Seq<u8>, i: int)
    requires
        0 <= i,
    ensures
        newline_from(b, i) matches Some(k) ==> i <= k < b.len() && b[k] == 10u8,
    decreases b.len() - i,
{
    if i < b.len() && b[i] != 10u8 {
        lemma_newline_from(b, i + 1);
    }
}

/// Complete lines are taken from the front of the buffer, decoded, until
/// one matches: that line (without its newline) and what follows it; when
/// none does, no line and the incomplete rest.
pub open spec fn scan_lines(buf: Seq<u8>, pattern: Seq<char>) -> (Option<Seq<char>>, Seq<u8>)
    decreases buf.len(),
{
    match newline_from(buf, 0) {
        None => (None, buf),
        Some(pos) => {
            proof {
                lemma_newline_from(buf, 0);
            }
            let line = spec_utf8_lossy(buf.take(pos));
            let rest = buf.skip(pos + 1);
            if regex_ci_matches(pattern, line) {
                (Some(line), rest)
            } else {
                scan_lines(rest, pattern)
            }
        },
    }
}

fn bytes_range(s: &[u8], from: usize, to: usize) -> (r: Vec<u8>)
    requires
        from <= to <= s@.len(),
    ensures
        r@ == s@.subrange(from as int, to as int),
{
    let mut r: Vec<u8> = Vec::new();
    let mut i = from;
    while i < to
        invariant
            from <= i <= to <= s@.len(),
            r@ == s@.subrange(from as int, i as int),
        decreases to - i,
    {
        r.push(s[i]);
        assert(s@.subrange(from as int, i + 1) =~= s@.subrange(from as int, i as int).push(
            s@[i as int],
        ));
        i = i + 1;
    }
    r
}

/// Takes complete lines off the front of `buf` until one matches `pattern`
/// and returns it; the unread rest stays in `buf`.
pub fn find_matched_line(buf: &mut Vec<u8>, pattern: &LinePattern) -> (r: Option<String>)
    ensures
        scan_lines(old(buf)@, pattern.source_view()) == (
            match r {
                Some(s) => Some(s@),
                None => None::<Seq<char>>,
            },
            final(buf)@,
        ),
{
    let ghost p = pattern.source_view();
    let ghost start_buf = buf@;
    let mut start: usize = 0;
    let mut found: Option<String> = None;
    assert(buf@.skip(0) =~= buf@);
    loop
        invariant_except_break
            p == pattern.source_view(),
            buf@ == start_buf,
            start <= buf@.len(),
            found is None,
            scan_lines(start_buf, p) == scan_lines(buf@.skip(start as int), p),
        ensures
            buf@ == start_buf,
            start <= buf@.len(),
            scan_lines(start_buf, p) == (
                match found {
                    Some(s) => Some(s@),
                    None => None::<Seq<char>>,
                },
                buf@.skip(start as int),
            ),
        decreases buf@.len() - start,
    {
        let ghost rest = buf@.skip(start as int);
        let mut pos = start;
        while pos < buf.len() && buf[pos] != 10u8
            invariant
                start <= pos <= buf@.len(),
                rest == buf@.skip(start as int),
                newline_from(rest, 0) == newline_from(rest, pos - start),
            decreases buf@.len() - pos,
        {
            pos = pos + 1;
        }
        assert(scan_lines(start_buf, p) == scan_lines(rest, p));
        if pos >= buf.len() {
            assert(newline_from(rest, 0) is None);
            break;
        }
        assert(newline_from(rest, 0) == Some(pos - start));
        let line_bytes = bytes_range(buf.as_slice(), start, pos);
        assert(line_bytes@ =~= rest.take(pos - start));
        let line = utf8_lossy(line_bytes.as_slice());
        assert(rest.skip(pos - start + 1) =~= buf@.skip(pos + 1));
        assert(scan_lines(rest, p) == (if regex_ci_matches(p, line@) {
            (Some(line@), rest.skip(pos - start + 1))
        } else {
            scan_lines(rest.skip(pos - start + 1), p)
        }));
        let ghost next = rest.skip(pos - start + 1);
        start = pos + 1;
        assert(next == buf@.skip(start as int));
        if line_pattern_matches(pattern, line.as_str()) {
            found = Some(line);
            break;
        }
    }
    let remaining = bytes_range(buf.as_slice(), start, buf.len());
    assert(remaining@ =~= buf@.skip(start as int));
    *buf = remaining;
    found
}

/// The pattern a search or a wait is given, compiled case-insensitively;
/// refused with `Invalid regex pattern: ` and the compiler's message.
pub fn search_pattern(pattern: &str) -> (r: Result<LinePattern, String>)
    ensures
        match r {
            Ok(p) => regex_ci_valid(pattern@) && p.source_view() == pattern@,
            Err(msg) => !regex_ci_valid(pattern@) && msg@ == "Invalid regex pattern: "@
                + regex_error_text(pattern@),
        },
{
    match compile_line_pattern(pattern) {
        Ok(p) => Ok(p),
        Err(e) => {
            let mut msg = String::from_str("Invalid regex pattern: ");
            msg.append(e.as_str());
            Err(msg)
        },
    }
}

/// When the stream ends with no matching line, the unfinished rest of the
/// buffer, decoded, still counts if it is not empty and matches.
pub fn match_remaining(buf: &Vec<u8>, pattern: &LinePattern) -> (r: Option<String>)
    ensures
        match r {
            Some(s) => buf@.len() > 0 && s@ == spec_utf8_lossy(buf@) && regex_ci_matches(
                pattern.source_view(),
                s@,
            ),
            None => buf@.len() == 0 || !regex_ci_matches(
                pattern.source_view(),
                spec_utf8_lossy(buf@),
            ),
        },
{
    if buf.len() == 0 {
        return None;
    }
    let text = utf8_lossy(buf.as_slice());
    if line_pattern_matches(pattern, text.as_str()) {
        Some(text)
    } else {
        None
    }
}

} // verus!
