//! The AI tools that `install` registers the server with, and the text edits
//! made to their prompt and configuration files on uninstall: the rules
//! section is cut out of a Markdown prompt, and the server's block out of a
//! TOML server list. Reading and writing the files is left to the caller.

use vstd::prelude::*;
use crate::text::{
    append_chars, contains, find, find_chars, from_chars, lines, lines_chars, slice_range,
    starts_with, starts_with_chars, to_chars, trim, trim_chars, trim_end, trim_end_chars,
    trim_start, trim_start_chars, vv,
};
use crate::template::join_with;
use vstd::utf8::encode_utf8;

verus! {

// ---------------------------------------------------------------------------
// The integrations
// ---------------------------------------------------------------------------

pub struct AntigravityIntegration;

pub struct GeminiIntegration;

pub struct GrokIntegration;

pub struct KiroIntegration;

pub struct OpenCodeIntegration;

pub struct PiIntegration;

pub struct RooCodeIntegration;

pub struct VibeIntegration;

pub struct ZedIntegration;

impl AntigravityIntegration {
    pub fn name(&self) -> (r: &'static str)
        ensures
            r@ == "Antigravity"@,
    {
        "Antigravity"
    }

    pub fn id(&self) -> (r: &'static str)
        ensures
            r@ == "antigravity"@,
    {
        "antigravity"
    }
}

impl GeminiIntegration {
    pub fn name(&self) -> (r: &'static str)
        ensures
            r@ == "Gemini CLI"@,
    {
        "Gemini CLI"
    }

    pub fn id(&self) -> (r: &'static str)
        ensures
            r@ == "gemini"@,
    {
        "gemini"
    }
}

impl GrokIntegration {
    pub fn name(&self) -> (r: &'static str)
        ensures
            r@ == "Grok Build"@,
    {
        "Grok Build"
    }

    pub fn id(&self) -> (r: &'static str)
        ensures
            r@ == "grok"@,
    {
        "grok"
    }
}

impl KiroIntegration {
    pub fn name(&self) -> (r: &'static str)
        ensures
            r@ == "Kiro"@,
    {
        "Kiro"
    }

    pub fn id(&self) -> (r: &'static str)
        ensures
            r@ == "kiro"@,
    {
        "kiro"
    }
}

impl OpenCodeIntegration {
    pub fn name(&self) -> (r: &'static str)
        ensures
            r@ == "OpenCode"@,
    {
        "OpenCode"
    }

    pub fn id(&self) -> (r: &'static str)
        ensures
            r@ == "opencode"@,
    {
        "opencode"
    }
}

impl PiIntegration {
    pub fn name(&self) -> (r: &'static str)
        ensures
            r@ == "Pi"@,
    {
        "Pi"
    }

    pub fn id(&self) -> (r: &'static str)
        ensures
            r@ == "pi"@,
    {
        "pi"
    }
}

impl RooCodeIntegration {
    pub fn name(&self) -> (r: &'static str)
        ensures
            r@ == "Roo Code"@,
    {
        "Roo Code"
    }

    pub fn id(&self) -> (r: &'static str)
        ensures
            r@ == "roo-code"@,
    {
        "roo-code"
    }
}

impl VibeIntegration {
    pub fn name(&self) -> (r: &'static str)
        ensures
            r@ == "Mistral Vibe"@,
    {
        "Mistral Vibe"
    }

    pub fn id(&self) -> (r: &'static str)
        ensures
            r@ == "vibe"@,
    {
        "vibe"
    }
}

impl ZedIntegration {
    pub fn name(&self) -> (r: &'static str)
        ensures
            r@ == "Zed"@,
    {
        "Zed"
    }

    pub fn id(&self) -> (r: &'static str)
        ensures
            r@ == "zed"@,
    {
        "zed"
    }
}

/// The agents the command line can name.
#[derive(Debug, Clone, Copy, PartialEq, Eq)]
pub enum AgentOption {
    Opencode,
    Codex,
    Gemini,
    Copilot,
    Cursor,
    Zed,
    Cline,
    RooCode,
    Antigravity,
    Kilo,
    Kiro,
    Kimi,
    Vibe,
    Grok,
    Pi,
}

pub open spec fn agent_id(a: AgentOption) -> Seq<char> {
    match a {
        AgentOption::Opencode => "opencode"@,
        AgentOption::Codex => "codex"@,
        AgentOption::Gemini => "gemini"@,
        AgentOption::Copilot => "copilot"@,
        AgentOption::Cursor => "cursor"@,
        AgentOption::Zed => "zed"@,
        AgentOption::Cline => "cline"@,
        AgentOption::RooCode => "roo-code"@,
        AgentOption::Antigravity => "antigravity"@,
        AgentOption::Kilo => "kilo"@,
        AgentOption::Kiro => "kiro"@,
        AgentOption::Kimi => "kimi"@,
        AgentOption::Vibe => "vibe"@,
        AgentOption::Grok => "grok"@,
        AgentOption::Pi => "pi"@,
    }
}

impl AgentOption {
    /// The identifier of the agent's integration.
    pub fn to_str(self) -> (r: &'static str)
        ensures
            r@ == agent_id(self),
    {
        match self {
            AgentOption::Opencode => "opencode",
            AgentOption::Codex => "codex",
            AgentOption::Gemini => "gemini",
            AgentOption::Copilot => "copilot",
            AgentOption::Cursor => "cursor",
            AgentOption::Zed => "zed",
            AgentOption::Cline => "cline",
            AgentOption::RooCode => "roo-code",
            AgentOption::Antigravity => "antigravity",
            AgentOption::Kilo => "kilo",
            AgentOption::Kiro => "kiro",
            AgentOption::Kimi => "kimi",
            AgentOption::Vibe => "vibe",
            AgentOption::Grok => "grok",
            AgentOption::Pi => "pi",
        }
    }
}

// ---------------------------------------------------------------------------
// Editing prompt files
// ---------------------------------------------------------------------------

/// The heading that opens the rules section of a prompt file.
pub open spec fn rules_marker() -> Seq<char> {
    "## Prefer agentic_ssh MCP tools"@
}

/// The line that closes the rules section in Kiro's steering file.
pub open spec fn rules_end_marker() -> Seq<char> {
    "<!-- agentic_ssh:kiro:end -->"@
}

/// What to do with a file after removing the rules from it.
#[derive(Debug, Clone, PartialEq, Eq)]
pub enum FileEdit {
    Unchanged,
    Delete,
    Write(String),
}

pub enum FileEditSpec {
    Unchanged,
    Delete,
    Write(Seq<char>),
}

impl DeepView for FileEdit {
    type V = FileEditSpec;

    open spec fn deep_view(&self) -> FileEditSpec {
        match self {
            FileEdit::Unchanged => FileEditSpec::Unchanged,
            FileEdit::Delete => FileEditSpec::Delete,
            FileEdit::Write(s) => FileEditSpec::Write(s@),
        }
    }
}

/// The text before `start` and the text from `end` on, joined by a blank
/// line when there is anything after, and trimmed.
pub open spec fn cut_out(c: Seq<char>, start: int, end: int) -> Seq<char> {
    trim(
        trim_end(c.take(start)) + if end < c.len() {
            seq!['\n', '\n'] + trim_start(c.skip(end))
        } else {
            Seq::empty()
        },
    )
}

/// An emptied file is deleted; otherwise it keeps the text and a final
/// newline.
pub open spec fn finish_edit(t: Seq<char>) -> FileEditSpec {
    if t.len() == 0 {
        FileEditSpec::Delete
    } else {
        FileEditSpec::Write(t.push('\n'))
    }
}

/// Removing the rules section from a Markdown prompt: from the heading to
/// the next `## ` heading, or to the end.
pub open spec fn spec_remove_prompt_section(c: Seq<char>) -> FileEditSpec {
    if !contains(c, "agentic_ssh"@) {
        FileEditSpec::Unchanged
    } else {
        match find(c, rules_marker()) {
            None => FileEditSpec::Unchanged,
            Some(start) => {
                let after = start + rules_marker().len();
                let end = match find(c.skip(after), "\n## "@) {
                    Some(p) => after + p,
                    None => c.len() as int,
                };
                finish_edit(cut_out(c, start, end))
            },
        }
    }
}

fn cut_out_exec(c: &[char], start: usize, end: usize) -> (r: Vec<char>)
    requires
        start <= end <= c@.len(),
    ensures
        r@ == cut_out(c@, start as int, end as int),
{
    let head = slice_range(c, 0, start);
    assert(head@ =~= c@.take(start as int));
    let mut out = trim_end_chars(head.as_slice());
    if end < c.len() {
        out.push('\n');
        out.push('\n');
        let tail = slice_range(c, end, c.len());
        assert(tail@ =~= c@.skip(end as int));
        let t = trim_start_chars(tail.as_slice());
        append_chars(&mut out, t.as_slice());
    }
    assert(out@ =~= trim_end(c@.take(start as int)) + if end < c@.len() {
        seq!['\n', '\n'] + trim_start(c@.skip(end as int))
    } else {
        Seq::<char>::empty()
    });
    trim_chars(out.as_slice())
}

fn finish_edit_exec(t: Vec<char>) -> (r: FileEdit)
    ensures
        r.deep_view() == finish_edit(t@),
{
    if t.len() == 0 {
        FileEdit::Delete
    } else {
        let mut t = t;
        t.push('\n');
        FileEdit::Write(from_chars(t.as_slice()))
    }
}

/// The prompt file without its rules section (Gemini, Grok, OpenCode).
pub fn remove_prompt_section(contents: &str) -> (r: FileEdit)
    ensures
        r.deep_view() == spec_remove_prompt_section(contents@),
{
    let c = to_chars(contents);
    let name = to_chars("agentic_ssh");
    if find_chars(c.as_slice(), name.as_slice()).is_none() {
        return FileEdit::Unchanged;
    }
    let marker = to_chars("## Prefer agentic_ssh MCP tools");
    let start = match find_chars(c.as_slice(), marker.as_slice()) {
        Some(s) => s,
        None => {
            return FileEdit::Unchanged;
        },
    };
    proof {
        crate::text::lemma_find_from(c@, marker@, 0);
        assert(crate::text::match_at(c@, marker@, start as int));
    }
    assert(c@.len() == c.len());
    let after = start + marker.len();
    let rest = slice_range(c.as_slice(), after, c.len());
    assert(rest@ =~= c@.skip(after as int));
    let next = to_chars("\n## ");
    let end = match find_chars(rest.as_slice(), next.as_slice()) {
        Some(p) => {
            proof {
                crate::text::lemma_find_from(rest@, next@, 0);
            }
            after + p
        },
        None => c.len(),
    };
    let kept = cut_out_exec(c.as_slice(), start, end);
    finish_edit_exec(kept)
}

/// Removing the rules from Kiro's steering file: from the heading through
/// the end marker; nothing is touched without the end marker.
pub open spec fn spec_remove_steering_rules(c: Seq<char>) -> FileEditSpec {
    match find(c, rules_marker()) {
        None => FileEditSpec::Unchanged,
        Some(start) => match find(c.skip(start), rules_end_marker()) {
            None => FileEditSpec::Unchanged,
            Some(e) => finish_edit(cut_out(c, start, start + e + rules_end_marker().len())),
        },
    }
}

/// Kiro's steering file without the rules block.
pub fn remove_steering_rules(contents: &str) -> (r: FileEdit)
    ensures
        r.deep_view() == spec_remove_steering_rules(contents@),
{
    let c = to_chars(contents);
    let marker = to_chars("## Prefer agentic_ssh MCP tools");
    let end_marker = to_chars("<!-- agentic_ssh:kiro:end -->");
    let start = match find_chars(c.as_slice(), marker.as_slice()) {
        Some(s) => s,
        None => {
            return FileEdit::Unchanged;
        },
    };
    proof {
        crate::text::lemma_find_from(c@, marker@, 0);
    }
    let rest = slice_range(c.as_slice(), start, c.len());
    assert(rest@ =~= c@.skip(start as int));
    let e = match find_chars(rest.as_slice(), end_marker.as_slice()) {
        Some(e) => e,
        None => {
            return FileEdit::Unchanged;
        },
    };
    proof {
        crate::text::lemma_find_from(rest@, end_marker@, 0);
    }
    let end = start + e + end_marker.len();
    let kept = cut_out_exec(c.as_slice(), start, end);
    finish_edit_exec(kept)
}

/// Removing the rules from the Vibe system prompt: everything from the
/// heading on goes.
pub open spec fn spec_truncate_at_rules(c: Seq<char>) -> FileEditSpec {
    if !contains(c, "agentic_ssh"@) {
        FileEditSpec::Unchanged
    } else {
        match find(c, rules_marker()) {
            None => FileEditSpec::Unchanged,
            Some(start) => finish_edit(trim_end(c.take(start))),
        }
    }
}

/// The Vibe prompt without the rules, which it keeps last.
pub fn truncate_at_rules(contents: &str) -> (r: FileEdit)
    ensures
        r.deep_view() == spec_truncate_at_rules(contents@),
{
    let c = to_chars(contents);
    let name = to_chars("agentic_ssh");
    if find_chars(c.as_slice(), name.as_slice()).is_none() {
        return FileEdit::Unchanged;
    }
    let marker = to_chars("## Prefer agentic_ssh MCP tools");
    let start = match find_chars(c.as_slice(), marker.as_slice()) {
        Some(s) => s,
        None => {
            return FileEdit::Unchanged;
        },
    };
    proof {
        crate::text::lemma_find_from(c@, marker@, 0);
    }
    let head = slice_range(c.as_slice(), 0, start);
    assert(head@ =~= c@.take(start as int));
    finish_edit_exec(trim_end_chars(head.as_slice()))
}

// ---------------------------------------------------------------------------
// Editing Vibe's server list
// ---------------------------------------------------------------------------

/// The line by which the server's block is recognised.
pub open spec fn toml_marker() -> Seq<char> {
    "name = \"agentic_ssh\""@
}

pub open spec fn server_header() -> Seq<char> {
    "[[mcp_servers]]"@
}

/// Takes back the block header (and blank lines after it) already kept.
pub open spec fn pop_header(r: Seq<Seq<char>>) -> Seq<Seq<char>>
    decreases r.len(),
{
    if r.len() == 0 {
        r
    } else if trim(r.last()) == server_header() {
        r.drop_last()
    } else if trim(r.last()).len() == 0 {
        pop_header(r.drop_last())
    } else {
        r
    }
}

/// One line of the file: kept lines so far, and whether the server's block
/// is being skipped. A `[[mcp_servers]]` header ends a skip, as does any
/// other section header; the marker line drops its block's header and
/// starts a skip.
pub open spec fn toml_step(state: (Seq<Seq<char>>, bool), line: Seq<char>) -> (Seq<Seq<char>>, bool) {
    let t = trim(line);
    let skipping = if t == server_header() {
        false
    } else {
        state.1
    };
    if skipping && !starts_with(t, seq!['[']) {
        (state.0, true)
    } else if contains(line, toml_marker()) {
        (pop_header(state.0), true)
    } else {
        (state.0.push(line), false)
    }
}

pub open spec fn toml_fold(ls: Seq<Seq<char>>) -> (Seq<Seq<char>>, bool)
    decreases ls.len(),
{
    if ls.len() == 0 {
        (Seq::empty(), false)
    } else {
        toml_step(toml_fold(ls.drop_last()), ls.last())
    }
}

pub open spec fn drop_trailing_blank(r: Seq<Seq<char>>) -> Seq<Seq<char>>
    decreases r.len(),
{
    if r.len() > 0 && trim(r.last()).len() == 0 {
        drop_trailing_blank(r.drop_last())
    } else {
        r
    }
}

/// `config.toml` without the server's `[[mcp_servers]]` block; deleted when
/// nothing but blank text would remain.
pub open spec fn spec_remove_toml_server(c: Seq<char>) -> FileEditSpec {
    if !contains(c, toml_marker()) {
        FileEditSpec::Unchanged
    } else {
        let kept = drop_trailing_blank(toml_fold(lines(c)).0);
        let text = if kept.len() == 0 {
            Seq::empty()
        } else {
            join_with(kept, seq!['\n']).push('\n')
        };
        if trim(text).len() == 0 {
            FileEditSpec::Delete
        } else {
            FileEditSpec::Write(text)
        }
    }
}

fn is_header_line(line: &[char]) -> (r: bool)
    ensures
        r == (trim(line@) == server_header()),
{
    let t = trim_chars(line);
    let h = to_chars("[[mcp_servers]]");
    crate::text::chars_eq(t.as_slice(), h.as_slice())
}

fn pop_header_exec(r: &mut Vec<Vec<char>>)
    ensures
        vv(final(r)@) == pop_header(vv(old(r)@)),
    decreases old(r)@.len(),
{
    if r.len() == 0 {
        return;
    }
    let ghost before = vv(r@);
    let last = r.len() - 1;
    assert(before.last() == r@[last as int]@);
    if is_header_line(r[last].as_slice()) {
        r.pop();
        assert(vv(r@) =~= before.drop_last());
    } else if trim_chars(r[last].as_slice()).len() == 0 {
        r.pop();
        assert(vv(r@) =~= before.drop_last());
        pop_header_exec(r);
    }
}

/// Vibe's `config.toml` without the server's block.
pub fn remove_toml_server(contents: &str) -> (r: FileEdit)
    ensures
        r.deep_view() == spec_remove_toml_server(contents@),
{
    let c = to_chars(contents);
    let marker = to_chars("name = \"agentic_ssh\"");
    if find_chars(c.as_slice(), marker.as_slice()).is_none() {
        return FileEdit::Unchanged;
    }
    let ls = lines_chars(c.as_slice());
    let ghost l = vv(ls@);
    let mut kept: Vec<Vec<char>> = Vec::new();
    let mut skip = false;
    let mut i: usize = 0;
    let bracket: Vec<char> = vec!['['];
    assert(bracket@ =~= seq!['[']);
    assert(l.take(0) =~= Seq::<Seq<char>>::empty());
    assert(vv(kept@) =~= Seq::<Seq<char>>::empty());
    while i < ls.len()
        invariant
            l == vv(ls@),
            i <= l.len(),
            bracket@ == seq!['['],
            marker@ == toml_marker(),
            (vv(kept@), skip) == toml_fold(l.take(i as int)),
        decreases ls.len() - i,
    {
        assert(l.take(i + 1).drop_last() =~= l.take(i as int));
        assert(l.take(i + 1).last() == ls@[i as int]@);
        let line = ls[i].as_slice();
        if is_header_line(line) {
            skip = false;
        }
        let t = trim_chars(line);
        if skip && !starts_with_chars(t.as_slice(), bracket.as_slice()) {
            i = i + 1;
            continue;
        }
        if find_chars(line, marker.as_slice()).is_some() {
            pop_header_exec(&mut kept);
            skip = true;
            i = i + 1;
            continue;
        }
        let ghost before = vv(kept@);
        kept.push(ls[i].clone());
        assert(vv(kept@) =~= before.push(ls@[i as int]@));
        skip = false;
        i = i + 1;
    }
    assert(l.take(l.len() as int) =~= l);
    loop
        invariant
            drop_trailing_blank(vv(kept@)) == drop_trailing_blank(toml_fold(l).0),
        ensures
            drop_trailing_blank(vv(kept@)) == drop_trailing_blank(toml_fold(l).0),
            kept@.len() == 0 || trim(vv(kept@).last()).len() != 0,
        decreases kept@.len(),
    {
        if kept.len() == 0 {
            break;
        }
        let last = kept.len() - 1;
        assert(vv(kept@).last() == kept@[last as int]@);
        if trim_chars(kept[last].as_slice()).len() != 0 {
            break;
        }
        let ghost before = vv(kept@);
        kept.pop();
        assert(vv(kept@) =~= before.drop_last());
    }
    assert(drop_trailing_blank(vv(kept@)) == vv(kept@));
    let ghost k = vv(kept@);
    let mut text: Vec<char> = Vec::new();
    if kept.len() > 0 {
        let mut j: usize = 0;
        assert(k.take(0) =~= Seq::<Seq<char>>::empty());
        while j < kept.len()
            invariant
                k == vv(kept@),
                j <= k.len(),
                text@ == join_with(k.take(j as int), seq!['\n']),
            decreases kept.len() - j,
        {
            let ghost sub = k.take(j + 1);
            assert(sub.drop_last() =~= k.take(j as int));
            assert(sub.last() == kept@[j as int]@);
            if j > 0 {
                text.push('\n');
            }
            append_chars(&mut text, kept[j].as_slice());
            assert(text@ =~= join_with(sub, seq!['\n']));
            j = j + 1;
        }
        assert(k.take(k.len() as int) =~= k);
        text.push('\n');
    } else {
        assert(text@ =~= Seq::<char>::empty());
    }
    if trim_chars(text.as_slice()).len() == 0 {
        FileEdit::Delete
    } else {
        FileEdit::Write(from_chars(text.as_slice()))
    }
}

// ---------------------------------------------------------------------------
// Kiro
// ---------------------------------------------------------------------------

/// The command line of a Kiro hook.
pub fn hook_command(agentic_ssh_bin: &str, subcommand: &str) -> (r: String)
    ensures
        r@ == agentic_ssh_bin@ + seq![' '] + subcommand@,
{
    let mut r = String::from_str(agentic_ssh_bin);
    r.append(" ");
    r.append(subcommand);
    proof {
        reveal_strlit(" ");
    }
    r
}

/// Kiro's own default agents, which a user has not chosen.
pub fn is_builtin_default_agent(agent: &str) -> (r: bool)
    ensures
        r == (agent@ == "kiro_default"@ || agent@ == "default"@),
{
    let a = to_chars(agent);
    crate::text::chars_eq(a.as_slice(), to_chars("kiro_default").as_slice())
        || crate::text::chars_eq(a.as_slice(), to_chars("default").as_slice())
}

pub open spec fn rules_body() -> Seq<char> {
    "## Prefer agentic_ssh MCP tools\n\nWhen you need to discover, query, monitor, or execute commands on remote SSH hosts, ALWAYS use the `agentic_ssh` MCP tools:\n- **Discovering Hosts:** Use the `list_hosts` tool to retrieve the list of configured remote SSH hosts. Do NOT read or parse `~/.ssh/config` manually.\n- **Executing Commands:** Use the `run_command` tool to run shell commands on one or more hosts concurrently.\n- **Monitoring Logs:** Use `tail_log` (for files) or `tail_container_logs` (for Docker containers) to read recent logs. To verify startup, services, or events across cluster nodes without polling, use `wait_for_log_pattern` to block and stream logs until a regex pattern is matched.\n- **Checking System & Network Status:** Use `get_system_stats` to fetch structured CPU, memory, and disk usage metrics. Use `list_ports` to see active listening TCP/UDP ports. Use `search_processes` to find running processes.\n- **Custom Tools:** Use custom commands registered dynamically through the configuration file (e.g., `find_large_files`, `check_service_status`, `check_docker_status`).\n\nDo not use Kiro's `delegate` tool for remote host commands, log monitoring, port scanning, or system checks until `agentic_ssh` MCP tools have been tried. Delegation is still appropriate for local long-running execution work such as builds, tests, or independent local implementation tasks.\n\nThese tools leverage an automatic connection pool (reusing active sessions and closing them after 5 minutes of inactivity), handle SSH key-based authentication seamlessly, and support output abbreviation to prevent token bloat."@
}

/// The steering rules without their closing marker.
pub fn prompt_rules_text_without_end_marker() -> (r: &'static str)
    ensures
        r@ == rules_body(),
{
    "## Prefer agentic_ssh MCP tools\n\nWhen you need to discover, query, monitor, or execute commands on remote SSH hosts, ALWAYS use the `agentic_ssh` MCP tools:\n- **Discovering Hosts:** Use the `list_hosts` tool to retrieve the list of configured remote SSH hosts. Do NOT read or parse `~/.ssh/config` manually.\n- **Executing Commands:** Use the `run_command` tool to run shell commands on one or more hosts concurrently.\n- **Monitoring Logs:** Use `tail_log` (for files) or `tail_container_logs` (for Docker containers) to read recent logs. To verify startup, services, or events across cluster nodes without polling, use `wait_for_log_pattern` to block and stream logs until a regex pattern is matched.\n- **Checking System & Network Status:** Use `get_system_stats` to fetch structured CPU, memory, and disk usage metrics. Use `list_ports` to see active listening TCP/UDP ports. Use `search_processes` to find running processes.\n- **Custom Tools:** Use custom commands registered dynamically through the configuration file (e.g., `find_large_files`, `check_service_status`, `check_docker_status`).\n\nDo not use Kiro's `delegate` tool for remote host commands, log monitoring, port scanning, or system checks until `agentic_ssh` MCP tools have been tried. Delegation is still appropriate for local long-running execution work such as builds, tests, or independent local implementation tasks.\n\nThese tools leverage an automatic connection pool (reusing active sessions and closing them after 5 minutes of inactivity), handle SSH key-based authentication seamlessly, and support output abbreviation to prevent token bloat."
}

/// The steering rules as appended to Kiro's steering file.
pub fn prompt_rules_text() -> (r: String)
    ensures
        r@ == rules_body() + "\n\n"@ + rules_end_marker(),
{
    let mut r = String::from_str(prompt_rules_text_without_end_marker());
    r.append("\n\n");
    r.append("<!-- agentic_ssh:kiro:end -->");
    r
}

/// Where the rules block lies in Kiro's steering file, as byte offsets:
/// from the rules heading through the end marker.
pub fn agentic_ssh_prompt_block_range(contents: &str) -> (r: Option<(usize, usize)>)
    ensures
        match find(contents@, rules_marker()) {
            None => r is None,
            Some(start) => match find(contents@.skip(start), rules_end_marker()) {
                None => r is None,
                Some(e) => r == Some(
                    (
                        encode_utf8(contents@.take(start)).len() as usize,
                        encode_utf8(
                            contents@.take(start + e + rules_end_marker().len()),
                        ).len() as usize,
                    ),
                ),
            },
        },
{
    let c = to_chars(contents);
    let marker = to_chars("## Prefer agentic_ssh MCP tools");
    let end_marker = to_chars("<!-- agentic_ssh:kiro:end -->");
    let start = match find_chars(c.as_slice(), marker.as_slice()) {
        Some(s) => s,
        None => {
            return None;
        },
    };
    proof {
        crate::text::lemma_find_from(c@, marker@, 0);
    }
    let rest = slice_range(c.as_slice(), start, c.len());
    assert(rest@ =~= c@.skip(start as int));
    let e = match find_chars(rest.as_slice(), end_marker.as_slice()) {
        Some(e) => e,
        None => {
            return None;
        },
    };
    proof {
        crate::text::lemma_find_from(rest@, end_marker@, 0);
        assert(crate::text::match_at(rest@, end_marker@, e as int));
    }
    assert(c@.len() == c.len());
    let end = start + e + end_marker.len();
    let head = from_chars(slice_range(c.as_slice(), 0, start).as_slice());
    let through = from_chars(slice_range(c.as_slice(), 0, end).as_slice());
    assert(head@ =~= contents@.take(start as int));
    assert(through@ =~= contents@.take(end as int));
    Some((head.as_str().len(), through.as_str().len()))
}

/// Bytes written as they are in a file URI.
pub open spec fn uri_safe(b: u8) -> bool {
    (65 <= b <= 90) || (97 <= b <= 122) || (48 <= b <= 57) || b == 47 || b == 58 || b == 45 || b
        == 46 || b == 95 || b == 126
}

pub open spec fn upper_hex() -> Seq<char> {
    seq!['0', '1', '2', '3', '4', '5', '6', '7', '8', '9', 'A', 'B', 'C', 'D', 'E', 'F']
}

pub open spec fn percent_byte(b: u8) -> Seq<char> {
    if uri_safe(b) {
        seq![b as char]
    } else {
        seq!['%', upper_hex()[(b / 16) as int], upper_hex()[(b % 16) as int]]
    }
}

pub open spec fn percent_bytes(bs: Seq<u8>) -> Seq<char>
    decreases bs.len(),
{
    if bs.len() == 0 {
        Seq::empty()
    } else {
        percent_bytes(bs.drop_last()) + percent_byte(bs.last())
    }
}

/// Percent-encodes the UTF-8 bytes of a path for a `file://` URI.
pub fn percent_encode_file_uri_path(path: &str) -> (r: String)
    ensures
        r@ == percent_bytes(encode_utf8(path@)),
{
    let bytes = path.as_bytes();
    let table: Vec<char> = vec![
        '0', '1', '2', '3', '4', '5', '6', '7', '8', '9', 'A', 'B', 'C', 'D', 'E', 'F',
    ];
    assert(table@ =~= upper_hex());
    let ghost bs = bytes@;
    let mut out: Vec<char> = Vec::new();
    let mut i: usize = 0;
    assert(bs.take(0) =~= Seq::<u8>::empty());
    while i < bytes.len()
        invariant
            bs == bytes@,
            bs == encode_utf8(path@),
            table@ == upper_hex(),
            i <= bs.len(),
            out@ == percent_bytes(bs.take(i as int)),
        decreases bytes.len() - i,
    {
        let b = bytes[i];
        assert(bs.take(i + 1).drop_last() =~= bs.take(i as int));
        assert(bs.take(i + 1).last() == b);
        if (65 <= b && b <= 90) || (97 <= b && b <= 122) || (48 <= b && b <= 57) || b == 47 || b
            == 58 || b == 45 || b == 46 || b == 95 || b == 126 {
            out.push(b as char);
        } else {
            out.push('%');
            out.push(table[(b / 16) as usize]);
            out.push(table[(b % 16) as usize]);
        }
        assert(out@ =~= percent_bytes(bs.take(i + 1)));
        i = i + 1;
    }
    assert(bs.take(bs.len() as int) =~= bs);
    from_chars(out.as_slice())
}

/// Back-slashes turned into slashes.
pub open spec fn forward_slashes(s: Seq<char>) -> Seq<char> {
    s.map_values(|c: char| if c == '\\' { '/' } else { c })
}

/// A `file://` URI for a path.
pub fn file_resource_uri(path: &str) -> (r: String)
    ensures
        ({
            let enc = percent_bytes(encode_utf8(forward_slashes(path@)));
            r@ == if starts_with(enc, seq!['/']) {
                "file://"@ + enc
            } else {
                "file:///"@ + enc
            }
        }),
{
    let cs = to_chars(path);
    let mut slashed: Vec<char> = Vec::new();
    let mut i: usize = 0;
    while i < cs.len()
        invariant
            i <= cs@.len(),
            slashed@ == forward_slashes(cs@.take(i as int)),
        decreases cs.len() - i,
    {
        let c = cs[i];
        slashed.push(if c == '\\' { '/' } else { c });
        assert(slashed@ =~= forward_slashes(cs@.take(i + 1)));
        i = i + 1;
    }
    assert(cs@.take(cs@.len() as int) =~= cs@);
    let text = from_chars(slashed.as_slice());
    let enc = percent_encode_file_uri_path(text.as_str());
    let ec = to_chars(enc.as_str());
    let slash: Vec<char> = vec!['/'];
    assert(slash@ =~= seq!['/']);
    let mut r = if starts_with_chars(ec.as_slice(), slash.as_slice()) {
        String::from_str("file://")
    } else {
        String::from_str("file:///")
    };
    r.append(enc.as_str());
    r
}

/// The description the Kiro agent written by this tool carries.
pub open spec fn owned_agent_description() -> Seq<char> {
    "Default Kiro agent with agentic_ssh MCP tools and code-research guardrails."@
}

fn is_text(o: Option<&str>, expected: &str) -> (r: bool)
    ensures
        r == (o matches Some(t) && t@ == expected@),
{
    match o {
        Some(t) => {
            let a = to_chars(t);
            let b = to_chars(expected);
            crate::text::chars_eq(a.as_slice(), b.as_slice())
        },
        None => false,
    }
}

/// A Kiro agent file is this tool's own when its `name` is `agentic_ssh`
/// and its `description` is the one this tool writes; any other agent file
/// belongs to the user and is left alone.
pub fn is_owned_agent_config(name: Option<&str>, description: Option<&str>) -> (r: bool)
    ensures
        r == ((name matches Some(n) && n@ == "agentic_ssh"@) && (description matches Some(d) && d@
            == owned_agent_description())),
{
    is_text(name, "agentic_ssh") && is_text(
        description,
        "Default Kiro agent with agentic_ssh MCP tools and code-research guardrails.",
    )
}

} // verus!
