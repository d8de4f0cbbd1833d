//! Where the agents keep their configuration, as paths joined the way
//! `Path::join` joins on Unix.

use vstd::prelude::*;
use crate::outside::{path_is_file, path_parent, path_starts_with, spec_path_parent, spec_path_starts_with};
use crate::text::{append_chars, from_chars, to_chars};

verus! {

/// `Path::join` on Unix: an absolute `rel` replaces `base`; otherwise a
/// separator is put between them unless `base` is empty or already ends
/// with one.
pub open spec fn spec_join_path(base: Seq<char>, rel: Seq<char>) -> Seq<char> {
    if rel.len() > 0 && rel[0] == '/' {
        rel
    } else if base.len() == 0 {
        rel
    } else if base.last() == '/' {
        base + rel
    } else {
        base + seq!['/'] + rel
    }
}

pub fn join_path(base: &str, rel: &str) -> (r: String)
    ensures
        r@ == spec_join_path(base@, rel@),
{
    let b = to_chars(base);
    let r = to_chars(rel);
    if r.len() > 0 && r[0] == '/' {
        return from_chars(r.as_slice());
    }
    if b.len() == 0 {
        return from_chars(r.as_slice());
    }
    let mut out = to_chars(base);
    if b[b.len() - 1] != '/' {
        out.push('/');
    }
    append_chars(&mut out, r.as_slice());
    assert(out@ =~= spec_join_path(base@, rel@));
    from_chars(out.as_slice())
}

/// Antigravity's MCP configuration.
pub fn antigravity_mcp_config_path(home: &str) -> (r: String)
    ensures
        r@ == spec_join_path(home@, ".gemini/config/mcp_config.json"@),
{
    join_path(home, ".gemini/config/mcp_config.json")
}

/// The Antigravity CLI's plugin file.
pub fn antigravity_cli_plugin_path(home: &str) -> (r: String)
    ensures
        r@ == spec_join_path(home@, ".gemini/antigravity-cli/plugins/agentic_ssh.json"@),
{
    join_path(home, ".gemini/antigravity-cli/plugins/agentic_ssh.json")
}

/// Kiro's MCP configuration under a `.kiro` directory.
pub fn kiro_mcp_config_path_in(base: &str) -> (r: String)
    ensures
        r@ == spec_join_path(base@, "settings/mcp.json"@),
{
    join_path(base, "settings/mcp.json")
}

/// Kiro's CLI settings under a `.kiro` directory.
pub fn kiro_cli_config_path_in(base: &str) -> (r: String)
    ensures
        r@ == spec_join_path(base@, "settings/cli.json"@),
{
    join_path(base, "settings/cli.json")
}

/// The Kiro agent this tool manages, under a `.kiro` directory.
pub fn kiro_managed_agent_path_in(base: &str) -> (r: String)
    ensures
        r@ == spec_join_path(base@, "agents/agentic_ssh.json"@),
{
    join_path(base, "agents/agentic_ssh.json")
}

/// Kiro's steering file for this tool, under a `.kiro` directory.
pub fn kiro_steering_path_in(base: &str) -> (r: String)
    ensures
        r@ == spec_join_path(base@, "steering/agentic_ssh.md"@),
{
    join_path(base, "steering/agentic_ssh.md")
}

/// A project's own Kiro MCP configuration.
pub fn kiro_workspace_mcp_config_path(project_path: &str) -> (r: String)
    ensures
        r@ == spec_join_path(project_path@, ".kiro/settings/mcp.json"@),
{
    join_path(project_path, ".kiro/settings/mcp.json")
}

/// Vibe's configuration under its home directory.
pub fn vibe_config_path_in(vibe_home: &str) -> (r: String)
    ensures
        r@ == spec_join_path(vibe_home@, "config.toml"@),
{
    join_path(vibe_home, "config.toml")
}

/// Vibe's system prompt under its home directory.
pub fn vibe_prompt_path_in(vibe_home: &str) -> (r: String)
    ensures
        r@ == spec_join_path(vibe_home@, "prompts/cli.md"@),
{
    join_path(vibe_home, "prompts/cli.md")
}

/// The name of a project's local configuration file.
pub open spec fn local_config_name() -> Seq<char> {
    ".agentic_ssh.toml"@
}

/// The directory `k` levels above `dir` (`Path::parent` applied `k` times),
/// if the path has that many levels.
pub open spec fn ancestor(dir: Seq<char>, k: nat) -> Option<Seq<char>>
    decreases k,
{
    if k == 0 {
        Some(dir)
    } else {
        match ancestor(dir, (k - 1) as nat) {
            Some(a) => spec_path_parent(a),
            None => None,
        }
    }
}

/// Where the local configuration is looked for `i` levels up from `dir`:
/// the file name joined to that ancestor, if the path has that many levels.
pub open spec fn candidate_at(dir: Seq<char>, i: nat) -> Option<Seq<char>> {
    match ancestor(dir, i) {
        Some(a) => Some(spec_join_path(a, local_config_name())),
        None => None,
    }
}

/// Every place the local configuration may be, nearest first: `start_dir`
/// and each of its parents up to the top, the file name joined to each.
pub fn local_config_candidates(start_dir: &str) -> (r: Vec<String>)
    ensures
        forall|i: int| 0 <= i < r@.len() ==> candidate_at(start_dir@, i as nat) == Some(
            #[trigger] r@[i]@,
        ),
        ancestor(start_dir@, r@.len() as nat) is None,
{
    let mut r: Vec<String> = Vec::new();
    let mut current = start_dir.to_owned();
    loop
        invariant
            ancestor(start_dir@, r@.len() as nat) == Some(current@),
            forall|i: int| 0 <= i < r@.len() ==> candidate_at(start_dir@, i as nat) == Some(
                #[trigger] r@[i]@,
            ),
        decreases current@.len(),
    {
        let ghost k = r@.len() as nat;
        let candidate = join_path(current.as_str(), ".agentic_ssh.toml");
        r.push(candidate);
        assert(r@[k as int]@ == spec_join_path(current@, local_config_name()));
        match path_parent(current.as_str()) {
            Some(parent) => {
                assert(ancestor(start_dir@, k + 1) == Some(parent@));
                current = parent;
            },
            None => {
                assert(ancestor(start_dir@, k + 1) is None);
                return r;
            },
        }
    }
}

/// The position of the first `true`.
pub open spec fn first_true(flags: Seq<bool>) -> Option<int>
    decreases flags.len(),
{
    if flags.len() == 0 {
        None
    } else {
        match first_true(flags.drop_last()) {
            Some(i) => Some(i),
            None => if flags.last() {
                Some(flags.len() - 1)
            } else {
                None
            },
        }
    }
}

/// `first_true` is the first position that holds `true`, and none holds
/// `true` when it has none.
pub proof fn lemma_first_true(flags: Seq<bool>)
    ensures
        first_true(flags) matches Some(i) ==> 0 <= i < flags.len() && flags[i] && forall|j: int|
            0 <= j < i ==> !flags[j],
        first_true(flags) is None ==> forall|j: int| 0 <= j < flags.len() ==> !flags[j],
    decreases flags.len(),
{
    if flags.len() > 0 {
        lemma_first_true(flags.drop_last());
        assert forall|j: int| 0 <= j < flags.len() - 1 implies flags[j] == flags.drop_last()[j] by {}
    }
}

/// Of the candidates, nearest first, the first that is a file (`is_file`
/// tells which are).
pub fn nearest_local_config(candidates: &[String], is_file: &[bool]) -> (r: Option<String>)
    requires
        candidates@.len() == is_file@.len(),
    ensures
        match first_true(is_file@) {
            Some(i) => r matches Some(c) && c@ == candidates@[i]@,
            None => r is None,
        },
{
    let mut i: usize = 0;
    while i < is_file.len()
        invariant
            i <= is_file@.len(),
            candidates@.len() == is_file@.len(),
            first_true(is_file@.take(i as int)) is None,
        decreases is_file.len() - i,
    {
        assert(is_file@.take(i + 1).drop_last() =~= is_file@.take(i as int));
        if is_file[i] {
            assert(first_true(is_file@.take(i + 1)) == Some(i as int));
            proof {
                lemma_first_true_prefix(is_file@, i as int + 1);
            }
            return Some(candidates[i].clone());
        }
        i = i + 1;
    }
    assert(is_file@.take(is_file@.len() as int) =~= is_file@);
    None
}

proof fn lemma_first_true_prefix(flags: Seq<bool>, n: int)
    requires
        0 <= n <= flags.len(),
        first_true(flags.take(n)) is Some,
    ensures
        first_true(flags) == first_true(flags.take(n)),
    decreases flags.len(),
{
    if n < flags.len() {
        assert(flags.drop_last().take(n) =~= flags.take(n));
        lemma_first_true_prefix(flags.drop_last(), n);
    } else {
        assert(flags.take(n) =~= flags);
    }
}

/// The nearest `.agentic_ssh.toml` that is a file, looking in `start_dir`
/// and then in each of its parents: each candidate of
/// `local_config_candidates` is asked of the file system, and
/// `nearest_local_config` picks the first that is a file. Which ones are
/// files depends on the disk, so what is said here is that a found path is
/// one of the candidates.
pub fn find_local_config(start_dir: &str) -> (r: Option<String>)
    ensures
        match r {
            Some(c) => exists|k: nat| #[trigger] candidate_at(start_dir@, k) == Some(c@),
            None => exists|k: nat| #[trigger] candidate_at(start_dir@, k) is None,
        },
{
    let candidates = local_config_candidates(start_dir);
    let mut is_file: Vec<bool> = Vec::new();
    let mut i: usize = 0;
    while i < candidates.len()
        invariant
            i <= candidates@.len(),
            is_file@.len() == i,
        decreases candidates.len() - i,
    {
        is_file.push(path_is_file(candidates[i].as_str()));
        i = i + 1;
    }
    let r = nearest_local_config(candidates.as_slice(), is_file.as_slice());
    proof {
        assert(candidate_at(start_dir@, candidates@.len() as nat) is None);
        lemma_first_true(is_file@);
        if let Some(k) = first_true(is_file@) {
            assert(candidate_at(start_dir@, k as nat) == Some(candidates@[k]@));
        }
    }
    r
}

/// Where OpenCode's global files may go: directly in the home directory, or
/// in `$XDG_CONFIG_HOME` when that lies within it (as
/// `Path::starts_with` decides).
pub open spec fn under_home(base: Seq<char>, home: Seq<char>) -> bool {
    base == home || spec_path_starts_with(base, home)
}

/// The `$XDG_CONFIG_HOME` directory to use: the given one when it lies
/// within the home directory.
pub fn xdg_within_home(home: &str, xdg: Option<&str>) -> (r: Option<String>)
    ensures
        match xdg {
            Some(x) => if spec_path_starts_with(x@, home@) {
                r matches Some(d) && d@ == x@
            } else {
                r is None
            },
            None => r is None,
        },
{
    match xdg {
        Some(x) => if path_starts_with(x, home) {
            Some(String::from_str(x))
        } else {
            None
        },
        None => None,
    }
}

/// OpenCode's global `opencode.json`: the one in `~/.config/opencode` when
/// it exists; otherwise under `$XDG_CONFIG_HOME` (`xdg`) when that lies
/// within the home directory; otherwise the `~/.config` one. Either way it
/// is joined onto the home directory or onto a directory within it.
pub fn opencode_config_path(home: &str, home_config_exists: bool, xdg: Option<&str>) -> (r: String)
    ensures
        r@ == (if home_config_exists {
            spec_join_path(home@, ".config/opencode/opencode.json"@)
        } else {
            match xdg {
                Some(x) => if spec_path_starts_with(x@, home@) {
                    spec_join_path(x@, "opencode/opencode.json"@)
                } else {
                    spec_join_path(home@, ".config/opencode/opencode.json"@)
                },
                None => spec_join_path(home@, ".config/opencode/opencode.json"@),
            }
        }),
        exists|base: Seq<char>, rel: Seq<char>|
            under_home(base, home@) && r@ == spec_join_path(base, rel),
{
    if home_config_exists {
        let r = join_path(home, ".config/opencode/opencode.json");
        assert(under_home(home@, home@));
        assert(r@ == spec_join_path(home@, ".config/opencode/opencode.json"@));
        return r;
    }
    match xdg_within_home(home, xdg) {
        Some(x) => {
            let r = join_path(x.as_str(), "opencode/opencode.json");
            assert(under_home(x@, home@));
            r
        },
        None => {
            let r = join_path(home, ".config/opencode/opencode.json");
            assert(under_home(home@, home@));
            r
        },
    }
}

/// OpenCode's global `AGENTS.md`: in `~/.config/opencode` when that
/// directory (or the file) exists; otherwise in the `opencode` directory of
/// `$XDG_CONFIG_HOME` (`xdg`) when `$XDG_CONFIG_HOME` lies within the home
/// directory and that directory exists (`xdg_opencode_dir_exists`);
/// otherwise in the home directory itself.
pub fn opencode_prompt_path(
    home: &str,
    home_dir_exists: bool,
    xdg: Option<&str>,
    xdg_opencode_dir_exists: bool,
) -> (r: String)
    ensures
        r@ == (if home_dir_exists {
            spec_join_path(home@, ".config/opencode/AGENTS.md"@)
        } else {
            match xdg {
                Some(x) => if spec_path_starts_with(x@, home@) && xdg_opencode_dir_exists {
                    spec_join_path(x@, "opencode/AGENTS.md"@)
                } else {
                    spec_join_path(home@, "AGENTS.md"@)
                },
                None => spec_join_path(home@, "AGENTS.md"@),
            }
        }),
        exists|base: Seq<char>, rel: Seq<char>|
            under_home(base, home@) && r@ == spec_join_path(base, rel),
{
    assert(under_home(home@, home@));
    if home_dir_exists {
        return join_path(home, ".config/opencode/AGENTS.md");
    }
    match xdg_within_home(home, xdg) {
        Some(x) => if xdg_opencode_dir_exists {
            assert(under_home(x@, home@));
            join_path(x.as_str(), "opencode/AGENTS.md")
        } else {
            join_path(home, "AGENTS.md")
        },
        None => join_path(home, "AGENTS.md"),
    }
}

} // verus!
