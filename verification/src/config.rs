//! The configuration model: prepared tools, host boundaries and groups, with
//! the rules that validate a configuration and merge a project-local one into
//! the global one.

use vstd::prelude::*;
use crate::outside::{spec_lowercase, to_lowercase};
use crate::strmap::{
    al_contains, al_find, al_get, al_insert, al_unique, lemma_al_find, StrMap,
};
use crate::template::{extract_placeholders, placeholder_names, replace_all, replace_str};
use crate::text::{chars_eq, contains, find_chars, to_chars};

verus! {

// ---------------------------------------------------------------------------
// Types and their views
// ---------------------------------------------------------------------------

/// A command: one shell string, or an argument vector.
#[derive(Debug, Clone, PartialEq, Eq)]
pub enum CommandTemplate {
    Simple(String),
    Array(Vec<String>),
}

pub enum CommandSpec {
    Simple(Seq<char>),
    Array(Seq<Seq<char>>),
}

impl DeepView for CommandTemplate {
    type V = CommandSpec;

    open spec fn deep_view(&self) -> CommandSpec {
        match self {
            CommandTemplate::Simple(s) => CommandSpec::Simple(s@),
            CommandTemplate::Array(v) => CommandSpec::Array(v.deep_view()),
        }
    }
}

/// The validation rule of one tool parameter.
#[derive(Debug, Clone)]
pub struct ParamInfo {
    pub validation: String,
}

impl DeepView for ParamInfo {
    type V = Seq<char>;

    open spec fn deep_view(&self) -> Seq<char> {
        self.validation@
    }
}

/// A custom tool defined in the configuration.
#[derive(Debug, Clone)]
pub struct PreparedTool {
    pub description: String,
    pub command: CommandTemplate,
    pub allow_shell: bool,
    pub allow_hosts: Vec<String>,
    pub params: StrMap<ParamInfo>,
}

#[verifier::ext_equal]
pub struct ToolSpec {
    pub description: Seq<char>,
    pub command: CommandSpec,
    pub allow_shell: bool,
    pub allow_hosts: Seq<Seq<char>>,
    pub params: Seq<(Seq<char>, Seq<char>)>,
}

impl DeepView for PreparedTool {
    type V = ToolSpec;

    open spec fn deep_view(&self) -> ToolSpec {
        ToolSpec {
            description: self.description@,
            command: self.command.deep_view(),
            allow_shell: self.allow_shell,
            allow_hosts: self.allow_hosts.deep_view(),
            params: self.params.deep_view(),
        }
    }
}

/// A tool in the older configuration format (`[[custom_tools]]`).
#[derive(Debug, Clone)]
pub struct LegacyCustomTool {
    pub name: String,
    pub description: String,
    pub command: String,
}

pub struct LegacySpec {
    pub name: Seq<char>,
    pub description: Seq<char>,
    pub command: Seq<char>,
}

impl DeepView for LegacyCustomTool {
    type V = LegacySpec;

    open spec fn deep_view(&self) -> LegacySpec {
        LegacySpec {
            name: self.name@,
            description: self.description@,
            command: self.command@,
        }
    }
}

/// The whole configuration.
#[derive(Debug, Clone)]
pub struct Config {
    pub pool_status_path: Option<String>,
    pub disable_local_config: bool,
    pub disable_update_check: bool,
    pub tools: StrMap<PreparedTool>,
    pub ignore_hosts: Vec<String>,
    pub allow_hosts: Vec<String>,
    pub groups: StrMap<Vec<String>>,
    pub custom_tools: Vec<LegacyCustomTool>,
}

#[verifier::ext_equal]
pub struct ConfigSpec {
    pub pool_status_path: Option<Seq<char>>,
    pub disable_local_config: bool,
    pub disable_update_check: bool,
    pub tools: Seq<(Seq<char>, ToolSpec)>,
    pub ignore_hosts: Seq<Seq<char>>,
    pub allow_hosts: Seq<Seq<char>>,
    pub groups: Seq<(Seq<char>, Seq<Seq<char>>)>,
    pub custom_tools: Seq<LegacySpec>,
}

impl DeepView for Config {
    type V = ConfigSpec;

    open spec fn deep_view(&self) -> ConfigSpec {
        ConfigSpec {
            pool_status_path: match self.pool_status_path {
                Some(p) => Some(p@),
                None => None,
            },
            disable_local_config: self.disable_local_config,
            disable_update_check: self.disable_update_check,
            tools: self.tools.deep_view(),
            ignore_hosts: self.ignore_hosts.deep_view(),
            allow_hosts: self.allow_hosts.deep_view(),
            groups: self.groups.deep_view(),
            custom_tools: self.custom_tools.deep_view(),
        }
    }
}

impl Default for Config {
    fn default() -> (c: Config)
        ensures
            c.deep_view().pool_status_path is None,
            !c.deep_view().disable_local_config,
            !c.deep_view().disable_update_check,
            c.deep_view().tools.len() == 0,
            c.deep_view().ignore_hosts.len() == 0,
            c.deep_view().allow_hosts.len() == 0,
            c.deep_view().groups.len() == 0,
            c.deep_view().custom_tools.len() == 0,
    {
        let c = Config {
            pool_status_path: None,
            disable_local_config: false,
            disable_update_check: false,
            tools: StrMap::new(),
            ignore_hosts: Vec::new(),
            allow_hosts: Vec::new(),
            groups: StrMap::new(),
            custom_tools: Vec::new(),
        };
        assert(c.ignore_hosts.deep_view() =~= Seq::<Seq<char>>::empty());
        assert(c.allow_hosts.deep_view() =~= Seq::<Seq<char>>::empty());
        assert(c.custom_tools.deep_view() =~= Seq::<LegacySpec>::empty());
        c
    }
}

// ---------------------------------------------------------------------------
// Errors
// ---------------------------------------------------------------------------

/// Why a configuration is refused.
#[derive(Debug)]
pub enum ConfigError {
    ShellStringWithoutAllowShell { tool: String },
    ArrayWithAllowShell { tool: String },
    UndefinedParam { tool: String, param: String },
    UnknownValidation { tool: String, param: String, rule: String },
    GroupClash { group: String },
}

pub enum ConfigErrorSpec {
    ShellStringWithoutAllowShell { tool: Seq<char> },
    ArrayWithAllowShell { tool: Seq<char> },
    UndefinedParam { tool: Seq<char>, param: Seq<char> },
    UnknownValidation { tool: Seq<char>, param: Seq<char>, rule: Seq<char> },
    GroupClash { group: Seq<char> },
}

impl DeepView for ConfigError {
    type V = ConfigErrorSpec;

    open spec fn deep_view(&self) -> ConfigErrorSpec {
        match self {
            ConfigError::ShellStringWithoutAllowShell { tool } => ConfigErrorSpec::ShellStringWithoutAllowShell {
                tool: tool@,
            },
            ConfigError::ArrayWithAllowShell { tool } => ConfigErrorSpec::ArrayWithAllowShell {
                tool: tool@,
            },
            ConfigError::UndefinedParam { tool, param } => ConfigErrorSpec::UndefinedParam {
                tool: tool@,
                param: param@,
            },
            ConfigError::UnknownValidation { tool, param, rule } => ConfigErrorSpec::UnknownValidation {
                tool: tool@,
                param: param@,
                rule: rule@,
            },
            ConfigError::GroupClash { group } => ConfigErrorSpec::GroupClash { group: group@ },
        }
    }
}

pub open spec fn config_error_message(e: ConfigErrorSpec) -> Seq<char> {
    match e {
        ConfigErrorSpec::ShellStringWithoutAllowShell { tool } => "Tool '"@ + tool
            + "': command is a string, but allow_shell is false. A string command requires allow_shell = true."@,
        ConfigErrorSpec::ArrayWithAllowShell { tool } => "Tool '"@ + tool
            + "': command is an array, but allow_shell is true. An array command requires allow_shell = false."@,
        ConfigErrorSpec::UndefinedParam { tool, param } => "Tool '"@ + tool + "': parameter '"@
            + param
            + "' is used in the command template but not defined in the params block."@,
        ConfigErrorSpec::UnknownValidation { tool, param, rule } => "Tool '"@ + tool
            + "': parameter '"@ + param + "' has unrecognized validation type '"@ + rule
            + "'. Supported types are: strict, path, permissive."@,
        ConfigErrorSpec::GroupClash { group } => "Configuration Error: Group name '"@ + group
            + "' clashes with an existing SSH host alias."@,
    }
}

impl ConfigError {
    /// The text that explains the error to the user.
    pub fn message(&self) -> (r: String)
        ensures
            r@ == config_error_message(self.deep_view()),
    {
        match self {
            ConfigError::ShellStringWithoutAllowShell { tool } => {
                let mut r = String::from_str("Tool '");
                r.append(tool.as_str());
                r.append(
                    "': command is a string, but allow_shell is false. A string command requires allow_shell = true.",
                );
                r
            },
            ConfigError::ArrayWithAllowShell { tool } => {
                let mut r = String::from_str("Tool '");
                r.append(tool.as_str());
                r.append(
                    "': command is an array, but allow_shell is true. An array command requires allow_shell = false.",
                );
                r
            },
            ConfigError::UndefinedParam { tool, param } => {
                let mut r = String::from_str("Tool '");
                r.append(tool.as_str());
                r.append("': parameter '");
                r.append(param.as_str());
                r.append("' is used in the command template but not defined in the params block.");
                r
            },
            ConfigError::UnknownValidation { tool, param, rule } => {
                let mut r = String::from_str("Tool '");
                r.append(tool.as_str());
                r.append("': parameter '");
                r.append(param.as_str());
                r.append("' has unrecognized validation type '");
                r.append(rule.as_str());
                r.append("'. Supported types are: strict, path, permissive.");
                r
            },
            ConfigError::GroupClash { group } => {
                let mut r = String::from_str("Configuration Error: Group name '");
                r.append(group.as_str());
                r.append("' clashes with an existing SSH host alias.");
                r
            },
        }
    }
}

// ---------------------------------------------------------------------------
// Validation
// ---------------------------------------------------------------------------

/// The first name that the parameter list does not define.
pub open spec fn first_undefined(names: Seq<Seq<char>>, params: Seq<(Seq<char>, Seq<char>)>) -> Option<
    Seq<char>,
>
    decreases names.len(),
{
    if names.len() == 0 {
        None
    } else if !al_contains(params, names[0]) {
        Some(names[0])
    } else {
        first_undefined(names.drop_first(), params)
    }
}

/// The first undefined placeholder over all arguments, in order.
pub open spec fn first_undefined_in_args(
    args: Seq<Seq<char>>,
    params: Seq<(Seq<char>, Seq<char>)>,
) -> Option<Seq<char>>
    decreases args.len(),
{
    if args.len() == 0 {
        None
    } else {
        match first_undefined(placeholder_names(args[0]), params) {
            Some(n) => Some(n),
            None => first_undefined_in_args(args.drop_first(), params),
        }
    }
}

pub open spec fn known_rule(r: Seq<char>) -> bool {
    r == "strict"@ || r == "path"@ || r == "permissive"@
}

/// The first parameter whose rule is none of `strict`, `path`, `permissive`.
pub open spec fn first_unknown_rule(params: Seq<(Seq<char>, Seq<char>)>) -> Option<
    (Seq<char>, Seq<char>),
>
    decreases params.len(),
{
    if params.len() == 0 {
        None
    } else if !known_rule(params[0].1) {
        Some(params[0])
    } else {
        first_unknown_rule(params.drop_first())
    }
}

/// What is wrong with a tool, checked in the order: command form against
/// `allow_shell`, placeholders against the parameters, parameter rules.
pub open spec fn spec_tool_check(t: ToolSpec, name: Seq<char>) -> Option<ConfigErrorSpec> {
    let undefined = match t.command {
        CommandSpec::Simple(c) => first_undefined(placeholder_names(c), t.params),
        CommandSpec::Array(a) => first_undefined_in_args(a, t.params),
    };
    if (t.command is Simple) && !t.allow_shell {
        Some(ConfigErrorSpec::ShellStringWithoutAllowShell { tool: name })
    } else if (t.command is Array) && t.allow_shell {
        Some(ConfigErrorSpec::ArrayWithAllowShell { tool: name })
    } else if undefined is Some {
        Some(ConfigErrorSpec::UndefinedParam { tool: name, param: undefined->0 })
    } else {
        match first_unknown_rule(t.params) {
            Some((p, r)) => Some(ConfigErrorSpec::UnknownValidation { tool: name, param: p, rule: r }),
            None => None,
        }
    }
}

fn first_undefined_exec(names: &Vec<String>, params: &StrMap<ParamInfo>) -> (r: Option<String>)
    ensures
        match r {
            Some(n) => first_undefined(names.deep_view(), params.deep_view()) == Some(n@),
            None => first_undefined(names.deep_view(), params.deep_view()) is None,
        },
{
    let ghost d = names.deep_view();
    let mut i: usize = 0;
    assert(d.skip(0) =~= d);
    while i < names.len()
        invariant
            i <= names@.len(),
            d == names.deep_view(),
            d.len() == names@.len(),
            first_undefined(d, params.deep_view()) == first_undefined(d.skip(i as int), params.deep_view()),
        decreases names.len() - i,
    {
        assert(d.skip(i as int).drop_first() =~= d.skip(i + 1));
        assert(d.skip(i as int)[0] == names@[i as int]@);
        if !params.contains_key(names[i].as_str()) {
            return Some(names[i].clone());
        }
        i = i + 1;
    }
    assert(d.skip(i as int) =~= Seq::<Seq<char>>::empty());
    None
}

fn first_unknown_rule_exec(params: &StrMap<ParamInfo>) -> (r: Option<(String, String)>)
    ensures
        match r {
            Some((p, rule)) => first_unknown_rule(params.deep_view()) == Some((p@, rule@)),
            None => first_unknown_rule(params.deep_view()) is None,
        },
{
    let ghost d = params.deep_view();
    let strict = to_chars("strict");
    let path = to_chars("path");
    let permissive = to_chars("permissive");
    let mut i: usize = 0;
    assert(d.skip(0) =~= d);
    while i < params.len()
        invariant
            i <= d.len(),
            d == params.deep_view(),
            strict@ == "strict"@,
            path@ == "path"@,
            permissive@ == "permissive"@,
            first_unknown_rule(d) == first_unknown_rule(d.skip(i as int)),
        decreases d.len() - i,
    {
        assert(d.skip(i as int).drop_first() =~= d.skip(i + 1));
        assert(d.skip(i as int)[0] == d[i as int]);
        let rule = to_chars(params.value_at(i).validation.as_str());
        if !(chars_eq(rule.as_slice(), strict.as_slice()) || chars_eq(rule.as_slice(), path.as_slice())
            || chars_eq(rule.as_slice(), permissive.as_slice())) {
            let name = params.key_at(i).clone();
            let r = params.value_at(i).validation.clone();
            return Some((name, r));
        }
        i = i + 1;
    }
    assert(d.skip(i as int) =~= Seq::<(Seq<char>, Seq<char>)>::empty());
    None
}

impl PreparedTool {
    /// Checks that the command form agrees with `allow_shell`, that every
    /// placeholder is a defined parameter and that every rule is known.
    pub fn validate(&self, tool_name: &str) -> (r: Result<(), ConfigError>)
        ensures
            match r {
                Ok(()) => spec_tool_check(self.deep_view(), tool_name@) is None,
                Err(e) => spec_tool_check(self.deep_view(), tool_name@) == Some(e.deep_view()),
            },
    {
        let name = String::from_str(tool_name);
        match &self.command {
            CommandTemplate::Simple(cmd) => {
                if !self.allow_shell {
                    return Err(ConfigError::ShellStringWithoutAllowShell { tool: name });
                }
                let names = extract_placeholders(cmd.as_str());
                if let Some(p) = first_undefined_exec(&names, &self.params) {
                    return Err(ConfigError::UndefinedParam { tool: name, param: p });
                }
            },
            CommandTemplate::Array(args) => {
                if self.allow_shell {
                    return Err(ConfigError::ArrayWithAllowShell { tool: name });
                }
                let ghost a = args.deep_view();
                let mut i: usize = 0;
                assert(a.skip(0) =~= a);
                while i < args.len()
                    invariant
                        i <= args@.len(),
                        a == args.deep_view(),
                        a.len() == args@.len(),
                        self.command.deep_view() == CommandSpec::Array(a),
                        !self.allow_shell,
                        name@ == tool_name@,
                        first_undefined_in_args(a, self.params.deep_view())
                            == first_undefined_in_args(a.skip(i as int), self.params.deep_view()),
                    decreases args.len() - i,
                {
                    assert(a.skip(i as int).drop_first() =~= a.skip(i + 1));
                    assert(a.skip(i as int)[0] == args@[i as int]@);
                    let names = extract_placeholders(args[i].as_str());
                    if let Some(p) = first_undefined_exec(&names, &self.params) {
                        return Err(ConfigError::UndefinedParam { tool: name, param: p });
                    }
                    i = i + 1;
                }
                assert(a.skip(i as int) =~= Seq::<Seq<char>>::empty());
            },
        }
        match first_unknown_rule_exec(&self.params) {
            Some((p, rule)) => Err(ConfigError::UnknownValidation { tool: name, param: p, rule }),
            None => Ok(()),
        }
    }
}


/// The first tool, in order, that fails its check.
pub open spec fn first_tool_error(tools: Seq<(Seq<char>, ToolSpec)>) -> Option<ConfigErrorSpec>
    decreases tools.len(),
{
    if tools.len() == 0 {
        None
    } else {
        match spec_tool_check(tools[0].1, tools[0].0) {
            Some(e) => Some(e),
            None => first_tool_error(tools.drop_first()),
        }
    }
}

pub open spec fn lowered(hosts: Seq<Seq<char>>) -> Seq<Seq<char>> {
    hosts.map_values(|h: Seq<char>| spec_lowercase(h))
}

/// The first group whose name, lower-cased, is also a lower-cased host alias.
pub open spec fn first_clash(groups: Seq<(Seq<char>, Seq<Seq<char>>)>, lower_hosts: Seq<Seq<char>>) -> Option<
    Seq<char>,
>
    decreases groups.len(),
{
    if groups.len() == 0 {
        None
    } else if lower_hosts.contains(spec_lowercase(groups[0].0)) {
        Some(groups[0].0)
    } else {
        first_clash(groups.drop_first(), lower_hosts)
    }
}

/// What is wrong with a configuration, given the host aliases of the SSH
/// configuration: the first failing tool, else the first group that clashes
/// with an alias.
pub open spec fn spec_config_check(c: ConfigSpec, ssh_hosts: Seq<Seq<char>>) -> Option<ConfigErrorSpec> {
    match first_tool_error(c.tools) {
        Some(e) => Some(e),
        None => match first_clash(c.groups, lowered(ssh_hosts)) {
            Some(g) => Some(ConfigErrorSpec::GroupClash { group: g }),
            None => None,
        },
    }
}

/// Whether `v` holds `s` (as characters).
pub fn contains_string(v: &Vec<String>, s: &String) -> (r: bool)
    ensures
        r == v.deep_view().contains(s@),
{
    let sc = to_chars(s.as_str());
    let mut i: usize = 0;
    while i < v.len()
        invariant
            i <= v@.len(),
            sc@ == s@,
            forall|j: int| 0 <= j < i ==> v.deep_view()[j] != s@,
        decreases v.len() - i,
    {
        let c = to_chars(v[i].as_str());
        if chars_eq(c.as_slice(), sc.as_slice()) {
            assert(v.deep_view()[i as int] == s@);
            return true;
        }
        i = i + 1;
    }
    false
}

/// A copy of a list of strings.
pub fn copy_strings(v: &Vec<String>) -> (r: Vec<String>)
    ensures
        r.deep_view() == v.deep_view(),
{
    let mut r: Vec<String> = Vec::new();
    let mut i: usize = 0;
    while i < v.len()
        invariant
            i <= v@.len(),
            r.deep_view() == v.deep_view().take(i as int),
        decreases v.len() - i,
    {
        let ghost before = r.deep_view();
        r.push(v[i].clone());
        assert(r.deep_view() =~= before.push(v@[i as int]@));
        assert(v.deep_view().take(i + 1) =~= v.deep_view().take(i as int).push(v@[i as int]@));
        i = i + 1;
    }
    assert(v.deep_view().take(v@.len() as int) =~= v.deep_view());
    r
}

impl Config {
    /// Checks every tool, then that no group name clashes (ignoring case)
    /// with one of the SSH host aliases `ssh_hosts`.
    pub fn validate(&self, ssh_hosts: &Vec<String>) -> (r: Result<(), ConfigError>)
        ensures
            match r {
                Ok(()) => spec_config_check(self.deep_view(), ssh_hosts.deep_view()) is None,
                Err(e) => spec_config_check(self.deep_view(), ssh_hosts.deep_view()) == Some(
                    e.deep_view(),
                ),
            },
    {
        let ghost tools = self.tools.deep_view();
        let mut i: usize = 0;
        assert(tools.skip(0) =~= tools);
        while i < self.tools.len()
            invariant
                i <= tools.len(),
                tools == self.tools.deep_view(),
                first_tool_error(tools) == first_tool_error(tools.skip(i as int)),
            decreases tools.len() - i,
        {
            assert(tools.skip(i as int).drop_first() =~= tools.skip(i + 1));
            assert(tools.skip(i as int)[0] == tools[i as int]);
            let name = self.tools.key_at(i);
            let tool = self.tools.value_at(i);
            match tool.validate(name.as_str()) {
                Err(e) => {
                    return Err(e);
                },
                Ok(()) => {},
            }
            i = i + 1;
        }
        assert(tools.skip(i as int) =~= Seq::<(Seq<char>, ToolSpec)>::empty());
        let ghost hs = ssh_hosts.deep_view();
        let mut lower: Vec<Vec<char>> = Vec::new();
        let mut j: usize = 0;
        while j < ssh_hosts.len()
            invariant
                j <= ssh_hosts@.len(),
                hs == ssh_hosts.deep_view(),
                crate::text::vv(lower@) == lowered(hs).take(j as int),
            decreases ssh_hosts.len() - j,
        {
            let l = to_lowercase(ssh_hosts[j].as_str());
            let lc = to_chars(l.as_str());
            proof {
                crate::text::lemma_vv_push(lower@, lc);
                assert(lowered(hs).take(j + 1) =~= lowered(hs).take(j as int).push(
                    spec_lowercase(hs[j as int]),
                ));
            }
            lower.push(lc);
            j = j + 1;
        }
        assert(lowered(hs).take(hs.len() as int) =~= lowered(hs));
        let ghost groups = self.groups.deep_view();
        let mut g: usize = 0;
        assert(groups.skip(0) =~= groups);
        while g < self.groups.len()
            invariant
                g <= groups.len(),
                groups == self.groups.deep_view(),
                crate::text::vv(lower@) == lowered(hs),
                tools == self.tools.deep_view(),
                hs == ssh_hosts.deep_view(),
                first_tool_error(tools) is None,
                first_clash(groups, lowered(hs)) == first_clash(groups.skip(g as int), lowered(hs)),
            decreases groups.len() - g,
        {
            assert(groups.skip(g as int).drop_first() =~= groups.skip(g + 1));
            assert(groups.skip(g as int)[0] == groups[g as int]);
            let name = self.groups.key_at(g);
            let ln = to_lowercase(name.as_str());
            let lnc = to_chars(ln.as_str());
            let mut k: usize = 0;
            let mut found = false;
            while k < lower.len()
                invariant
                    k <= lower@.len(),
                    crate::text::vv(lower@) == lowered(hs),
                    found == exists|m: int| 0 <= m < k && lowered(hs)[m] == lnc@,
                decreases lower.len() - k,
            {
                assert(crate::text::vv(lower@)[k as int] == lower@[k as int]@);
                if chars_eq(lower[k].as_slice(), lnc.as_slice()) {
                    found = true;
                }
                k = k + 1;
            }
            if found {
                assert(lowered(hs).contains(spec_lowercase(groups[g as int].0)));
                return Err(ConfigError::GroupClash { group: name.clone() });
            }
            g = g + 1;
        }
        assert(groups.skip(g as int) =~= Seq::<(Seq<char>, Seq<Seq<char>>)>::empty());
        Ok(())
    }
}

// ---------------------------------------------------------------------------
// Merging a project-local configuration into the global one
// ---------------------------------------------------------------------------

/// How strict a rule is: `strict` 1, `path` 2, anything else 3.
pub open spec fn rule_level(v: Seq<char>) -> int {
    if v == "strict"@ {
        1
    } else if v == "path"@ {
        2
    } else {
        3
    }
}

pub fn validation_level(v: &str) -> (r: i32)
    ensures
        r == rule_level(v@),
{
    let c = to_chars(v);
    let strict = to_chars("strict");
    let path = to_chars("path");
    if chars_eq(c.as_slice(), strict.as_slice()) {
        1
    } else if chars_eq(c.as_slice(), path.as_slice()) {
        2
    } else {
        3
    }
}

/// The rule kept for a global parameter: the local one only when stricter.
pub open spec fn stricter_rule(g: Seq<char>, l: Option<Seq<char>>) -> Seq<char> {
    match l {
        Some(lv) => if rule_level(lv) < rule_level(g) {
            lv
        } else {
            g
        },
        None => g,
    }
}

pub open spec fn merge_params_untrusted(
    gp: Seq<(Seq<char>, Seq<char>)>,
    lp: Seq<(Seq<char>, Seq<char>)>,
) -> Seq<(Seq<char>, Seq<char>)> {
    gp.map_values(|e: (Seq<char>, Seq<char>)| (e.0, stricter_rule(e.1, al_get(lp, e.0))))
}

/// The entries of `l` that also occur in `g`, in the order of `l`.
pub open spec fn keep_in(l: Seq<Seq<char>>, g: Seq<Seq<char>>) -> Seq<Seq<char>>
    decreases l.len(),
{
    if l.len() == 0 {
        Seq::empty()
    } else {
        let p = keep_in(l.drop_last(), g);
        if g.contains(l.last()) {
            p.push(l.last())
        } else {
            p
        }
    }
}

/// The allow list that blocks every host when an untrusted narrowing leaves
/// nothing in common.
pub open spec fn blocked_marker() -> Seq<char> {
    "untrusted_empty_intersection_blocked"@
}

/// An untrusted local allow list can only narrow the global one.
pub open spec fn merge_allow_untrusted(g: Seq<Seq<char>>, l: Seq<Seq<char>>) -> Seq<Seq<char>> {
    if g.len() == 0 {
        if l.len() > 0 {
            l
        } else {
            g
        }
    } else if l.len() == 0 {
        g
    } else {
        let i = keep_in(l, g);
        if i.len() == 0 {
            seq![blocked_marker()]
        } else {
            i
        }
    }
}

pub open spec fn merge_tool_untrusted(g: ToolSpec, l: ToolSpec) -> ToolSpec {
    ToolSpec {
        description: g.description,
        command: g.command,
        allow_shell: g.allow_shell && l.allow_shell,
        allow_hosts: merge_allow_untrusted(g.allow_hosts, l.allow_hosts),
        params: merge_params_untrusted(g.params, l.params),
    }
}

pub open spec fn merge_tools_untrusted(
    gt: Seq<(Seq<char>, ToolSpec)>,
    lt: Seq<(Seq<char>, ToolSpec)>,
) -> Seq<(Seq<char>, ToolSpec)> {
    gt.map_values(
        |e: (Seq<char>, ToolSpec)|
            (
                e.0,
                match al_get(lt, e.0) {
                    Some(l) => merge_tool_untrusted(e.1, l),
                    None => e.1,
                },
            ),
    )
}

/// `g` with each pair of `l` inserted in turn.
pub open spec fn insert_all<T>(g: Seq<(Seq<char>, T)>, l: Seq<(Seq<char>, T)>) -> Seq<(Seq<char>, T)>
    decreases l.len(),
{
    if l.len() == 0 {
        g
    } else {
        let p = insert_all(g, l.drop_last());
        al_insert(p, l.last().0, l.last().1)
    }
}

/// `g` followed by each entry of `l` that is not yet present.
pub open spec fn append_unique(g: Seq<Seq<char>>, l: Seq<Seq<char>>) -> Seq<Seq<char>>
    decreases l.len(),
{
    if l.len() == 0 {
        g
    } else {
        let p = append_unique(g, l.drop_last());
        if p.contains(l.last()) {
            p
        } else {
            p.push(l.last())
        }
    }
}

/// The configuration in force when a local one is found next to the global
/// one. A trusted local file adds and replaces tools and extends the host
/// lists; an untrusted one can only make existing tools stricter. Groups are
/// taken from the local file in both cases.
pub open spec fn spec_merge(g: ConfigSpec, l: ConfigSpec, trusted: bool) -> ConfigSpec {
    ConfigSpec {
        pool_status_path: g.pool_status_path,
        disable_local_config: g.disable_local_config,
        disable_update_check: g.disable_update_check,
        tools: if trusted {
            insert_all(g.tools, l.tools)
        } else {
            merge_tools_untrusted(g.tools, l.tools)
        },
        ignore_hosts: if trusted {
            append_unique(g.ignore_hosts, l.ignore_hosts)
        } else {
            g.ignore_hosts
        },
        allow_hosts: if trusted {
            append_unique(g.allow_hosts, l.allow_hosts)
        } else {
            g.allow_hosts
        },
        groups: insert_all(g.groups, l.groups),
        custom_tools: g.custom_tools,
    }
}

fn merge_allow_exec(g: Vec<String>, l: &Vec<String>) -> (r: Vec<String>)
    ensures
        r.deep_view() == merge_allow_untrusted(g.deep_view(), l.deep_view()),
{
    if g.len() == 0 {
        if l.len() > 0 {
            copy_strings(l)
        } else {
            g
        }
    } else if l.len() == 0 {
        g
    } else {
        let ghost ld = l.deep_view();
        let ghost gd = g.deep_view();
        let mut inter: Vec<String> = Vec::new();
        let mut i: usize = 0;
        assert(inter.deep_view() =~= keep_in(ld.take(0), gd));
        while i < l.len()
            invariant
                i <= l@.len(),
                ld == l.deep_view(),
                gd == g.deep_view(),
                inter.deep_view() == keep_in(ld.take(i as int), gd),
            decreases l.len() - i,
        {
            assert(ld.take(i + 1).drop_last() =~= ld.take(i as int));
            assert(ld.take(i + 1).last() == l@[i as int]@);
            if contains_string(&g, &l[i]) {
                let ghost before = inter.deep_view();
                inter.push(l[i].clone());
                assert(inter.deep_view() =~= before.push(l@[i as int]@));
            }
            i = i + 1;
        }
        assert(ld.take(l@.len() as int) =~= ld);
        if inter.len() == 0 {
            let mut v: Vec<String> = Vec::new();
            v.push(String::from_str("untrusted_empty_intersection_blocked"));
            assert(v.deep_view() =~= seq![blocked_marker()]);
            v
        } else {
            inter
        }
    }
}

fn merge_tool_untrusted_exec(g: PreparedTool, l: &PreparedTool) -> (r: PreparedTool)
    ensures
        r.deep_view() == merge_tool_untrusted(g.deep_view(), l.deep_view()),
{
    let ghost g0 = g.deep_view();
    let mut g = g;
    g.allow_shell = g.allow_shell && l.allow_shell;
    let mut hosts: Vec<String> = Vec::new();
    std::mem::swap(&mut hosts, &mut g.allow_hosts);
    proof {
        assert(hosts.deep_view() == g0.allow_hosts);
    }
    g.allow_hosts = merge_allow_exec(hosts, &l.allow_hosts);
    let ghost gp = g0.params;
    let ghost lp = l.params.deep_view();
    let ghost target = merge_params_untrusted(gp, lp);
    let mut i: usize = 0;
    assert(g.params.deep_view() =~= target.take(0) + gp.skip(0));
    while i < g.params.len()
        invariant
            gp.len() == target.len(),
            i <= gp.len(),
            g.params.deep_view() == target.take(i as int) + gp.skip(i as int),
            lp == l.params.deep_view(),
            target == merge_params_untrusted(gp, lp),
            g.description@ == g0.description,
            g.command.deep_view() == g0.command,
            g.allow_shell == (g0.allow_shell && l.allow_shell),
            g.allow_hosts.deep_view() == merge_allow_untrusted(
                g0.allow_hosts,
                l.allow_hosts.deep_view(),
            ),
        decreases gp.len() - i,
    {
        let ghost before = g.params.deep_view();
        assert(before[i as int] == gp[i as int]);
        let (name, info) = g.params.remove_at(i);
        let new_info = match l.params.get(name.as_str()) {
            Some(local_info) => {
                let gl = validation_level(info.validation.as_str());
                let ll = validation_level(local_info.validation.as_str());
                if ll < gl {
                    ParamInfo { validation: local_info.validation.clone() }
                } else {
                    info
                }
            },
            None => info,
        };
        assert(new_info.deep_view() == target[i as int].1);
        g.params.insert_at(i, name, new_info);
        assert(g.params.deep_view() =~= target.take(i + 1) + gp.skip(i + 1));
        i = i + 1;
    }
    assert(g.params.deep_view() =~= target);
    assert(g.deep_view() =~= merge_tool_untrusted(g0, l.deep_view()));
    g
}

/// Merges a local configuration into the global one. A trusted local file
/// may add and replace tools and extend the host boundaries; an untrusted one
/// can only tighten the tools that the global file already defines (shell
/// access, allowed hosts, parameter rules). Local groups are taken in both
/// cases.
pub fn merge_configs(global: Config, local: Config, trusted: bool) -> (r: Config)
    ensures
        r.deep_view() == spec_merge(global.deep_view(), local.deep_view(), trusted),
        al_unique(r.deep_view().tools),
        al_unique(r.deep_view().groups),
{
    let ghost g0 = global.deep_view();
    let ghost l0 = local.deep_view();
    let ghost g0_path = global.pool_status_path;
    let mut global = global;
    let mut local = local;
    if trusted {
        let mut k: usize = 0;
        let n = local.tools.len();
        assert(l0.tools.take(0) =~= Seq::<(Seq<char>, ToolSpec)>::empty());
        assert(local.tools.deep_view() =~= l0.tools.skip(0));
        while k < n
            invariant
                n == l0.tools.len(),
                k <= n,
                local.tools.deep_view() == l0.tools.skip(k as int),
                global.tools.deep_view() == insert_all(g0.tools, l0.tools.take(k as int)),
                global.ignore_hosts.deep_view() == g0.ignore_hosts,
                global.allow_hosts.deep_view() == g0.allow_hosts,
                global.groups.deep_view() == g0.groups,
                local.ignore_hosts.deep_view() == l0.ignore_hosts,
                local.allow_hosts.deep_view() == l0.allow_hosts,
                local.groups.deep_view() == l0.groups,
                global.pool_status_path == g0_path,
                global.disable_local_config == g0.disable_local_config,
                global.disable_update_check == g0.disable_update_check,
                global.custom_tools.deep_view() == g0.custom_tools,
            decreases n - k,
        {
            let (name, tool) = local.tools.remove_at(0);
            global.tools.insert(name, tool);
            assert(l0.tools.take(k + 1).drop_last() =~= l0.tools.take(k as int));
            assert(l0.tools.skip(k as int).remove(0) =~= l0.tools.skip(k + 1));
            k = k + 1;
        }
        assert(l0.tools.take(n as int) =~= l0.tools);
        let mut j: usize = 0;
        assert(l0.ignore_hosts.take(0) =~= Seq::<Seq<char>>::empty());
        while j < local.ignore_hosts.len()
            invariant
                j <= l0.ignore_hosts.len(),
                local.ignore_hosts.deep_view() == l0.ignore_hosts,
                global.ignore_hosts.deep_view() == append_unique(
                    g0.ignore_hosts,
                    l0.ignore_hosts.take(j as int),
                ),
                global.tools.deep_view() == insert_all(g0.tools, l0.tools),
                global.allow_hosts.deep_view() == g0.allow_hosts,
                global.groups.deep_view() == g0.groups,
                local.allow_hosts.deep_view() == l0.allow_hosts,
                local.groups.deep_view() == l0.groups,
                global.pool_status_path == g0_path,
                global.disable_local_config == g0.disable_local_config,
                global.disable_update_check == g0.disable_update_check,
                global.custom_tools.deep_view() == g0.custom_tools,
            decreases l0.ignore_hosts.len() - j,
        {
            assert(l0.ignore_hosts.take(j + 1).drop_last() =~= l0.ignore_hosts.take(j as int));
            assert(l0.ignore_hosts[j as int] == local.ignore_hosts@[j as int]@);
            if !contains_string(&global.ignore_hosts, &local.ignore_hosts[j]) {
                let ghost before = global.ignore_hosts.deep_view();
                global.ignore_hosts.push(local.ignore_hosts[j].clone());
                assert(global.ignore_hosts.deep_view() =~= before.push(
                    local.ignore_hosts@[j as int]@,
                ));
            }
            j = j + 1;
        }
        assert(l0.ignore_hosts.take(l0.ignore_hosts.len() as int) =~= l0.ignore_hosts);
        let mut j: usize = 0;
        assert(l0.allow_hosts.take(0) =~= Seq::<Seq<char>>::empty());
        while j < local.allow_hosts.len()
            invariant
                j <= l0.allow_hosts.len(),
                local.allow_hosts.deep_view() == l0.allow_hosts,
                global.allow_hosts.deep_view() == append_unique(
                    g0.allow_hosts,
                    l0.allow_hosts.take(j as int),
                ),
                global.tools.deep_view() == insert_all(g0.tools, l0.tools),
                global.ignore_hosts.deep_view() == append_unique(g0.ignore_hosts, l0.ignore_hosts),
                global.groups.deep_view() == g0.groups,
                local.groups.deep_view() == l0.groups,
                global.pool_status_path == g0_path,
                global.disable_local_config == g0.disable_local_config,
                global.disable_update_check == g0.disable_update_check,
                global.custom_tools.deep_view() == g0.custom_tools,
            decreases l0.allow_hosts.len() - j,
        {
            assert(l0.allow_hosts.take(j + 1).drop_last() =~= l0.allow_hosts.take(j as int));
            assert(l0.allow_hosts[j as int] == local.allow_hosts@[j as int]@);
            if !contains_string(&global.allow_hosts, &local.allow_hosts[j]) {
                let ghost before = global.allow_hosts.deep_view();
                global.allow_hosts.push(local.allow_hosts[j].clone());
                assert(global.allow_hosts.deep_view() =~= before.push(
                    local.allow_hosts@[j as int]@,
                ));
            }
            j = j + 1;
        }
        assert(l0.allow_hosts.take(l0.allow_hosts.len() as int) =~= l0.allow_hosts);
    } else {
        let ghost target = merge_tools_untrusted(g0.tools, l0.tools);
        let mut i: usize = 0;
        let n = global.tools.len();
        assert(global.tools.deep_view() =~= target.take(0) + g0.tools.skip(0));
        while i < n
            invariant
                n == g0.tools.len(),
                target.len() == n,
                i <= n,
                target == merge_tools_untrusted(g0.tools, l0.tools),
                global.tools.deep_view() == target.take(i as int) + g0.tools.skip(i as int),
                local.tools.deep_view() == l0.tools,
                global.ignore_hosts.deep_view() == g0.ignore_hosts,
                global.allow_hosts.deep_view() == g0.allow_hosts,
                global.groups.deep_view() == g0.groups,
                local.groups.deep_view() == l0.groups,
                global.pool_status_path == g0_path,
                global.disable_local_config == g0.disable_local_config,
                global.disable_update_check == g0.disable_update_check,
                global.custom_tools.deep_view() == g0.custom_tools,
            decreases n - i,
        {
            let ghost before = global.tools.deep_view();
            assert(before[i as int] == g0.tools[i as int]);
            let (name, tool) = global.tools.remove_at(i);
            let merged = match local.tools.get(name.as_str()) {
                Some(l) => merge_tool_untrusted_exec(tool, l),
                None => tool,
            };
            assert(merged.deep_view() == target[i as int].1);
            global.tools.insert_at(i, name, merged);
            assert(global.tools.deep_view() =~= target.take(i + 1) + g0.tools.skip(i + 1));
            i = i + 1;
        }
        assert(global.tools.deep_view() =~= target);
    }
    let mut k: usize = 0;
    let n = local.groups.len();
    assert(l0.groups.take(0) =~= Seq::<(Seq<char>, Seq<Seq<char>>)>::empty());
    assert(local.groups.deep_view() =~= l0.groups.skip(0));
    while k < n
        invariant
            n == l0.groups.len(),
            k <= n,
            local.groups.deep_view() == l0.groups.skip(k as int),
            global.groups.deep_view() == insert_all(g0.groups, l0.groups.take(k as int)),
            global.tools.deep_view() == spec_merge(g0, l0, trusted).tools,
            global.ignore_hosts.deep_view() == spec_merge(g0, l0, trusted).ignore_hosts,
            global.allow_hosts.deep_view() == spec_merge(g0, l0, trusted).allow_hosts,
            global.pool_status_path == g0_path,
            global.disable_local_config == g0.disable_local_config,
            global.disable_update_check == g0.disable_update_check,
            global.custom_tools.deep_view() == g0.custom_tools,
        decreases n - k,
    {
        let (name, members) = local.groups.remove_at(0);
        global.groups.insert(name, members);
        assert(l0.groups.take(k + 1).drop_last() =~= l0.groups.take(k as int));
        assert(l0.groups.skip(k as int).remove(0) =~= l0.groups.skip(k + 1));
        k = k + 1;
    }
    assert(l0.groups.take(n as int) =~= l0.groups);
    assert(global.deep_view() =~= spec_merge(g0, l0, trusted));
    let _ = global.tools.len();
    let _ = global.groups.len();
    global
}


// ---------------------------------------------------------------------------
// Older configuration files
// ---------------------------------------------------------------------------

/// A `[[custom_tools]]` entry as a tool: a shell command, with `{args}`
/// turned into a permissive `{{args}}` parameter when it occurs.
pub open spec fn migrated_tool(c: LegacySpec) -> ToolSpec {
    let has_args = contains(c.command, "{args}"@);
    ToolSpec {
        description: c.description,
        command: CommandSpec::Simple(
            if has_args {
                replace_all(c.command, "{args}"@, "{{args}}"@)
            } else {
                c.command
            },
        ),
        allow_shell: true,
        allow_hosts: Seq::empty(),
        params: if has_args {
            seq![("args"@, "permissive"@)]
        } else {
            Seq::empty()
        },
    }
}

pub open spec fn migrate_tools(tools: Seq<(Seq<char>, ToolSpec)>, legacy: Seq<LegacySpec>) -> Seq<
    (Seq<char>, ToolSpec),
>
    decreases legacy.len(),
{
    if legacy.len() == 0 {
        tools
    } else {
        let prev = migrate_tools(tools, legacy.drop_last());
        al_insert(prev, legacy.last().name, migrated_tool(legacy.last()))
    }
}

/// The configuration with its legacy tools moved into `tools`.
pub open spec fn spec_migrate(c: ConfigSpec) -> ConfigSpec {
    if c.custom_tools.len() == 0 {
        c
    } else {
        ConfigSpec {
            pool_status_path: c.pool_status_path,
            disable_local_config: c.disable_local_config,
            disable_update_check: c.disable_update_check,
            tools: migrate_tools(c.tools, c.custom_tools),
            ignore_hosts: c.ignore_hosts,
            allow_hosts: c.allow_hosts,
            groups: c.groups,
            custom_tools: Seq::empty(),
        }
    }
}

fn migrated_tool_exec(c: &LegacyCustomTool) -> (t: PreparedTool)
    ensures
        t.deep_view() == migrated_tool(c.deep_view()),
{
    let cs = to_chars(c.command.as_str());
    let pat = to_chars("{args}");
    let has_args = find_chars(cs.as_slice(), pat.as_slice()).is_some();
    let mut params: StrMap<ParamInfo> = StrMap::new();
    let command = if has_args {
        proof {
            reveal_strlit("{args}");
        }
        params.insert("args".to_owned(), ParamInfo { validation: "permissive".to_owned() });
        replace_str(c.command.as_str(), "{args}", "{{args}}")
    } else {
        c.command.clone()
    };
    proof {
        lemma_al_find(Seq::<(Seq<char>, Seq<char>)>::empty(), "args"@);
    }
    let mut no_hosts: Vec<String> = Vec::new();
    assert(no_hosts.deep_view() =~= Seq::<Seq<char>>::empty());
    let t = PreparedTool {
        description: c.description.clone(),
        command: CommandTemplate::Simple(command),
        allow_shell: true,
        allow_hosts: no_hosts,
        params,
    };
    assert(t.deep_view().params =~= migrated_tool(c.deep_view()).params);
    assert(t.deep_view() =~= migrated_tool(c.deep_view()));
    t
}

/// Moves `[[custom_tools]]` entries into `tools` (a later entry replacing
/// an earlier tool of the same name); says whether there were any, so that
/// the caller can write the file back.
pub fn migrate_legacy_tools(cfg: &mut Config) -> (migrated: bool)
    ensures
        migrated == (old(cfg).deep_view().custom_tools.len() > 0),
        final(cfg).deep_view() == spec_migrate(old(cfg).deep_view()),
{
    if cfg.custom_tools.len() == 0 {
        return false;
    }
    let ghost c0 = cfg.deep_view();
    let mut legacy: Vec<LegacyCustomTool> = Vec::new();
    std::mem::swap(&mut legacy, &mut cfg.custom_tools);
    let ghost ld = legacy.deep_view();
    assert(ld == c0.custom_tools);
    let mut i: usize = 0;
    assert(ld.take(0) =~= Seq::<LegacySpec>::empty());
    while i < legacy.len()
        invariant
            ld == legacy.deep_view(),
            i <= ld.len(),
            cfg.tools.deep_view() == migrate_tools(c0.tools, ld.take(i as int)),
            cfg.pool_status_path == old(cfg).pool_status_path,
            cfg.disable_local_config == c0.disable_local_config,
            cfg.disable_update_check == c0.disable_update_check,
            cfg.ignore_hosts.deep_view() == c0.ignore_hosts,
            cfg.allow_hosts.deep_view() == c0.allow_hosts,
            cfg.groups.deep_view() == c0.groups,
            cfg.custom_tools@.len() == 0,
            c0 == old(cfg).deep_view(),
        decreases legacy.len() - i,
    {
        assert(ld.take(i + 1).drop_last() =~= ld.take(i as int));
        assert(ld.take(i + 1).last() == legacy@[i as int].deep_view());
        let t = migrated_tool_exec(&legacy[i]);
        cfg.tools.insert(legacy[i].name.clone(), t);
        i = i + 1;
    }
    assert(ld.take(ld.len() as int) =~= ld);
    assert(cfg.custom_tools.deep_view() =~= Seq::<LegacySpec>::empty());
    assert(cfg.deep_view() =~= spec_migrate(c0));
    true
}

/// Options given on the command line that change where configuration
/// comes from.
#[derive(Debug, Clone)]
pub struct CliOverride {
    pub config_path: Option<String>,
    pub no_global: bool,
}

/// Where the local configuration is looked for.
#[derive(Debug, Clone, PartialEq, Eq)]
pub enum LocalSource {
    Explicit(String),
    SearchUpward,
    Nowhere,
}

/// An explicit `--config` path wins; otherwise the working directory and
/// its parents are searched, unless the global file disables local files.
pub fn local_config_source(config_path: &Option<String>, disable_local_config: bool) -> (r:
    LocalSource)
    ensures
        match config_path {
            Some(p) => r matches LocalSource::Explicit(q) && q@ == p@,
            None => if disable_local_config {
                r == LocalSource::Nowhere
            } else {
                r == LocalSource::SearchUpward
            },
        },
{
    match config_path {
        Some(p) => LocalSource::Explicit(p.clone()),
        None => if disable_local_config {
            LocalSource::Nowhere
        } else {
            LocalSource::SearchUpward
        },
    }
}

// ---------------------------------------------------------------------------
// Laws of merging
// ---------------------------------------------------------------------------

pub proof fn lemma_keep_in_subset(l: Seq<Seq<char>>, g: Seq<Seq<char>>)
    ensures
        forall|i: int| 0 <= i < keep_in(l, g).len() ==> g.contains(#[trigger] keep_in(l, g)[i]),
    decreases l.len(),
{
    if l.len() > 0 {
        lemma_keep_in_subset(l.drop_last(), g);
        let p = keep_in(l.drop_last(), g);
        if g.contains(l.last()) {
            assert forall|i: int| 0 <= i < p.len() + 1 implies g.contains(
                #[trigger] p.push(l.last())[i],
            ) by {
                if i < p.len() {
                    assert(p.push(l.last())[i] == p[i]);
                }
            }
        }
    }
}

/// An untrusted local file never widens a tool: the global tools stay the
/// same tools with the same descriptions, commands and parameters; shell
/// access can only be withdrawn; no parameter rule becomes more lenient; a
/// non-empty allow list stays non-empty and only keeps global patterns (or
/// the pattern that blocks every host); the global host boundaries are kept.
pub proof fn law_untrusted_merge_never_widens(g: ConfigSpec, l: ConfigSpec)
    ensures
        ({
            let m = spec_merge(g, l, false);
            &&& m.tools.len() == g.tools.len()
            &&& m.ignore_hosts == g.ignore_hosts
            &&& m.allow_hosts == g.allow_hosts
            &&& forall|i: int|
                #![trigger m.tools[i]]
                0 <= i < m.tools.len() ==> {
                    let (mk, mt) = m.tools[i];
                    let (gk, gt) = g.tools[i];
                    &&& mk == gk
                    &&& mt.description == gt.description
                    &&& mt.command == gt.command
                    &&& (mt.allow_shell ==> gt.allow_shell)
                    &&& mt.params.len() == gt.params.len()
                    &&& forall|j: int|
                        #![trigger mt.params[j]]
                        0 <= j < mt.params.len() ==> mt.params[j].0 == gt.params[j].0
                            && rule_level(mt.params[j].1) <= rule_level(gt.params[j].1)
                    &&& (gt.allow_hosts.len() > 0 ==> {
                        &&& mt.allow_hosts.len() > 0
                        &&& forall|j: int|
                            #![trigger mt.allow_hosts[j]]
                            0 <= j < mt.allow_hosts.len() ==> gt.allow_hosts.contains(
                                mt.allow_hosts[j],
                            ) || mt.allow_hosts[j] == blocked_marker()
                    })
                }
        }),
{
    let m = spec_merge(g, l, false);
    assert forall|i: int| #![trigger m.tools[i]] 0 <= i < m.tools.len() implies {
        let (mk, mt) = m.tools[i];
        let (gk, gt) = g.tools[i];
        &&& mk == gk
        &&& mt.description == gt.description
        &&& mt.command == gt.command
        &&& (mt.allow_shell ==> gt.allow_shell)
        &&& mt.params.len() == gt.params.len()
        &&& forall|j: int|
            #![trigger mt.params[j]]
            0 <= j < mt.params.len() ==> mt.params[j].0 == gt.params[j].0 && rule_level(
                mt.params[j].1,
            ) <= rule_level(gt.params[j].1)
        &&& (gt.allow_hosts.len() > 0 ==> {
            &&& mt.allow_hosts.len() > 0
            &&& forall|j: int|
                #![trigger mt.allow_hosts[j]]
                0 <= j < mt.allow_hosts.len() ==> gt.allow_hosts.contains(mt.allow_hosts[j])
                    || mt.allow_hosts[j] == blocked_marker()
        })
    } by {
        let gt = g.tools[i].1;
        match al_get(l.tools, g.tools[i].0) {
            Some(lt) => {
                lemma_keep_in_subset(lt.allow_hosts, gt.allow_hosts);
            },
            None => {},
        }
    }
}

pub proof fn lemma_insert_all_get<T>(g: Seq<(Seq<char>, T)>, l: Seq<(Seq<char>, T)>, k: Seq<char>)
    requires
        al_unique(g),
        al_unique(l),
    ensures
        al_unique(insert_all(g, l)),
        al_get(insert_all(g, l), k) == match al_get(l, k) {
            Some(v) => Some(v),
            None => al_get(g, k),
        },
    decreases l.len(),
{
    if l.len() > 0 {
        let l2 = l.drop_last();
        assert(al_unique(l2));
        lemma_insert_all_get(g, l2, k);
        let p = insert_all(g, l2);
        crate::strmap::lemma_al_insert_unique(p, l.last().0, l.last().1);
        lemma_al_find(l, k);
        lemma_al_find(l2, k);
        if k == l.last().0 {
            assert(al_find(l, k) == Some(l.len() - 1));
            assert(al_find(l2, k) is None);
        } else {
            match al_find(l2, k) {
                Some(j) => {
                    assert(l[j].0 == k);
                    assert(al_find(l, k) == Some(j));
                },
                None => {
                    assert forall|m: int| 0 <= m < l.len() implies l[m].0 != k by {
                        if m < l.len() - 1 {
                            assert(l2[m] == l[m]);
                        }
                    }
                    assert(al_find(l, k) is None);
                },
            }
        }
    }
}

/// A trusted local file takes precedence: a tool (or group) that it defines
/// replaces the global one of the same name, and every other global tool
/// (or group) is kept; the merged tools are exactly those of either file,
/// each name once. (The maps of a configuration never repeat a key, which
/// `StrMap` keeps as its type invariant and reports from `len`.)
pub proof fn law_trusted_merge_local_wins(g: ConfigSpec, l: ConfigSpec, name: Seq<char>)
    requires
        al_unique(g.tools),
        al_unique(l.tools),
        al_unique(g.groups),
        al_unique(l.groups),
    ensures
        al_get(spec_merge(g, l, true).tools, name) == match al_get(l.tools, name) {
            Some(t) => Some(t),
            None => al_get(g.tools, name),
        },
        al_get(spec_merge(g, l, true).groups, name) == match al_get(l.groups, name) {
            Some(m) => Some(m),
            None => al_get(g.groups, name),
        },
        al_unique(spec_merge(g, l, true).tools),
        al_contains(spec_merge(g, l, true).tools, name) <==> al_contains(g.tools, name)
            || al_contains(l.tools, name),
{
    lemma_insert_all_get(g.tools, l.tools, name);
    lemma_insert_all_get(g.groups, l.groups, name);
}

pub proof fn lemma_append_unique(g: Seq<Seq<char>>, l: Seq<Seq<char>>)
    ensures
        forall|x: Seq<char>| #[trigger] append_unique(g, l).contains(x) <==> (g.contains(x)
            || l.contains(x)),
        g.no_duplicates() ==> append_unique(g, l).no_duplicates(),
        g.is_prefix_of(append_unique(g, l)),
    decreases l.len(),
{
    if l.len() > 0 {
        let l2 = l.drop_last();
        lemma_append_unique(g, l2);
        let p = append_unique(g, l2);
        let q = p.push(l.last());
        assert forall|x: Seq<char>| #[trigger] l.contains(x) <==> (l2.contains(x) || x == l.last()) by {
            if l.contains(x) {
                let j = choose|j: int| 0 <= j < l.len() && l[j] == x;
                if j < l.len() - 1 {
                    assert(l2[j] == x);
                }
            }
            if l2.contains(x) {
                let j = choose|j: int| 0 <= j < l2.len() && l2[j] == x;
                assert(l[j] == x);
            }
            assert(l[l.len() - 1] == l.last());
        }
        if !p.contains(l.last()) {
            assert forall|x: Seq<char>| #[trigger] q.contains(x) <==> (p.contains(x) || x == l.last()) by {
                if q.contains(x) {
                    let j = choose|j: int| 0 <= j < q.len() && q[j] == x;
                    if j < p.len() {
                        assert(p[j] == x);
                    }
                }
                if p.contains(x) {
                    let j = choose|j: int| 0 <= j < p.len() && p[j] == x;
                    assert(q[j] == x);
                }
                assert(q[p.len() as int] == l.last());
            }
            assert(g.is_prefix_of(q)) by {
                assert forall|i: int| 0 <= i < g.len() implies g[i] == q[i] by {
                    assert(g[i] == p[i]);
                }
            }
            if g.no_duplicates() {
                assert forall|i: int, j: int| 0 <= i < q.len() && 0 <= j < q.len() && i != j implies q[i]
                    != q[j] by {
                    if i == p.len() && j < p.len() {
                        assert(p[j] == q[j]);
                    } else if j == p.len() && i < p.len() {
                        assert(p[i] == q[i]);
                    }
                }
            }
        }
    }
}

/// A trusted local file extends the host boundaries: the merged ignore and
/// allow lists hold exactly the patterns of either file, the global ones
/// first, and no pattern twice when the global list had none twice.
pub proof fn law_trusted_merge_host_lists(g: ConfigSpec, l: ConfigSpec)
    ensures
        ({
            let m = spec_merge(g, l, true);
            &&& forall|x: Seq<char>| #[trigger] m.ignore_hosts.contains(x) <==> (
            g.ignore_hosts.contains(x) || l.ignore_hosts.contains(x))
            &&& forall|x: Seq<char>| #[trigger] m.allow_hosts.contains(x) <==> (
            g.allow_hosts.contains(x) || l.allow_hosts.contains(x))
            &&& g.ignore_hosts.is_prefix_of(m.ignore_hosts)
            &&& g.allow_hosts.is_prefix_of(m.allow_hosts)
            &&& (g.ignore_hosts.no_duplicates() ==> m.ignore_hosts.no_duplicates())
            &&& (g.allow_hosts.no_duplicates() ==> m.allow_hosts.no_duplicates())
        }),
{
    lemma_append_unique(g.ignore_hosts, l.ignore_hosts);
    lemma_append_unique(g.allow_hosts, l.allow_hosts);
}

/// Migration leaves no legacy tools behind, so migrating again changes
/// nothing: a configuration loaded a second time is not written back.
pub proof fn law_migration_is_idempotent(c: ConfigSpec)
    ensures
        spec_migrate(c).custom_tools.len() == 0,
        spec_migrate(spec_migrate(c)) == spec_migrate(c),
{
}


/// Every placeholder of the command, in the string or in any argument, is a
/// declared parameter.
pub open spec fn placeholders_defined(cmd: CommandSpec, params: Seq<(Seq<char>, Seq<char>)>) -> bool {
    match cmd {
        CommandSpec::Simple(c) => forall|j: int|
            0 <= j < placeholder_names(c).len() ==> al_contains(params, #[trigger] placeholder_names(c)[j]),
        CommandSpec::Array(a) => forall|i: int, j: int|
            0 <= i < a.len() && 0 <= j < placeholder_names(a[i]).len() ==> al_contains(
                params,
                #[trigger] placeholder_names(a[i])[j],
            ),
    }
}

/// No name is undefined exactly when every name is a parameter.
pub proof fn lemma_first_undefined(names: Seq<Seq<char>>, params: Seq<(Seq<char>, Seq<char>)>)
    ensures
        first_undefined(names, params) is None <==> forall|j: int|
            0 <= j < names.len() ==> al_contains(params, #[trigger] names[j]),
    decreases names.len(),
{
    if names.len() > 0 {
        let rest = names.drop_first();
        lemma_first_undefined(rest, params);
        assert forall|j: int| 0 <= j < rest.len() implies #[trigger] rest[j] == names[j + 1] by {}
        if first_undefined(names, params) is None {
            assert forall|j: int| 0 <= j < names.len() implies al_contains(params, #[trigger] names[j]) by {
                if j > 0 {
                    assert(rest[j - 1] == names[j]);
                }
            }
        }
    }
}

/// No argument has an undefined placeholder exactly when every placeholder
/// of every argument is a parameter.
pub proof fn lemma_first_undefined_in_args(args: Seq<Seq<char>>, params: Seq<(Seq<char>, Seq<char>)>)
    ensures
        first_undefined_in_args(args, params) is None <==> forall|i: int, j: int|
            0 <= i < args.len() && 0 <= j < placeholder_names(args[i]).len() ==> al_contains(
                params,
                #[trigger] placeholder_names(args[i])[j],
            ),
    decreases args.len(),
{
    if args.len() > 0 {
        let rest = args.drop_first();
        lemma_first_undefined_in_args(rest, params);
        lemma_first_undefined(placeholder_names(args[0]), params);
        assert forall|i: int| 0 <= i < rest.len() implies #[trigger] rest[i] == args[i + 1] by {}
        if first_undefined_in_args(args, params) is None {
            assert forall|i: int, j: int|
                0 <= i < args.len() && 0 <= j < placeholder_names(args[i]).len() implies al_contains(
                params,
                #[trigger] placeholder_names(args[i])[j],
            ) by {
                if i > 0 {
                    assert(rest[i - 1] == args[i]);
                }
            }
        } else {
            if first_undefined(placeholder_names(args[0]), params) is None {
                assert(first_undefined_in_args(rest, params) is Some);
                let (i, j) = choose|i: int, j: int|
                    0 <= i < rest.len() && 0 <= j < placeholder_names(rest[i]).len() && !al_contains(
                        params,
                        #[trigger] placeholder_names(rest[i])[j],
                    );
                assert(rest[i] == args[i + 1]);
            }
        }
    }
}

/// No rule is unknown exactly when every rule is a known one.
pub proof fn lemma_first_unknown_rule(params: Seq<(Seq<char>, Seq<char>)>)
    ensures
        first_unknown_rule(params) is None <==> forall|i: int|
            0 <= i < params.len() ==> known_rule(#[trigger] params[i].1),
    decreases params.len(),
{
    if params.len() > 0 {
        let rest = params.drop_first();
        lemma_first_unknown_rule(rest);
        assert forall|i: int| 0 <= i < rest.len() implies #[trigger] rest[i] == params[i + 1] by {}
        if first_unknown_rule(params) is None {
            assert forall|i: int| 0 <= i < params.len() implies known_rule(#[trigger] params[i].1) by {
                if i > 0 {
                    assert(rest[i - 1] == params[i]);
                }
            }
        }
    }
}

/// A tool passes validation exactly when its command form agrees with
/// `allow_shell` (a shell string needs it, an argument vector refuses it),
/// every placeholder of the command is a declared parameter, and every
/// parameter's rule is `strict`, `path` or `permissive`.
pub proof fn law_tool_valid_exactly_when(t: ToolSpec, name: Seq<char>)
    ensures
        spec_tool_check(t, name) is None <==> {
            &&& (t.command is Simple) == t.allow_shell
            &&& placeholders_defined(t.command, t.params)
            &&& forall|i: int| 0 <= i < t.params.len() ==> known_rule(#[trigger] t.params[i].1)
        },
{
    lemma_first_unknown_rule(t.params);
    match t.command {
        CommandSpec::Simple(c) => lemma_first_undefined(placeholder_names(c), t.params),
        CommandSpec::Array(a) => lemma_first_undefined_in_args(a, t.params),
    }
}

/// No tool fails exactly when every tool passes its check.
pub proof fn lemma_first_tool_error(tools: Seq<(Seq<char>, ToolSpec)>)
    ensures
        first_tool_error(tools) is None <==> forall|i: int|
            0 <= i < tools.len() ==> spec_tool_check(#[trigger] tools[i].1, tools[i].0) is None,
    decreases tools.len(),
{
    if tools.len() > 0 {
        let rest = tools.drop_first();
        lemma_first_tool_error(rest);
        assert forall|i: int| 0 <= i < rest.len() implies #[trigger] rest[i] == tools[i + 1] by {}
        if first_tool_error(tools) is None {
            assert forall|i: int| 0 <= i < tools.len() implies spec_tool_check(
                #[trigger] tools[i].1,
                tools[i].0,
            ) is None by {
                if i > 0 {
                    assert(rest[i - 1] == tools[i]);
                }
            }
        }
    }
}

/// No group clashes exactly when no group name, lower-cased, is among the
/// lower-cased aliases.
pub proof fn lemma_first_clash(groups: Seq<(Seq<char>, Seq<Seq<char>>)>, lower_hosts: Seq<Seq<char>>)
    ensures
        first_clash(groups, lower_hosts) is None <==> forall|g: int|
            0 <= g < groups.len() ==> !lower_hosts.contains(spec_lowercase(#[trigger] groups[g].0)),
    decreases groups.len(),
{
    if groups.len() > 0 {
        let rest = groups.drop_first();
        lemma_first_clash(rest, lower_hosts);
        assert forall|g: int| 0 <= g < rest.len() implies #[trigger] rest[g] == groups[g + 1] by {}
        if first_clash(groups, lower_hosts) is None {
            assert forall|g: int| 0 <= g < groups.len() implies !lower_hosts.contains(
                spec_lowercase(#[trigger] groups[g].0),
            ) by {
                if g > 0 {
                    assert(rest[g - 1] == groups[g]);
                }
            }
        }
    }
}

/// A configuration passes validation exactly when every tool passes and no
/// group name equals, ignoring case, one of the SSH host aliases; when the
/// tools pass but a group clashes, the error is that group's clash.
pub proof fn law_config_valid_exactly_when(c: ConfigSpec, ssh_hosts: Seq<Seq<char>>)
    ensures
        spec_config_check(c, ssh_hosts) is None <==> {
            &&& forall|i: int|
                0 <= i < c.tools.len() ==> spec_tool_check(#[trigger] c.tools[i].1, c.tools[i].0) is None
            &&& forall|g: int, h: int|
                0 <= g < c.groups.len() && 0 <= h < ssh_hosts.len() ==> spec_lowercase(
                    #[trigger] c.groups[g].0,
                ) != spec_lowercase(#[trigger] ssh_hosts[h])
        },
        first_tool_error(c.tools) is None && spec_config_check(c, ssh_hosts) is Some ==> (spec_config_check(
            c,
            ssh_hosts,
        ) matches Some(ConfigErrorSpec::GroupClash { group }) && exists|g: int, h: int|
            0 <= g < c.groups.len() && 0 <= h < ssh_hosts.len() && group == c.groups[g].0
                && spec_lowercase(#[trigger] c.groups[g].0) == spec_lowercase(#[trigger] ssh_hosts[h])),
{
    lemma_first_tool_error(c.tools);
    lemma_first_clash(c.groups, lowered(ssh_hosts));
    lemma_first_clash_found(c.groups, lowered(ssh_hosts));
    let lh = lowered(ssh_hosts);
    assert forall|x: Seq<char>| #[trigger] lh.contains(x) <==> exists|h: int|
        0 <= h < ssh_hosts.len() && spec_lowercase(#[trigger] ssh_hosts[h]) == x by {
        if lh.contains(x) {
            let h = choose|h: int| 0 <= h < lh.len() && lh[h] == x;
            assert(spec_lowercase(ssh_hosts[h]) == x);
        }
        if exists|h: int| 0 <= h < ssh_hosts.len() && spec_lowercase(#[trigger] ssh_hosts[h]) == x {
            let h = choose|h: int| 0 <= h < ssh_hosts.len() && spec_lowercase(#[trigger] ssh_hosts[h]) == x;
            assert(lh[h] == x);
        }
    }
}

proof fn lemma_first_clash_found(groups: Seq<(Seq<char>, Seq<Seq<char>>)>, lower_hosts: Seq<Seq<char>>)
    ensures
        first_clash(groups, lower_hosts) matches Some(gn) ==> exists|g: int|
            0 <= g < groups.len() && #[trigger] groups[g].0 == gn && lower_hosts.contains(spec_lowercase(gn)),
    decreases groups.len(),
{
    if groups.len() > 0 {
        let rest = groups.drop_first();
        lemma_first_clash_found(rest, lower_hosts);
        if first_clash(groups, lower_hosts) is Some && lower_hosts.contains(spec_lowercase(groups[0].0)) {
            assert(groups[0].0 == groups[0].0);
        } else if let Some(gn) = first_clash(rest, lower_hosts) {
            let g = choose|g: int| 0 <= g < rest.len() && #[trigger] rest[g].0 == gn && lower_hosts.contains(spec_lowercase(gn));
            assert(groups[g + 1] == rest[g]);
        }
    }
}


/// A pattern is kept exactly when it is in both lists.
pub proof fn lemma_keep_in_members(l: Seq<Seq<char>>, g: Seq<Seq<char>>)
    ensures
        forall|x: Seq<char>| #[trigger] keep_in(l, g).contains(x) <==> (l.contains(x) && g.contains(x)),
    decreases l.len(),
{
    if l.len() > 0 {
        let init = l.drop_last();
        lemma_keep_in_members(init, g);
        let p = keep_in(init, g);
        let r = keep_in(l, g);
        assert forall|x: Seq<char>| #[trigger] r.contains(x) <==> (l.contains(x) && g.contains(x)) by {
            if r.contains(x) {
                let k = choose|k: int| 0 <= k < r.len() && r[k] == x;
                if k < p.len() {
                    assert(r[k] == p[k]);
                    assert(p.contains(x));
                    let m = choose|m: int| 0 <= m < init.len() && init[m] == x;
                    assert(l[m] == x);
                } else {
                    assert(x == l.last());
                    assert(l[l.len() - 1] == x);
                }
            }
            if l.contains(x) && g.contains(x) {
                let m = choose|m: int| 0 <= m < l.len() && l[m] == x;
                if m < init.len() {
                    assert(init[m] == x);
                    assert(p.contains(x));
                    let k = choose|k: int| 0 <= k < p.len() && p[k] == x;
                    assert(r[k] == x);
                } else {
                    assert(r[r.len() - 1] == x);
                }
            }
        }
    }
}

/// An untrusted local file that gives a global tool an allow list keeps
/// only the patterns both lists have: a pattern is allowed after the merge
/// exactly when both the global and the local list allow it, and when they
/// have none in common the tool is blocked outright.
pub proof fn law_untrusted_allow_lists_intersect(g: ConfigSpec, l: ConfigSpec, i: int)
    requires
        0 <= i < g.tools.len(),
        al_get(l.tools, g.tools[i].0) matches Some(lt) && lt.allow_hosts.len() > 0,
        g.tools[i].1.allow_hosts.len() > 0,
    ensures
        ({
            let merged = spec_merge(g, l, false).tools[i].1.allow_hosts;
            let ga = g.tools[i].1.allow_hosts;
            let la = al_get(l.tools, g.tools[i].0)->Some_0.allow_hosts;
            let common = exists|x: Seq<char>| ga.contains(x) && la.contains(x);
            &&& common ==> forall|x: Seq<char>| #[trigger] merged.contains(x) <==> (ga.contains(x) && la.contains(x))
            &&& !common ==> merged == seq![blocked_marker()]
        }),
{
    let ga = g.tools[i].1.allow_hosts;
    let la = al_get(l.tools, g.tools[i].0)->Some_0.allow_hosts;
    lemma_keep_in_members(la, ga);
    let k = keep_in(la, ga);
    if exists|x: Seq<char>| ga.contains(x) && la.contains(x) {
        let x = choose|x: Seq<char>| ga.contains(x) && la.contains(x);
        assert(k.contains(x));
    } else {
        if k.len() > 0 {
            assert(k.contains(k[0]));
        }
    }
}

/// When only one of the two lists restricts a tool's hosts, an untrusted
/// merge keeps that restriction: a local list for a tool open to every host
/// is taken, and an empty local list leaves the global one as it is. A tool
/// the local file does not mention is left as it is.
pub proof fn law_untrusted_allow_list_one_side(g: ConfigSpec, l: ConfigSpec, i: int)
    requires
        0 <= i < g.tools.len(),
    ensures
        ({
            let merged = spec_merge(g, l, false).tools[i].1;
            let gt = g.tools[i].1;
            match al_get(l.tools, g.tools[i].0) {
                Some(lt) => {
                    &&& (gt.allow_hosts.len() == 0 ==> merged.allow_hosts == lt.allow_hosts)
                    &&& (lt.allow_hosts.len() == 0 ==> merged.allow_hosts == gt.allow_hosts)
                    &&& merged.allow_shell == (gt.allow_shell && lt.allow_shell)
                },
                None => merged == gt,
            }
        }),
{
}

} // verus!
