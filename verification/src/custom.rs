//! Turning a call of a configured custom tool into the command line to run:
//! its parameters are read and validated, the target hosts checked against
//! the tool's allow list, and the values put into the command template.

use vstd::prelude::*;
use crate::access::{is_host_allowed_for_tool, spec_host_allowed_for_tool};
use crate::config::{
    law_tool_valid_exactly_when, placeholders_defined, spec_tool_check, CommandSpec, CommandTemplate,
    PreparedTool, ToolSpec,
};
use crate::outside::{debug_str, spec_debug_str};
use crate::strmap::{al_contains, al_find, al_get, al_insert, lemma_al_find, StrMap};
use crate::template::{
    escaped_words, join_with, law_shell_join_reads_back, placeholder_names, render_from,
    placeholder_at, replace_placeholders, scan_placeholders,
    shell_join, shell_words, spec_validate_param, validate_param_value, TemplateError,
};

verus! {

/// Why a custom tool call is refused before anything runs.
#[derive(Debug, Clone, PartialEq, Eq)]
pub enum CustomToolError {
    MissingParam { param: String, tool: String },
    InvalidParam { param: String, rule: String, value: String },
    HostNotAllowed { host: String, tool: String },
    Interpolation { param: String },
}

pub enum CustomToolErrorSpec {
    MissingParam { param: Seq<char>, tool: Seq<char> },
    InvalidParam { param: Seq<char>, rule: Seq<char>, value: Seq<char> },
    HostNotAllowed { host: Seq<char>, tool: Seq<char> },
    Interpolation { param: Seq<char> },
}

impl DeepView for CustomToolError {
    type V = CustomToolErrorSpec;

    open spec fn deep_view(&self) -> CustomToolErrorSpec {
        match self {
            CustomToolError::MissingParam { param, tool } => CustomToolErrorSpec::MissingParam {
                param: param@,
                tool: tool@,
            },
            CustomToolError::InvalidParam { param, rule, value } => CustomToolErrorSpec::InvalidParam {
                param: param@,
                rule: rule@,
                value: value@,
            },
            CustomToolError::HostNotAllowed { host, tool } => CustomToolErrorSpec::HostNotAllowed {
                host: host@,
                tool: tool@,
            },
            CustomToolError::Interpolation { param } => CustomToolErrorSpec::Interpolation {
                param: param@,
            },
        }
    }
}

/// The text the client is shown for a refused call.
pub open spec fn custom_error_message(e: CustomToolErrorSpec) -> Seq<char> {
    match e {
        CustomToolErrorSpec::MissingParam { param, tool } => "Error: Missing required parameter '"@
            + param + "' for tool '"@ + tool + "'"@,
        CustomToolErrorSpec::InvalidParam { param, rule, value } => "Error: Parameter '"@ + param
            + "' failed validation with rule '"@ + rule + "'. Provided value: "@
            + spec_debug_str(value),
        CustomToolErrorSpec::HostNotAllowed { host, tool } => "Error: Access to host '"@ + host
            + "' is not allowed for tool '"@ + tool + "'"@,
        CustomToolErrorSpec::Interpolation { param } => "Error interpolating command: Missing value for parameter '"@
            + param + "'"@,
    }
}

impl CustomToolError {
    pub fn message(&self) -> (r: String)
        ensures
            r@ == custom_error_message(self.deep_view()),
    {
        match self {
            CustomToolError::MissingParam { param, tool } => {
                let mut r = String::from_str("Error: Missing required parameter '");
                r.append(param.as_str());
                r.append("' for tool '");
                r.append(tool.as_str());
                r.append("'");
                r
            },
            CustomToolError::InvalidParam { param, rule, value } => {
                let mut r = String::from_str("Error: Parameter '");
                r.append(param.as_str());
                r.append("' failed validation with rule '");
                r.append(rule.as_str());
                r.append("'. Provided value: ");
                let q = debug_str(value.as_str());
                r.append(q.as_str());
                r
            },
            CustomToolError::HostNotAllowed { host, tool } => {
                let mut r = String::from_str("Error: Access to host '");
                r.append(host.as_str());
                r.append("' is not allowed for tool '");
                r.append(tool.as_str());
                r.append("'");
                r
            },
            CustomToolError::Interpolation { param } => {
                let mut r = String::from_str(
                    "Error interpolating command: Missing value for parameter '",
                );
                r.append(param.as_str());
                r.append("'");
                r
            },
        }
    }
}

/// The values of the tool's parameters, taken from the call's string
/// arguments in the order the parameters are declared; the first one that
/// is missing or breaks its rule refuses the call.
pub open spec fn collect_param_values(
    params: Seq<(Seq<char>, Seq<char>)>,
    args: Seq<(Seq<char>, Seq<char>)>,
    tool: Seq<char>,
) -> Result<Seq<(Seq<char>, Seq<char>)>, CustomToolErrorSpec>
    decreases params.len(),
{
    if params.len() == 0 {
        Ok(Seq::empty())
    } else {
        match collect_param_values(params.drop_last(), args, tool) {
            Err(e) => Err(e),
            Ok(vals) => {
                let (name, rule) = params.last();
                match al_get(args, name) {
                    None => Err(CustomToolErrorSpec::MissingParam { param: name, tool }),
                    Some(v) => if spec_validate_param(v, rule) {
                        Ok(al_insert(vals, name, v))
                    } else {
                        Err(CustomToolErrorSpec::InvalidParam { param: name, rule, value: v })
                    },
                }
            },
        }
    }
}

/// The first target (alias, resolved name) that the allow list refuses.
pub open spec fn first_denied(targets: Seq<(Seq<char>, Seq<char>)>, allow: Seq<Seq<char>>) -> Option<
    Seq<char>,
>
    decreases targets.len(),
{
    if targets.len() == 0 {
        None
    } else {
        match first_denied(targets.drop_last(), allow) {
            Some(h) => Some(h),
            None => if spec_host_allowed_for_tool(
                targets.last().0,
                Some(targets.last().1),
                allow,
            ) {
                None
            } else {
                Some(targets.last().0)
            },
        }
    }
}

/// Each argument template with its placeholders filled in, or the name
/// missing from the first argument that lacks a value.
pub open spec fn render_args(ts: Seq<Seq<char>>, vals: Seq<(Seq<char>, Seq<char>)>) -> Result<
    Seq<Seq<char>>,
    Seq<char>,
>
    decreases ts.len(),
{
    if ts.len() == 0 {
        Ok(Seq::empty())
    } else {
        match render_args(ts.drop_last(), vals) {
            Err(m) => Err(m),
            Ok(done) => {
                let (t, miss) = render_from(ts.last(), 0, vals);
                match miss {
                    Some(m) => Err(m),
                    None => Ok(done.push(t)),
                }
            },
        }
    }
}

/// The command line: a string template filled in, or each argument of an
/// argument vector filled in, quoted and joined by spaces.
pub open spec fn render_command(cmd: CommandSpec, vals: Seq<(Seq<char>, Seq<char>)>) -> Result<
    Seq<char>,
    Seq<char>,
> {
    match cmd {
        CommandSpec::Simple(t) => {
            let (out, miss) = render_from(t, 0, vals);
            match miss {
                Some(m) => Err(m),
                None => Ok(out),
            }
        },
        CommandSpec::Array(ts) => match render_args(ts, vals) {
            Ok(words) => Ok(join_with(escaped_words(words), seq![' '])),
            Err(m) => Err(m),
        },
    }
}

/// What a call of the custom tool `tool_name` runs, or why it is refused:
/// parameters first, then the target hosts, then the template.
pub open spec fn spec_prepare(
    tool_name: Seq<char>,
    tool: ToolSpec,
    args: Seq<(Seq<char>, Seq<char>)>,
    targets: Seq<(Seq<char>, Seq<char>)>,
) -> Result<Seq<char>, CustomToolErrorSpec> {
    match collect_param_values(tool.params, args, tool_name) {
        Err(e) => Err(e),
        Ok(vals) => match first_denied(targets, tool.allow_hosts) {
            Some(h) => Err(CustomToolErrorSpec::HostNotAllowed { host: h, tool: tool_name }),
            None => match render_command(tool.command, vals) {
                Ok(c) => Ok(c),
                Err(m) => Err(CustomToolErrorSpec::Interpolation { param: m }),
            },
        },
    }
}

proof fn lemma_collect_err_prefix(
    ps: Seq<(Seq<char>, Seq<char>)>,
    args: Seq<(Seq<char>, Seq<char>)>,
    tool: Seq<char>,
    k: int,
)
    requires
        0 <= k <= ps.len(),
        collect_param_values(ps.take(k), args, tool) is Err,
    ensures
        collect_param_values(ps, args, tool) == collect_param_values(ps.take(k), args, tool),
    decreases ps.len(),
{
    if k == ps.len() {
        assert(ps.take(k) =~= ps);
    } else {
        assert(ps.drop_last().take(k) =~= ps.take(k));
        lemma_collect_err_prefix(ps.drop_last(), args, tool, k);
    }
}

proof fn lemma_denied_prefix(targets: Seq<(Seq<char>, Seq<char>)>, allow: Seq<Seq<char>>, k: int)
    requires
        0 <= k <= targets.len(),
        first_denied(targets.take(k), allow) is Some,
    ensures
        first_denied(targets, allow) == first_denied(targets.take(k), allow),
    decreases targets.len(),
{
    if k == targets.len() {
        assert(targets.take(k) =~= targets);
    } else {
        assert(targets.drop_last().take(k) =~= targets.take(k));
        lemma_denied_prefix(targets.drop_last(), allow, k);
    }
}

proof fn lemma_render_err_prefix(ts: Seq<Seq<char>>, vals: Seq<(Seq<char>, Seq<char>)>, k: int)
    requires
        0 <= k <= ts.len(),
        render_args(ts.take(k), vals) is Err,
    ensures
        render_args(ts, vals) == render_args(ts.take(k), vals),
    decreases ts.len(),
{
    if k == ts.len() {
        assert(ts.take(k) =~= ts);
    } else {
        assert(ts.drop_last().take(k) =~= ts.take(k));
        lemma_render_err_prefix(ts.drop_last(), vals, k);
    }
}

fn collect_values(tool_name: &str, tool: &PreparedTool, args: &StrMap<String>) -> (r: Result<
    StrMap<String>,
    CustomToolError,
>)
    ensures
        match r {
            Ok(vals) => collect_param_values(tool.params.deep_view(), args.deep_view(), tool_name@)
                == Ok::<Seq<(Seq<char>, Seq<char>)>, CustomToolErrorSpec>(vals.deep_view()),
            Err(e) => collect_param_values(tool.params.deep_view(), args.deep_view(), tool_name@)
                == Err::<Seq<(Seq<char>, Seq<char>)>, CustomToolErrorSpec>(e.deep_view()),
        },
{
    let ghost ps = tool.params.deep_view();
    let ghost a = args.deep_view();
    let mut vals: StrMap<String> = StrMap::new();
    let mut i: usize = 0;
    assert(ps.take(0) =~= Seq::<(Seq<char>, Seq<char>)>::empty());
    while i < tool.params.len()
        invariant
            ps == tool.params.deep_view(),
            a == args.deep_view(),
            i <= ps.len(),
            collect_param_values(ps.take(i as int), a, tool_name@) == Ok::<
                Seq<(Seq<char>, Seq<char>)>,
                CustomToolErrorSpec,
            >(vals.deep_view()),
        decreases ps.len() - i,
    {
        assert(ps.take(i + 1).drop_last() =~= ps.take(i as int));
        assert(ps.take(i + 1).last() == ps[i as int]);
        let name = tool.params.key_at(i);
        let info = tool.params.value_at(i);
        match args.get(name.as_str()) {
            None => {
                proof {
                    lemma_collect_err_prefix(ps, a, tool_name@, i + 1);
                }
                return Err(
                    CustomToolError::MissingParam { param: name.clone(), tool: tool_name.to_owned() },
                );
            },
            Some(v) => {
                if !validate_param_value(v.as_str(), info.validation.as_str()) {
                    proof {
                        lemma_collect_err_prefix(ps, a, tool_name@, i + 1);
                    }
                    return Err(
                        CustomToolError::InvalidParam {
                            param: name.clone(),
                            rule: info.validation.clone(),
                            value: v.clone(),
                        },
                    );
                }
                vals.insert(name.clone(), v.clone());
            },
        }
        i = i + 1;
    }
    assert(ps.take(ps.len() as int) =~= ps);
    Ok(vals)
}

fn check_targets(tool_name: &str, allow: &Vec<String>, targets: &Vec<(String, String)>) -> (r: Result<
    (),
    CustomToolError,
>)
    ensures
        match r {
            Ok(()) => first_denied(targets.deep_view(), allow.deep_view()) is None,
            Err(e) => first_denied(targets.deep_view(), allow.deep_view()) matches Some(h)
                && e.deep_view() == (CustomToolErrorSpec::HostNotAllowed { host: h, tool: tool_name@ }),
        },
{
    let ghost t = targets.deep_view();
    let mut i: usize = 0;
    assert(t.take(0) =~= Seq::<(Seq<char>, Seq<char>)>::empty());
    while i < targets.len()
        invariant
            t == targets.deep_view(),
            i <= t.len(),
            first_denied(t.take(i as int), allow.deep_view()) is None,
        decreases targets.len() - i,
    {
        assert(t.take(i + 1).drop_last() =~= t.take(i as int));
        assert(t.take(i + 1).last() == t[i as int]);
        let (alias, resolved) = &targets[i];
        if !is_host_allowed_for_tool(alias.as_str(), Some(resolved.as_str()), allow.as_slice()) {
            proof {
                lemma_denied_prefix(t, allow.deep_view(), i + 1);
            }
            return Err(CustomToolError::HostNotAllowed { host: alias.clone(), tool: tool_name.to_owned() });
        }
        i = i + 1;
    }
    assert(t.take(t.len() as int) =~= t);
    Ok(())
}

fn render_command_exec(cmd: &CommandTemplate, vals: &StrMap<String>) -> (r: Result<String, String>)
    ensures
        match r {
            Ok(c) => render_command(cmd.deep_view(), vals.deep_view()) == Ok::<Seq<char>, Seq<char>>(c@),
            Err(m) => render_command(cmd.deep_view(), vals.deep_view()) == Err::<Seq<char>, Seq<char>>(m@),
        },
{
    match cmd {
        CommandTemplate::Simple(t) => match replace_placeholders(t.as_str(), vals) {
            Ok(c) => Ok(c),
            Err(TemplateError::MissingValue { param }) => Err(param),
        },
        CommandTemplate::Array(ts) => {
            let ghost d = ts.deep_view();
            let ghost v = vals.deep_view();
            let mut words: Vec<String> = Vec::new();
            let mut i: usize = 0;
            assert(d.take(0) =~= Seq::<Seq<char>>::empty());
            assert(words.deep_view() =~= Seq::<Seq<char>>::empty());
            while i < ts.len()
                invariant
                    d == ts.deep_view(),
                    cmd.deep_view() == CommandSpec::Array(d),
                    v == vals.deep_view(),
                    i <= d.len(),
                    render_args(d.take(i as int), v) == Ok::<Seq<Seq<char>>, Seq<char>>(words.deep_view()),
                decreases ts.len() - i,
            {
                assert(d.take(i + 1).drop_last() =~= d.take(i as int));
                assert(d.take(i + 1).last() == ts@[i as int]@);
                match replace_placeholders(ts[i].as_str(), vals) {
                    Ok(w) => {
                        let ghost before = words.deep_view();
                        words.push(w);
                        assert(words.deep_view() =~= before.push(w@));
                    },
                    Err(TemplateError::MissingValue { param }) => {
                        proof {
                            assert(render_from(d[i as int], 0, v).1 == Some(param@));
                            assert(render_args(d.take(i + 1), v) == Err::<Seq<Seq<char>>, Seq<char>>(
                                param@,
                            ));
                            lemma_render_err_prefix(d, v, i + 1);
                        }
                        return Err(param);
                    },
                }
                i = i + 1;
            }
            assert(d.take(d.len() as int) =~= d);
            Ok(shell_join(words.as_slice()))
        },
    }
}

/// The command line for a call of the custom tool `tool_name`, given the
/// call's string arguments `args` and the target hosts as (alias, resolved
/// name) pairs.
pub fn prepare_custom_command(
    tool_name: &str,
    tool: &PreparedTool,
    args: &StrMap<String>,
    targets: &Vec<(String, String)>,
) -> (r: Result<String, CustomToolError>)
    ensures
        match r {
            Ok(c) => spec_prepare(tool_name@, tool.deep_view(), args.deep_view(), targets.deep_view())
                == Ok::<Seq<char>, CustomToolErrorSpec>(c@),
            Err(e) => spec_prepare(tool_name@, tool.deep_view(), args.deep_view(), targets.deep_view())
                == Err::<Seq<char>, CustomToolErrorSpec>(e.deep_view()),
        },
{
    let vals = match collect_values(tool_name, tool, args) {
        Ok(v) => v,
        Err(e) => {
            return Err(e);
        },
    };
    match check_targets(tool_name, &tool.allow_hosts, targets) {
        Ok(()) => {},
        Err(e) => {
            return Err(e);
        },
    }
    match render_command_exec(&tool.command, &vals) {
        Ok(c) => Ok(c),
        Err(m) => Err(CustomToolError::Interpolation { param: m }),
    }
}

pub proof fn lemma_first_denied_none(targets: Seq<(Seq<char>, Seq<char>)>, allow: Seq<Seq<char>>)
    requires
        first_denied(targets, allow) is None,
    ensures
        forall|i: int|
            0 <= i < targets.len() ==> spec_host_allowed_for_tool(
                (#[trigger] targets[i]).0,
                Some(targets[i].1),
                allow,
            ),
    decreases targets.len(),
{
    if targets.len() > 0 {
        lemma_first_denied_none(targets.drop_last(), allow);
        assert forall|i: int| 0 <= i < targets.len() implies spec_host_allowed_for_tool(
            (#[trigger] targets[i]).0,
            Some(targets[i].1),
            allow,
        ) by {
            if i < targets.len() - 1 {
                assert(targets[i] == targets.drop_last()[i]);
            }
        }
    }
}

/// A custom tool call that goes ahead targets only hosts the tool's allow
/// list admits (by alias or by resolved name).
pub proof fn law_custom_call_only_on_allowed_hosts(
    tool_name: Seq<char>,
    tool: ToolSpec,
    args: Seq<(Seq<char>, Seq<char>)>,
    targets: Seq<(Seq<char>, Seq<char>)>,
)
    requires
        spec_prepare(tool_name, tool, args, targets) is Ok,
    ensures
        forall|i: int|
            0 <= i < targets.len() ==> spec_host_allowed_for_tool(
                (#[trigger] targets[i]).0,
                Some(targets[i].1),
                tool.allow_hosts,
            ),
{
    lemma_first_denied_none(targets, tool.allow_hosts);
}

pub proof fn lemma_collected_values_pass(
    params: Seq<(Seq<char>, Seq<char>)>,
    args: Seq<(Seq<char>, Seq<char>)>,
    tool: Seq<char>,
)
    requires
        collect_param_values(params, args, tool) is Ok,
    ensures
        forall|i: int|
            0 <= i < params.len() ==> (al_get(args, (#[trigger] params[i]).0) matches Some(v)
                && spec_validate_param(v, params[i].1)),
    decreases params.len(),
{
    if params.len() > 0 {
        lemma_collected_values_pass(params.drop_last(), args, tool);
        assert forall|i: int| 0 <= i < params.len() implies (al_get(
            args,
            (#[trigger] params[i]).0,
        ) matches Some(v) && spec_validate_param(v, params[i].1)) by {
            if i < params.len() - 1 {
                assert(params[i] == params.drop_last()[i]);
            }
        }
    }
}

/// A custom tool call that goes ahead has a value for every declared
/// parameter, and each value passes the parameter's validation rule.
pub proof fn law_custom_call_values_validated(
    tool_name: Seq<char>,
    tool: ToolSpec,
    args: Seq<(Seq<char>, Seq<char>)>,
    targets: Seq<(Seq<char>, Seq<char>)>,
)
    requires
        spec_prepare(tool_name, tool, args, targets) is Ok,
    ensures
        forall|i: int|
            0 <= i < tool.params.len() ==> (al_get(args, (#[trigger] tool.params[i]).0) matches Some(
                v,
            ) && spec_validate_param(v, tool.params[i].1)),
{
    lemma_collected_values_pass(tool.params, args, tool_name);
}

/// For an argument-vector tool, the command a call that goes ahead runs is
/// read by the shell as exactly the filled-in arguments, one word each,
/// whatever the parameter values hold.
pub proof fn law_array_command_reads_back(
    tool_name: Seq<char>,
    tool: ToolSpec,
    ts: Seq<Seq<char>>,
    args: Seq<(Seq<char>, Seq<char>)>,
    targets: Seq<(Seq<char>, Seq<char>)>,
    command: Seq<char>,
)
    requires
        tool.command == CommandSpec::Array(ts),
        spec_prepare(tool_name, tool, args, targets) == Ok::<Seq<char>, CustomToolErrorSpec>(command),
    ensures
        collect_param_values(tool.params, args, tool_name) matches Ok(vals) && render_args(ts, vals)
            matches Ok(words) && shell_words(command) == words,
{
    let vals = collect_param_values(tool.params, args, tool_name)->Ok_0;
    let words = render_args(ts, vals)->Ok_0;
    law_shell_join_reads_back(words);
}

/// An argument-vector tool runs whenever its parameters are present and
/// valid, its targets allowed and every placeholder has a value, whatever
/// `allow_shell` says: the command is the filled-in arguments, each quoted,
/// joined by spaces, and the shell reads back exactly those arguments.
pub proof fn law_array_tool_runs_filled_in_arguments(
    tool_name: Seq<char>,
    tool: ToolSpec,
    ts: Seq<Seq<char>>,
    args: Seq<(Seq<char>, Seq<char>)>,
    targets: Seq<(Seq<char>, Seq<char>)>,
    vals: Seq<(Seq<char>, Seq<char>)>,
    words: Seq<Seq<char>>,
)
    requires
        tool.command == CommandSpec::Array(ts),
        collect_param_values(tool.params, args, tool_name) == Ok::<
            Seq<(Seq<char>, Seq<char>)>,
            CustomToolErrorSpec,
        >(vals),
        first_denied(targets, tool.allow_hosts) is None,
        render_args(ts, vals) == Ok::<Seq<Seq<char>>, Seq<char>>(words),
    ensures
        spec_prepare(tool_name, tool, args, targets) == Ok::<Seq<char>, CustomToolErrorSpec>(
            join_with(escaped_words(words), seq![' ']),
        ),
        shell_words(join_with(escaped_words(words), seq![' '])) == words,
{
    law_shell_join_reads_back(words);
}


proof fn lemma_al_insert_keys<T>(s: Seq<(Seq<char>, T)>, k: Seq<char>, v: T)
    ensures
        forall|x: Seq<char>| #[trigger] al_contains(al_insert(s, k, v), x) <==> (al_contains(s, x) || x == k),
{
    let t = al_insert(s, k, v);
    lemma_al_find(s, k);
    assert forall|x: Seq<char>| #[trigger] al_contains(t, x) <==> (al_contains(s, x) || x == k) by {
        lemma_al_find(s, x);
        lemma_al_find(t, x);
        if let Some(m) = al_find(s, x) {
            assert(t[m].0 == x);
        }
        if x == k {
            match al_find(s, k) {
                Some(i) => assert(t[i].0 == k),
                None => assert(t[s.len() as int].0 == k),
            }
        }
        if let Some(m) = al_find(t, x) {
            if x != k {
                assert(s[m].0 == x);
            }
        }
    }
}

/// Every declared parameter has a value once the values are collected.
proof fn lemma_collected_keys(
    params: Seq<(Seq<char>, Seq<char>)>,
    args: Seq<(Seq<char>, Seq<char>)>,
    tool: Seq<char>,
)
    ensures
        collect_param_values(params, args, tool) matches Ok(vals) ==> forall|k: Seq<char>|
            al_contains(params, k) ==> #[trigger] al_contains(vals, k),
    decreases params.len(),
{
    if params.len() > 0 {
        let front = params.drop_last();
        lemma_collected_keys(front, args, tool);
        if let Ok(vals) = collect_param_values(params, args, tool) {
            let prev = collect_param_values(front, args, tool)->Ok_0;
            let (name, rule) = params.last();
            let v = al_get(args, name)->Some_0;
            assert(vals == al_insert(prev, name, v));
            lemma_al_insert_keys(prev, name, v);
            assert forall|k: Seq<char>| al_contains(params, k) implies #[trigger] al_contains(vals, k) by {
                lemma_al_find(params, k);
                lemma_al_find(front, k);
                let j = al_find(params, k)->Some_0;
                if j < front.len() {
                    assert(front[j].0 == k);
                }
            }
        }
    }
}

/// The values are collected when every declared parameter has a value in
/// the arguments that passes its rule.
proof fn lemma_collect_ok(
    params: Seq<(Seq<char>, Seq<char>)>,
    args: Seq<(Seq<char>, Seq<char>)>,
    tool: Seq<char>,
)
    requires
        forall|i: int| 0 <= i < params.len() ==> (al_get(args, #[trigger] params[i].0) matches Some(v)
            && spec_validate_param(v, params[i].1)),
    ensures
        collect_param_values(params, args, tool) is Ok,
    decreases params.len(),
{
    if params.len() > 0 {
        let front = params.drop_last();
        assert forall|i: int| 0 <= i < front.len() implies (al_get(args, #[trigger] front[i].0) matches Some(v)
            && spec_validate_param(v, front[i].1)) by {
            assert(front[i] == params[i]);
        }
        lemma_collect_ok(front, args, tool);
        assert(params.last() == params[params.len() - 1]);
    }
}

/// Substitution from `i` on misses nothing when every placeholder from
/// there on has a value.
proof fn lemma_render_from_complete(s: Seq<char>, i: int, vals: Seq<(Seq<char>, Seq<char>)>)
    requires
        0 <= i,
        forall|j: int|
            0 <= j < scan_placeholders(s, i).len() ==> al_contains(vals, #[trigger] scan_placeholders(s, i)[j].2),
    ensures
        render_from(s, i, vals).1 is None,
    decreases s.len() - i,
{
    if i < s.len() {
        match placeholder_at(s, i) {
            Some((e, n)) => {
                if e > i {
                    let sc = scan_placeholders(s, i);
                    assert(sc[0].2 == n);
                    assert forall|j: int|
                        0 <= j < scan_placeholders(s, e).len() implies al_contains(
                        vals,
                        #[trigger] scan_placeholders(s, e)[j].2,
                    ) by {
                        assert(sc[j + 1] == scan_placeholders(s, e)[j]);
                    }
                    lemma_render_from_complete(s, e, vals);
                }
            },
            None => {
                assert(scan_placeholders(s, i) == scan_placeholders(s, i + 1));
                lemma_render_from_complete(s, i + 1, vals);
            },
        }
    }
}

proof fn lemma_render_args_ok(ts: Seq<Seq<char>>, vals: Seq<(Seq<char>, Seq<char>)>)
    requires
        forall|i: int, j: int|
            0 <= i < ts.len() && 0 <= j < placeholder_names(ts[i]).len() ==> al_contains(
                vals,
                #[trigger] placeholder_names(ts[i])[j],
            ),
    ensures
        render_args(ts, vals) is Ok,
    decreases ts.len(),
{
    if ts.len() > 0 {
        let front = ts.drop_last();
        assert forall|i: int, j: int|
            0 <= i < front.len() && 0 <= j < placeholder_names(front[i]).len() implies al_contains(
            vals,
            #[trigger] placeholder_names(front[i])[j],
        ) by {
            assert(front[i] == ts[i]);
        }
        lemma_render_args_ok(front, vals);
        let t = ts.last();
        let last = ts.len() - 1;
        assert(t == ts[last]);
        assert forall|j: int| 0 <= j < scan_placeholders(t, 0).len() implies al_contains(
            vals,
            #[trigger] scan_placeholders(t, 0)[j].2,
        ) by {
            assert(placeholder_names(ts[last])[j] == scan_placeholders(t, 0)[j].2);
        }
        lemma_render_from_complete(t, 0, vals);
    }
}

/// An argument-vector tool that passes validation always runs once its
/// parameters all have values that pass their rules and its targets are
/// allowed: every placeholder is then filled in, and the command is the
/// filled-in arguments, each quoted, joined by spaces, which the shell reads
/// back as exactly those arguments.
pub proof fn law_valid_array_tool_always_runs(
    tool_name: Seq<char>,
    tool: ToolSpec,
    ts: Seq<Seq<char>>,
    args: Seq<(Seq<char>, Seq<char>)>,
    targets: Seq<(Seq<char>, Seq<char>)>,
)
    requires
        tool.command == CommandSpec::Array(ts),
        spec_tool_check(tool, tool_name) is None,
        forall|i: int| 0 <= i < tool.params.len() ==> (al_get(args, #[trigger] tool.params[i].0) matches Some(v)
            && spec_validate_param(v, tool.params[i].1)),
        first_denied(targets, tool.allow_hosts) is None,
    ensures
        collect_param_values(tool.params, args, tool_name) matches Ok(vals) && render_args(ts, vals) matches Ok(
            words,
        ) && spec_prepare(tool_name, tool, args, targets) == Ok::<Seq<char>, CustomToolErrorSpec>(
            join_with(escaped_words(words), seq![' ']),
        ) && shell_words(join_with(escaped_words(words), seq![' '])) == words,
{
    law_tool_valid_exactly_when(tool, tool_name);
    lemma_collect_ok(tool.params, args, tool_name);
    lemma_collected_keys(tool.params, args, tool_name);
    let vals = collect_param_values(tool.params, args, tool_name)->Ok_0;
    assert(placeholders_defined(tool.command, tool.params));
    assert forall|i: int, j: int|
        0 <= i < ts.len() && 0 <= j < placeholder_names(ts[i]).len() implies al_contains(
        vals,
        #[trigger] placeholder_names(ts[i])[j],
    ) by {
        assert(al_contains(tool.params, placeholder_names(ts[i])[j]));
    }
    lemma_render_args_ok(ts, vals);
    let words = render_args(ts, vals)->Ok_0;
    law_array_tool_runs_filled_in_arguments(tool_name, tool, ts, args, targets, vals, words);
}

} // verus!
