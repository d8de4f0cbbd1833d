use agentic_ssh::template::replace_str;
use agentic_ssh::pool::identity_key_candidates;
use agentic_ssh::agents::is_owned_agent_config;
use agentic_ssh::agents::{
    agentic_ssh_prompt_block_range, file_resource_uri, hook_command, is_builtin_default_agent,
    percent_encode_file_uri_path, prompt_rules_text, remove_prompt_section,
    remove_steering_rules, remove_toml_server, truncate_at_rules, AgentOption, FileEdit,
    KiroIntegration, RooCodeIntegration,
};
use agentic_ssh::cli::{json_arguments, requires_human, JsonArguments};
use agentic_ssh::config::{
    local_config_source, migrate_legacy_tools, CommandTemplate, Config, LegacyCustomTool,
    LocalSource, ParamInfo, PreparedTool,
};
use agentic_ssh::custom::{prepare_custom_command, CustomToolError};
use agentic_ssh::errors::AgenticSshError;
use agentic_ssh::hosts::{expand_host_recursive, parse_hosts, resolve_hosts, HostArgs, HostArgsError, HostsArg};
use agentic_ssh::output::abbreviate_output;
use agentic_ssh::paths::{
    find_local_config, local_config_candidates, nearest_local_config, opencode_config_path,
    opencode_prompt_path,
};
use agentic_ssh::commands::{container_logs_command, follow_log_command, tail_command};
use agentic_ssh::access::authorized_hosts;
use agentic_ssh::json::{json_has_server, remove_server_entry, set_server_entry, Json, JsonEditError};
use agentic_ssh::sshhost::{host_params_for, ssh_target, target_host, SshHostParams, SshTarget};
use agentic_ssh::parsers::{apply_memory_section, parse_listening_ports, ListeningPort, MemoryStats};
use agentic_ssh::pool::{connection_status, dashboard_row, keep_connection, progress_message};
use agentic_ssh::rpc::{classify_method, method_not_found_message, reply_id, Id, RpcMethod};
use agentic_ssh::search::{find_matched_line, match_remaining, search_pattern, search_processes};
use agentic_ssh::security::{ledger_trusts, sha256_hex, updated_ledger};
use agentic_ssh::sizes::{format_bytes, should_delete, summarize_logs};
use agentic_ssh::sshconf::{hosts_line, parse_directive, sorted_unique, timeout_line_step, HostsLine, TimeoutLine};
use agentic_ssh::strmap::StrMap;
use agentic_ssh::update::{after_fetch, cached_answer, update_notice, UpdateStep, VersionCache};
use agentic_ssh::watch::{
    grid_rows, plan_watch, status_emoji, visible_log_start, watch_targets, HostStatus, LineBuffer,
    WatchAction, WatchError, WatchKey, WatchState,
};

fn simple_tool(command: &str, allow_hosts: Vec<String>, params: StrMap<ParamInfo>) -> PreparedTool {
    PreparedTool {
        description: "tool".to_string(),
        command: CommandTemplate::Simple(command.to_string()),
        allow_shell: true,
        allow_hosts,
        params,
    }
}

#[test]
fn format_bytes_agrees_with_float_formatting() {
    let mut samples: Vec<u64> = vec![0, 1, 1023, 1024, 1280, 1536, 1_048_575, 1_048_576, 1_310_720];
    for k in 0..200u64 {
        samples.push(1024 + k * 77_777);
        samples.push(1_048_576 + k * 123_456_789);
        samples.push(1_073_741_824 + k * 98_765_432_101);
    }
    samples.push((1u64 << 53) - 1);
    samples.push((1u64 << 53) + 1);
    samples.push((1u64 << 60) + 12345);
    samples.push(u64::MAX);
    for b in samples {
        let expected = if b < 1024 {
            format!("{} B", b)
        } else if b < 1024 * 1024 {
            format!("{:.1} KB", b as f64 / 1024.0)
        } else if b < 1024 * 1024 * 1024 {
            format!("{:.1} MB", b as f64 / (1024.0 * 1024.0))
        } else {
            format!("{:.2} GB", b as f64 / (1024.0 * 1024.0 * 1024.0))
        };
        assert_eq!(format_bytes(b), expected, "bytes = {}", b);
    }
}

#[test]
fn abbreviate_with_zero_kept_lines() {
    assert_eq!(abbreviate_output("a\nb\nc", 1), "... [3 lines truncated] ...\n");
    assert_eq!(abbreviate_output("a\r\nb\r\nc\r\n", 2), "a\n... [1 lines truncated] ...\nc\n");
}

#[test]
fn resolution_has_no_repeats_and_no_group_names() {
    let mut groups: StrMap<Vec<String>> = StrMap::new();
    groups.insert("web".to_string(), vec!["a".to_string(), "b".to_string(), "db".to_string()]);
    groups.insert("db".to_string(), vec!["b".to_string(), "c".to_string(), "web".to_string()]);
    let r = resolve_hosts(&["web".to_string(), "c".to_string(), "plain".to_string()], &groups);
    assert_eq!(r, vec!["a".to_string(), "b".to_string(), "c".to_string(), "plain".to_string()]);

    let mut visited = vec!["web".to_string()];
    let mut expanded = Vec::new();
    expand_host_recursive("web", &groups, &mut visited, &mut expanded);
    assert!(expanded.is_empty());
    assert_eq!(visited, vec!["web".to_string()]);
}

#[test]
fn host_arguments_errors_and_groups() {
    let mut groups: StrMap<Vec<String>> = StrMap::new();
    groups.insert("pis".to_string(), vec!["stan".to_string(), "kyle".to_string()]);
    let by_group = HostArgs { hosts: None, host: Some("pis".to_string()) };
    assert_eq!(parse_hosts(&by_group, &groups).unwrap(), (vec!["stan".to_string(), "kyle".to_string()], true));
    let bad = HostArgs { hosts: Some(HostsArg::Other), host: Some("x".to_string()) };
    assert_eq!(parse_hosts(&bad, &groups).unwrap_err(), HostArgsError::InvalidHosts);
    assert_eq!(
        HostArgsError::InvalidHosts.message(),
        "Invalid 'hosts' argument: must be an array of strings"
    );
    let only_numbers = HostArgs { hosts: Some(HostsArg::List(vec![None, None])), host: None };
    assert_eq!(parse_hosts(&only_numbers, &groups).unwrap_err(), HostArgsError::EmptyHosts);
    let none = HostArgs { hosts: None, host: None };
    assert!(parse_hosts(&none, &groups).unwrap_err().message().starts_with("Missing target host(s)"));
}

#[test]
fn custom_tool_calls() {
    let mut params = StrMap::new();
    params.insert("file".to_string(), ParamInfo { validation: "path".to_string() });
    let tool = simple_tool("tail -n 5 {{ file }}", vec!["dev-*".to_string()], params);
    let targets = vec![("dev-1".to_string(), "10.0.0.1".to_string())];

    let mut args = StrMap::new();
    args.insert("file".to_string(), "/var/log/syslog".to_string());
    assert_eq!(prepare_custom_command("tail", &tool, &args, &targets).unwrap(), "tail -n 5 /var/log/syslog");

    let empty: StrMap<String> = StrMap::new();
    let e = prepare_custom_command("tail", &tool, &empty, &targets).unwrap_err();
    assert_eq!(e.message(), "Error: Missing required parameter 'file' for tool 'tail'");

    let mut bad = StrMap::new();
    bad.insert("file".to_string(), "/tmp/x; rm -rf /".to_string());
    let e = prepare_custom_command("tail", &tool, &bad, &targets).unwrap_err();
    assert_eq!(
        e.message(),
        "Error: Parameter 'file' failed validation with rule 'path'. Provided value: \"/tmp/x; rm -rf /\""
    );

    let prod = vec![("prod-1".to_string(), "10.0.0.9".to_string())];
    let e = prepare_custom_command("tail", &tool, &args, &prod).unwrap_err();
    assert_eq!(e, CustomToolError::HostNotAllowed { host: "prod-1".to_string(), tool: "tail".to_string() });
    assert_eq!(e.message(), "Error: Access to host 'prod-1' is not allowed for tool 'tail'");

    let unbound = simple_tool("echo {{other}}", vec![], StrMap::new());
    let e = prepare_custom_command("echo", &unbound, &empty, &targets).unwrap_err();
    assert_eq!(e.message(), "Error interpolating command: Missing value for parameter 'other'");

    let mut p2 = StrMap::new();
    p2.insert("msg".to_string(), ParamInfo { validation: "permissive".to_string() });
    let array_tool = PreparedTool {
        description: "commit".to_string(),
        command: CommandTemplate::Array(vec!["git".to_string(), "commit".to_string(), "-m".to_string(), "{{msg}}".to_string()]),
        allow_shell: false,
        allow_hosts: vec![],
        params: p2,
    };
    assert!(array_tool.validate("commit").is_ok());
    let mut a2 = StrMap::new();
    a2.insert("msg".to_string(), "it's done".to_string());
    assert_eq!(
        prepare_custom_command("commit", &array_tool, &a2, &targets).unwrap(),
        "'git' 'commit' '-m' 'it'\\''s done'"
    );
}

#[test]
fn process_search_is_case_insensitive() {
    let out = "  PID USER %CPU %MEM COMMAND\n 10 root 0.0 0.1 /usr/sbin/NGINX -g daemon\n 11 www 0.0 0.1 /usr/bin/python3 app.py\n";
    let pattern = search_pattern("nginx").ok().unwrap();
    let found = search_processes(out, &pattern);
    assert_eq!(found.len(), 1);
    assert_eq!(found[0].pid, 10);
    assert_eq!(found[0].command, "/usr/sbin/NGINX -g daemon");
    let err = search_pattern("(unclosed").err().unwrap();
    assert!(err.starts_with("Invalid regex pattern: "));
    assert!(err.len() > "Invalid regex pattern: ".len());
}

#[test]
fn remaining_output_counts_when_it_matches() {
    let pattern = search_pattern("done").ok().unwrap();
    assert_eq!(match_remaining(&b"all DONE".to_vec(), &pattern), Some("all DONE".to_string()));
    assert_eq!(match_remaining(&b"still going".to_vec(), &pattern), None);
    assert_eq!(match_remaining(&Vec::new(), &pattern), None);
}

#[test]
fn local_config_search_walks_to_the_top() {
    assert_eq!(find_local_config("/nonexistent-agentic-ssh-dir/a/b"), None);
}

#[test]
fn matched_line_keeps_the_rest() {
    let pattern = search_pattern("ready").ok().unwrap();
    let mut buf = b"starting\nserver READY on 80\npartial".to_vec();
    assert_eq!(find_matched_line(&mut buf, &pattern), Some("server READY on 80".to_string()));
    assert_eq!(buf, b"partial".to_vec());
    assert_eq!(find_matched_line(&mut buf, &pattern), None);
    assert_eq!(buf, b"partial".to_vec());
}

#[test]
fn ss_columns_with_pid_slash_name_and_filters() {
    let raw = "Netid State Recv-Q Send-Q Local Address:Port Peer Address:Port\ntcp LISTEN 0 128 0.0.0.0:22 0.0.0.0:* 812/sshd: /usr/sbin\ntcp6 LISTEN 0 128 [::]:22 [::]:* 812/sshd\n";
    let ports = parse_listening_ports(raw, None);
    assert_eq!(ports.len(), 1);
    assert_eq!(ports[0].proto, "tcp");
    assert_eq!(ports[0].local_address, "0.0.0.0");
    assert_eq!(ports[0].port, 22);
    assert_eq!(ports[0].pid, Some(812));
    assert_eq!(ports[0].process, Some("sshd:".to_string()));
    assert!(parse_listening_ports(raw, Some(80)).is_empty());
}

#[test]
fn netstat_output_gives_the_local_address() {
    let raw = "tcp 0 0 0.0.0.0:22 0.0.0.0:* LISTEN 812/sshd\n";
    let ports = parse_listening_ports(raw, None);
    assert_eq!(
        ports,
        vec![ListeningPort {
            proto: "tcp".into(),
            local_address: "0.0.0.0".into(),
            port: 22,
            process: Some("sshd".into()),
            pid: Some(812),
        }]
    );
    let full = "Active Internet connections (only servers)\nProto Recv-Q Send-Q Local Address           Foreign Address         State       PID/Program name\ntcp        0      0 0.0.0.0:22              0.0.0.0:*               LISTEN      812/sshd\ntcp6       0      0 :::22                   :::*                    LISTEN      812/sshd\nudp        0      0 0.0.0.0:53              0.0.0.0:*                           456/named\n";
    let ports = parse_listening_ports(full, None);
    assert_eq!(ports.len(), 2);
    assert_eq!((ports[0].proto.as_str(), ports[0].port, ports[0].pid), ("tcp", 22, Some(812)));
    assert_eq!((ports[1].proto.as_str(), ports[1].port, ports[1].process.as_deref()), ("udp", 53, Some("named")));
    assert_eq!(parse_listening_ports(full, Some(53)).len(), 1);
}

#[test]
fn free_output_when_meminfo_is_missing() {
    let mut m = MemoryStats { total_kb: 0, free_kb: 0, available_kb: None, used_kb: 0 };
    apply_memory_section("              total        used        free      shared  buff/cache   available\nMem:        1000         300         200          10         500         650\n", &mut m);
    assert_eq!(m, MemoryStats { total_kb: 1000, free_kb: 200, available_kb: Some(650), used_kb: 300 });
}

#[test]
fn ledger_round_trip() {
    let hash = sha256_hex(b"abc");
    assert_eq!(hash, "ba7816bf8f01cfea414140de5dae2223b00361a396177a9cb410ff61f20015ad");
    let old = vec![
        "# trusted files".to_string(),
        "".to_string(),
        "deadbeef:/home/u/a/.agentic_ssh.toml".to_string(),
        "cafe:/home/u/b/.agentic_ssh.toml".to_string(),
    ];
    let new = updated_ledger(&old, &hash, "/home/u/a/.agentic_ssh.toml");
    assert_eq!(
        new,
        vec![
            "cafe:/home/u/b/.agentic_ssh.toml".to_string(),
            format!("{}:/home/u/a/.agentic_ssh.toml", hash)
        ]
    );
    assert!(ledger_trusts(&new, &hash, "/home/u/a/.agentic_ssh.toml"));
    assert!(!ledger_trusts(&new, "deadbeef", "/home/u/a/.agentic_ssh.toml"));
    assert!(!ledger_trusts(&old, &hash, "/home/u/a/.agentic_ssh.toml"));
    assert!(ledger_trusts(&old, "cafe", "/home/u/b/.agentic_ssh.toml"));
    assert!(ledger_trusts(&new, "cafe", "/home/u/b/.agentic_ssh.toml"));
}

#[test]
fn ssh_config_lines() {
    assert_eq!(parse_directive("HostName=10.0.0.1"), Some(("hostname".to_string(), "10.0.0.1".to_string())));
    assert_eq!(parse_directive("  User \"admin\" "), Some(("user".to_string(), "admin".to_string())));
    assert_eq!(parse_directive("HostName = x"), Some(("hostname".to_string(), "= x".to_string())));
    assert_eq!(parse_directive("# comment"), None);
    assert_eq!(parse_directive("Host"), None);
    match hosts_line("Host web-1 *.prod db? ! db-2") {
        HostsLine::Hosts(h) => assert_eq!(h, vec!["web-1".to_string(), "db-2".to_string()]),
        _ => panic!("expected hosts"),
    }
    match hosts_line("Include ~/.ssh/config.d/*") {
        HostsLine::Include(v) => assert_eq!(v, "~/.ssh/config.d/*"),
        _ => panic!("expected include"),
    }

    let lines = ["Host fast-box", "  ConnectTimeout 3", "Host *.prod.example.com", "  ConnectTimeout 7", "Host *", "  ConnectTimeout 15"];
    let find = |target: &str| -> Option<u64> {
        let mut matching = false;
        for l in lines.iter() {
            if let TimeoutLine::Found(s) = timeout_line_step(&mut matching, l, target) {
                return Some(s);
            }
        }
        None
    };
    assert_eq!(find("fast-box"), Some(3));
    assert_eq!(find("app.prod.example.com"), Some(7));
    assert_eq!(find("unknown-node"), Some(15));

    let hosts = vec!["b".to_string(), "a".to_string(), "b".to_string(), "Z".to_string(), "ä".to_string()];
    assert_eq!(sorted_unique(&hosts), vec!["Z".to_string(), "a".to_string(), "b".to_string(), "ä".to_string()]);
}

#[test]
fn update_cache_decisions() {
    let cache = Some(VersionCache { last_check_timestamp: 1_000, latest_version: "0.9.0".to_string() });
    match cached_answer(1_000 + 3600, &cache, "0.4.3") {
        UpdateStep::Answer(a) => assert_eq!(a, Some("0.9.0".to_string())),
        UpdateStep::Fetch => panic!("fresh cache must answer"),
    }
    assert!(matches!(cached_answer(1_000 + 86_400, &cache, "0.4.3"), UpdateStep::Fetch));
    assert!(matches!(cached_answer(5, &None, "0.4.3"), UpdateStep::Fetch));

    let (new_cache, answer) = after_fetch(77, Some("vv1.2.0".to_string()), None, "1.2.0");
    let c = new_cache.unwrap();
    assert_eq!((c.last_check_timestamp, c.latest_version.as_str()), (77, "1.2.0"));
    assert_eq!(answer, None);
    let (none_written, from_old) = after_fetch(77, None, cache, "0.4.3");
    assert!(none_written.is_none());
    assert_eq!(from_old, Some("0.9.0".to_string()));
    assert!(update_notice("1.0.0", "0.9.0").starts_with("💡 A new version of agentic_ssh is available: v1.0.0 (current: v0.9.0)\n"));
}

#[test]
fn chunked_output_gives_the_same_lines() {
    let mut whole = LineBuffer::new();
    let mut a = Vec::new();
    whole.push("one\ntwo\nthr", &mut a, "> ");
    let mut split = LineBuffer::new();
    let mut b = Vec::new();
    split.push("on", &mut b, "> ");
    split.push("e\ntw", &mut b, "> ");
    split.push("o\nthr", &mut b, "> ");
    assert_eq!(a, b);
    whole.flush_remaining(&mut a, "> ");
    split.flush_remaining(&mut b, "> ");
    assert_eq!(a, vec!["> one".to_string(), "> two".to_string(), "> thr".to_string()]);
    assert_eq!(a, b);
}

#[test]
fn host_status_ends_and_caps_its_log() {
    let mut h = HostStatus::running("web".to_string());
    let mut out = LineBuffer::new();
    let mut err = LineBuffer::new();
    let text: String = (0..1005).map(|i| format!("l{}\n", i)).collect();
    h.append_output(&mut out, &text, "");
    assert_eq!(h.log_lines.len(), 1000);
    assert_eq!(h.log_lines[0], "l5");
    h.append_output(&mut err, "boom", "[STDERR] ");
    h.finish(&mut out, &mut err, Some(2));
    assert_eq!(h.status, "Failed");
    assert_eq!(h.log_lines.last().unwrap(), "[STDERR] boom");
    let mut ok = HostStatus::running("db".to_string());
    ok.finish(&mut LineBuffer::new(), &mut LineBuffer::new(), Some(0));
    assert_eq!(ok.status, "Success");
    let mut gone = HostStatus::running("x".to_string());
    gone.finish(&mut LineBuffer::new(), &mut LineBuffer::new(), None);
    assert_eq!(gone.status, "Failed");
}

#[test]
fn watch_keys_and_status_line() {
    let mut s = WatchState::new(&vec!["a".to_string(), "b".to_string()]);
    assert_eq!(s.handle_key(WatchKey::Up), WatchAction::Continue);
    assert_eq!(s.selected_index, 0);
    s.handle_key(WatchKey::Down);
    s.handle_key(WatchKey::Down);
    assert_eq!(s.selected_index, 1);
    assert_eq!(s.handle_key(WatchKey::Quit), WatchAction::StartTeardown);
    assert!(!s.first_ctrl_c);
    assert_eq!(s.handle_key(WatchKey::CtrlC), WatchAction::Exit);
    assert_eq!(s.status_line(), None);
    s.hosts[0].status = "Success".to_string();
    s.hosts[1].status = "Failed".to_string();
    assert_eq!(
        s.status_line(),
        Some(" ✘ Execution complete. Succeeded: 1/2, Failed: 1. Press Esc or Ctrl+C to exit. ".to_string())
    );
    s.hosts[1].status = "Success".to_string();
    assert_eq!(
        s.status_line(),
        Some(" ✔ Execution complete. All 2 hosts succeeded. Press Esc or Ctrl+C to exit. ".to_string())
    );
    assert_eq!(status_emoji("Running"), "🟡");
    assert_eq!(status_emoji("other"), "⚪");
    assert_eq!(visible_log_start(50, 12), 40);
    assert_eq!(visible_log_start(5, 1), 5);
    assert_eq!(grid_rows(3), vec![2, 2]);
    assert_eq!(grid_rows(7), vec![4, 3]);
    assert_eq!(grid_rows(1), vec![1]);
}

#[test]
fn watch_targets_resolve() {
    assert_eq!(watch_targets(" a , ,b"), vec!["a".to_string(), "b".to_string()]);
    assert_eq!(watch_targets(" solo "), vec![" solo ".to_string()]);
    let groups: StrMap<Vec<String>> = StrMap::new();
    let e = plan_watch(" , ", &groups).unwrap_err();
    assert_eq!(e, WatchError::NoTargets { target: " , ".to_string() });
    assert_eq!(e.message(), "Configuration Error: No valid target hosts resolved from ' , '");
}

#[test]
fn log_statistics_and_cleaning() {
    let day = 86_400u64;
    let files = vec![(10u64, 0u64), (20, 2 * day), (30, 3 * day + 1), (40, 8 * day)];
    let s = summarize_logs(&files).unwrap();
    assert_eq!((s.total_count, s.total_bytes), (4, 100));
    assert_eq!((s.older_than_2_days.count, s.older_than_2_days.total_bytes), (3, 90));
    assert_eq!((s.older_than_3_days.count, s.older_than_3_days.total_bytes), (2, 70));
    assert_eq!((s.older_than_7_days.count, s.older_than_7_days.total_bytes), (1, 40));
    assert!(summarize_logs(&vec![(u64::MAX, 0), (1, 0)]).is_none());
    assert!(should_delete(true, None, 0));
    assert!(should_delete(false, Some(3), 3 * day));
    assert!(!should_delete(false, Some(3), 3 * day - 1));
}

#[test]
fn prompt_file_edits() {
    let gemini = "# Mine\n\n## Prefer agentic_ssh MCP tools\n\nrules\n\n## Other\nkeep\n";
    assert_eq!(remove_prompt_section(gemini), FileEdit::Write("# Mine\n\n## Other\nkeep\n".to_string()));
    assert_eq!(remove_prompt_section("## Prefer agentic_ssh MCP tools\nall\n"), FileEdit::Delete);
    assert_eq!(remove_prompt_section("nothing here"), FileEdit::Unchanged);

    let steering = format!("intro\n\n{}\n\ntail", prompt_rules_text());
    assert_eq!(remove_steering_rules(&steering), FileEdit::Write("intro\n\ntail\n".to_string()));
    assert_eq!(remove_steering_rules("## Prefer agentic_ssh MCP tools\nno end"), FileEdit::Unchanged);
    let with_accent = format!("é{}", prompt_rules_text());
    assert_eq!(agentic_ssh_prompt_block_range(&with_accent), Some((2, with_accent.len())));

    assert_eq!(truncate_at_rules("mine\n\n## Prefer agentic_ssh MCP tools\nx"), FileEdit::Write("mine\n".to_string()));

    let toml = "[[mcp_servers]]\nname = \"other\"\n\n[[mcp_servers]]\n\nname = \"agentic_ssh\"\ncommand = \"x\"\n\n[model]\nid = 1\n";
    assert_eq!(
        remove_toml_server(toml),
        FileEdit::Write("[[mcp_servers]]\nname = \"other\"\n\n[model]\nid = 1\n".to_string())
    );
    assert_eq!(remove_toml_server("[[mcp_servers]]\nname = \"agentic_ssh\"\n"), FileEdit::Delete);
}

#[test]
fn kiro_helpers() {
    assert_eq!(hook_command("/usr/bin/agentic_ssh", "hook-kiro-prompt-submit"), "/usr/bin/agentic_ssh hook-kiro-prompt-submit");
    assert!(is_builtin_default_agent("kiro_default"));
    assert!(!is_builtin_default_agent("mine"));
    assert_eq!(percent_encode_file_uri_path("/a b/é~"), "/a%20b/%C3%A9~");
    assert_eq!(file_resource_uri("C:\\Users\\x y"), "file:///C:/Users/x%20y");
    assert_eq!(file_resource_uri("/home/u/s.md"), "file:///home/u/s.md");
    assert_eq!(KiroIntegration.name(), "Kiro");
    assert_eq!(RooCodeIntegration.id(), "roo-code");
    assert_eq!(AgentOption::RooCode.to_str(), "roo-code");
    assert_eq!(AgenticSshError::Config { message: "bad".to_string() }.message(), "Configuration error: bad");
}

#[test]
fn rpc_and_cli_decisions() {
    assert_eq!(classify_method("tools/call"), RpcMethod::ToolsCall);
    assert_eq!(classify_method("nope"), RpcMethod::Unknown);
    assert_eq!(method_not_found_message("nope"), "Method not found: nope");
    assert_eq!(reply_id(RpcMethod::Initialized, Some(Id::Number(1))), None);
    assert_eq!(reply_id(RpcMethod::Ping, Some(Id::Number(1))), Some(Id::Number(1)));
    assert!(requires_human(false, false, true));
    assert!(!requires_human(false, false, false));
    assert_eq!(json_arguments(None), JsonArguments::Empty);
    assert_eq!(json_arguments(Some("  {\"a\":1} ")), JsonArguments::Object("{\"a\":1}".to_string()));
    assert_eq!(json_arguments(Some("h1, h2,,")), JsonArguments::Hosts(vec!["h1".to_string(), "h2".to_string()]));
    assert_eq!(local_config_source(&None, true), LocalSource::Nowhere);
    assert_eq!(local_config_source(&Some("x.toml".to_string()), true), LocalSource::Explicit("x.toml".to_string()));
}

#[test]
fn pool_bookkeeping() {
    let s = connection_status("web", 0, 1000, 30, 300);
    assert_eq!((s.last_used_timestamp, s.status.as_str()), (970, "Active"));
    let busy = connection_status("web", 2, 1000, 30, 300);
    assert_eq!((busy.last_used_timestamp, busy.status.as_str()), (1000, "Executing"));
    assert!(keep_connection(1, 10, 1));
    assert!(!keep_connection(0, 10, 1));
    let row = dashboard_row(&s, 1010).unwrap();
    assert_eq!((row.last_used.as_str(), row.auto_close.as_str(), row.status.as_str()), ("40s ago", "260s left", "Active"));
    assert!(dashboard_row(&s, 2000).is_none());
    assert_eq!(progress_message(2048, 1024, 7), "[agentic_ssh] -> [Progress: 3KB read from streams...] (elapsed: 7s)\n");
    let cfg = Config::default();
    assert!(cfg.tools.is_empty());
}

#[test]
fn migrating_twice_changes_nothing() {
    let mut cfg = Config::default();
    cfg.custom_tools = vec![LegacyCustomTool {
        name: "logs".to_string(),
        description: "Grep the syslog".to_string(),
        command: "grep '{args}' /var/log/syslog".to_string(),
    }];
    assert!(migrate_legacy_tools(&mut cfg));
    let first = cfg.clone();
    assert!(!migrate_legacy_tools(&mut cfg));
    assert_eq!(cfg.tools.len(), first.tools.len());
    assert_eq!(cfg.custom_tools.len(), 0);
    match &cfg.tools.get("logs").unwrap().command {
        CommandTemplate::Simple(s) => assert_eq!(s, "grep '{{args}}' /var/log/syslog"),
        CommandTemplate::Array(_) => panic!("expected a string template"),
    }
}

#[test]
fn abbreviated_output_has_at_most_max_plus_one_lines() {
    let input: String = (1..=50).map(|i| format!("l{}\n", i)).collect();
    for max in [0usize, 1, 2, 5, 10, 49] {
        let out = abbreviate_output(&input, max);
        assert!(out.matches('\n').count() <= max + 1);
    }
}

#[test]
fn joined_arguments_read_back_through_quotes() {
    let args = vec!["a b".to_string(), "it's".to_string(), String::new(), "$(rm -rf /)".to_string()];
    assert_eq!(
        agentic_ssh::template::shell_join(&args),
        "'a b' 'it'\\''s' '' '$(rm -rf /)'"
    );
}

#[test]
fn replacing_the_empty_pattern_interleaves() {
    assert_eq!(replace_str("abc", "", "-"), "abc".replace("", "-"));
    assert_eq!(replace_str("", "", "-"), "-");
    assert_eq!(replace_str("a{args}b{args}", "{args}", "{{args}}"), "a{{args}}b{{args}}");
}

#[test]
fn identity_keys_come_configured_first_then_defaults_once() {
    let configured = vec!["/home/u/.ssh/work".to_string(), "/home/u/.ssh/id_rsa".to_string(), "/home/u/.ssh/work".to_string()];
    assert_eq!(
        identity_key_candidates(&configured, Some("/home/u/.ssh")),
        vec![
            "/home/u/.ssh/work".to_string(),
            "/home/u/.ssh/id_rsa".to_string(),
            "/home/u/.ssh/id_ed25519".to_string(),
            "/home/u/.ssh/id_ecdsa".to_string(),
            "/home/u/.ssh/id_dsa".to_string(),
        ]
    );
    assert_eq!(identity_key_candidates(&Vec::new(), None), Vec::<String>::new());
}

#[test]
fn only_the_agent_this_tool_writes_is_its_own() {
    let desc = "Default Kiro agent with agentic_ssh MCP tools and code-research guardrails.";
    assert!(is_owned_agent_config(Some("agentic_ssh"), Some(desc)));
    assert!(!is_owned_agent_config(Some("agentic_ssh"), Some("my own agent")));
    assert!(!is_owned_agent_config(Some("other"), Some(desc)));
    assert!(!is_owned_agent_config(None, Some(desc)));
}

#[test]
fn local_config_candidates_nearest_first() {
    let c = local_config_candidates("/T/a/b/c");
    assert_eq!(
        c,
        vec![
            "/T/a/b/c/.agentic_ssh.toml".to_string(),
            "/T/a/b/.agentic_ssh.toml".to_string(),
            "/T/a/.agentic_ssh.toml".to_string(),
            "/T/.agentic_ssh.toml".to_string(),
            "/.agentic_ssh.toml".to_string(),
        ]
    );
}

#[test]
fn test_find_local_config() {
    // The tree T/a/b/c, first with no configuration file, then with one in T/a.
    let c = local_config_candidates("/T/a/b/c");
    assert_eq!(nearest_local_config(&c, &[false, false, false, false, false]), None);
    assert_eq!(
        nearest_local_config(&c, &[false, false, true, false, false]),
        Some("/T/a/.agentic_ssh.toml".to_string())
    );
}

#[test]
fn nearest_local_config_takes_the_closest_file() {
    let c = local_config_candidates("/T/a/b/c");
    assert_eq!(
        nearest_local_config(&c, &[false, true, true, false, true]),
        Some("/T/a/b/.agentic_ssh.toml".to_string())
    );
    assert_eq!(
        nearest_local_config(&c, &[true, true, true, true, true]),
        Some("/T/a/b/c/.agentic_ssh.toml".to_string())
    );
    assert_eq!(nearest_local_config(&[], &[]), None);
}

#[test]
fn opencode_paths_prefer_the_home_config() {
    assert_eq!(
        opencode_config_path("/home/u", true, Some("/home/u/xdg")),
        "/home/u/.config/opencode/opencode.json"
    );
    assert_eq!(
        opencode_config_path("/home/u", false, Some("/home/u/xdg")),
        "/home/u/xdg/opencode/opencode.json"
    );
    // An XDG directory outside the home directory is not used.
    assert_eq!(
        opencode_config_path("/home/u", false, Some("/etc/xdg")),
        "/home/u/.config/opencode/opencode.json"
    );
    assert_eq!(
        opencode_config_path("/home/u", false, Some("/home/user2/xdg")),
        "/home/u/.config/opencode/opencode.json"
    );
    assert_eq!(opencode_config_path("/home/u", false, None), "/home/u/.config/opencode/opencode.json");
    assert_eq!(opencode_prompt_path("/home/u", true, None, false), "/home/u/.config/opencode/AGENTS.md");
    assert_eq!(
        opencode_prompt_path("/home/u", false, Some("/home/u/xdg"), true),
        "/home/u/xdg/opencode/AGENTS.md"
    );
    assert_eq!(opencode_prompt_path("/home/u", false, Some("/home/u/xdg"), false), "/home/u/AGENTS.md");
    assert_eq!(opencode_prompt_path("/home/u", false, Some("/tmp/xdg"), true), "/home/u/AGENTS.md");
    assert_eq!(opencode_prompt_path("/home/u", false, None, false), "/home/u/AGENTS.md");
}

#[test]
fn log_commands_quote_their_arguments() {
    assert_eq!(tail_command("/var/log/x's", 5), "tail -n 5 '/var/log/x'\\''s'");
    assert_eq!(tail_command("/var/log/syslog", 100), "tail -n 100 '/var/log/syslog'");
    assert_eq!(container_logs_command("web", 10, false), "docker logs --tail 10  'web'");
    assert_eq!(container_logs_command("web", 0, true), "docker logs --tail 0 --timestamps 'web'");
    assert_eq!(follow_log_command(Some("/a b"), Some("web")), Some("tail -f -n 10 '/a b'".to_string()));
    assert_eq!(follow_log_command(None, Some("web")), Some("docker logs -f --tail 10 'web'".to_string()));
    assert_eq!(follow_log_command(None, None), None);
}

#[test]
fn listed_hosts_leave_out_the_ignored_ones() {
    let mut cfg = Config::default();
    cfg.ignore_hosts = vec!["*prod*".to_string()];
    let hosts = vec!["web".to_string(), "db-prod".to_string(), "cache".to_string()];
    let resolved = vec!["10.0.0.1".to_string(), "10.0.0.2".to_string(), "cache.prod.local".to_string()];
    assert_eq!(authorized_hosts(&hosts, &resolved, &cfg), vec!["web".to_string()]);
    let open = Config::default();
    assert_eq!(authorized_hosts(&hosts, &resolved, &open), hosts);
}

#[test]
fn port_filter_keeps_the_unfiltered_order() {
    let raw = "Netid State Recv-Q Send-Q Local Address:Port Peer Address:Port Process\n\
tcp LISTEN 0 128 0.0.0.0:22 0.0.0.0:* users:((\"sshd\",pid=1,fd=3))\n\
tcp LISTEN 0 128 127.0.0.1:80 0.0.0.0:* users:((\"nginx\",pid=2,fd=6))\n\
udp UNCONN 0 0 0.0.0.0:80 0.0.0.0:*\n\
tcp LISTEN 0 128 [::]:80 [::]:* users:((\"nginx\",pid=3,fd=7))\n";
    let all = parse_listening_ports(raw, None);
    let filtered = parse_listening_ports(raw, Some(80));
    let expected: Vec<ListeningPort> = all.into_iter().filter(|e| e.port == 80).collect();
    assert_eq!(filtered, expected);
    assert_eq!(filtered.len(), 2);
    assert_eq!(filtered[0].proto, "tcp");
    assert_eq!(filtered[0].local_address, "127.0.0.1");
    assert_eq!(filtered[1].proto, "udp");
}

fn params(host_name: Option<&str>, port: Option<u16>, user: Option<&str>, files: Option<Vec<&str>>) -> SshHostParams {
    SshHostParams {
        host_name: host_name.map(|s| s.to_string()),
        port,
        user: user.map(|s| s.to_string()),
        identity_files: files.map(|v| v.into_iter().map(|s| s.to_string()).collect()),
    }
}

#[test]
fn ssh_target_falls_back_to_the_alias_and_defaults() {
    let none = params(None, None, None, None);
    assert_eq!(
        ssh_target("web", &none, "alice", Some("/home/alice")),
        SshTarget {
            host: "web".to_string(),
            port: 22,
            user: "alice".to_string(),
            keys: vec![
                "/home/alice/.ssh/id_rsa".to_string(),
                "/home/alice/.ssh/id_ed25519".to_string(),
                "/home/alice/.ssh/id_ecdsa".to_string(),
                "/home/alice/.ssh/id_dsa".to_string(),
            ],
        }
    );
    let set = params(Some("10.0.0.5"), Some(2222), Some("deploy"), Some(vec!["~/keys/deploy", "/home/alice/.ssh/id_rsa"]));
    let t = ssh_target("web", &set, "alice", Some("/home/alice"));
    assert_eq!(t.host, "10.0.0.5");
    assert_eq!(t.port, 2222);
    assert_eq!(t.user, "deploy");
    assert_eq!(
        t.keys,
        vec![
            "/home/alice/keys/deploy".to_string(),
            "/home/alice/.ssh/id_rsa".to_string(),
            "/home/alice/.ssh/id_ed25519".to_string(),
            "/home/alice/.ssh/id_ecdsa".to_string(),
            "/home/alice/.ssh/id_dsa".to_string(),
        ]
    );
    let no_home = ssh_target("web", &set, "alice", None);
    assert_eq!(no_home.keys, vec!["~/keys/deploy".to_string(), "/home/alice/.ssh/id_rsa".to_string()]);
    assert_eq!(target_host("web", &set), "10.0.0.5");
    assert_eq!(target_host("web", &none), "web");
}

#[test]
fn ssh_config_text_gives_the_host_settings() {
    assert_eq!(host_params_for(None, "web"), params(None, None, None, None));
    let text = b"Host web\n  HostName 10.0.0.5\n  Port 2222\n  User deploy\n  IdentityFile /keys/deploy\n";
    let p = host_params_for(Some(&text[..]), "web");
    assert_eq!(p, params(Some("10.0.0.5"), Some(2222), Some("deploy"), Some(vec!["/keys/deploy"])));
    assert_eq!(target_host("web", &p), "10.0.0.5");
    let other = host_params_for(Some(&text[..]), "db");
    assert_eq!(other.host_name, None);
    assert_eq!(target_host("db", &other), "db");
}

fn obj(members: Vec<(&str, Json)>) -> Json {
    Json::Object(members.into_iter().map(|(k, v)| (k.to_string(), v)).collect())
}

#[test]
fn server_entry_is_set_and_removed() {
    let entry = obj(vec![("command", Json::Str("/bin/agentic_ssh".to_string()))]);
    let doc = obj(vec![("theme", Json::Str("dark".to_string())), ("mcpServers", obj(vec![("other", Json::Null)]))]);
    let set = set_server_entry(doc, "mcpServers", entry).unwrap();
    let expected = obj(vec![
        ("theme", Json::Str("dark".to_string())),
        (
            "mcpServers",
            obj(vec![("other", Json::Null), ("agentic_ssh", obj(vec![("command", Json::Str("/bin/agentic_ssh".to_string()))]))]),
        ),
    ]);
    assert_eq!(set, expected);
    assert!(json_has_server(&set, "mcpServers"));
    assert!(!json_has_server(&set, "mcp"));
    let (removed, was) = remove_server_entry(set, "mcpServers");
    assert!(was);
    assert_eq!(
        removed,
        obj(vec![("theme", Json::Str("dark".to_string())), ("mcpServers", obj(vec![("other", Json::Null)]))])
    );
    let (same, was) = remove_server_entry(obj(vec![("mcp", Json::Null)]), "mcp");
    assert!(!was);
    assert_eq!(same, obj(vec![("mcp", Json::Null)]));
}

#[test]
fn server_entry_replaces_a_section_that_is_no_object() {
    let doc = obj(vec![("mcp", Json::Number("3".to_string()))]);
    let set = set_server_entry(doc, "mcp", Json::Bool(true)).unwrap();
    assert_eq!(set, obj(vec![("mcp", obj(vec![("agentic_ssh", Json::Bool(true))]))]));
    let empty = set_server_entry(obj(vec![]), "mcp", Json::Null).unwrap();
    assert_eq!(empty, obj(vec![("mcp", obj(vec![("agentic_ssh", Json::Null)]))]));
    assert_eq!(set_server_entry(Json::Array(vec![]), "mcp", Json::Null), Err(JsonEditError::NotAnObject));
    assert!(!json_has_server(&Json::Null, "mcp"));
}
