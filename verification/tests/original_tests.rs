use agentic_ssh::access::{is_host_allowed_for_tool, is_host_ignored_impl};
use agentic_ssh::config::{
    merge_configs, migrate_legacy_tools, CommandTemplate, Config, LegacyCustomTool, ParamInfo,
    PreparedTool,
};
use agentic_ssh::hosts::{parse_hosts, resolve_hosts, HostArgs, HostsArg};
use agentic_ssh::output::abbreviate_output;
use agentic_ssh::parsers::{parse_listening_ports, parse_stats_sections};
use agentic_ssh::search::parse_ps_line;
use agentic_ssh::sizes::format_bytes;
use agentic_ssh::strmap::StrMap;
use agentic_ssh::template::{replace_str, shell_join, validate_param_value};
use agentic_ssh::update::{is_newer_version, parse_version};
use agentic_ssh::watch::LineBuffer;

fn tool(description: &str, command: &str, allow_hosts: Vec<String>, params: StrMap<ParamInfo>) -> PreparedTool {
    PreparedTool {
        description: description.to_string(),
        command: CommandTemplate::Simple(command.to_string()),
        allow_shell: true,
        allow_hosts,
        params,
    }
}

#[test]
fn test_format_bytes() {
    assert_eq!(format_bytes(500), "500 B");
    assert_eq!(format_bytes(2048), "2.0 KB");
    assert_eq!(format_bytes(1_500_000), "1.4 MB");
    assert_eq!(format_bytes(2_000_000_000), "1.86 GB");
}

fn check_abbreviate_output() {
    let input = "line 1\nline 2\nline 3\nline 4\nline 5\nline 6\nline 7\nline 8\nline 9\nline 10";
    let output = abbreviate_output(input, 4);
    let expected = "line 1\nline 2\n... [6 lines truncated] ...\nline 9\nline 10\n";
    assert_eq!(output, expected);

    let output_under = abbreviate_output(input, 20);
    assert_eq!(output_under, input.to_string());
}

#[test]
fn mcp_server_test_abbreviate_output() {
    check_abbreviate_output();
}

#[test]
fn mod_test_abbreviate_output() {
    check_abbreviate_output();
}

fn check_parse_ps_line() {
    let line = " 1234 richard   0.5  1.2 /usr/local/bin/localmail serve --port 80";
    let entry = parse_ps_line(line).unwrap();
    assert_eq!(entry.pid, 1234);
    assert_eq!(entry.user, "richard");
    assert_eq!(entry.cpu, "0.5");
    assert_eq!(entry.mem, "1.2");
    assert_eq!(entry.command, "/usr/local/bin/localmail serve --port 80");

    let header = "  PID USER      %CPU %MEM COMMAND";
    assert!(parse_ps_line(header).is_none());
}

#[test]
fn mcp_server_test_parse_ps_line() {
    check_parse_ps_line();
}

#[test]
fn parsers_test_parse_ps_line() {
    check_parse_ps_line();
}

fn interpolate(cmd_template: &str, args: &str) -> String {
    if cmd_template.contains("{args}") {
        replace_str(cmd_template, "{args}", args)
    } else if !args.is_empty() {
        format!("{} {}", cmd_template, args)
    } else {
        cmd_template.to_string()
    }
}

fn check_custom_command_interpolation() {
    let cmd_template = "grep -i '{args}' /var/log/syslog";
    let args = "error";
    let cmd_to_run = interpolate(cmd_template, args);
    assert_eq!(cmd_to_run, "grep -i 'error' /var/log/syslog");

    let cmd_simple = "apt list --upgradable";
    let args_simple = "some_extra";
    let cmd_to_run_simple = interpolate(cmd_simple, args_simple);
    assert_eq!(cmd_to_run_simple, "apt list --upgradable some_extra");
}

#[test]
fn mcp_server_test_custom_command_interpolation() {
    check_custom_command_interpolation();
}

#[test]
fn mod_test_custom_command_interpolation() {
    check_custom_command_interpolation();
}

fn check_parse_system_stats() {
    let raw = "\
=== LOAD ===
0.15 0.08 0.05 1/450 12345
=== MEM ===
MemTotal:       16278272 kB
MemFree:         4829104 kB
MemAvailable:   11000200 kB
=== DISK ===
Filesystem     1024-blocks      Used Available Capacity Mounted on
/dev/sda1        105291040  45192040  60099000      43% /
tmpfs              8139136         0   8139136       0% /dev/shm
";
    let stats = parse_stats_sections(raw);
    assert_eq!(stats.load_lines, vec!["0.15 0.08 0.05 1/450 12345".to_string()]);
    // The load averages are floating point, which the library does not hold:
    // it hands back the raw load line, and the program parses the numbers.
    // They are parsed the same way here to check the expected values.
    let loads: Vec<f64> = stats.load_lines[0]
        .split_whitespace()
        .take(3)
        .map(|t| t.parse::<f64>().unwrap())
        .collect();
    assert_eq!(loads, vec![0.15, 0.08, 0.05]);
    assert_eq!(stats.memory.total_kb, 16278272);
    assert_eq!(stats.memory.free_kb, 4829104);
    assert_eq!(stats.memory.available_kb, Some(11000200));
    assert_eq!(stats.memory.used_kb, 16278272 - 11000200);

    assert_eq!(stats.disks.len(), 1);
    assert_eq!(stats.disks[0].filesystem, "/dev/sda1");
    assert_eq!(stats.disks[0].size_kb, 105291040);
    assert_eq!(stats.disks[0].used_kb, 45192040);
    assert_eq!(stats.disks[0].available_kb, 60099000);
    assert_eq!(stats.disks[0].use_percent, 43);
    assert_eq!(stats.disks[0].mount_point, "/");
}

#[test]
fn mcp_server_test_parse_system_stats() {
    check_parse_system_stats();
}

#[test]
fn parsers_test_parse_system_stats() {
    check_parse_system_stats();
}

fn check_parse_listening_ports() {
    let raw_ss = "\
Netid State  Recv-Q Send-Q Local Address:Port Peer Address:Port Process
tcp   LISTEN 0      4096         0.0.0.0:80          0.0.0.0:*     users:((\"nginx\",pid=123,fd=6))
tcp   LISTEN 0      4096            [::]:80             [::]:*     users:((\"nginx\",pid=123,fd=6))
udp   UNCONN 0      0            0.0.0.0:53          0.0.0.0:*     users:((\"named\",pid=456,fd=7))
";
    let ports = parse_listening_ports(raw_ss, None);
    assert_eq!(ports.len(), 2);

    assert_eq!(ports[0].proto, "tcp");
    assert_eq!(ports[0].local_address, "0.0.0.0");
    assert_eq!(ports[0].port, 80);
    assert_eq!(ports[0].process, Some("nginx".to_string()));
    assert_eq!(ports[0].pid, Some(123));

    assert_eq!(ports[1].proto, "udp");
    assert_eq!(ports[1].local_address, "0.0.0.0");
    assert_eq!(ports[1].port, 53);
    assert_eq!(ports[1].process, Some("named".to_string()));
    assert_eq!(ports[1].pid, Some(456));

    let filtered = parse_listening_ports(raw_ss, Some(53));
    assert_eq!(filtered.len(), 1);
    assert_eq!(filtered[0].port, 53);
}

#[test]
fn mcp_server_test_parse_listening_ports() {
    check_parse_listening_ports();
}

#[test]
fn parsers_test_parse_listening_ports() {
    check_parse_listening_ports();
}

fn check_parse_hosts_helper() {
    let groups: StrMap<Vec<String>> = StrMap::new();
    let args_single = HostArgs { hosts: None, host: Some("localhost".to_string()) };
    let (hosts, is_multi) = parse_hosts(&args_single, &groups).unwrap();
    assert!(!is_multi);
    assert_eq!(hosts, vec!["localhost".to_string()]);

    let args_multi = HostArgs {
        hosts: Some(HostsArg::List(vec![Some("host1".to_string()), Some("host2".to_string())])),
        host: None,
    };
    let (hosts, is_multi) = parse_hosts(&args_multi, &groups).unwrap();
    assert!(is_multi);
    assert_eq!(hosts, vec!["host1".to_string(), "host2".to_string()]);

    let args_multi_str = HostArgs { hosts: Some(HostsArg::Single("host1".to_string())), host: None };
    let (hosts, is_multi) = parse_hosts(&args_multi_str, &groups).unwrap();
    assert!(is_multi);
    assert_eq!(hosts, vec!["host1".to_string()]);

    let args_none = HostArgs { hosts: None, host: None };
    assert!(parse_hosts(&args_none, &groups).is_err());

    let args_empty_arr = HostArgs { hosts: Some(HostsArg::List(vec![])), host: None };
    assert!(parse_hosts(&args_empty_arr, &groups).is_err());
}

#[test]
fn mcp_server_test_parse_hosts_helper() {
    check_parse_hosts_helper();
}

#[test]
fn mod_test_parse_hosts_helper() {
    check_parse_hosts_helper();
}

#[test]
fn test_resolve_hosts_recursive() {
    let mut groups: StrMap<Vec<String>> = StrMap::new();
    groups.insert("ubuntu".to_string(), vec!["server-a".to_string(), "server-b".to_string()]);
    groups.insert("nix".to_string(), vec!["server-c".to_string()]);
    groups.insert(
        "all".to_string(),
        vec!["ubuntu".to_string(), "nix".to_string(), "other-host".to_string()],
    );
    groups.insert("circular-a".to_string(), vec!["circular-b".to_string()]);
    groups.insert(
        "circular-b".to_string(),
        vec!["circular-a".to_string(), "target-host".to_string()],
    );

    let resolved = resolve_hosts(&["ubuntu".to_string()], &groups);
    assert_eq!(resolved, vec!["server-a".to_string(), "server-b".to_string()]);

    let resolved = resolve_hosts(&["all".to_string(), "server-a".to_string()], &groups);
    assert_eq!(
        resolved,
        vec![
            "server-a".to_string(),
            "server-b".to_string(),
            "server-c".to_string(),
            "other-host".to_string()
        ]
    );

    let resolved = resolve_hosts(&["circular-a".to_string()], &groups);
    assert_eq!(resolved, vec!["target-host".to_string()]);
}

#[test]
fn test_is_host_ignored() {
    let ignore_list = vec![
        "*.prod.company.com".to_string(),
        "secure-*".to_string(),
        "db-prod".to_string(),
    ];
    let allow_list: Vec<String> = vec![];

    assert!(is_host_ignored_impl("db-prod", None, &ignore_list, &allow_list));
    assert!(is_host_ignored_impl("DB-PROD", None, &ignore_list, &allow_list));
    assert!(is_host_ignored_impl("app.prod.company.com", None, &ignore_list, &allow_list));
    assert!(is_host_ignored_impl("secure-host-1", None, &ignore_list, &allow_list));
    assert!(is_host_ignored_impl(
        "my-alias",
        Some("database.prod.company.com"),
        &ignore_list,
        &allow_list
    ));
    assert!(is_host_ignored_impl("my-alias", Some("SECURE-GATEWAY"), &ignore_list, &allow_list));
    assert!(!is_host_ignored_impl("dev-server", Some("10.0.0.5"), &ignore_list, &allow_list));
    assert!(!is_host_ignored_impl("company.com", None, &ignore_list, &allow_list));

    let allow_list_2 = vec!["*.staging.company.com".to_string(), "my-host".to_string()];
    assert!(!is_host_ignored_impl("my-host", None, &ignore_list, &allow_list_2));
    assert!(is_host_ignored_impl("other-host", None, &ignore_list, &allow_list_2));

    let ignore_all = vec!["*".to_string()];
    assert!(!is_host_ignored_impl("my-host", None, &ignore_all, &allow_list_2));
    assert!(is_host_ignored_impl("other-host", None, &ignore_all, &allow_list_2));
}

#[test]
fn test_parameter_validation_rules() {
    assert!(validate_param_value("main-branch-01", "strict"));
    assert!(validate_param_value("main", "strict"));
    assert!(!validate_param_value("main_branch", "strict"));
    assert!(!validate_param_value("main;rm", "strict"));
    assert!(!validate_param_value("", "strict"));

    assert!(validate_param_value("/var/log/app.log", "path"));
    assert!(validate_param_value("relative/path/file.txt", "path"));
    assert!(!validate_param_value("/var/log/app;rm.log", "path"));
    assert!(!validate_param_value("", "path"));

    assert!(validate_param_value("anything-goes; rm -rf /", "permissive"));
    assert!(validate_param_value("", "permissive"));
}

#[test]
fn test_shell_escaping_and_joining() {
    let args = vec![
        "git".to_string(),
        "commit".to_string(),
        "-m".to_string(),
        "hello 'world'; rm -rf /".to_string(),
    ];
    let escaped = shell_join(&args);
    assert_eq!(escaped, r#"'git' 'commit' '-m' 'hello '\''world'\''; rm -rf /'"#);
}

#[test]
fn test_host_allowed_for_tool() {
    let allowed = vec!["dev-*".to_string(), "staging-*".to_string()];

    assert!(is_host_allowed_for_tool("dev-box", None, &allowed));
    assert!(is_host_allowed_for_tool("staging-server-01", None, &allowed));
    assert!(!is_host_allowed_for_tool("prod-box", None, &allowed));
    assert!(is_host_allowed_for_tool("my-alias", Some("dev-box-resolved"), &allowed));
    assert!(!is_host_allowed_for_tool("my-alias", Some("prod-box-resolved"), &allowed));
    assert!(is_host_allowed_for_tool("prod-box", None, &[]));
}

#[test]
fn test_config_migration() {
    let mut cfg = Config::default();
    cfg.pool_status_path = Some("/path/to/status.json".to_string());
    cfg.ignore_hosts = vec!["ignored-host".to_string()];
    cfg.allow_hosts = vec!["allowed-host".to_string()];
    cfg.custom_tools = vec![
        LegacyCustomTool {
            name: "legacy_tool_no_args".to_string(),
            description: "Legacy tool without args".to_string(),
            command: "uptime".to_string(),
        },
        LegacyCustomTool {
            name: "legacy_tool_with_args".to_string(),
            description: "Legacy tool with args".to_string(),
            command: "grep -i '{args}' /var/log/syslog".to_string(),
        },
    ];
    assert_eq!(cfg.custom_tools.len(), 2);

    assert!(migrate_legacy_tools(&mut cfg));

    assert_eq!(cfg.custom_tools.len(), 0);
    assert_eq!(cfg.tools.len(), 2);

    let t1 = cfg.tools.get("legacy_tool_no_args").unwrap();
    assert!(t1.allow_shell);
    assert!(matches!(t1.command, CommandTemplate::Simple(_)));
    assert_eq!(t1.params.len(), 0);

    let t2 = cfg.tools.get("legacy_tool_with_args").unwrap();
    assert!(t2.allow_shell);
    assert!(
        matches!(t2.command, CommandTemplate::Simple(ref s) if s == "grep -i '{{args}}' /var/log/syslog")
    );
    assert_eq!(t2.params.len(), 1);
    assert_eq!(t2.params.get("args").unwrap().validation, "permissive");
}

#[test]
fn test_config_parsing_and_validation() {
    let no_ssh_hosts: Vec<String> = Vec::new();

    let mut params = StrMap::new();
    params.insert("branch".to_string(), ParamInfo { validation: "strict".to_string() });
    let mut cfg1 = Config::default();
    cfg1.tools.insert(
        "git_pull".to_string(),
        PreparedTool {
            description: "Fetches and merges".to_string(),
            command: CommandTemplate::Array(vec![
                "git".to_string(),
                "pull".to_string(),
                "origin".to_string(),
                "{{branch}}".to_string(),
            ]),
            allow_shell: false,
            allow_hosts: vec!["dev-*".to_string()],
            params,
        },
    );
    assert!(cfg1.validate(&no_ssh_hosts).is_ok());
    assert_eq!(cfg1.tools.len(), 1);
    let t = cfg1.tools.get("git_pull").unwrap();
    assert!(!t.allow_shell);
    assert!(matches!(t.command, CommandTemplate::Array(_)));

    let mut cfg2 = Config::default();
    cfg2.tools.insert(
        "bad_tool".to_string(),
        PreparedTool {
            description: "Mismatched shell flag".to_string(),
            command: CommandTemplate::Array(vec!["git".to_string(), "pull".to_string()]),
            allow_shell: true,
            allow_hosts: vec![],
            params: StrMap::new(),
        },
    );
    let err_msg = cfg2.validate(&no_ssh_hosts).err().unwrap().message();
    assert!(err_msg.contains("allow_shell is true"));

    let mut cfg3 = Config::default();
    cfg3.tools.insert(
        "bad_tool".to_string(),
        PreparedTool {
            description: "Mismatched shell flag".to_string(),
            command: CommandTemplate::Simple("git pull".to_string()),
            allow_shell: false,
            allow_hosts: vec![],
            params: StrMap::new(),
        },
    );
    let err_msg = cfg3.validate(&no_ssh_hosts).err().unwrap().message();
    assert!(err_msg.contains("allow_shell is false"));

    let mut cfg4 = Config::default();
    cfg4.tools.insert(
        "git_pull".to_string(),
        PreparedTool {
            description: "Missing param config".to_string(),
            command: CommandTemplate::Array(vec![
                "git".to_string(),
                "pull".to_string(),
                "{{branch}}".to_string(),
            ]),
            allow_shell: false,
            allow_hosts: vec![],
            params: StrMap::new(),
        },
    );
    let err_msg = cfg4.validate(&no_ssh_hosts).err().unwrap().message();
    assert!(err_msg.contains(
        "parameter 'branch' is used in the command template but not defined in the params block"
    ));

    let mut params5 = StrMap::new();
    params5.insert("branch".to_string(), ParamInfo { validation: "super-strict".to_string() });
    let mut cfg5 = Config::default();
    cfg5.tools.insert(
        "git_pull".to_string(),
        PreparedTool {
            description: "Unrecognized validation rule".to_string(),
            command: CommandTemplate::Array(vec![
                "git".to_string(),
                "pull".to_string(),
                "{{branch}}".to_string(),
            ]),
            allow_shell: false,
            allow_hosts: vec![],
            params: params5,
        },
    );
    let err_msg = cfg5.validate(&no_ssh_hosts).err().unwrap().message();
    assert!(err_msg.contains("unrecognized validation type 'super-strict'"));
}

#[test]
fn test_merge_configs_trusted() {
    let mut global = Config::default();
    global.tools.insert(
        "global_tool".to_string(),
        tool("Global Tool", "uptime", vec!["dev-box".to_string()], StrMap::new()),
    );

    let mut local = Config::default();
    local.tools.insert("local_tool".to_string(), tool("Local Tool", "hostname", Vec::new(), StrMap::new()));
    local.tools.insert(
        "global_tool".to_string(),
        tool("Global Tool Widened", "uptime -p", Vec::new(), StrMap::new()),
    );

    let merged = merge_configs(global, local, true);
    assert_eq!(merged.tools.len(), 2);

    let gt = merged.tools.get("global_tool").unwrap();
    assert_eq!(gt.description, "Global Tool Widened");
    assert!(gt.allow_hosts.is_empty());

    let lt = merged.tools.get("local_tool").unwrap();
    assert_eq!(lt.description, "Local Tool");
}

#[test]
fn test_merge_configs_untrusted() {
    let mut global = Config::default();
    let mut global_params = StrMap::new();
    global_params.insert("arg".to_string(), ParamInfo { validation: "strict".to_string() });
    global_params.insert("arg2".to_string(), ParamInfo { validation: "permissive".to_string() });
    global.tools.insert(
        "global_tool".to_string(),
        tool("Global Tool", "uptime", vec!["dev-box".to_string()], global_params),
    );

    let mut local = Config::default();
    local.tools.insert("local_tool".to_string(), tool("Local Tool", "hostname", Vec::new(), StrMap::new()));
    let mut local_params = StrMap::new();
    local_params.insert("arg".to_string(), ParamInfo { validation: "permissive".to_string() });
    local_params.insert("arg2".to_string(), ParamInfo { validation: "strict".to_string() });
    local.tools.insert(
        "global_tool".to_string(),
        tool("Attempted Malicious Overwrite", "rm -rf /", Vec::new(), local_params),
    );

    let merged = merge_configs(global, local, false);
    assert_eq!(merged.tools.len(), 1);
    assert!(!merged.tools.contains_key("local_tool"));

    let gt = merged.tools.get("global_tool").unwrap();
    assert_eq!(gt.description, "Global Tool");
    assert_eq!(gt.command, CommandTemplate::Simple("uptime".to_string()));
    assert_eq!(gt.allow_hosts, vec!["dev-box".to_string()]);
    assert_eq!(gt.params.get("arg").unwrap().validation, "strict");
    assert_eq!(gt.params.get("arg2").unwrap().validation, "strict");
}

#[test]
fn test_group_clash_validation() {
    let ssh_hosts = vec!["host-alias".to_string()];
    let mut config = Config::default();
    config.groups.insert(ssh_hosts[0].clone(), vec!["another-host".to_string()]);
    assert!(config.validate(&ssh_hosts).is_err());
    let err_msg = config.validate(&ssh_hosts).err().unwrap().message();
    assert!(err_msg.contains("clashes with an existing SSH host alias"));

    let mut config_ok = Config::default();
    config_ok
        .groups
        .insert("non-existent-unique-group-name-xyz".to_string(), vec!["host1".to_string()]);
    assert!(config_ok.validate(&ssh_hosts).is_ok());
}

#[test]
fn test_parse_version() {
    assert_eq!(parse_version("0.4.3"), (0, 4, 3));
    assert_eq!(parse_version("v1.2.3"), (1, 2, 3));
    assert_eq!(parse_version("v0.5.0"), (0, 5, 0));
    assert_eq!(parse_version("invalid"), (0, 0, 0));
}

#[test]
fn test_is_newer_version() {
    assert!(is_newer_version("0.4.3", "0.5.0"));
    assert!(is_newer_version("0.4.3", "v0.4.4"));
    assert!(is_newer_version("0.4.3", "1.0.0"));
    assert!(!is_newer_version("0.4.3", "0.4.3"));
    assert!(!is_newer_version("0.5.0", "0.4.3"));
}

#[test]
fn test_line_buffer() {
    let mut lb = LineBuffer::new();
    let mut lines = Vec::new();

    lb.push("hello\n", &mut lines, "");
    assert_eq!(lines, vec!["hello".to_string()]);

    lb.push("world\nthis is ", &mut lines, "[PREFIX] ");
    assert_eq!(lines, vec!["hello".to_string(), "[PREFIX] world".to_string()]);

    lb.push("incomplete", &mut lines, "[PREFIX] ");
    assert_eq!(lines, vec!["hello".to_string(), "[PREFIX] world".to_string()]);

    lb.flush_remaining(&mut lines, "[PREFIX] ");
    assert_eq!(
        lines,
        vec![
            "hello".to_string(),
            "[PREFIX] world".to_string(),
            "[PREFIX] this is incomplete".to_string()
        ]
    );
}
