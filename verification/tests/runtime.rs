use rcr::container::{container_network_commands, overlay_layout, parse_env, resolv_conf};
use rcr::host::{
    cgroup_dir, cgroup_limits, container_table_header, container_table_row,
    host_network_commands, nat_rule, spawn_child_args,
};
use rcr::state::{allocate_ip, container_run_dir, log_path, state_path, ContainerState};

fn state(name: &str, ip: &str) -> ContainerState {
    ContainerState {
        name: name.to_string(),
        pid: 42,
        ip: ip.to_string(),
        vhost: "vh-000000000000".to_string(),
    }
}

fn pairs(v: &[(String, String)]) -> Vec<(&str, &str)> {
    v.iter().map(|(k, x)| (k.as_str(), x.as_str())).collect()
}

#[test]
fn allocate_ip_starts_at_two() {
    assert_eq!(allocate_ip(&Vec::new()), Some("10.0.0.2".to_string()));
}

#[test]
fn allocate_ip_takes_the_lowest_free_address() {
    let used = vec![state("a", "10.0.0.2"), state("b", "10.0.0.4"), state("c", "10.0.0.3")];
    assert_eq!(allocate_ip(&used), Some("10.0.0.5".to_string()));
    let used = vec![state("a", "10.0.0.2"), state("b", "10.0.0.4")];
    assert_eq!(allocate_ip(&used), Some("10.0.0.3".to_string()));
}

#[test]
fn allocate_ip_reaches_the_last_address() {
    let used: Vec<ContainerState> = (2..254).map(|i| state("x", &format!("10.0.0.{i}"))).collect();
    assert_eq!(allocate_ip(&used), Some("10.0.0.254".to_string()));
}

#[test]
fn allocate_ip_gives_none_when_all_are_taken() {
    let used: Vec<ContainerState> = (2..255).map(|i| state("x", &format!("10.0.0.{i}"))).collect();
    assert_eq!(allocate_ip(&used), None);
}

#[test]
fn state_files_live_in_the_state_dir() {
    assert_eq!(state_path("web"), "/run/rcr/web.json");
    assert_eq!(state_path("/tmp/x"), "/tmp/x.json");
    assert_eq!(state_path(""), "/run/rcr/.json");
    assert_eq!(log_path("web"), "/run/rcr/web.log");
    assert_eq!(container_run_dir("web"), "/run/rcr/web");
    assert_eq!(cgroup_dir("web"), "/sys/fs/cgroup/rcr/web");
}

#[test]
fn parse_env_reads_key_value_lines() {
    let vars = parse_env("A=1\nB=x=y\r\nnoeq\n=v\n\nLAST=\r");
    assert_eq!(pairs(&vars), vec![("A", "1"), ("B", "x=y"), ("", "v"), ("LAST", "\r")]);
}

#[test]
fn parse_env_of_nothing_is_empty() {
    assert!(parse_env("").is_empty());
    assert!(parse_env("\n\n").is_empty());
    assert_eq!(pairs(&parse_env("K=\n")), vec![("K", "")]);
}

#[test]
fn resolv_conf_avoids_local_stub_resolvers() {
    assert_eq!(resolv_conf("nameserver 127.0.0.53\n"), "nameserver 1.1.1.1\n");
    assert_eq!(resolv_conf("nameserver 8.8.8.8\n"), "nameserver 8.8.8.8\n");
    assert_eq!(resolv_conf(""), "");
}

#[test]
fn overlay_layout_of_a_container() {
    let l = overlay_layout("web", "/layers/a:/rootfs");
    assert_eq!(l.upper, "/run/rcr/web/upper");
    assert_eq!(l.work, "/run/rcr/web/work");
    assert_eq!(l.merged, "/run/rcr/web/merged");
    assert_eq!(
        l.options,
        "lowerdir=/layers/a:/rootfs,upperdir=/run/rcr/web/upper,workdir=/run/rcr/web/work"
    );
    assert_eq!(l.etc_dir, "/run/rcr/web/merged/etc");
    assert_eq!(l.resolv_conf, "/run/rcr/web/merged/etc/resolv.conf");
    assert_eq!(l.old_root, "/run/rcr/web/merged/.old_root");
}

#[test]
fn container_network_commands_use_the_container_veth() {
    let cmds = container_network_commands("web", "10.0.0.7");
    assert_eq!(cmds.len(), 4);
    assert!(cmds.iter().all(|c| c.program == "ip"));
    assert_eq!(cmds[0].args, vec!["link", "set", "lo", "up"]);
    assert_eq!(cmds[1].args, vec!["addr", "add", "10.0.0.7/24", "dev", "vc-4b5e57f6eb2f"]);
    assert_eq!(cmds[2].args, vec!["link", "set", "vc-4b5e57f6eb2f", "up"]);
    assert_eq!(cmds[3].args, vec!["route", "add", "default", "via", "10.0.0.1"]);
}

#[test]
fn host_network_commands_build_the_veth_pair() {
    let cmds = host_network_commands("web", 1234);
    assert_eq!(cmds.len(), 4);
    assert_eq!(
        cmds[0].args,
        vec!["link", "add", "vh-4b5e57f6eb2f", "type", "veth", "peer", "name", "vc-4b5e57f6eb2f"]
    );
    assert_eq!(cmds[1].args, vec!["link", "set", "vc-4b5e57f6eb2f", "netns", "1234"]);
    assert_eq!(cmds[2].args, vec!["addr", "add", "10.0.0.1/24", "dev", "vh-4b5e57f6eb2f"]);
    assert_eq!(cmds[3].args, vec!["link", "set", "vh-4b5e57f6eb2f", "up"]);
}

#[test]
fn nat_rule_checks_then_appends() {
    let check = nat_rule(true);
    assert_eq!(check.program, "iptables");
    assert_eq!(
        check.args,
        vec!["-t", "nat", "-C", "POSTROUTING", "-s", "10.0.0.0/24", "-j", "MASQUERADE"]
    );
    assert_eq!(nat_rule(false).args[2], "-A");
}

#[test]
fn cgroup_limits_of_a_container() {
    let w = cgroup_limits("web", 77);
    let w: Vec<(&str, &str)> = w.iter().map(|(p, c)| (p.as_str(), c.as_str())).collect();
    assert_eq!(
        w,
        vec![
            ("/sys/fs/cgroup/rcr/web/memory.max", "104857600"),
            ("/sys/fs/cgroup/rcr/web/pids.max", "20"),
            ("/sys/fs/cgroup/rcr/web/cpu.max", "20000 100000"),
            ("/sys/fs/cgroup/rcr/web/cgroup.procs", "77"),
        ]
    );
}

#[test]
fn spawn_child_args_carry_the_pipe_ends() {
    let cmd = vec!["/bin/sh".to_string(), "-c".to_string(), "echo hi".to_string()];
    let args = spawn_child_args("web", "10.0.0.2", "/rootfs", 5, -1, &cmd);
    assert_eq!(
        args,
        vec!["spawn-child-container", "web", "10.0.0.2", "/rootfs", "5", "-1", "/bin/sh", "-c", "echo hi"]
    );
    let args = spawn_child_args("w", "ip", "l", i32::MIN, 2147483647, &Vec::new());
    assert_eq!(args[4], "-2147483648");
    assert_eq!(args[5], "2147483647");
}

#[test]
fn container_table_is_padded_into_columns() {
    assert_eq!(
        container_table_header(),
        format!("{:<15} {:<8} {:<12} {}", "NAME", "PID", "IP", "STATUS")
    );
    let c = state("web", "10.0.0.2");
    assert_eq!(
        container_table_row(&c, true),
        format!("{:<15} {:<8} {:<12} {}", "web", 42, "10.0.0.2", "running")
    );
    let long = state("a-very-long-container-name", "10.0.0.200");
    assert_eq!(
        container_table_row(&long, false),
        "a-very-long-container-name 42       10.0.0.200   dead"
    );
}

#[test]
fn a_recorded_address_is_not_handed_out_again() {
    let mut recorded = vec![state("a", "10.0.0.2"), state("b", "10.0.0.4")];
    let first = allocate_ip(&recorded).unwrap();
    assert_eq!(first, "10.0.0.3");
    recorded.push(state("c", &first));
    let second = allocate_ip(&recorded).unwrap();
    assert_eq!(second, "10.0.0.5");
}

#[test]
fn distinct_containers_have_separate_overlays() {
    let a = overlay_layout("a", "/rootfs");
    let b = overlay_layout("b", "/rootfs");
    assert_ne!(a.upper, b.upper);
    assert_ne!(a.work, b.work);
}

#[test]
fn every_env_var_comes_from_a_key_value_line() {
    let content = "X=1\nY==2\nZ\n";
    for (k, v) in parse_env(content) {
        assert!(!k.contains('='));
        assert!(content.lines().any(|l| l == format!("{k}={v}")));
    }
}

#[test]
fn parse_env_reads_lines_as_str_lines_does() {
    let inputs = [
        "a=1\r",
        "a=1\r\n",
        "\r\n\r\n",
        "a=b\rc=d\n",
        "k=v\n\n=\n",
        "only text",
        "x=1\ny=2",
        "\u{e9}=\u{fc}\n",
    ];
    for content in inputs {
        let expected: Vec<(&str, &str)> =
            content.lines().filter_map(|line| line.split_once("=")).collect();
        assert_eq!(pairs(&parse_env(content)), expected, "{content:?}");
    }
}

#[test]
fn cgroup_settings_of_the_hierarchy_and_the_self_join() {
    let w = rcr::host::cgroup_enable_writes();
    assert_eq!(w[0], ("/sys/fs/cgroup/cgroup.subtree_control".to_string(), "+memory +cpu +pids".to_string()));
    assert_eq!(w[1], ("/sys/fs/cgroup/rcr/cgroup.subtree_control".to_string(), "+memory +cpu +pids".to_string()));
    assert_eq!(
        rcr::host::cgroup_self_join("web"),
        ("/sys/fs/cgroup/rcr/web/cgroup.procs".to_string(), "0".to_string())
    );
}

#[test]
fn nat_rule_is_appended_only_when_missing() {
    assert!(rcr::host::nat_rule_to_add(true).is_none());
    let add = rcr::host::nat_rule_to_add(false).unwrap();
    assert_eq!(add.program, "iptables");
    assert_eq!(add.args[2], "-A");
}

#[test]
fn container_listing_of_none_and_of_some() {
    assert_eq!(rcr::host::container_listing(&Vec::new(), &Vec::new()), vec!["No containers."]);
    let cs = vec![state("web", "10.0.0.2"), state("db", "10.0.0.3")];
    let lines = rcr::host::container_listing(&cs, &vec![true, false]);
    assert_eq!(lines.len(), 3);
    assert_eq!(lines[0], container_table_header());
    assert_eq!(lines[1], container_table_row(&cs[0], true));
    assert!(lines[2].ends_with(" dead"));
}
