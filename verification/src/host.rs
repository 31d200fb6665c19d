use vstd::prelude::*;

use crate::digest::sha256_of;
use crate::state::ContainerState;
use crate::text::{
    concat, concat3, int_text, no_args, pad_right, push_arg, push_int, push_padded, texts,
};
use crate::utils::{get_vhost_vchild, runs, CommandLine, vchild_name, vhost_name};

verus! {

/// The root of the cgroup hierarchy.
pub const CGROUP_ROOT: &'static str = "/sys/fs/cgroup";

/// The cgroup under which every container gets its own group.
pub const CGROUP_PARENT: &'static str = "/sys/fs/cgroup/rcr";

/// The controllers enabled for the containers' cgroups.
pub const CGROUP_CONTROLLERS: &'static str = "+memory +cpu +pids";

/// The switch that lets the host forward the containers' traffic.
pub const IP_FORWARD: &'static str = "/proc/sys/net/ipv4/ip_forward";

/// The cgroup of container `name`: `/sys/fs/cgroup/rcr/<name>`.
pub open spec fn cgroup_dir_of(name: Seq<char>) -> Seq<char> {
    CGROUP_PARENT@ + seq!['/'] + name
}

/// The cgroup of container `name`.
pub fn cgroup_dir(name: &str) -> (dir: String)
    ensures
        dir@ == cgroup_dir_of(name@),
{
    let dir = concat3(CGROUP_PARENT, "/", name);
    proof {
        reveal_strlit("/");
    }
    dir
}

/// A file write: the path, then what goes into it.
pub open spec fn writes(w: (String, String), path: Seq<char>, content: Seq<char>) -> bool {
    w.0@ == path && w.1@ == content
}

/// The writes that enable the containers' controllers, in order: on the root of
/// the hierarchy, then (once `CGROUP_PARENT` exists) on the containers' parent
/// group.
pub fn cgroup_enable_writes() -> (w: Vec<(String, String)>)
    ensures
        w@.len() == 2,
        writes(w@[0], CGROUP_ROOT@ + "/cgroup.subtree_control"@, CGROUP_CONTROLLERS@),
        writes(w@[1], CGROUP_PARENT@ + "/cgroup.subtree_control"@, CGROUP_CONTROLLERS@),
{
    let mut w: Vec<(String, String)> = Vec::new();
    w.push((concat(CGROUP_ROOT, "/cgroup.subtree_control"), CGROUP_CONTROLLERS.to_owned()));
    w.push((concat(CGROUP_PARENT, "/cgroup.subtree_control"), CGROUP_CONTROLLERS.to_owned()));
    w
}

/// The write by which the process of container `name` joins that container's
/// cgroup itself (`0` stands for the writing process).
pub fn cgroup_self_join(name: &str) -> (w: (String, String))
    ensures
        writes(w, cgroup_dir_of(name@) + "/cgroup.procs"@, "0"@),
{
    let dir = cgroup_dir(name);
    (concat(dir.as_str(), "/cgroup.procs"), "0".to_owned())
}

/// The writes that confine container `name`, whose process is `child_pid`, to
/// its cgroup, in order: 100 MiB of memory, 20 processes, a fifth of one CPU,
/// and then the process itself into the group.
pub fn cgroup_limits(name: &str, child_pid: i32) -> (w: Vec<(String, String)>)
    ensures
        w@.len() == 4,
        writes(w@[0], cgroup_dir_of(name@) + "/memory.max"@, "104857600"@),
        writes(w@[1], cgroup_dir_of(name@) + "/pids.max"@, "20"@),
        writes(w@[2], cgroup_dir_of(name@) + "/cpu.max"@, "20000 100000"@),
        writes(w@[3], cgroup_dir_of(name@) + "/cgroup.procs"@, int_text(child_pid as int)),
{
    let dir = cgroup_dir(name);
    let mut w: Vec<(String, String)> = Vec::new();
    w.push((concat(dir.as_str(), "/memory.max"), "104857600".to_owned()));
    w.push((concat(dir.as_str(), "/pids.max"), "20".to_owned()));
    w.push((concat(dir.as_str(), "/cpu.max"), "20000 100000".to_owned()));
    let mut pid = String::new();
    push_int(&mut pid, child_pid as i64);
    w.push((concat(dir.as_str(), "/cgroup.procs"), pid));
    w
}

/// The commands that wire container `name`, whose process is `child_pid`, to
/// the host: create the veth pair, move the container end into the process's
/// network namespace, give the host end `10.0.0.1/24`, and bring it up.
pub fn host_network_commands(name: &str, child_pid: i32) -> (cmds: Vec<CommandLine>)
    ensures
        cmds@.len() == 4,
        runs(
            cmds@[0],
            "ip"@,
            seq![
                "link"@,
                "add"@,
                vhost_name(sha256_of(name@)),
                "type"@,
                "veth"@,
                "peer"@,
                "name"@,
                vchild_name(sha256_of(name@)),
            ],
        ),
        runs(
            cmds@[1],
            "ip"@,
            seq![
                "link"@,
                "set"@,
                vchild_name(sha256_of(name@)),
                "netns"@,
                int_text(child_pid as int),
            ],
        ),
        runs(
            cmds@[2],
            "ip"@,
            seq!["addr"@, "add"@, "10.0.0.1/24"@, "dev"@, vhost_name(sha256_of(name@))],
        ),
        runs(cmds@[3], "ip"@, seq!["link"@, "set"@, vhost_name(sha256_of(name@)), "up"@]),
{
    let (vhost, vchild) = get_vhost_vchild(name);
    let ghost vh = vhost_name(sha256_of(name@));
    let ghost vc = vchild_name(sha256_of(name@));
    let mut cmds: Vec<CommandLine> = Vec::new();

    let mut a = no_args();
    push_arg(&mut a, "link");
    push_arg(&mut a, "add");
    push_arg(&mut a, vhost.as_str());
    push_arg(&mut a, "type");
    push_arg(&mut a, "veth");
    push_arg(&mut a, "peer");
    push_arg(&mut a, "name");
    push_arg(&mut a, vchild.as_str());
    assert(texts(a@) == seq!["link"@, "add"@, vh, "type"@, "veth"@, "peer"@, "name"@, vc]);
    cmds.push(CommandLine { program: "ip".to_owned(), args: a });

    let mut pid = String::new();
    push_int(&mut pid, child_pid as i64);
    let mut a = no_args();
    push_arg(&mut a, "link");
    push_arg(&mut a, "set");
    push_arg(&mut a, vchild.as_str());
    push_arg(&mut a, "netns");
    push_arg(&mut a, pid.as_str());
    assert(texts(a@) == seq!["link"@, "set"@, vc, "netns"@, int_text(child_pid as int)]);
    cmds.push(CommandLine { program: "ip".to_owned(), args: a });

    let mut a = no_args();
    push_arg(&mut a, "addr");
    push_arg(&mut a, "add");
    push_arg(&mut a, "10.0.0.1/24");
    push_arg(&mut a, "dev");
    push_arg(&mut a, vhost.as_str());
    assert(texts(a@) == seq!["addr"@, "add"@, "10.0.0.1/24"@, "dev"@, vh]);
    cmds.push(CommandLine { program: "ip".to_owned(), args: a });

    let mut a = no_args();
    push_arg(&mut a, "link");
    push_arg(&mut a, "set");
    push_arg(&mut a, vhost.as_str());
    push_arg(&mut a, "up");
    assert(texts(a@) == seq!["link"@, "set"@, vh, "up"@]);
    cmds.push(CommandLine { program: "ip".to_owned(), args: a });
    cmds
}

/// The `iptables` command for the rule that masquerades the containers'
/// subnet `10.0.0.0/24` on its way out: with `check`, the command that tests
/// whether the rule is there (`-C`); without, the one that appends it (`-A`).
pub fn nat_rule(check: bool) -> (cmd: CommandLine)
    ensures
        runs(
            cmd,
            "iptables"@,
            seq![
                "-t"@,
                "nat"@,
                if check {
                    "-C"@
                } else {
                    "-A"@
                },
                "POSTROUTING"@,
                "-s"@,
                "10.0.0.0/24"@,
                "-j"@,
                "MASQUERADE"@,
            ],
        ),
{
    let mut a = no_args();
    push_arg(&mut a, "-t");
    push_arg(&mut a, "nat");
    if check {
        push_arg(&mut a, "-C");
    } else {
        push_arg(&mut a, "-A");
    }
    push_arg(&mut a, "POSTROUTING");
    push_arg(&mut a, "-s");
    push_arg(&mut a, "10.0.0.0/24");
    push_arg(&mut a, "-j");
    push_arg(&mut a, "MASQUERADE");
    assert(texts(a@) == seq![
        "-t"@,
        "nat"@,
        if check {
            "-C"@
        } else {
            "-A"@
        },
        "POSTROUTING"@,
        "-s"@,
        "10.0.0.0/24"@,
        "-j"@,
        "MASQUERADE"@,
    ]);
    CommandLine { program: "iptables".to_owned(), args: a }
}

/// After the check of the NAT rule: the command that appends the rule when the
/// check found it missing, nothing when it is there already.
pub fn nat_rule_to_add(rule_exists: bool) -> (cmd: Option<CommandLine>)
    ensures
        rule_exists ==> cmd is None,
        !rule_exists ==> (cmd matches Some(c) && runs(
            c,
            "iptables"@,
            seq![
                "-t"@,
                "nat"@,
                "-A"@,
                "POSTROUTING"@,
                "-s"@,
                "10.0.0.0/24"@,
                "-j"@,
                "MASQUERADE"@,
            ],
        )),
{
    if rule_exists {
        None
    } else {
        Some(nat_rule(false))
    }
}

/// The arguments with which the runtime starts itself again as the process of
/// container `name`: the hidden `spawn-child-container` subcommand, the name,
/// the container's address, its lower directories, the two pipe ends in
/// decimal, and then the container's own command line.
pub fn spawn_child_args(
    name: &str,
    child_ip: &str,
    lower: &str,
    netns_ready_fd: i32,
    net_configured_fd: i32,
    command: &Vec<String>,
) -> (args: Vec<String>)
    ensures
        texts(args@) == seq![
            "spawn-child-container"@,
            name@,
            child_ip@,
            lower@,
            int_text(netns_ready_fd as int),
            int_text(net_configured_fd as int),
        ] + texts(command@),
{
    let mut a = no_args();
    push_arg(&mut a, "spawn-child-container");
    push_arg(&mut a, name);
    push_arg(&mut a, child_ip);
    push_arg(&mut a, lower);
    let mut w = String::new();
    push_int(&mut w, netns_ready_fd as i64);
    push_arg(&mut a, w.as_str());
    let mut r = String::new();
    push_int(&mut r, net_configured_fd as i64);
    push_arg(&mut a, r.as_str());
    let ghost head = texts(a@);
    let mut i: usize = 0;
    while i < command.len()
        invariant
            i <= command@.len(),
            texts(a@) == head + texts(command@).take(i as int),
        decreases command@.len() - i,
    {
        push_arg(&mut a, command[i].as_str());
        assert(texts(command@).take(i + 1) == texts(command@).take(i as int).push(command@[i as int]@));
        i = i + 1;
    }
    assert(texts(command@).take(command@.len() as int) == texts(command@));
    a
}

/// A line of the container table: name, pid, address and status, padded to
/// columns of 15, 8 and 12 characters and separated by single spaces.
pub open spec fn table_line(name: Seq<char>, pid: Seq<char>, ip: Seq<char>, status: Seq<char>) -> Seq<char> {
    pad_right(name, 15) + seq![' '] + pad_right(pid, 8) + seq![' '] + pad_right(ip, 12) + seq![' ']
        + status
}

fn table_row(name: &str, pid: &str, ip: &str, status: &str) -> (line: String)
    ensures
        line@ == table_line(name@, pid@, ip@, status@),
{
    let mut line = String::new();
    push_padded(&mut line, name, 15);
    line.append(" ");
    push_padded(&mut line, pid, 8);
    line.append(" ");
    push_padded(&mut line, ip, 12);
    line.append(" ");
    line.append(status);
    proof {
        reveal_strlit(" ");
    }
    line
}

/// The heading of the container table.
pub fn container_table_header() -> (line: String)
    ensures
        line@ == table_line("NAME"@, "PID"@, "IP"@, "STATUS"@),
{
    table_row("NAME", "PID", "IP", "STATUS")
}

/// The status shown for a container: `running` while its process is alive,
/// `dead` after.
pub open spec fn status_of(alive: bool) -> Seq<char> {
    if alive {
        "running"@
    } else {
        "dead"@
    }
}

/// The table line of container `c`, whose process is alive or not.
pub fn container_table_row(c: &ContainerState, alive: bool) -> (line: String)
    ensures
        line@ == table_line(c.name@, int_text(c.pid as int), c.ip@, status_of(alive)),
{
    let mut pid = String::new();
    push_int(&mut pid, c.pid as i64);
    let status = if alive {
        "running"
    } else {
        "dead"
    };
    table_row(c.name.as_str(), pid.as_str(), c.ip.as_str(), status)
}

/// The message printed when no container is recorded.
pub open spec fn no_containers_line() -> Seq<char> {
    "No containers."@
}

/// The lines that list `containers`, whose processes are alive or not as
/// `alive` says, one entry each: the heading and then one line per container
/// in order; a single line saying so when there are none.
pub fn container_listing(containers: &Vec<ContainerState>, alive: &Vec<bool>) -> (lines: Vec<String>)
    requires
        alive@.len() == containers@.len(),
    ensures
        containers@.len() == 0 ==> texts(lines@) == seq![no_containers_line()],
        containers@.len() > 0 ==> {
            &&& lines@.len() == containers@.len() + 1
            &&& lines@[0]@ == table_line("NAME"@, "PID"@, "IP"@, "STATUS"@)
            &&& forall|k: int|
                0 <= k < containers@.len() ==> #[trigger] lines@[k + 1]@ == table_line(
                    containers@[k].name@,
                    int_text(containers@[k].pid as int),
                    containers@[k].ip@,
                    status_of(alive@[k]),
                )
        },
{
    let mut lines: Vec<String> = Vec::new();
    if containers.len() == 0 {
        lines.push("No containers.".to_owned());
        assert(texts(lines@) == seq![no_containers_line()]);
        return lines;
    }
    lines.push(container_table_header());
    let mut i: usize = 0;
    while i < containers.len()
        invariant
            alive@.len() == containers@.len(),
            i <= containers@.len(),
            lines@.len() == i + 1,
            lines@[0]@ == table_line("NAME"@, "PID"@, "IP"@, "STATUS"@),
            forall|k: int|
                0 <= k < i ==> #[trigger] lines@[k + 1]@ == table_line(
                    containers@[k].name@,
                    int_text(containers@[k].pid as int),
                    containers@[k].ip@,
                    status_of(alive@[k]),
                ),
        decreases containers@.len() - i,
    {
        lines.push(container_table_row(&containers[i], alive[i]));
        i = i + 1;
    }
    lines
}

} // verus!
