use vstd::prelude::*;

use crate::text::{concat, concat3, decimal, push_decimal};

verus! {

/// Directory holding the runtime state of containers: one `<name>.json` per
/// container, logs and per-container overlay directories.
pub const STATE_DIR: &'static str = "/run/rcr";

/// The per-container run directory `/run/rcr/<name>`.
pub open spec fn run_dir(name: Seq<char>) -> Seq<char> {
    STATE_DIR@ + seq!['/'] + name
}

/// The run directory of container `name`, which holds its overlay.
pub fn container_run_dir(name: &str) -> (dir: String)
    ensures
        dir@ == run_dir(name@),
{
    let dir = concat3(STATE_DIR, "/", name);
    proof {
        reveal_strlit("/");
    }
    dir
}

/// What is recorded of a running container.
pub struct ContainerState {
    pub name: String,
    pub pid: i32,
    pub ip: String,
    /// Host-side veth name, for cleanup on stop.
    pub vhost: String,
}

/// The address `10.0.0.<i>`.
pub open spec fn host_ip(i: nat) -> Seq<char> {
    seq!['1', '0', '.', '0', '.', '0', '.'] + decimal(i)
}

/// The addresses recorded for `containers`, in order.
pub open spec fn ips_of(containers: Seq<ContainerState>) -> Seq<Seq<char>> {
    containers.map_values(|c: ContainerState| c.ip@)
}

/// Address `10.0.0.<i>` is recorded for one of `containers`.
pub open spec fn ip_taken(containers: Seq<ContainerState>, i: nat) -> bool {
    ips_of(containers).contains(host_ip(i))
}

/// `10.0.0.<i>` is what `allocate_ip` hands out when `containers` are recorded:
/// the lowest address from `10.0.0.2` to `10.0.0.254` that none of them has.
pub open spec fn allocates(containers: Seq<ContainerState>, i: nat) -> bool {
    &&& 2 <= i < 255
    &&& !ip_taken(containers, i)
    &&& forall|j: nat| 2 <= j < i ==> ip_taken(containers, j)
}

/// Addresses are never handed out twice: once the container that got an
/// address is recorded, the next allocation gives a strictly higher one.
pub proof fn lemma_recorded_address_is_not_reallocated(
    containers: Seq<ContainerState>,
    c: ContainerState,
    i: nat,
    j: nat,
)
    requires
        allocates(containers, i),
        c.ip@ == host_ip(i),
        allocates(containers.push(c), j),
    ensures
        i < j,
{
    let after = containers.push(c);
    assert(ips_of(after) == ips_of(containers).push(c.ip@));
    assert(ips_of(after)[containers.len() as int] == host_ip(i));
    assert(ip_taken(after, i));
    if j < i {
        assert(ip_taken(containers, j));
        let k = choose|k: int| 0 <= k < ips_of(containers).len() && ips_of(containers)[k] == host_ip(j);
        assert(ips_of(after)[k] == host_ip(j));
    }
}

/// The path of the state file of container `name`: `<name>.json` joined onto
/// `/run/rcr` as a path is joined, so that a name starting with `/` stands for
/// itself.
pub open spec fn state_path_of(name: Seq<char>) -> Seq<char> {
    if name.len() > 0 && name[0] == '/' {
        name + seq!['.', 'j', 's', 'o', 'n']
    } else {
        STATE_DIR@ + seq!['/'] + name + seq!['.', 'j', 's', 'o', 'n']
    }
}

/// The state file of container `name` (see `state_path_of`).
pub fn state_path(name: &str) -> (p: String)
    ensures
        p@ == state_path_of(name@),
{
    proof {
        reveal_strlit("/");
        reveal_strlit(".json");
    }
    if !name.is_empty() && name.get_char(0) == '/' {
        concat(name, ".json")
    } else {
        let mut p = concat3(STATE_DIR, "/", name);
        p.append(".json");
        p
    }
}

/// The log file of a detached container: `/run/rcr/<name>.log`.
pub fn log_path(name: &str) -> (p: String)
    ensures
        p@ == STATE_DIR@ + seq!['/'] + name@ + seq!['.', 'l', 'o', 'g'],
{
    proof {
        reveal_strlit("/");
        reveal_strlit(".log");
    }
    let mut p = concat3(STATE_DIR, "/", name);
    p.append(".log");
    p
}

/// Whether `ip` is the address of one of `containers`.
fn is_recorded(containers: &Vec<ContainerState>, ip: &String) -> (b: bool)
    ensures
        b == ips_of(containers@).contains(ip@),
{
    let mut j: usize = 0;
    while j < containers.len()
        invariant
            j <= containers@.len(),
            forall|k: int| 0 <= k < j ==> containers@[k].ip@ != ip@,
        decreases containers@.len() - j,
    {
        if containers[j].ip == *ip {
            assert(ips_of(containers@)[j as int] == ip@);
            return true;
        }
        j = j + 1;
    }
    assert(!ips_of(containers@).contains(ip@)) by {
        if ips_of(containers@).contains(ip@) {
            let k = choose|k: int| 0 <= k < ips_of(containers@).len() && ips_of(containers@)[k] == ip@;
            assert(containers@[k].ip@ == ip@);
        }
    }
    false
}

/// A free address for a new container: the lowest `10.0.0.<i>`, `2 <= i <= 254`,
/// that none of `containers` has; `None` when all of them are taken.
pub fn allocate_ip(containers: &Vec<ContainerState>) -> (ip: Option<String>)
    ensures
        match ip {
            Some(ip) => exists|i: nat| allocates(containers@, i) && ip@ == host_ip(i),
            None => forall|j: nat| 2 <= j < 255 ==> ip_taken(containers@, j),
        },
{
    let mut i: u64 = 2;
    while i < 255
        invariant
            2 <= i <= 255,
            forall|j: nat| 2 <= j < i ==> ip_taken(containers@, j),
        decreases 255 - i,
    {
        let mut candidate = "10.0.0.".to_owned();
        push_decimal(&mut candidate, i);
        proof {
            reveal_strlit("10.0.0.");
        }
        assert(candidate@ == host_ip(i as nat));
        if !is_recorded(containers, &candidate) {
            return Some(candidate);
        }
        i = i + 1;
    }
    None
}

} // verus!
