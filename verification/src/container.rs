use vstd::prelude::*;

use crate::digest::sha256_of;
use crate::state::{run_dir, STATE_DIR};
use crate::text::{
    chars_of, concat, concat3, contains_text, has_substring, no_args, push_arg, texts, string_of,
};
use crate::utils::{get_vhost_vchild, runs, CommandLine, vchild_name};

verus! {

/// Reads `s` character by character as `str::lines` does: the lines finished by a
/// `\n` so far (each without its `\n`, and without a `\r` just before it), and the
/// characters of the line not finished yet.
pub open spec fn scan_lines(s: Seq<char>) -> (Seq<Seq<char>>, Seq<char>)
    decreases s.len(),
{
    if s.len() == 0 {
        (seq![], seq![])
    } else {
        let (done, cur) = scan_lines(s.drop_last());
        if s.last() == '\n' {
            (done.push(strip_cr(cur)), seq![])
        } else {
            (done, cur.push(s.last()))
        }
    }
}

/// `line` without one `\r` at its end.
pub open spec fn strip_cr(line: Seq<char>) -> Seq<char> {
    if line.len() > 0 && line.last() == '\r' {
        line.drop_last()
    } else {
        line
    }
}

/// The lines of `s` as `str::lines` gives them: split at `\n` or `\r\n`, the
/// last line counted only when it is not empty.
pub open spec fn text_lines(s: Seq<char>) -> Seq<Seq<char>> {
    let (done, cur) = scan_lines(s);
    if cur.len() == 0 {
        done
    } else {
        done.push(cur)
    }
}

/// `str::split_once('=')`: the text before the first `=` and the text after it,
/// or `None` when there is no `=`.
pub open spec fn split_at_eq(line: Seq<char>) -> Option<(Seq<char>, Seq<char>)>
    decreases line.len(),
{
    if line.len() == 0 {
        None
    } else if line[0] == '=' {
        Some((seq![], line.drop_first()))
    } else {
        match split_at_eq(line.drop_first()) {
            Some((k, v)) => Some((seq![line[0]] + k, v)),
            None => None,
        }
    }
}

/// The `KEY=value` pairs of `lines`, in order; lines without `=` are skipped.
pub open spec fn env_pairs(lines: Seq<Seq<char>>) -> Seq<(Seq<char>, Seq<char>)>
    decreases lines.len(),
{
    if lines.len() == 0 {
        seq![]
    } else {
        let rest = env_pairs(lines.drop_last());
        match split_at_eq(lines.last()) {
            Some(pair) => rest.push(pair),
            None => rest,
        }
    }
}

/// Views of a list of string pairs.
pub open spec fn pair_texts(v: Seq<(String, String)>) -> Seq<(Seq<char>, Seq<char>)> {
    v.map_values(|p: (String, String)| (p.0@, p.1@))
}

/// Where the first `=` of `line` is, `split_at_eq` cuts.
proof fn lemma_split_at_first_eq(line: Seq<char>, p: int)
    requires
        0 <= p < line.len(),
        line[p] == '=',
        forall|q: int| 0 <= q < p ==> line[q] != '=',
    ensures
        split_at_eq(line) == Some((line.take(p), line.skip(p + 1))),
    decreases p,
{
    if p > 0 {
        let rest = line.drop_first();
        assert forall|q: int| 0 <= q < p - 1 implies rest[q] != '=' by {
            assert(rest[q] == line[q + 1]);
        }
        lemma_split_at_first_eq(rest, p - 1);
        assert(seq![line[0]] + rest.take(p - 1) == line.take(p));
        assert(rest.skip(p) == line.skip(p + 1));
    } else {
        assert(line.take(0) == Seq::<char>::empty());
    }
}

/// A line without `=` is not split.
proof fn lemma_split_without_eq(line: Seq<char>)
    requires
        forall|q: int| 0 <= q < line.len() ==> line[q] != '=',
    ensures
        split_at_eq(line) is None,
    decreases line.len(),
{
    if line.len() > 0 {
        let rest = line.drop_first();
        assert forall|q: int| 0 <= q < rest.len() implies rest[q] != '=' by {
            assert(rest[q] == line[q + 1]);
        }
        lemma_split_without_eq(rest);
    }
}

/// The pair that `chars[start..end]` gives as an environment line.
fn env_entry(chars: &Vec<char>, start: usize, end: usize) -> (entry: Option<(String, String)>)
    requires
        start <= end <= chars@.len(),
    ensures
        match split_at_eq(chars@.subrange(start as int, end as int)) {
            Some((k, v)) => entry matches Some(e) && e.0@ == k && e.1@ == v,
            None => entry is None,
        },
{
    let ghost line = chars@.subrange(start as int, end as int);
    let mut p = start;
    while p < end
        invariant
            start <= p <= end <= chars@.len(),
            line == chars@.subrange(start as int, end as int),
            forall|q: int| 0 <= q < p - start ==> line[q] != '=',
        decreases end - p,
    {
        if chars[p] == '=' {
            proof {
                lemma_split_at_first_eq(line, p - start);
                assert(line.take(p - start) == chars@.subrange(start as int, p as int));
                assert(line.skip(p - start + 1) == chars@.subrange(p + 1, end as int));
            }
            let key = string_of(chars, start, p);
            let value = string_of(chars, p + 1, end);
            return Some((key, value));
        }
        p = p + 1;
    }
    proof {
        lemma_split_without_eq(line);
    }
    None
}

/// The variables that an environment file sets: for each line of `content` (as
/// `str::lines` splits it) that holds a `=`, the text before the first `=` and
/// the text after it, in the order of the lines.
pub fn parse_env(content: &str) -> (vars: Vec<(String, String)>)
    ensures
        pair_texts(vars@) == env_pairs(text_lines(content@)),
{
    let chars = chars_of(content);
    let n = chars.len();
    let mut vars: Vec<(String, String)> = Vec::new();
    let ghost mut done: Seq<Seq<char>> = seq![];
    let mut start: usize = 0;
    let mut i: usize = 0;
    assert(chars@.take(0) == Seq::<char>::empty());
    while i < n
        invariant
            n == chars@.len(),
            chars@ == content@,
            start <= i <= n,
            scan_lines(chars@.take(i as int)) == (done, chars@.subrange(start as int, i as int)),
            pair_texts(vars@) == env_pairs(done),
        decreases n - i,
    {
        assert(chars@.take(i + 1).drop_last() == chars@.take(i as int));
        assert(chars@.take(i + 1).last() == chars@[i as int]);
        if chars[i] == '\n' {
            let ghost cur = chars@.subrange(start as int, i as int);
            let mut end = i;
            if end > start && chars[end - 1] == '\r' {
                end = end - 1;
            }
            assert(strip_cr(cur) == chars@.subrange(start as int, end as int));
            let entry = env_entry(&chars, start, end);
            let ghost line = chars@.subrange(start as int, end as int);
            let ghost prev_done = done;
            let ghost prev_vars = vars@;
            proof {
                done = done.push(line);
            }
            match entry {
                Some(e) => {
                    vars.push(e);
                },
                None => {},
            }
            assert(pair_texts(vars@) == env_pairs(done)) by {
                assert(done.drop_last() == prev_done);
                assert(done.last() == line);
                match split_at_eq(line) {
                    Some(pair) => {
                        assert(vars@.drop_last() == prev_vars);
                        assert(pair_texts(vars@) == pair_texts(prev_vars).push(pair));
                    },
                    None => {
                        assert(vars@ == prev_vars);
                    },
                }
            }
            start = i + 1;
            assert(chars@.subrange(start as int, i + 1) == Seq::<char>::empty());
        } else {
            assert(chars@.subrange(start as int, i + 1) == chars@.subrange(
                start as int,
                i as int,
            ).push(chars@[i as int]));
        }
        i = i + 1;
    }
    assert(chars@.take(n as int) == chars@);
    if start < n {
        let entry = env_entry(&chars, start, n);
        let ghost line = chars@.subrange(start as int, n as int);
        let ghost prev_vars = vars@;
        match entry {
            Some(e) => {
                vars.push(e);
            },
            None => {},
        }
        assert(pair_texts(vars@) == env_pairs(done.push(line))) by {
            assert(done.push(line).drop_last() == done);
            assert(done.push(line).last() == line);
            match split_at_eq(line) {
                Some(pair) => {
                    assert(vars@.drop_last() == prev_vars);
                    assert(pair_texts(vars@) == pair_texts(prev_vars).push(pair));
                },
                None => {
                    assert(vars@ == prev_vars);
                },
            }
        }
    }
    vars
}

/// What `split_at_eq` cuts off is a key without `=`; the line is that key, an
/// `=`, and the value.
proof fn lemma_split_at_eq_shape(line: Seq<char>)
    ensures
        split_at_eq(line) matches Some((k, v)) ==> !k.contains('=') && line == k + seq!['=']
            + v,
    decreases line.len(),
{
    if line.len() > 0 && line[0] != '=' {
        let rest = line.drop_first();
        lemma_split_at_eq_shape(rest);
        if let Some((k, v)) = split_at_eq(rest) {
            let k2 = seq![line[0]] + k;
            assert(line == k2 + seq!['='] + v) by {
                assert(line == seq![line[0]] + rest);
            }
            assert(!k2.contains('=')) by {
                if k2.contains('=') {
                    let q = choose|q: int| 0 <= q < k2.len() && k2[q] == '=';
                    assert(q > 0);
                    assert(k[q - 1] == '=');
                }
            }
        }
    }
}

/// Every variable read from an environment file comes from one of its lines,
/// which reads `KEY=value`, and its key holds no `=`: the line is cut at its
/// first `=`.
pub proof fn lemma_env_vars_come_from_lines(lines: Seq<Seq<char>>, j: int)
    requires
        0 <= j < env_pairs(lines).len(),
    ensures
        !env_pairs(lines)[j].0.contains('='),
        lines.contains(env_pairs(lines)[j].0 + seq!['='] + env_pairs(lines)[j].1),
    decreases lines.len(),
{
    let rest = env_pairs(lines.drop_last());
    lemma_split_at_eq_shape(lines.last());
    if j < rest.len() {
        lemma_env_vars_come_from_lines(lines.drop_last(), j);
        let line = env_pairs(lines)[j].0 + seq!['='] + env_pairs(lines)[j].1;
        let q = choose|q: int| 0 <= q < lines.drop_last().len() && lines.drop_last()[q] == line;
        assert(lines[q] == line);
    } else {
        assert(lines[lines.len() - 1] == lines.last());
    }
}

/// No variable is lost or added: each line of the file that holds a `=` gives
/// its pair, after the pairs of the lines before it, and a line without `=`
/// gives nothing.
pub proof fn lemma_env_pairs_one_per_line(lines: Seq<Seq<char>>, line: Seq<char>)
    ensures
        split_at_eq(line) matches Some(pair) ==> env_pairs(lines.push(line)) == env_pairs(
            lines,
        ).push(pair),
        split_at_eq(line) is None ==> env_pairs(lines.push(line)) == env_pairs(lines),
        (exists|q: int| 0 <= q < line.len() && line[q] == '=') <==> split_at_eq(line) is Some,
{
    assert(lines.push(line).drop_last() == lines);
    assert(lines.push(line).last() == line);
    lemma_split_at_eq_shape(line);
    if exists|q: int| 0 <= q < line.len() && line[q] == '=' {
        let q = choose|q: int| 0 <= q < line.len() && line[q] == '=';
        lemma_split_some_if_eq(line, q);
    } else {
        lemma_split_without_eq(line);
    }
}

proof fn lemma_split_some_if_eq(line: Seq<char>, q: int)
    requires
        0 <= q < line.len(),
        line[q] == '=',
    ensures
        split_at_eq(line) is Some,
    decreases q,
{
    if q > 0 && line[0] != '=' {
        assert(line.drop_first()[q - 1] == '=');
        lemma_split_some_if_eq(line.drop_first(), q - 1);
    }
}

/// Every line of the file that holds a `=` gives a variable: its pair is among
/// those read.
pub proof fn lemma_env_pairs_complete(lines: Seq<Seq<char>>, i: int)
    requires
        0 <= i < lines.len(),
        split_at_eq(lines[i]) is Some,
    ensures
        env_pairs(lines).contains(split_at_eq(lines[i]).unwrap()),
    decreases lines.len(),
{
    let init = lines.drop_last();
    assert(lines == init.push(lines.last()));
    lemma_env_pairs_one_per_line(init, lines.last());
    if i == lines.len() - 1 {
        assert(env_pairs(lines).last() == split_at_eq(lines[i]).unwrap());
        assert(env_pairs(lines)[env_pairs(lines).len() - 1] == split_at_eq(lines[i]).unwrap());
    } else {
        assert(init[i] == lines[i]);
        lemma_env_pairs_complete(init, i);
        let k = choose|k: int|
            0 <= k < env_pairs(init).len() && env_pairs(init)[k] == split_at_eq(lines[i]).unwrap();
        match split_at_eq(lines.last()) {
            Some(pair) => {
                assert(env_pairs(lines)[k] == env_pairs(init)[k]);
            },
            None => {},
        }
    }
}

/// A host configuration that mentions `127.0.0` anywhere (a local resolver the
/// container cannot reach) is replaced by `nameserver 1.1.1.1`; one that does
/// not is kept as it is.
pub proof fn lemma_resolv_conf_replaces_local_resolvers(host: Seq<char>, i: int)
    ensures
        0 <= i && i + 7 <= host.len() && host.subrange(i, i + 7) == "127.0.0"@ ==> resolv_conf_of(
            host,
        ) == "nameserver 1.1.1.1\n"@,
        (forall|j: int|
            0 <= j && j + 7 <= host.len() ==> #[trigger] host.subrange(j, j + 7) != "127.0.0"@)
            ==> resolv_conf_of(host) == host,
{
    reveal_strlit("127.0.0");
    if 0 <= i && i + 7 <= host.len() && host.subrange(i, i + 7) == "127.0.0"@ {
        assert(host.subrange(i, i + "127.0.0"@.len()) == "127.0.0"@);
    }
}

/// The resolver configuration a container gets from the host's `host`: the
/// host's own, unless it points at a local stub resolver (mentions `127.0.0`),
/// which the container cannot reach; then a public resolver instead.
pub open spec fn resolv_conf_of(host: Seq<char>) -> Seq<char> {
    if has_substring(host, "127.0.0"@) {
        "nameserver 1.1.1.1\n"@
    } else {
        host
    }
}

/// The `/etc/resolv.conf` to write into a container, from the host's.
pub fn resolv_conf(host: &str) -> (conf: String)
    ensures
        conf@ == resolv_conf_of(host@),
{
    if contains_text(host, "127.0.0") {
        "nameserver 1.1.1.1\n".to_owned()
    } else {
        host.to_owned()
    }
}

/// The directories of a container's root filesystem.
pub struct OverlayLayout {
    /// Writable upper layer: `/run/rcr/<name>/upper`.
    pub upper: String,
    /// Overlay work directory: `/run/rcr/<name>/work`.
    pub work: String,
    /// Where the overlay is mounted: `/run/rcr/<name>/merged`.
    pub merged: String,
    /// Mount options `lowerdir=<lower>,upperdir=<upper>,workdir=<work>`.
    pub options: String,
    /// `<merged>/etc`.
    pub etc_dir: String,
    /// `<merged>/etc/resolv.conf`.
    pub resolv_conf: String,
    /// `<merged>/.old_root`, where `pivot_root` puts the old root.
    pub old_root: String,
}

/// `layout` is the overlay of container `name` on the lower directories `lower`.
pub open spec fn overlay_of(layout: OverlayLayout, name: Seq<char>, lower: Seq<char>) -> bool {
    let base = run_dir(name);
    &&& layout.upper@ == base + "/upper"@
    &&& layout.work@ == base + "/work"@
    &&& layout.merged@ == base + "/merged"@
    &&& layout.options@ == "lowerdir="@ + lower + ",upperdir="@ + layout.upper@ + ",workdir="@
        + layout.work@
    &&& layout.etc_dir@ == layout.merged@ + "/etc"@
    &&& layout.resolv_conf@ == layout.merged@ + "/etc/resolv.conf"@
    &&& layout.old_root@ == layout.merged@ + "/.old_root"@
}

/// Containers do not share their writable layers: distinct names give
/// distinct run directories, hence distinct upper and work directories.
pub proof fn lemma_distinct_containers_have_separate_overlays(
    a: OverlayLayout,
    name_a: Seq<char>,
    lower_a: Seq<char>,
    b: OverlayLayout,
    name_b: Seq<char>,
    lower_b: Seq<char>,
)
    requires
        overlay_of(a, name_a, lower_a),
        overlay_of(b, name_b, lower_b),
        name_a != name_b,
    ensures
        a.upper@ != b.upper@,
        a.work@ != b.work@,
{
    if a.upper@ == b.upper@ {
        lemma_run_dir_injective(name_a, name_b, "/upper"@);
    }
    if a.work@ == b.work@ {
        lemma_run_dir_injective(name_a, name_b, "/work"@);
    }
}

proof fn lemma_run_dir_injective(name_a: Seq<char>, name_b: Seq<char>, tail: Seq<char>)
    requires
        run_dir(name_a) + tail == run_dir(name_b) + tail,
    ensures
        name_a == name_b,
{
    let p = STATE_DIR@ + seq!['/'];
    let x = run_dir(name_a) + tail;
    assert(run_dir(name_a) == x.take(x.len() - tail.len()));
    assert(run_dir(name_b) == x.take(x.len() - tail.len()));
    assert(name_a == run_dir(name_a).skip(p.len() as int));
    assert(name_b == run_dir(name_b).skip(p.len() as int));
}

/// The overlay root filesystem of container `name`, stacked on `lower`.
pub fn overlay_layout(name: &str, lower: &str) -> (layout: OverlayLayout)
    ensures
        overlay_of(layout, name@, lower@),
{
    let base = concat3(STATE_DIR, "/", name);
    let upper = concat(base.as_str(), "/upper");
    let work = concat(base.as_str(), "/work");
    let merged = concat(base.as_str(), "/merged");
    let mut options = concat3("lowerdir=", lower, ",upperdir=");
    options.append(upper.as_str());
    options.append(",workdir=");
    options.append(work.as_str());
    let etc_dir = concat(merged.as_str(), "/etc");
    let resolv_conf = concat(merged.as_str(), "/etc/resolv.conf");
    let old_root = concat(merged.as_str(), "/.old_root");
    proof {
        reveal_strlit("/");
        assert(base@ == run_dir(name@));
        assert(options@ == "lowerdir="@ + lower@ + ",upperdir="@ + upper@ + ",workdir="@ + work@);
    }
    OverlayLayout { upper, work, merged, options, etc_dir, resolv_conf, old_root }
}

/// The commands that set up the network inside container `name` at address
/// `child_ip`: loopback up, the address on the container-side veth, that veth
/// up, and the default route through the host end.
pub fn container_network_commands(name: &str, child_ip: &str) -> (cmds: Vec<CommandLine>)
    ensures
        cmds@.len() == 4,
        runs(cmds@[0], "ip"@, seq!["link"@, "set"@, "lo"@, "up"@]),
        runs(
            cmds@[1],
            "ip"@,
            seq!["addr"@, "add"@, child_ip@ + "/24"@, "dev"@, vchild_name(sha256_of(name@))],
        ),
        runs(cmds@[2], "ip"@, seq!["link"@, "set"@, vchild_name(sha256_of(name@)), "up"@]),
        runs(cmds@[3], "ip"@, seq!["route"@, "add"@, "default"@, "via"@, "10.0.0.1"@]),
{
    let (_, vchild) = get_vhost_vchild(name);
    let ghost vc = vchild_name(sha256_of(name@));
    let mut cmds: Vec<CommandLine> = Vec::new();

    let mut a = no_args();
    push_arg(&mut a, "link");
    push_arg(&mut a, "set");
    push_arg(&mut a, "lo");
    push_arg(&mut a, "up");
    assert(texts(a@) == seq!["link"@, "set"@, "lo"@, "up"@]);
    cmds.push(CommandLine { program: "ip".to_owned(), args: a });

    let mut a = no_args();
    push_arg(&mut a, "addr");
    push_arg(&mut a, "add");
    let addr = concat(child_ip, "/24");
    push_arg(&mut a, addr.as_str());
    push_arg(&mut a, "dev");
    push_arg(&mut a, vchild.as_str());
    assert(texts(a@) == seq!["addr"@, "add"@, child_ip@ + "/24"@, "dev"@, vc]);
    cmds.push(CommandLine { program: "ip".to_owned(), args: a });

    let mut a = no_args();
    push_arg(&mut a, "link");
    push_arg(&mut a, "set");
    push_arg(&mut a, vchild.as_str());
    push_arg(&mut a, "up");
    assert(texts(a@) == seq!["link"@, "set"@, vc, "up"@]);
    cmds.push(CommandLine { program: "ip".to_owned(), args: a });

    let mut a = no_args();
    push_arg(&mut a, "route");
    push_arg(&mut a, "add");
    push_arg(&mut a, "default");
    push_arg(&mut a, "via");
    push_arg(&mut a, "10.0.0.1");
    assert(texts(a@) == seq!["route"@, "add"@, "default"@, "via"@, "10.0.0.1"@]);
    cmds.push(CommandLine { program: "ip".to_owned(), args: a });
    cmds
}

} // verus!
