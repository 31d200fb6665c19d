use vstd::prelude::*;

use crate::digest::{hex_encode, hex_lower, lemma_hex_lower_len, sha256_digest, sha256_of};
use crate::text::texts;

verus! {

/// A program and the arguments it is started with.
pub struct CommandLine {
    pub program: String,
    pub args: Vec<String>,
}

/// `c` starts `program` with the arguments `args`.
pub open spec fn runs(c: CommandLine, program: Seq<char>, args: Seq<Seq<char>>) -> bool {
    c.program@ == program && texts(c.args@) == args
}

/// The twelve hex characters that name a container's veth pair, taken from the
/// front of the lowercase hex of `digest`.
pub open spec fn veth_suffix(digest: Seq<u8>) -> Seq<char> {
    hex_lower(digest).take(12)
}

/// Host-side veth name of the container whose name hashes to `digest`.
pub open spec fn vhost_name(digest: Seq<u8>) -> Seq<char> {
    seq!['v', 'h', '-'] + veth_suffix(digest)
}

/// Container-side veth name of the container whose name hashes to `digest`.
pub open spec fn vchild_name(digest: Seq<u8>) -> Seq<char> {
    seq!['v', 'c', '-'] + veth_suffix(digest)
}

/// The veth pair names for a name whose SHA-256 digest is `digest`:
/// `vh-` and `vc-`, each followed by the first twelve hex characters of the digest.
pub fn veth_names_from_digest(digest: &[u8]) -> (names: (String, String))
    requires
        digest@.len() >= 6,
    ensures
        names.0@ == vhost_name(digest@),
        names.1@ == vchild_name(digest@),
        names.0@.len() == 15,
        names.1@.len() == 15,
{
    let hex = hex_encode(digest);
    proof {
        lemma_hex_lower_len(digest@);
    }
    let suffix = hex.as_str().substring_char(0, 12);
    let mut vhost = "vh-".to_owned();
    vhost.append(suffix);
    let mut vchild = "vc-".to_owned();
    vchild.append(suffix);
    proof {
        reveal_strlit("vh-");
        reveal_strlit("vc-");
    }
    (vhost, vchild)
}

/// Names of the veth pair of container `name`: host side `vh-<h>` and container
/// side `vc-<h>`, where `<h>` is the first twelve lowercase hex characters of the
/// SHA-256 of the name. Both are 15 characters, the longest a Linux interface
/// name may be.
pub fn get_vhost_vchild(name: &str) -> (names: (String, String))
    ensures
        names.0@ == vhost_name(sha256_of(name@)),
        names.1@ == vchild_name(sha256_of(name@)),
        names.0@.len() == 15,
        names.1@.len() == 15,
{
    let digest = sha256_digest(name);
    veth_names_from_digest(digest.as_slice())
}

} // verus!
