use rcr::image::{image_path, layer_id, Image, LAYERS_DIR, ROOTFS};
use rcr::utils::{get_vhost_vchild, veth_names_from_digest};

const ID1: &str = "4567a624345a083d3ceacbaf4d93dc74dd41bd61a1eecd3b3234f302dd5eceb7";
const ID2: &str = "b876621c834e7bc2e92b4466f2766143d653f4d1f6ba98c9a67ece056ea589cb";

#[test]
fn veth_names_come_from_the_name_hash() {
    let (vhost, vchild) = get_vhost_vchild("web");
    assert_eq!(vhost, "vh-4b5e57f6eb2f");
    assert_eq!(vchild, "vc-4b5e57f6eb2f");
    assert_eq!(vhost.len(), 15);
}

#[test]
fn veth_names_are_deterministic_and_differ_by_name() {
    assert_eq!(get_vhost_vchild("db"), get_vhost_vchild("db"));
    assert_ne!(get_vhost_vchild("db").0, get_vhost_vchild("web").0);
}

#[test]
fn veth_names_from_a_given_digest() {
    let digest = [0x01u8, 0x23, 0x45, 0x67, 0x89, 0xab, 0xcd, 0xef];
    let (vhost, vchild) = veth_names_from_digest(&digest);
    assert_eq!(vhost, "vh-0123456789ab");
    assert_eq!(vchild, "vc-0123456789ab");
}

#[test]
fn layer_id_is_hex_sha256_of_the_keyed_pair() {
    assert_eq!(layer_id("alpine", "apk add python3"), ID1);
    assert_eq!(layer_id(ID1, "apk add bird"), ID2);
    assert_eq!(ID1.len(), 64);
}

#[test]
fn layer_id_counts_the_parent_in_characters() {
    assert_eq!(
        layer_id("\u{e9}", "x"),
        "53183faa74f0effaabb26f9c7d7a36097bf6cf4fe3c95340f9c0a4f9bc8f5262"
    );
}

#[test]
fn layer_id_tells_apart_pairs_with_the_same_joined_text() {
    assert_eq!(
        layer_id("ab", "c"),
        "744931702c0ccc8206b265f934aba523cea2d969112daa8f14bed36454c6b749"
    );
    assert_eq!(
        layer_id("a", "bc"),
        "fac4d75282e3de358e8a42f2e1166bfe879257cdfb0961daf46b42003058b1a8"
    );
    assert_ne!(layer_id("alp", "ineapk add python3"), layer_id("alpine", "apk add python3"));
}

#[test]
fn image_path_is_under_the_images_dir() {
    assert_eq!(image_path("py"), "/var/lib/rcr/images/py");
}

#[test]
fn build_lays_out_chained_layers() {
    let plan = Image::base("alpine")
        .run("apk add python3")
        .run("apk add bird")
        .build("py");
    assert_eq!(plan.steps.len(), 2);
    let first = &plan.steps[0];
    assert_eq!(first.command, "apk add python3");
    assert_eq!(first.id, ID1);
    assert_eq!(first.layer_path, format!("{LAYERS_DIR}/{ID1}"));
    assert_eq!(first.build_name, "build-py-0");
    assert_eq!(first.upper, "/run/rcr/build-py-0/upper");
    assert_eq!(first.lower, ROOTFS);
    assert_eq!(first.argv, vec!["/bin/sh", "-c", "apk add python3"]);
    let second = &plan.steps[1];
    assert_eq!(second.id, ID2);
    assert_eq!(second.build_name, "build-py-1");
    assert_eq!(second.lower, format!("/var/lib/rcr/layers/{ID1}:{ROOTFS}"));
    assert_eq!(
        plan.lower,
        format!("/var/lib/rcr/layers/{ID2}:/var/lib/rcr/layers/{ID1}:{ROOTFS}")
    );
    assert_eq!(plan.image_path, "/var/lib/rcr/images/py");
}

#[test]
fn build_of_an_image_without_steps_is_the_root_filesystem() {
    let plan = Image::base("alpine").build("bare");
    assert!(plan.steps.is_empty());
    assert_eq!(plan.lower, ROOTFS);
}

#[test]
fn a_further_step_keeps_the_earlier_layers() {
    let short = Image::base("alpine").run("apk add python3").build("a");
    let long = Image::base("alpine")
        .run("apk add python3")
        .run("apk add bird")
        .build("b");
    assert_eq!(short.steps[0].id, long.steps[0].id);
    assert_eq!(short.steps[0].layer_path, long.steps[0].layer_path);
    assert_eq!(short.lower, long.steps[1].lower);
}

#[test]
fn many_steps_number_their_build_containers() {
    let mut image = Image::base("alpine");
    for i in 0..12 {
        image = image.run(&format!("echo {i}"));
    }
    let plan = image.build("n");
    assert_eq!(plan.steps[10].build_name, "build-n-10");
    assert_eq!(plan.steps[11].command, "echo 11");
}
