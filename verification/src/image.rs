use vstd::prelude::*;

use crate::digest::{
    hex_encode, hex_lower, lemma_hex_lower_injective, lemma_hex_lower_len, sha256_digest, sha256_of,
};
use crate::state::{run_dir, STATE_DIR};
use crate::text::{
    concat3, decimal, lemma_decimal_digits, lemma_decimal_injective, push_decimal, texts,
};

verus! {

/// Where committed layers are stored, one directory per layer id.
pub const LAYERS_DIR: &'static str = "/var/lib/rcr/layers";

/// Where finished images are stored, one file per image name.
pub const IMAGES_DIR: &'static str = "/var/lib/rcr/images";

/// The root filesystem every image and every plain container starts from.
pub const ROOTFS: &'static str = "/home/andreastrolle.guest/rootfs";

/// The text hashed for a layer: the length of `parent` in characters (in
/// decimal), a `:`, `parent`, then `command`. The length marks where `parent`
/// ends, so no two pairs give the same text (`lemma_layer_key_injective`).
pub open spec fn layer_key(parent: Seq<char>, command: Seq<char>) -> Seq<char> {
    decimal(parent.len()) + seq![':'] + parent + command
}

/// Id of the layer that running `command` on top of layer `parent` produces:
/// the lowercase hex SHA-256 of `layer_key(parent, command)`.
pub open spec fn layer_id_of(parent: Seq<char>, command: Seq<char>) -> Seq<char> {
    hex_lower(sha256_of(layer_key(parent, command)))
}

/// Directory of the committed layer `id`.
pub open spec fn layer_path_of(id: Seq<char>) -> Seq<char> {
    LAYERS_DIR@ + seq!['/'] + id
}

/// File that records image `name`.
pub open spec fn image_path_of(name: Seq<char>) -> Seq<char> {
    IMAGES_DIR@ + seq!['/'] + name
}

/// The id that the step at index `k` builds on: the base name for the first
/// step, and the id of the layer of step `k - 1` after it.
pub open spec fn parent_of(base: Seq<char>, steps: Seq<Seq<char>>, k: nat) -> Seq<char>
    decreases k,
{
    if k == 0 {
        base
    } else {
        layer_id_of(parent_of(base, steps, (k - 1) as nat), steps[k - 1])
    }
}

/// Layer id of the step at index `k`.
pub open spec fn step_id(base: Seq<char>, steps: Seq<Seq<char>>, k: nat) -> Seq<char> {
    parent_of(base, steps, k + 1)
}

/// The overlay lower directories once the first `k` steps are committed: their
/// layers, the newest first, separated by `:`, ending with the root filesystem.
pub open spec fn lower_of(base: Seq<char>, steps: Seq<Seq<char>>, k: nat) -> Seq<char>
    decreases k,
{
    if k == 0 {
        ROOTFS@
    } else {
        layer_path_of(step_id(base, steps, (k - 1) as nat)) + seq![':'] + lower_of(
            base,
            steps,
            (k - 1) as nat,
        )
    }
}

/// Name of the throwaway container that runs step `k` of image `image`:
/// `build-<image>-<k>`.
pub open spec fn build_name_of(image: Seq<char>, k: nat) -> Seq<char> {
    seq!['b', 'u', 'i', 'l', 'd', '-'] + image + seq!['-'] + decimal(k)
}

/// The overlay upper directory of container `name`: `/run/rcr/<name>/upper`.
pub open spec fn upper_dir_of(name: Seq<char>) -> Seq<char> {
    run_dir(name) + seq!['/', 'u', 'p', 'p', 'e', 'r']
}

/// The command line that runs a build step: `/bin/sh -c <command>`.
pub open spec fn step_argv_of(command: Seq<char>) -> Seq<Seq<char>> {
    seq!["/bin/sh"@, "-c"@, command]
}

/// Id of the layer that running `cur_command` on top of `parent_id` gives: the
/// 64 lowercase hex characters of the SHA-256 of `layer_key(parent_id,
/// cur_command)`, which tells every pair apart.
pub fn layer_id(parent_id: &str, cur_command: &str) -> (id: String)
    ensures
        id@ == layer_id_of(parent_id@, cur_command@),
        id@.len() == 64,
{
    let mut key = String::new();
    push_decimal(&mut key, parent_id.unicode_len() as u64);
    key.append(":");
    key.append(parent_id);
    key.append(cur_command);
    proof {
        reveal_strlit(":");
        assert(key@ == layer_key(parent_id@, cur_command@));
    }
    let digest = sha256_digest(key.as_str());
    let id = hex_encode(digest.as_slice());
    proof {
        lemma_hex_lower_len(digest@);
    }
    id
}

/// The file that records image `name`: `/var/lib/rcr/images/<name>`.
pub fn image_path(name: &str) -> (p: String)
    ensures
        p@ == image_path_of(name@),
{
    let p = concat3(IMAGES_DIR, "/", name);
    proof {
        reveal_strlit("/");
    }
    p
}

/// One step of an image build, laid out: what to run, on which layers, and
/// where its result goes.
pub struct LayerStep {
    /// The shell command of the step.
    pub command: String,
    /// Id of the layer the step produces.
    pub id: String,
    /// Directory of that layer.
    pub layer_path: String,
    /// Name of the container that runs the step when the layer is missing.
    pub build_name: String,
    /// Overlay upper directory of that container, committed as the layer.
    pub upper: String,
    /// The lower directories the step runs on.
    pub lower: String,
    /// The command line of that container.
    pub argv: Vec<String>,
}

/// A whole image build laid out: the steps in order, the layers of the finished
/// image and the file that records them.
pub struct BuildPlan {
    pub steps: Vec<LayerStep>,
    /// Lower directories of the finished image, the newest layer first.
    pub lower: String,
    /// The file that `lower` is written to.
    pub image_path: String,
}

/// `step` is the step at index `k` of building image `image` from `base` and
/// the step commands `steps`.
pub open spec fn step_laid_out(
    step: LayerStep,
    base: Seq<char>,
    steps: Seq<Seq<char>>,
    image: Seq<char>,
    k: nat,
) -> bool {
    &&& step.command@ == steps[k as int]
    &&& step.id@ == step_id(base, steps, k)
    &&& step.layer_path@ == layer_path_of(step_id(base, steps, k))
    &&& step.build_name@ == build_name_of(image, k)
    &&& step.upper@ == upper_dir_of(build_name_of(image, k))
    &&& step.lower@ == lower_of(base, steps, k)
    &&& texts(step.argv@) == step_argv_of(steps[k as int])
}

/// An image: a base name and the shell commands run on top of it, in order.
pub struct Image {
    base: String,
    steps: Vec<String>,
}

impl View for Image {
    type V = (Seq<char>, Seq<Seq<char>>);

    closed spec fn view(&self) -> (Seq<char>, Seq<Seq<char>>) {
        (self.base@, texts(self.steps@))
    }
}

impl Image {
    /// An image on top of `base`, with no steps yet.
    pub fn base(base: &str) -> (image: Self)
        ensures
            image@.0 == base@,
            image@.1 == Seq::<Seq<char>>::empty(),
    {
        let image = Image { base: base.to_owned(), steps: Vec::new() };
        assert(texts(image.steps@) == Seq::<Seq<char>>::empty());
        image
    }

    /// The same image with one more step, `command`, at the end.
    pub fn run(self, command: &str) -> (image: Self)
        ensures
            image@.0 == self@.0,
            image@.1 == self@.1.push(command@),
    {
        let mut image = self;
        image.steps.push(command.to_owned());
        assert(texts(image.steps@) == texts(self.steps@).push(command@));
        image
    }

    /// Lays out the build of this image under `image_name`: for each step, the
    /// layer it produces (chained from the base name through the step commands),
    /// the container that builds it when it is not cached, and the lower
    /// directories it runs on; then the layers of the finished image.
    pub fn build(self, image_name: &str) -> (plan: BuildPlan)
        ensures
            plan.steps@.len() == self@.1.len(),
            forall|k: int|
                0 <= k < self@.1.len() ==> step_laid_out(
                    #[trigger] plan.steps@[k],
                    self@.0,
                    self@.1,
                    image_name@,
                    k as nat,
                ),
            plan.lower@ == lower_of(self@.0, self@.1, self@.1.len()),
            plan.image_path@ == image_path_of(image_name@),
            self@.1.len() == 0 ==> plan.lower@ == ROOTFS@,
            self@.1.len() > 0 ==> plan.steps@[0].lower@ == ROOTFS@,
            forall|k: int|
                0 <= k < self@.1.len() - 1 ==> #[trigger] plan.steps@[k + 1].lower@
                    == plan.steps@[k].layer_path@ + seq![':'] + plan.steps@[k].lower@,
            self@.1.len() > 0 ==> plan.lower@ == plan.steps@[self@.1.len() - 1].layer_path@
                + seq![':'] + plan.steps@[self@.1.len() - 1].lower@,
    {
        let ghost base = self@.0;
        let ghost steps = self@.1;
        let n = self.steps.len();
        let mut planned: Vec<LayerStep> = Vec::new();
        let mut lower = ROOTFS.to_owned();
        let mut parent = self.base.clone();
        let mut i: usize = 0;
        while i < n
            invariant
                n == self.steps@.len(),
                base == self@.0,
                steps == self@.1,
                steps == texts(self.steps@),
                i <= n,
                planned@.len() == i,
                parent@ == parent_of(base, steps, i as nat),
                lower@ == lower_of(base, steps, i as nat),
                forall|k: int|
                    0 <= k < i ==> step_laid_out(
                        #[trigger] planned@[k],
                        base,
                        steps,
                        image_name@,
                        k as nat,
                    ),
            decreases n - i,
        {
            let command = &self.steps[i];
            let id = layer_id(parent.as_str(), command.as_str());
            let layer_path = concat3(LAYERS_DIR, "/", id.as_str());
            let mut build_name = concat3("build-", image_name, "-");
            push_decimal(&mut build_name, i as u64);
            let mut upper = concat3(STATE_DIR, "/", build_name.as_str());
            upper.append("/upper");
            let mut argv: Vec<String> = Vec::new();
            argv.push("/bin/sh".to_owned());
            argv.push("-c".to_owned());
            argv.push(command.clone());
            let next_lower = concat3(layer_path.as_str(), ":", lower.as_str());
            proof {
                reveal_strlit("build-");
                reveal_strlit("-");
                reveal_strlit("/upper");
                reveal_strlit("/");
                reveal_strlit(":");
                assert(texts(argv@) == step_argv_of(steps[i as int]));
            }
            let step = LayerStep {
                command: command.clone(),
                id,
                layer_path,
                build_name,
                upper,
                lower,
                argv,
            };
            assert(step.command@ == steps[i as int]);
            assert(step.id@ == step_id(base, steps, i as nat));
            assert(step.layer_path@ == layer_path_of(step_id(base, steps, i as nat)));
            assert(step.build_name@ == build_name_of(image_name@, i as nat));
            assert(step.upper@ == upper_dir_of(build_name_of(image_name@, i as nat)));
            assert(step.lower@ == lower_of(base, steps, i as nat));
            assert(step_laid_out(step, base, steps, image_name@, i as nat));
            planned.push(step);
            lower = next_lower;
            parent = planned[i].id.clone();
            i = i + 1;
        }
        BuildPlan { steps: planned, lower, image_path: image_path(image_name) }
    }
}

/// Layer caching across images: two images on the same base whose first `m`
/// steps are the same commands give those steps the same layer ids and run them
/// on the same lower directories, so the layers built for one are reused by the
/// other. In particular, adding a step at the end of an image (`Image::run`)
/// leaves every earlier layer as it was.
pub proof fn lemma_shared_steps_share_layers(
    base: Seq<char>,
    steps1: Seq<Seq<char>>,
    steps2: Seq<Seq<char>>,
    m: nat,
    k: nat,
)
    requires
        m <= steps1.len(),
        m <= steps2.len(),
        steps1.take(m as int) == steps2.take(m as int),
        k <= m,
    ensures
        parent_of(base, steps1, k) == parent_of(base, steps2, k),
        lower_of(base, steps1, k) == lower_of(base, steps2, k),
        k < m ==> step_id(base, steps1, k) == step_id(base, steps2, k),
    decreases k,
{
    if k > 0 {
        lemma_shared_steps_share_layers(base, steps1, steps2, m, (k - 1) as nat);
        assert(steps1[k - 1] == steps1.take(m as int)[k - 1]);
        assert(steps2[k - 1] == steps2.take(m as int)[k - 1]);
    }
    if k < m {
        assert(steps1[k as int] == steps1.take(m as int)[k as int]);
        assert(steps2[k as int] == steps2.take(m as int)[k as int]);
    }
}

/// Different layers are keyed apart: two (parent, command) pairs that differ
/// give different hashed texts, so their layer ids can only coincide through a
/// SHA-256 collision, and a layer is reused only for the same parent and the
/// same command.
pub proof fn lemma_layer_key_injective(
    parent1: Seq<char>,
    command1: Seq<char>,
    parent2: Seq<char>,
    command2: Seq<char>,
)
    requires
        layer_key(parent1, command1) == layer_key(parent2, command2),
    ensures
        parent1 == parent2,
        command1 == command2,
{
    let key = layer_key(parent1, command1);
    let d1 = decimal(parent1.len());
    let d2 = decimal(parent2.len());
    lemma_decimal_digits(parent1.len());
    lemma_decimal_digits(parent2.len());
    assert(key[d1.len() as int] == ':');
    assert(layer_key(parent2, command2)[d2.len() as int] == ':');
    if d1.len() < d2.len() {
        assert(key[d1.len() as int] == d2[d1.len() as int]);
    } else if d2.len() < d1.len() {
        assert(key[d2.len() as int] == d1[d2.len() as int]);
    }
    assert(d1.len() == d2.len());
    assert(d1 == key.take(d1.len() as int));
    assert(d2 == layer_key(parent2, command2).take(d2.len() as int));
    lemma_decimal_injective(parent1.len(), parent2.len());
    let start: int = d1.len() as int + 1;
    assert(parent1 == key.subrange(start, start + parent1.len()));
    assert(parent2 == key.subrange(start, start + parent2.len()));
    assert(command1 == key.skip(start + parent1.len()));
    assert(command2 == key.skip(start + parent2.len()));
}

/// Barring SHA-256 collisions, two steps share a layer id only when they have
/// the same parent and the whole same command: the id is keyed by the complete
/// pair, so a changed command or a changed parent always gets a layer of its own.
pub proof fn lemma_layer_id_keyed_by_whole_pair(
    parent1: Seq<char>,
    command1: Seq<char>,
    parent2: Seq<char>,
    command2: Seq<char>,
)
    requires
        forall|t1: Seq<char>, t2: Seq<char>|
            #[trigger] sha256_of(t1) == #[trigger] sha256_of(t2) ==> t1 == t2,
        layer_id_of(parent1, command1) == layer_id_of(parent2, command2),
    ensures
        parent1 == parent2,
        command1 == command2,
{
    let t1 = decimal(parent1.len()) + seq![':'] + parent1 + command1;
    let t2 = decimal(parent2.len()) + seq![':'] + parent2 + command2;
    assert(layer_key(parent1, command1) == t1);
    assert(layer_key(parent2, command2) == t2);
    lemma_hex_lower_injective(sha256_of(t1), sha256_of(t2));
    lemma_layer_key_injective(parent1, command1, parent2, command2);
}

/// The lower directories grow by one layer per step: after step `k` they are
/// that step's layer directory, a `:`, and the lower directories the step ran
/// on; before any step they are the root filesystem. So a finished image
/// lists the layer of every step, newest first, over the root filesystem.
pub proof fn lemma_lower_adds_each_layer(base: Seq<char>, steps: Seq<Seq<char>>, k: nat)
    requires
        k < steps.len(),
    ensures
        lower_of(base, steps, 0) == ROOTFS@,
        lower_of(base, steps, k + 1) == layer_path_of(step_id(base, steps, k)) + seq![':']
            + lower_of(base, steps, k),
        lower_of(base, steps, k + 1).len() == layer_path_of(step_id(base, steps, k)).len() + 1
            + lower_of(base, steps, k).len(),
{
}

} // verus!
