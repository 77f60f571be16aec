//! What is to be drawn: the image of every entity that has one, gathered in
//! batches so that lower levels are drawn first and each image is used for
//! one batch per level.

use itertools::Itertools;
use vstd::prelude::*;

use crate::components::{Renderable, RenderableKind};
use crate::world::{Entity, Tags, World};

verus! {

/// The cells on which one image is drawn on one level.
#[derive(Debug)]
pub struct RenderBatch {
    pub z: u8,
    pub image_path: String,
    pub cells: Vec<(u8, u8)>,
}

/// A batch as plain values.
pub struct Batch {
    pub z: u8,
    pub image_path: Seq<char>,
    pub cells: Seq<(u8, u8)>,
}

impl View for RenderBatch {
    type V = Batch;

    open spec fn view(&self) -> Batch {
        Batch { z: self.z, image_path: self.image_path@, cells: self.cells@ }
    }
}

/// The batches of a list as plain values.
pub open spec fn batch_views(batches: Seq<RenderBatch>) -> Seq<Batch> {
    Seq::new(batches.len(), |i: int| batches[i]@)
}

/// Which of its images an entity shows after `alive_millis` milliseconds. A
/// single image is shown all the time; several change every half second,
/// in a cycle of two seconds.
pub open spec fn image_index(images: nat, alive_millis: nat) -> nat {
    if images == 1 {
        0
    } else {
        (alive_millis % 2000) / 500
    }
}

/// Whether an entity with these tags is drawn: it has a look and a place.
pub open spec fn is_drawn(t: Tags) -> bool {
    t.renderable is Some && t.position is Some
}

/// The image that a drawn entity shows after `alive_millis` milliseconds.
pub open spec fn shown_image(t: Tags, alive_millis: nat) -> Seq<char> {
    let images = t.renderable.unwrap();
    images[(image_index(images.len(), alive_millis) % images.len()) as int]
}

/// Whether every entity that is drawn has at least one image.
pub open spec fn drawable(w: Seq<Tags>) -> bool {
    forall|i: int|
        0 <= i < w.len() && is_drawn(#[trigger] w[i]) ==> w[i].renderable.unwrap().len() > 0
}

/// The first batch from `from` on that draws `image_path`.
pub open spec fn find_batch(batches: Seq<Batch>, image_path: Seq<char>, from: int) -> Option<int>
    decreases batches.len() - from,
{
    if from < 0 || from >= batches.len() {
        None
    } else if batches[from].image_path == image_path {
        Some(from)
    } else {
        find_batch(batches, image_path, from + 1)
    }
}

/// The batches of level `z` for the first `n` entities. The entities are
/// taken in the order of the store; each joins the batch of its image, or
/// opens a new batch behind the others if its image has none yet.
pub open spec fn level_batches(w: Seq<Tags>, alive_millis: nat, z: u8, n: nat) -> Seq<Batch>
    decreases n,
{
    if n == 0 {
        Seq::empty()
    } else {
        let before = level_batches(w, alive_millis, z, (n - 1) as nat);
        let t = w[n - 1];
        if is_drawn(t) && t.position.unwrap().z == z {
            let cell = (t.position.unwrap().x, t.position.unwrap().y);
            match find_batch(before, shown_image(t, alive_millis), 0) {
                Some(i) => before.update(
                    i,
                    Batch { cells: before[i].cells.push(cell), ..before[i] },
                ),
                None => before.push(
                    Batch { z, image_path: shown_image(t, alive_millis), cells: seq![cell] },
                ),
            }
        } else {
            before
        }
    }
}

/// The batches of all levels below `z`, lowest level first.
pub open spec fn batches_below(w: Seq<Tags>, alive_millis: nat, z: nat) -> Seq<Batch>
    decreases z,
{
    if z == 0 {
        Seq::empty()
    } else {
        batches_below(w, alive_millis, (z - 1) as nat) + level_batches(
            w,
            alive_millis,
            (z - 1) as u8,
            w.len(),
        )
    }
}

/// The batches of a board after `alive_millis` milliseconds, in the order in
/// which they are to be drawn.
pub open spec fn batches(w: Seq<Tags>, alive_millis: nat) -> Seq<Batch> {
    batches_below(w, alive_millis, 256)
}

/// Whether no entity among the first `n` is drawn on level `z`.
pub open spec fn level_unused(w: Seq<Tags>, z: int, n: nat) -> bool {
    forall|i: int| 0 <= i < n && is_drawn(#[trigger] w[i]) ==> w[i].position.unwrap().z != z
}

/// A level on which nothing is drawn has no batches.
proof fn lemma_unused_level(w: Seq<Tags>, alive_millis: nat, z: u8, n: nat)
    requires
        n <= w.len(),
        level_unused(w, z as int, n),
    ensures
        level_batches(w, alive_millis, z, n) == Seq::<Batch>::empty(),
    decreases n,
{
    if n > 0 {
        lemma_unused_level(w, alive_millis, z, (n - 1) as nat);
    }
}

/// Levels on which nothing is drawn add nothing to the batches.
proof fn lemma_unused_levels(w: Seq<Tags>, alive_millis: nat, from: nat, to: nat)
    requires
        from <= to <= 256,
        forall|z: int| from <= z < to ==> level_unused(w, z, w.len()),
    ensures
        batches_below(w, alive_millis, to) == batches_below(w, alive_millis, from),
    decreases to - from,
{
    if from < to {
        lemma_unused_levels(w, alive_millis, from, (to - 1) as nat);
        assert(level_unused(w, to - 1, w.len()));
        lemma_unused_level(w, alive_millis, (to - 1) as u8, w.len());
        assert(batches_below(w, alive_millis, (to - 1) as nat) + Seq::<Batch>::empty()
            =~= batches_below(w, alive_millis, (to - 1) as nat));
    }
}

/// `itertools::Itertools::sorted`, collected into a vector again: the
/// levels in ascending order. The result holds each level as often as the
/// argument does.
#[verifier::external_body]
fn sorted_levels(levels: Vec<u8>) -> (sorted: Vec<u8>)
    ensures
        sorted@.to_multiset() == levels@.to_multiset(),
        forall|i: int, j: int| 0 <= i <= j < sorted@.len() ==> sorted@[i] <= sorted@[j],
{
    levels.into_iter().sorted().collect()
}

/// The index of the image that a renderable shows.
fn shown_index(renderable: &Renderable, alive_millis: u128) -> (index: usize)
    requires
        renderable@.len() > 0,
    ensures
        index == image_index(renderable@.len(), alive_millis as nat),
{
    match renderable.kind() {
        RenderableKind::Static => 0,
        RenderableKind::Animated => ((alive_millis % 2000) / 500) as usize,
    }
}

/// Looks for the batch that draws `image_path`.
fn find_in(level: &Vec<RenderBatch>, image_path: &String) -> (found: Option<usize>)
    ensures
        match found {
            Some(i) => i < level@.len() && find_batch(batch_views(level@), image_path@, 0)
                == Some(i as int),
            None => find_batch(batch_views(level@), image_path@, 0) is None,
        },
{
    let mut i: usize = 0;
    while i < level.len()
        invariant
            i <= level@.len(),
            find_batch(batch_views(level@), image_path@, 0) == find_batch(
                batch_views(level@),
                image_path@,
                i as int,
            ),
        decreases level@.len() - i,
    {
        if level[i].image_path == *image_path {
            return Some(i);
        }
        i += 1;
    }
    None
}

/// Appends the batches of level `z` to `out`.
fn append_level(world: &World, alive_millis: u128, z: u8, out: &mut Vec<RenderBatch>)
    requires
        drawable(world@),
    ensures
        batch_views(final(out)@) == batch_views(old(out)@) + level_batches(
            world@,
            alive_millis as nat,
            z,
            world@.len(),
        ),
{
    let ghost w = world@;
    let ghost ms = alive_millis as nat;
    let mut level: Vec<RenderBatch> = Vec::new();
    let n = world.len();
    let mut i: usize = 0;
    assert(batch_views(level@) =~= level_batches(w, ms, z, 0));
    while i < n
        invariant
            w == world@,
            ms == alive_millis as nat,
            drawable(w),
            n == w.len(),
            i <= n,
            batch_views(level@) == level_batches(w, ms, z, i as nat),
        decreases n - i,
    {
        let ghost before = batch_views(level@);
        match world.get(Entity(i)) {
            Some(components) => match (&components.renderable, components.position) {
                (Some(renderable), Some(position)) => {
                    if position.z == z {
                        assert(is_drawn(w[i as int]));
                        let index = shown_index(renderable, alive_millis);
                        let image_path = renderable.path(index).to_owned();
                        assert(image_path@ == shown_image(w[i as int], ms));
                        match find_in(&level, &image_path) {
                            Some(at) => {
                                level[at].cells.push((position.x, position.y));
                                assert(batch_views(level@) =~= before.update(
                                    at as int,
                                    Batch {
                                        cells: before[at as int].cells.push(
                                            (position.x, position.y),
                                        ),
                                        ..before[at as int]
                                    },
                                ));
                            },
                            None => {
                                let mut cells: Vec<(u8, u8)> = Vec::new();
                                cells.push((position.x, position.y));
                                level.push(RenderBatch { z, image_path, cells });
                                assert(batch_views(level@) =~= before.push(
                                    Batch {
                                        z,
                                        image_path: image_path@,
                                        cells: seq![(position.x, position.y)],
                                    },
                                ));
                            },
                        }
                    }
                },
                _ => {},
            },
            None => {},
        }
        i += 1;
    }
    let ghost added = batch_views(level@);
    out.append(&mut level);
    assert(batch_views(out@) =~= batch_views(old(out)@) + added);
}

/// The levels of the entities that are drawn, in the order of the store.
fn used_levels(world: &World) -> (levels: Vec<u8>)
    ensures
        forall|i: int|
            0 <= i < world@.len() && is_drawn(#[trigger] world@[i]) ==> levels@.contains(
                world@[i].position.unwrap().z,
            ),
{
    let mut levels: Vec<u8> = Vec::new();
    let n = world.len();
    let mut i: usize = 0;
    while i < n
        invariant
            n == world@.len(),
            i <= n,
            forall|j: int|
                0 <= j < i && is_drawn(#[trigger] world@[j]) ==> levels@.contains(
                    world@[j].position.unwrap().z,
                ),
        decreases n - i,
    {
        let ghost before = levels@;
        match world.get(Entity(i)) {
            Some(components) => match (&components.renderable, components.position) {
                (Some(_), Some(position)) => {
                    levels.push(position.z);
                    assert(levels@[before.len() as int] == position.z);
                },
                _ => {},
            },
            None => {},
        }
        assert forall|j: int| 0 <= j < i + 1 && is_drawn(#[trigger] world@[j]) implies levels@.contains(
            world@[j].position.unwrap().z,
        ) by {
            if j < i {
                let at = choose|at: int|
                    0 <= at < before.len() && before[at] == world@[j].position.unwrap().z;
                assert(levels@[at] == before[at]);
            }
        }
        i += 1;
    }
    levels
}

/// Gathers what is to be drawn after `alive_millis` milliseconds of play.
/// Each batch holds the cells on which one image is drawn on one level, in
/// the order of the store. The batches of a lower level come before those
/// of a higher one; on one level, a batch comes before another if its
/// first entity was created before the first entity of the other.
pub fn render_batches(world: &World, alive_millis: u128) -> (r: Vec<RenderBatch>)
    requires
        drawable(world@),
    ensures
        batch_views(r@) == batches(world@, alive_millis as nat),
{
    let ghost w = world@;
    let ghost ms = alive_millis as nat;
    let levels = used_levels(world);
    let sorted = sorted_levels(levels);
    proof {
        assert forall|i: int| 0 <= i < w.len() && is_drawn(#[trigger] w[i]) implies sorted@.contains(
            w[i].position.unwrap().z,
        ) by {
            let z = w[i].position.unwrap().z;
            vstd::seq_lib::to_multiset_contains(levels@, z);
            vstd::seq_lib::to_multiset_contains(sorted@, z);
        }
    }
    let mut out: Vec<RenderBatch> = Vec::new();
    let mut next: u16 = 0;
    let mut k: usize = 0;
    assert(batch_views(out@) =~= batches_below(w, ms, 0));
    while k < sorted.len()
        invariant
            w == world@,
            ms == alive_millis as nat,
            drawable(w),
            k <= sorted@.len(),
            next <= 256,
            forall|i: int, j: int| 0 <= i <= j < sorted@.len() ==> sorted@[i] <= sorted@[j],
            forall|i: int|
                0 <= i < w.len() && is_drawn(#[trigger] w[i]) ==> sorted@.contains(
                    w[i].position.unwrap().z,
                ),
            forall|i: int| 0 <= i < k ==> sorted@[i] < next,
            batch_views(out@) == batches_below(w, ms, next as nat),
        decreases sorted@.len() - k,
    {
        let z = sorted[k];
        if z as u16 >= next {
            proof {
                assert forall|l: int| next <= l < z implies level_unused(w, l, w.len()) by {
                    assert forall|i: int| 0 <= i < w.len() && is_drawn(#[trigger] w[i]) implies w[i].position.unwrap().z
                        != l by {
                        let used = w[i].position.unwrap().z;
                        let at = choose|at: int| 0 <= at < sorted@.len() && sorted@[at] == used;
                        if at < k {
                            assert(sorted@[at] < next);
                        } else {
                            assert(sorted@[k as int] <= sorted@[at]);
                        }
                    }
                }
                lemma_unused_levels(w, ms, next as nat, z as nat);
            }
            append_level(world, alive_millis, z, &mut out);
            next = z as u16 + 1;
        }
        k += 1;
    }
    proof {
        assert forall|l: int| next <= l < 256 implies level_unused(w, l, w.len()) by {
            assert forall|i: int| 0 <= i < w.len() && is_drawn(#[trigger] w[i]) implies w[i].position.unwrap().z
                != l by {
                let used = w[i].position.unwrap().z;
                let at = choose|at: int| 0 <= at < sorted@.len() && sorted@[at] == used;
                assert(sorted@[at] < next);
            }
        }
        lemma_unused_levels(w, ms, next as nat, 256);
    }
    out
}

} // verus!
