//! The integer side of the boid simulation: the configuration that the
//! systems read, the attractor modes and the bookkeeping that keeps the number
//! of boids at the configured count while giving every boid a fresh mesh tag.
use vstd::prelude::*;

verus! {

/// How the pull of an attractor varies with the distance to it.
#[derive(Clone, Copy, Debug, PartialEq, Eq, Structural)]
pub enum AttractorMode {
    /// Constant attraction strength, unaffected by distance.
    Constant,
    /// Attraction strength increases linearly with distance.
    Linear,
    /// Attraction strength increases quadratically with distance.
    Quadratic,
    /// Attraction strength decreases linearly with distance.
    InverseLinear,
    /// Attraction strength decreases quadratically with distance.
    InverseQuadratic,
}

impl AttractorMode {
    /// The text under which the mode is shown to the user.
    pub open spec fn label_text(self) -> Seq<char> {
        match self {
            AttractorMode::Constant => "Constant"@,
            AttractorMode::Linear => "Linear"@,
            AttractorMode::Quadratic => "Quadratic"@,
            AttractorMode::InverseLinear => "Inverse Linear"@,
            AttractorMode::InverseQuadratic => "Inverse Quadratic"@,
        }
    }

    /// The text under which the mode is shown to the user.
    pub fn label(&self) -> (text: &'static str)
        ensures
            text@ == self.label_text(),
    {
        match self {
            AttractorMode::Constant => "Constant",
            AttractorMode::Linear => "Linear",
            AttractorMode::Quadratic => "Quadratic",
            AttractorMode::InverseLinear => "Inverse Linear",
            AttractorMode::InverseQuadratic => "Inverse Quadratic",
        }
    }
}

impl Default for AttractorMode {
    fn default() -> (mode: Self)
        ensures
            mode == AttractorMode::Constant,
    {
        AttractorMode::Constant
    }
}

/// Two different modes are never shown under the same text.
pub proof fn lemma_labels_distinct(a: AttractorMode, b: AttractorMode)
    requires
        a != b,
    ensures
        a.label_text() != b.label_text(),
{
    reveal_strlit("Constant");
    reveal_strlit("Linear");
    reveal_strlit("Quadratic");
    reveal_strlit("Inverse Linear");
    reveal_strlit("Inverse Quadratic");
    match a {
        AttractorMode::Constant => {
            assert(a.label_text()[1] != b.label_text()[1] || a.label_text().len()
                != b.label_text().len());
        },
        AttractorMode::Linear => {
            assert(a.label_text()[0] != b.label_text()[0] || a.label_text().len()
                != b.label_text().len());
        },
        AttractorMode::Quadratic => {
            assert(a.label_text()[0] != b.label_text()[0] || a.label_text().len()
                != b.label_text().len());
        },
        AttractorMode::InverseLinear => {
            assert(a.label_text()[8] != b.label_text()[8] || a.label_text().len()
                != b.label_text().len());
        },
        AttractorMode::InverseQuadratic => {
            assert(a.label_text()[8] != b.label_text()[8] || a.label_text().len()
                != b.label_text().len());
        },
    }
}

/// The part of the simulation's configuration that is counted in whole
/// numbers.
pub struct BoidSettings {
    /// Pause the simulation.
    pub paused: bool,
    /// The number of boids to spawn in the simulation.
    pub count: u32,
    /// The maximum number of neighbors a boid will consider when calculating its behavior.
    pub neighbour_limit: usize,
    /// The half-size of the world.
    pub world_halfsize: u32,
}

impl Default for BoidSettings {
    fn default() -> (settings: Self)
        ensures
            !settings.paused,
            settings.count == 32768,
            settings.neighbour_limit == 8,
            settings.world_halfsize == 512,
    {
        BoidSettings { paused: false, count: 32768, neighbour_limit: 8, world_halfsize: 512 }
    }
}

/// The counter from which every boid gets its mesh tag: all tags below
/// `last_tag` have been handed out, and the next boid gets `last_tag`.
pub struct BoidTags {
    pub last_tag: u32,
}

/// What a frame does to the population of boids.
pub enum CountAdjustment {
    /// Spawn one boid for each of these mesh tags.
    Spawn(Vec<u32>),
    /// Despawn this many boids, whichever come first.
    Despawn(u32),
    /// The population already has the configured size.
    Keep,
}

/// The tags `first, first + 1, ..., first + amount - 1`, in that order.
pub open spec fn tag_run(first: int, amount: int) -> Seq<int> {
    Seq::new(amount as nat, |i: int| first + i)
}

/// The tags of a vector of tags, as integers.
pub open spec fn tags_as_ints(tags: Seq<u32>) -> Seq<int> {
    tags.map_values(|t: u32| t as int)
}

/// The counter after a frame that found `current` boids where `target` are
/// wanted: it moves past the tags of the boids that are spawned.
pub open spec fn next_last_tag(last_tag: int, current: int, target: int) -> int {
    if current < target {
        last_tag + (target - current)
    } else {
        last_tag
    }
}

/// The tags spawned by a frame that found `current` boids where `target`
/// are wanted, handing out tags from `last_tag` on.
pub open spec fn spawned_tags(last_tag: int, current: int, target: int) -> Seq<int> {
    if current < target {
        tag_run(last_tag, target - current)
    } else {
        Seq::empty()
    }
}

/// The number of boids that such a frame despawns.
pub open spec fn despawned_count(current: int, target: int) -> int {
    if current > target {
        current - target
    } else {
        0
    }
}

impl CountAdjustment {
    /// The tags of the boids this adjustment spawns.
    pub open spec fn spawned(&self) -> Seq<int> {
        match self {
            CountAdjustment::Spawn(tags) => tags_as_ints(tags@),
            _ => Seq::empty(),
        }
    }

    /// The number of boids this adjustment despawns.
    pub open spec fn despawned(&self) -> int {
        match self {
            CountAdjustment::Despawn(n) => *n as int,
            _ => 0,
        }
    }
}

/// Builds the vector `first, first + 1, ..., first + amount - 1`.
fn make_tag_run(first: u32, amount: u32) -> (tags: Vec<u32>)
    requires
        first + amount <= u32::MAX,
    ensures
        tags_as_ints(tags@) == tag_run(first as int, amount as int),
        tags@.len() == amount,
        forall|i: int| 0 <= i < tags@.len() ==> #[trigger] tags@[i] == first + i,
{
    let mut tags: Vec<u32> = Vec::new();
    let mut idx: u32 = 0;
    while idx < amount
        invariant
            idx <= amount,
            first + amount <= u32::MAX,
            tags@.len() == idx,
            tags_as_ints(tags@) == tag_run(first as int, idx as int),
        decreases amount - idx,
    {
        let ghost before = tags@;
        tags.push(first + idx);
        assert(tags@ == before.push((first + idx) as u32));
        assert(tags_as_ints(tags@) =~= tag_run(first as int, idx + 1)) by {
            assert forall|j: int| 0 <= j < idx + 1 implies tags_as_ints(tags@)[j] == first + j by {
                if j < idx {
                    assert(tags@[j] == before[j]);
                    assert(tags_as_ints(before)[j] == first + j);
                }
            }
        }
        idx = idx + 1;
    }
    assert forall|i: int| 0 <= i < tags@.len() implies #[trigger] tags@[i] == first + i by {
        assert(tags_as_ints(tags@)[i] == tag_run(first as int, amount as int)[i]);
    }
    tags
}

impl BoidTags {
    /// The counter, and the tags of the boids spawned at start-up: the
    /// `index`-th of the `count` boids gets tag `index`.
    pub fn for_initial_boids(count: u32) -> (result: (BoidTags, Vec<u32>))
        ensures
            result.0.last_tag == count,
            tags_as_ints(result.1@) == tag_run(0, count as int),
            result.1@.len() == count,
            forall|i: int| 0 <= i < result.1@.len() ==> #[trigger] result.1@[i] == i,
    {
        let tags = make_tag_run(0, count);
        (BoidTags { last_tag: count }, tags)
    }

    /// Decides what a frame does to the population, given the number
    /// `current` of boids that exist (counted as the simulation counts them,
    /// in a `u32`) and the configured number `target`: spawn the missing
    /// boids with fresh tags, despawn the excess, or do nothing.
    pub fn adjust_count(&mut self, current: usize, target: u32) -> (adjustment: CountAdjustment)
        requires
            (current as u32) < target ==> old(self).last_tag + (target - current as u32)
                <= u32::MAX,
        ensures
            final(self).last_tag == next_last_tag(
                old(self).last_tag as int,
                current as u32 as int,
                target as int,
            ),
            adjustment.spawned() == spawned_tags(
                old(self).last_tag as int,
                current as u32 as int,
                target as int,
            ),
            adjustment.despawned() == despawned_count(current as u32 as int, target as int),
            (adjustment is Keep) <==> (current as u32 == target),
            (adjustment is Spawn) <==> ((current as u32) < target),
            adjustment matches CountAdjustment::Spawn(tags) ==> tags@.len() == target - (current as u32)
                && forall|i: int|
                0 <= i < tags@.len() ==> #[trigger] tags@[i] == old(self).last_tag + i,
            adjustment matches CountAdjustment::Despawn(n) ==> n == (current as u32) - target,
            (current as u32) < target ==> final(self).last_tag == old(self).last_tag + (target
                - current as u32),
            (current as u32) >= target ==> final(self).last_tag == old(self).last_tag,
    {
        #[verifier::truncate]
        let count = current as u32;
        if count < target {
            let amount = target - count;
            let tags = make_tag_run(self.last_tag, amount);
            self.last_tag = self.last_tag + amount;
            CountAdjustment::Spawn(tags)
        } else if count > target {
            CountAdjustment::Despawn(count - target)
        } else {
            CountAdjustment::Keep
        }
    }
}

/// A run of tags counts up from its first tag, one by one, so no tag in it
/// occurs twice.
pub proof fn lemma_tag_run_counts_up(first: int, amount: int)
    requires
        amount >= 0,
    ensures
        tag_run(first, amount).len() == amount,
        forall|i: int| 0 <= i < amount ==> #[trigger] tag_run(first, amount)[i] == first + i,
        forall|i: int, j: int|
            0 <= i < amount && 0 <= j < amount && i != j ==> #[trigger] tag_run(first, amount)[i]
                != #[trigger] tag_run(first, amount)[j],
{
}

/// The tags spawned in one frame are the counter, the counter plus one, and
/// so on: all fresh (not below the counter), below the counter after the
/// frame, and pairwise different, as many as boids are missing.
pub proof fn lemma_spawned_tags_fresh_and_distinct(last_tag: int, current: int, target: int)
    ensures
        spawned_tags(last_tag, current, target).len() == if current < target {
            target - current
        } else {
            0
        },
        forall|i: int|
            0 <= i < spawned_tags(last_tag, current, target).len() ==> {
                &&& #[trigger] spawned_tags(last_tag, current, target)[i] == last_tag + i
                &&& last_tag <= spawned_tags(last_tag, current, target)[i] < next_last_tag(
                    last_tag,
                    current,
                    target,
                )
            },
        forall|i: int, j: int|
            0 <= i < j < spawned_tags(last_tag, current, target).len() ==> #[trigger] spawned_tags(
                last_tag,
                current,
                target,
            )[i] < #[trigger] spawned_tags(last_tag, current, target)[j],
{
}

/// After a frame, the population has the configured size: what exists,
/// plus what is spawned, minus what is despawned, is the target.
pub proof fn lemma_adjustment_reaches_target(last_tag: int, current: int, target: int)
    ensures
        current + spawned_tags(last_tag, current, target).len() - despawned_count(current, target)
            == target,
{
}

/// The counter after a run of frames: `frames[k]` is the pair of the number
/// of boids found and the number wanted in frame `k`.
pub open spec fn counter_after(start: int, frames: Seq<(int, int)>) -> int
    decreases frames.len(),
{
    if frames.len() == 0 {
        start
    } else {
        let prev = counter_after(start, frames.drop_last());
        next_last_tag(prev, frames.last().0, frames.last().1)
    }
}

/// The tags spawned in frame `k` of a run of frames that starts with the
/// counter at `start`.
pub open spec fn frame_tags(start: int, frames: Seq<(int, int)>, k: int) -> Seq<int> {
    spawned_tags(counter_after(start, frames.take(k)), frames[k].0, frames[k].1)
}

proof fn lemma_counter_grows(start: int, frames: Seq<(int, int)>, j: int, k: int)
    requires
        0 <= j <= k <= frames.len(),
    ensures
        counter_after(start, frames.take(j)) <= counter_after(start, frames.take(k)),
    decreases k - j,
{
    if j < k {
        lemma_counter_grows(start, frames, j, k - 1);
        assert(frames.take(k).drop_last() =~= frames.take(k - 1));
    }
}

proof fn lemma_frame_tags_range(start: int, frames: Seq<(int, int)>, k: int, i: int)
    requires
        0 <= k < frames.len(),
        0 <= i < frame_tags(start, frames, k).len(),
    ensures
        counter_after(start, frames.take(k)) <= frame_tags(start, frames, k)[i],
        frame_tags(start, frames, k)[i] < counter_after(start, frames.take(k + 1)),
{
    assert(frames.take(k + 1).drop_last() =~= frames.take(k));
}

/// Mesh tags are never handed out twice: over any run of frames that starts
/// with the counter at `start` (as it is after the `start` boids of
/// start-up got tags `0..start`), the tags spawned in two different frames
/// differ, and no spawned tag is one of the start-up tags.
pub proof fn lemma_tags_never_repeat(
    start: int,
    frames: Seq<(int, int)>,
    j: int,
    k: int,
    a: int,
    b: int,
)
    requires
        start >= 0,
        0 <= j < k < frames.len(),
        0 <= a < frame_tags(start, frames, j).len(),
        0 <= b < frame_tags(start, frames, k).len(),
    ensures
        frame_tags(start, frames, j)[a] != frame_tags(start, frames, k)[b],
        frame_tags(start, frames, j)[a] >= start,
{
    lemma_frame_tags_range(start, frames, j, a);
    lemma_frame_tags_range(start, frames, k, b);
    lemma_counter_grows(start, frames, j + 1, k);
    lemma_counter_grows(start, frames, 0, j);
    assert(frames.take(0) =~= Seq::<(int, int)>::empty());
}

} // verus!
