//! The frame driver: the transforms of a scene and the set of those in motion.

use crate::mat4::Mat4;
use crate::spring_mat4::{Motion, SpringMat4};
use vstd::prelude::*;

verus! {

/// What a [`Driver`] holds, as mathematical values: the state of every transform, and the
/// indices registered for frame ticks, in the order in which they registered.
pub struct Scene<E> {
    pub transforms: Seq<Motion<E>>,
    pub registered: Seq<int>,
}

/// Of the transforms at `registered`, the indices of those that one frame tick leaves
/// animating, in the same order.
pub open spec fn still_running<E>(transforms: Seq<Motion<E>>, registered: Seq<int>) -> Seq<int>
    decreases registered.len(),
{
    if registered.len() == 0 {
        Seq::empty()
    } else {
        let earlier = still_running(transforms, registered.drop_last());
        if transforms[registered.last()].tick().is_animating {
            earlier.push(registered.last())
        } else {
            earlier
        }
    }
}

/// The completion events that one frame tick of the transforms at `registered` emits, in
/// the order of `registered`.
pub open spec fn fired<E>(transforms: Seq<Motion<E>>, registered: Seq<int>) -> Seq<E>
    decreases registered.len(),
{
    if registered.len() == 0 {
        Seq::empty()
    } else {
        fired(transforms, registered.drop_last()) + transforms[registered.last()].tick_events()
    }
}

impl<E> Scene<E> {
    /// Whether the state is one that a [`Driver`] can be in: every transform is well
    /// formed, no index is registered twice or out of range, and every animating transform
    /// is registered.
    pub open spec fn wf(self) -> bool {
        &&& forall|i: int| 0 <= i < self.transforms.len() ==> (#[trigger] self.transforms[i]).wf()
        &&& forall|k: int|
            0 <= k < self.registered.len() ==> 0 <= #[trigger] self.registered[k]
                < self.transforms.len()
        &&& self.registered.no_duplicates()
        &&& forall|i: int|
            0 <= i < self.transforms.len() && (#[trigger] self.transforms[i]).is_animating
                ==> self.registered.contains(i)
    }

    /// The state after one frame tick: every transform has ticked, and the transforms that
    /// came to rest have left the registered set.
    pub open spec fn tick(self) -> Scene<E> {
        Scene {
            transforms: Seq::new(self.transforms.len(), |i: int| self.transforms[i].tick()),
            registered: still_running(self.transforms, self.registered),
        }
    }

    /// The completion events that one frame tick emits.
    pub open spec fn tick_events(self) -> Seq<E> {
        fired(self.transforms, self.registered)
    }

    /// The state after the transform at `index` was sent toward `target`: it has taken its
    /// first step and is registered, once.
    pub open spec fn spring_to(self, index: int, target: Seq<int>, on_complete: E) -> Scene<E> {
        Scene {
            transforms: self.transforms.update(
                index,
                self.transforms[index].retarget(target, on_complete).tick(),
            ),
            registered: if self.registered.contains(index) {
                self.registered
            } else {
                self.registered.push(index)
            },
        }
    }
}

/// The transforms of a scene, and the set of those registered for frame ticks.
pub struct Driver<E> {
    transforms: Vec<SpringMat4<E>>,
    registered: Vec<usize>,
}

impl<E> View for Driver<E> {
    type V = Scene<E>;

    closed spec fn view(&self) -> Scene<E> {
        Scene {
            transforms: Seq::new(self.transforms@.len(), |i: int| self.transforms@[i]@),
            registered: Seq::new(self.registered@.len(), |k: int| self.registered@[k] as int),
        }
    }
}

/// What one frame tick keeps of the registered set: no index twice, and exactly the
/// registered indices whose transforms are still animating.
pub proof fn lemma_still_running<E>(transforms: Seq<Motion<E>>, registered: Seq<int>)
    requires
        registered.no_duplicates(),
    ensures
        still_running(transforms, registered).no_duplicates(),
        forall|i: int|
            still_running(transforms, registered).contains(i) <==> registered.contains(i)
                && transforms[i].tick().is_animating,
    decreases registered.len(),
{
    let out = still_running(transforms, registered);
    if registered.len() == 0 {
        assert forall|i: int| out.contains(i) <==> registered.contains(i)
            && transforms[i].tick().is_animating by {}
    } else {
        let front = registered.drop_last();
        let last = registered.last();
        let earlier = still_running(transforms, front);
        lemma_still_running(transforms, front);
        assert(!front.contains(last)) by {
            if front.contains(last) {
                let k = choose|k: int| 0 <= k < front.len() && front[k] == last;
                assert(registered[k] == registered[registered.len() - 1]);
            }
        }
        assert forall|i: int| registered.contains(i) <==> front.contains(i) || i == last by {
            if registered.contains(i) {
                let k = choose|k: int| 0 <= k < registered.len() && registered[k] == i;
                if k < front.len() {
                    assert(front[k] == i);
                }
            }
            if front.contains(i) {
                let k = choose|k: int| 0 <= k < front.len() && front[k] == i;
                assert(registered[k] == i);
            }
            if i == last {
                assert(registered[registered.len() - 1] == i);
            }
        }
        if transforms[last].tick().is_animating {
            assert(out == earlier.push(last));
            assert forall|i: int| out.contains(i) <==> earlier.contains(i) || i == last by {
                if out.contains(i) {
                    let k = choose|k: int| 0 <= k < out.len() && out[k] == i;
                    if k < earlier.len() {
                        assert(earlier[k] == i);
                    }
                }
                if earlier.contains(i) {
                    let k = choose|k: int| 0 <= k < earlier.len() && earlier[k] == i;
                    assert(out[k] == i);
                }
                if i == last {
                    assert(out[out.len() - 1] == i);
                }
            }
            assert(out.no_duplicates()) by {
                assert forall|j: int, k: int| 0 <= j < out.len() && 0 <= k < out.len() && j != k
                    implies out[j] != out[k] by {
                    if j < earlier.len() && k < earlier.len() {
                        assert(earlier[j] != earlier[k]);
                    } else if j < earlier.len() {
                        assert(earlier.contains(earlier[j]));
                    } else {
                        assert(earlier.contains(earlier[k]));
                    }
                }
            }
        }
    }
}

impl<E: Copy> Driver<E> {
    /// A driver without transforms.
    pub fn new() -> (r: Driver<E>)
        ensures
            r@.transforms == Seq::<Motion<E>>::empty(),
            r@.registered == Seq::<int>::empty(),
            r@.wf(),
    {
        let r = Driver { transforms: Vec::new(), registered: Vec::new() };
        assert(r@.transforms =~= Seq::<Motion<E>>::empty());
        assert(r@.registered =~= Seq::<int>::empty());
        r
    }

    /// The number of transforms.
    pub fn len(&self) -> (n: usize)
        ensures
            n == self@.transforms.len(),
    {
        self.transforms.len()
    }

    /// The number of transforms registered for frame ticks.
    pub fn registered_len(&self) -> (n: usize)
        ensures
            n == self@.registered.len(),
    {
        self.registered.len()
    }

    /// Whether the transform at `index` is registered for frame ticks.
    pub fn is_registered(&self, index: usize) -> (r: bool)
        ensures
            r == self@.registered.contains(index as int),
    {
        let mut k: usize = 0;
        while k < self.registered.len()
            invariant
                k <= self.registered@.len(),
                forall|j: int| 0 <= j < k ==> self@.registered[j] != index,
            decreases self.registered@.len() - k,
        {
            if self.registered[k] == index {
                assert(self@.registered[k as int] == index);
                return true;
            }
            k = k + 1;
        }
        false
    }

    /// The transform at `index` as it is now, if there is one.
    pub fn current(&self, index: usize) -> (r: Option<Mat4>)
        ensures
            r is Some <==> index < self@.transforms.len(),
            r matches Some(m) ==> m@ == self@.transforms[index as int].current,
    {
        if index < self.transforms.len() {
            Some(self.transforms[index].current())
        } else {
            None
        }
    }

    /// Whether the transform at `index` is in a transition; `None` if there is no such
    /// transform.
    pub fn is_animating(&self, index: usize) -> (r: Option<bool>)
        ensures
            r is Some <==> index < self@.transforms.len(),
            r matches Some(b) ==> b == self@.transforms[index as int].is_animating,
    {
        if index < self.transforms.len() {
            Some(self.transforms[index].is_animating())
        } else {
            None
        }
    }

    /// Adds a transform and returns its index. A transform that is already animating is
    /// registered for frame ticks.
    pub fn add(&mut self, transform: SpringMat4<E>) -> (index: usize)
        requires
            old(self)@.wf(),
            transform@.wf(),
        ensures
            index == old(self)@.transforms.len(),
            final(self)@.transforms == old(self)@.transforms.push(transform@),
            final(self)@.registered == if transform@.is_animating {
                old(self)@.registered.push(index as int)
            } else {
                old(self)@.registered
            },
            final(self)@.wf(),
    {
        let index = self.transforms.len();
        let animating = transform.is_animating();
        self.transforms.push(transform);
        if animating {
            self.registered.push(index);
        }
        proof {
            let before = old(self)@;
            let after = self@;
            assert(after.transforms =~= before.transforms.push(transform@));
            if animating {
                assert(after.registered =~= before.registered.push(index as int));
                assert(after.registered[before.registered.len() as int] == index);
            } else {
                assert(after.registered =~= before.registered);
            }
            assert forall|i: int|
                0 <= i < after.transforms.len() && (#[trigger] after.transforms[i]).is_animating
                implies after.registered.contains(i) by {
                if i < before.transforms.len() {
                    assert(before.transforms[i].is_animating);
                    let k = choose|k: int|
                        0 <= k < before.registered.len() && before.registered[k] == i;
                    assert(after.registered[k] == i);
                }
            }
        }
        index
    }

    /// Sends the transform at `index` toward `target`: it takes its first step at once and
    /// is registered for frame ticks. Returns whether that step already brought it to
    /// rest, or `None`, changing nothing, if there is no such transform.
    pub fn spring_to(
        &mut self,
        index: usize,
        target: Mat4,
        on_complete: E,
        completions: &mut Vec<E>,
    ) -> (done: Option<bool>)
        requires
            old(self)@.wf(),
        ensures
            done is Some <==> index < old(self)@.transforms.len(),
            done is None ==> final(self)@ == old(self)@ && final(completions)@ == old(
                completions,
            )@,
            done matches Some(d) ==> {
                let started = old(self)@.transforms[index as int].retarget(target@, on_complete);
                &&& d == started.tick_done()
                &&& final(self)@ == old(self)@.spring_to(index as int, target@, on_complete)
                &&& final(completions)@ == old(completions)@ + started.tick_events()
            },
            final(self)@.wf(),
    {
        if index >= self.transforms.len() {
            return None;
        }
        let done = self.transforms[index].spring_to(target, on_complete, completions);
        let known = self.is_registered(index);
        if !known {
            self.registered.push(index);
        }
        proof {
            let before = old(self)@;
            let after = self@;
            let goal = before.spring_to(index as int, target@, on_complete);
            assert(after.transforms =~= goal.transforms);
            assert(after.registered =~= goal.registered);
            if !known {
                assert(after.registered[before.registered.len() as int] == index);
            }
            assert forall|i: int|
                0 <= i < after.transforms.len() && (#[trigger] after.transforms[i]).is_animating
                implies after.registered.contains(i) by {
                if i != index {
                    assert(before.transforms[i].is_animating);
                    let k = choose|k: int|
                        0 <= k < before.registered.len() && before.registered[k] == i;
                    assert(after.registered[k] == i);
                } else if known {
                    let k = choose|k: int|
                        0 <= k < before.registered.len() && before.registered[k] == i;
                    assert(after.registered[k] == i);
                }
            }
            assert(after.registered.no_duplicates()) by {
                assert forall|j: int, k: int|
                    0 <= j < after.registered.len() && 0 <= k < after.registered.len() && j != k
                    implies after.registered[j] != after.registered[k] by {
                    if j < before.registered.len() && k < before.registered.len() {
                        assert(before.registered[j] != before.registered[k]);
                    } else if j < before.registered.len() {
                        assert(before.registered.contains(before.registered[j]));
                    } else {
                        assert(before.registered.contains(before.registered[k]));
                    }
                }
            }
        }
        Some(done)
    }

    /// One frame tick: updates every registered transform once, in the order in which they
    /// registered, and removes those that came to rest. Their completion events are
    /// appended to `completions`. Returns the number of transforms still registered.
    pub fn tick(&mut self, completions: &mut Vec<E>) -> (running: usize)
        requires
            old(self)@.wf(),
        ensures
            final(self)@ == old(self)@.tick(),
            final(completions)@ == old(completions)@ + old(self)@.tick_events(),
            running == final(self)@.registered.len(),
            final(self)@.wf(),
    {
        let ghost before = self@;
        let count = self.registered.len();
        let mut kept: Vec<usize> = Vec::new();
        let mut k: usize = 0;
        while k < count
            invariant
                k <= count,
                count == before.registered.len(),
                before.wf(),
                before == old(self)@,
                self@.registered == before.registered,
                self@.transforms.len() == before.transforms.len(),
                forall|i: int|
                    0 <= i < before.transforms.len() ==> #[trigger] self@.transforms[i] == (
                    if before.registered.take(k as int).contains(i) {
                        before.transforms[i].tick()
                    } else {
                        before.transforms[i]
                    }),
                kept@.len() == still_running(
                    before.transforms,
                    before.registered.take(k as int),
                ).len(),
                forall|j: int|
                    0 <= j < kept@.len() ==> #[trigger] kept@[j] == still_running(
                        before.transforms,
                        before.registered.take(k as int),
                    )[j],
                completions@ == old(completions)@ + fired(
                    before.transforms,
                    before.registered.take(k as int),
                ),
            decreases count - k,
        {
            let index = self.registered[k];
            proof {
                let seen = before.registered.take(k as int);
                let next = before.registered.take(k as int + 1);
                assert(next.drop_last() =~= seen);
                assert(next.last() == index);
                assert(before.registered[k as int] == index);
                assert(!seen.contains(index as int)) by {
                    if seen.contains(index as int) {
                        let j = choose|j: int| 0 <= j < seen.len() && seen[j] == index;
                        assert(before.registered[j] == before.registered[k as int]);
                    }
                }
                assert(self@.transforms[index as int] == before.transforms[index as int]);
                assert(before.transforms[index as int].wf());
            }
            let ghost stepping = self.transforms@;
            let ghost mid = self@;
            let done = self.transforms[index].update(completions);
            assert(forall|i: int|
                0 <= i < stepping.len() && i != index ==> self.transforms@[i] == stepping[i]);
            if !done {
                kept.push(index);
            }
            proof {
                let seen = before.registered.take(k as int);
                let next = before.registered.take(k as int + 1);
                assert(completions@ =~= old(completions)@ + fired(before.transforms, next)) by {
                    assert(fired(before.transforms, next) == fired(before.transforms, seen)
                        + before.transforms[index as int].tick_events());
                }
                assert forall|i: int| 0 <= i < before.transforms.len() implies #[trigger] self@.transforms[i]
                    == (if next.contains(i) {
                    before.transforms[i].tick()
                } else {
                    before.transforms[i]
                }) by {
                    assert(mid.transforms[i] == stepping[i]@);
                    assert(self@.transforms[i] == self.transforms@[i]@);
                    if i == index {
                        assert(next[k as int] == i);
                        assert(mid.transforms[i] == before.transforms[i]);
                    } else {
                        assert(self.transforms@[i] == stepping[i]);
                        assert(mid.transforms[i] == (if seen.contains(i) {
                            before.transforms[i].tick()
                        } else {
                            before.transforms[i]
                        }));
                        if next.contains(i) {
                            let j = choose|j: int| 0 <= j < next.len() && next[j] == i;
                            assert(seen[j] == i);
                        }
                        if seen.contains(i) {
                            let j = choose|j: int| 0 <= j < seen.len() && seen[j] == i;
                            assert(next[j] == i);
                        }
                    }
                }
                assert(self@.registered =~= before.registered);
            }
            k = k + 1;
        }
        let running = kept.len();
        self.registered = kept;
        proof {
            let after = self@;
            let goal = before.tick();
            assert(before.registered.take(count as int) =~= before.registered);
            lemma_still_running(before.transforms, before.registered);
            assert(after.registered =~= goal.registered);
            assert(after.transforms =~= goal.transforms) by {
                assert forall|i: int| 0 <= i < before.transforms.len() implies #[trigger] after.transforms[i]
                    == before.transforms[i].tick() by {
                    if !before.registered.contains(i) {
                        assert(!before.transforms[i].is_animating);
                    }
                }
            }
            assert forall|i: int|
                0 <= i < after.transforms.len() && (#[trigger] after.transforms[i]).is_animating
                implies after.registered.contains(i) by {
                assert(before.transforms[i].is_animating);
            }
            assert forall|j: int| 0 <= j < after.registered.len() implies 0
                <= #[trigger] after.registered[j] < after.transforms.len() by {
                let i = after.registered[j];
                assert(goal.registered[j] == i);
                assert(goal.registered.contains(i));
                assert(before.registered.contains(i));
                let m = choose|m: int| 0 <= m < before.registered.len() && before.registered[m] == i;
                assert(0 <= before.registered[m] < before.transforms.len());
            }
        }
        running
    }
}

} // verus!
