//! A 4x4 transform that springs toward a target, one spring per cell.

use crate::fixed::{Fixed, SCALE};
use crate::mat4::{cells_within, identity_cells, representable, zero_cells, Mat4};
use crate::spring::{advance, Spring, GAIN_LIMIT};
use vstd::prelude::*;

verus! {

/// What a [`SpringMat4`] holds, as mathematical values: three matrices of raw cells, the
/// tuning, and whether a transition is under way.
pub struct Motion<E> {
    pub spring: Spring,
    pub target: Seq<int>,
    pub current: Seq<int>,
    pub velocity: Seq<int>,
    pub is_animating: bool,
    pub on_complete: Option<E>,
    pub position_tolerance: int,
    pub velocity_tolerance: int,
}

impl<E> Motion<E> {
    /// Whether the state is one that a [`SpringMat4`] can be in: sixteen representable
    /// cells per matrix, a tuning that describes a spring, a completion event exactly while
    /// animating, and no velocity at rest.
    pub open spec fn wf(self) -> bool {
        &&& self.target.len() == 16
        &&& self.current.len() == 16
        &&& self.velocity.len() == 16
        &&& representable(self.target)
        &&& representable(self.current)
        &&& representable(self.velocity)
        &&& self.spring.wf()
        &&& self.is_animating <==> self.on_complete is Some
        &&& !self.is_animating ==> self.velocity == zero_cells()
    }

    /// Every cell of `current` one spring step nearer its cell of `target`.
    pub open spec fn stepped_current(self) -> Seq<int> {
        Seq::new(16, |i: int| self.spring.step(self.current[i], self.velocity[i], self.target[i]).0)
    }

    /// The velocity of every cell after that step.
    pub open spec fn stepped_velocity(self) -> Seq<int> {
        Seq::new(16, |i: int| self.spring.step(self.current[i], self.velocity[i], self.target[i]).1)
    }

    /// Whether one step brings every cell within the position tolerance of its target and
    /// every velocity within the velocity tolerance of zero.
    pub open spec fn settles(self) -> bool {
        &&& cells_within(self.stepped_current(), self.target, self.position_tolerance)
        &&& cells_within(self.stepped_velocity(), zero_cells(), self.velocity_tolerance)
    }

    /// The state after one frame tick. At rest nothing changes. While animating every cell
    /// takes one spring step; if that settles the transform, it comes to rest: the velocity
    /// is cleared and the completion event leaves.
    pub open spec fn tick(self) -> Motion<E> {
        if !self.is_animating {
            self
        } else if self.settles() {
            Motion {
                current: self.stepped_current(),
                velocity: zero_cells(),
                is_animating: false,
                on_complete: None,
                ..self
            }
        } else {
            Motion {
                current: self.stepped_current(),
                velocity: self.stepped_velocity(),
                ..self
            }
        }
    }

    /// Whether a frame tick reports the transform as done.
    pub open spec fn tick_done(self) -> bool {
        !self.is_animating || self.settles()
    }

    /// The completion events that a frame tick emits: the stored event if this tick brings
    /// the transform to rest, and nothing otherwise.
    pub open spec fn tick_events(self) -> Seq<E> {
        if self.is_animating && self.settles() && self.on_complete is Some {
            seq![self.on_complete->0]
        } else {
            Seq::empty()
        }
    }

    /// The state with a new target and completion event, animating, all else kept: the
    /// velocity in particular.
    pub open spec fn retarget(self, target: Seq<int>, on_complete: E) -> Motion<E> {
        Motion { target, is_animating: true, on_complete: Some(on_complete), ..self }
    }

    /// The state after `ticks` frame ticks.
    pub open spec fn after(self, ticks: nat) -> Motion<E>
        decreases ticks,
    {
        if ticks == 0 {
            self
        } else {
            self.after((ticks - 1) as nat).tick()
        }
    }

    /// The completion events emitted over `ticks` frame ticks, oldest first.
    pub open spec fn events_over(self, ticks: nat) -> Seq<E>
        decreases ticks,
    {
        if ticks == 0 {
            Seq::empty()
        } else {
            self.events_over((ticks - 1) as nat) + self.after((ticks - 1) as nat).tick_events()
        }
    }
}

/// A 4x4 transform that moves toward a target under sixteen independent springs.
#[derive(Debug)]
pub struct SpringMat4<E> {
    spring: Spring,
    target: Mat4,
    current: Mat4,
    velocity: Mat4,
    is_animating: bool,
    on_complete: Option<E>,
    position_tolerance: Fixed,
    velocity_tolerance: Fixed,
}

impl<E> View for SpringMat4<E> {
    type V = Motion<E>;

    closed spec fn view(&self) -> Motion<E> {
        Motion {
            spring: self.spring,
            target: self.target@,
            current: self.current@,
            velocity: self.velocity@,
            is_animating: self.is_animating,
            on_complete: self.on_complete,
            position_tolerance: self.position_tolerance@,
            velocity_tolerance: self.velocity_tolerance@,
        }
    }
}

impl<E: Copy> Default for SpringMat4<E> {
    /// A transform at rest at the identity, with the default spring, a position tolerance
    /// of 1 and a velocity tolerance of 100.
    fn default() -> (r: SpringMat4<E>)
        ensures
            r@.wf(),
            r@.spring.delta_time@ == 279620,
            r@.spring.angular_frequency@ == 20 * SCALE,
            r@.spring.damping_ratio@ == 11744051,
            r@.target == identity_cells(),
            r@.current == identity_cells(),
            r@.velocity == zero_cells(),
            !r@.is_animating,
            r@.on_complete is None,
            r@.position_tolerance == SCALE,
            r@.velocity_tolerance == 100 * SCALE,
    {
        SpringMat4::new(Spring::default(), Mat4::identity())
    }
}

impl<E: Copy> SpringMat4<E> {
    /// A transform at rest at `current`, with a position tolerance of 1 and a velocity
    /// tolerance of 100.
    pub fn new(spring: Spring, current: Mat4) -> (r: SpringMat4<E>)
        requires
            spring.wf(),
        ensures
            r@ == (Motion::<E> {
                spring,
                target: current@,
                current: current@,
                velocity: zero_cells(),
                is_animating: false,
                on_complete: None,
                position_tolerance: SCALE as int,
                velocity_tolerance: 100 * SCALE,
            }),
            r@.wf(),
    {
        proof {
            current.lemma_view();
        }
        SpringMat4 {
            spring,
            target: current,
            current,
            velocity: Mat4::zero(),
            is_animating: false,
            on_complete: None,
            position_tolerance: Fixed { raw: SCALE },
            velocity_tolerance: Fixed { raw: 1677721600 },
        }
    }

    /// The same transform with other tolerances for coming to rest.
    pub fn with_tolerances(self, position_tolerance: Fixed, velocity_tolerance: Fixed) -> (r:
        SpringMat4<E>)
        ensures
            r@ == (Motion {
                position_tolerance: position_tolerance@,
                velocity_tolerance: velocity_tolerance@,
                ..self@
            }),
    {
        SpringMat4 { position_tolerance, velocity_tolerance, ..self }
    }

    /// The transform as it is now.
    pub fn current(&self) -> (m: Mat4)
        ensures
            m@ == self@.current,
    {
        self.current
    }

    /// The transform that this one is moving toward.
    pub fn target(&self) -> (m: Mat4)
        ensures
            m@ == self@.target,
    {
        self.target
    }

    /// The rate of change of every cell, per second.
    pub fn velocity(&self) -> (m: Mat4)
        ensures
            m@ == self@.velocity,
    {
        self.velocity
    }

    /// Whether a transition is under way.
    pub fn is_animating(&self) -> (r: bool)
        ensures
            r == self@.is_animating,
    {
        self.is_animating
    }

    /// Starts a transition toward `target`, or redirects the one under way, and takes the
    /// first step at once. `on_complete` replaces any event still waiting; the velocity is
    /// kept, so a redirected transform turns rather than stops.
    ///
    /// Returns whether that first step already brought the transform to rest, in which case
    /// `on_complete` has been appended to `completions`.
    pub fn spring_to(&mut self, target: Mat4, on_complete: E, completions: &mut Vec<E>) -> (done:
        bool)
        requires
            old(self)@.wf(),
        ensures
            final(self)@ == old(self)@.retarget(target@, on_complete).tick(),
            done == old(self)@.retarget(target@, on_complete).tick_done(),
            final(completions)@ == old(completions)@ + old(self)@.retarget(
                target@,
                on_complete,
            ).tick_events(),
            final(self)@.wf(),
    {
        proof {
            target.lemma_view();
        }
        self.is_animating = true;
        self.target = target;
        self.on_complete = Some(on_complete);
        self.update(completions)
    }

    /// Advances the transform by one frame tick and returns whether it is done.
    ///
    /// At rest this changes nothing and returns `true`. While animating, every cell takes
    /// one spring step; the transform is done when every cell is then within the position
    /// tolerance of its target and every velocity within the velocity tolerance of zero. It
    /// then comes to rest and its completion event is appended to `completions`.
    pub fn update(&mut self, completions: &mut Vec<E>) -> (done: bool)
        requires
            old(self)@.wf(),
        ensures
            final(self)@ == old(self)@.tick(),
            done == old(self)@.tick_done(),
            final(completions)@ == old(completions)@ + old(self)@.tick_events(),
            final(self)@.wf(),
    {
        if !self.is_animating {
            assert(completions@ + Seq::<E>::empty() =~= completions@);
            return true;
        }
        let ghost before = self@;
        let (stiffness, resistance) = self.spring.gains();
        let mut current: [Fixed; 16] = self.current.cells;
        let mut velocity: [Fixed; 16] = self.velocity.cells;
        let mut i: usize = 0;
        while i < 16
            invariant
                i <= 16,
                self@ == before,
                stiffness@ == before.spring.stiffness(),
                resistance == before.spring.resistance(),
                0 <= stiffness@ <= GAIN_LIMIT,
                resistance >= SCALE,
                forall|j: int|
                    0 <= j < i ==> (#[trigger] current[j])@ == before.stepped_current()[j],
                forall|j: int|
                    0 <= j < i ==> (#[trigger] velocity[j])@ == before.stepped_velocity()[j],
            decreases 16 - i,
        {
            let next = advance(
                stiffness,
                resistance,
                self.spring.delta_time,
                self.current.cells[i],
                self.velocity.cells[i],
                self.target.cells[i],
            );
            current[i] = next.0;
            velocity[i] = next.1;
            i = i + 1;
        }
        let stepped = Mat4 { cells: current };
        let speed = Mat4 { cells: velocity };
        assert(stepped@ =~= before.stepped_current());
        assert(speed@ =~= before.stepped_velocity());
        proof {
            stepped.lemma_view();
            speed.lemma_view();
        }
        let zero = Mat4::zero();
        let done = stepped.abs_diff_eq(&self.target, self.position_tolerance) && speed.abs_diff_eq(
            &zero,
            self.velocity_tolerance,
        );
        self.current = stepped;
        if done {
            self.velocity = zero;
            self.is_animating = false;
            match self.on_complete {
                Some(event) => {
                    completions.push(event);
                },
                None => {},
            }
            self.on_complete = None;
            assert(completions@ =~= old(completions)@ + before.tick_events());
        } else {
            self.velocity = speed;
            assert(completions@ + Seq::<E>::empty() =~= completions@);
        }
        done
    }
}

/// A frame tick keeps a state well formed.
pub proof fn lemma_tick_wf<E>(motion: Motion<E>)
    requires
        motion.wf(),
    ensures
        motion.tick().wf(),
{
}

/// Frame ticks change neither the tuning of the spring, nor the tolerances, nor the target.
pub proof fn lemma_ticks_keep_the_tuning<E>(motion: Motion<E>, ticks: nat)
    ensures
        motion.after(ticks).spring == motion.spring,
        motion.after(ticks).target == motion.target,
        motion.after(ticks).position_tolerance == motion.position_tolerance,
        motion.after(ticks).velocity_tolerance == motion.velocity_tolerance,
    decreases ticks,
{
    if ticks > 0 {
        lemma_ticks_keep_the_tuning(motion, (ticks - 1) as nat);
    }
}

/// A transform at rest stays as it is: whatever the number of frame ticks, its state does
/// not change and no completion event is emitted.
pub proof fn lemma_rest_is_stable<E>(motion: Motion<E>, ticks: nat)
    requires
        !motion.is_animating,
    ensures
        motion.after(ticks) == motion,
        motion.events_over(ticks) == Seq::<E>::empty(),
    decreases ticks,
{
    if ticks > 0 {
        lemma_rest_is_stable(motion, (ticks - 1) as nat);
        assert(motion.events_over(ticks) =~= Seq::<E>::empty());
    }
}

/// Done is final: when a frame tick reports a transform as done, every tick after it
/// reports done again, leaves `current` and `velocity` as they are and emits nothing. If the
/// transform was animating, `current` is then within the position tolerance of `target`.
pub proof fn lemma_done_is_final<E>(motion: Motion<E>, ticks: nat)
    requires
        motion.wf(),
        motion.tick_done(),
    ensures
        motion.tick().tick_done(),
        motion.tick().after(ticks) == motion.tick(),
        motion.tick().events_over(ticks) == Seq::<E>::empty(),
        motion.tick().velocity == zero_cells(),
        motion.is_animating ==> cells_within(
            motion.tick().current,
            motion.tick().target,
            motion.position_tolerance,
        ),
{
    lemma_rest_is_stable(motion.tick(), ticks);
}

/// The completion event fires once: over any number of frame ticks after a transition
/// began, nothing has been emitted while the transform is still animating, and exactly the
/// one event of that transition has been emitted once it is at rest.
pub proof fn lemma_completion_fires_once<E>(motion: Motion<E>, ticks: nat)
    requires
        motion.wf(),
        motion.is_animating,
    ensures
        motion.after(ticks).wf(),
        motion.after(ticks).is_animating ==> motion.events_over(ticks) == Seq::<E>::empty()
            && motion.after(ticks).on_complete == motion.on_complete,
        !motion.after(ticks).is_animating ==> motion.events_over(ticks) == seq![
            motion.on_complete->0,
        ],
    decreases ticks,
{
    if ticks > 0 {
        let earlier = motion.after((ticks - 1) as nat);
        lemma_completion_fires_once(motion, (ticks - 1) as nat);
        if earlier.is_animating {
            if earlier.settles() {
                assert(motion.events_over(ticks) =~= seq![motion.on_complete->0]);
            } else {
                assert(motion.events_over(ticks) =~= Seq::<E>::empty());
            }
        } else {
            assert(motion.events_over(ticks) =~= seq![motion.on_complete->0]);
        }
    }
}

/// Ticking first and then `ticks` more times is ticking `ticks + 1` times.
pub proof fn lemma_after_tick<E>(motion: Motion<E>, ticks: nat)
    ensures
        motion.tick().after(ticks) == motion.after(ticks + 1),
        motion.tick_events() + motion.tick().events_over(ticks) == motion.events_over(ticks + 1),
    decreases ticks,
{
    if ticks == 0 {
        assert(motion.after(1) == motion.after(0).tick());
        assert(motion.events_over(1) == motion.events_over(0) + motion.after(0).tick_events());
        assert(motion.tick_events() + Seq::<E>::empty() =~= Seq::<E>::empty()
            + motion.tick_events());
    } else {
        lemma_after_tick(motion, (ticks - 1) as nat);
        let tail = motion.tick().after((ticks - 1) as nat).tick_events();
        assert(motion.tick_events() + (motion.tick().events_over((ticks - 1) as nat) + tail)
            =~= (motion.tick_events() + motion.tick().events_over((ticks - 1) as nat)) + tail);
    }
}

} // verus!
