//! A damped spring for one scalar, advanced by one fixed time step per call.

use crate::fixed::{
    div_toward_zero, lemma_div_away_from_zero, lemma_div_toward_zero, lemma_product_bounds,
    magnitude, mul_away_from_zero, mul_toward_zero, narrow, saturate, wide_div_away_from_zero,
    wide_div_toward_zero, wide_product, Fixed, SCALE,
};
use vstd::arithmetic::div_mod::lemma_div_is_ordered;
use vstd::prelude::*;

verus! {

/// The tuning of a spring.
///
/// `delta_time` is the length of one step in seconds, `angular_frequency` the stiffness in
/// radians per second, and `damping_ratio` the damping: 0 is undamped, 1 is critical, and
/// more than 1 is overdamped.
#[derive(Clone, Copy, Debug, PartialEq, Eq, Structural)]
pub struct Spring {
    pub delta_time: Fixed,
    pub angular_frequency: Fixed,
    pub damping_ratio: Fixed,
}

/// The largest stiffness gain, as a raw value.
pub const GAIN_LIMIT: i64 = 0x4000_0000_0000_0000;

/// The angle `angular_frequency * delta_time` that one step covers, rounded toward zero.
pub open spec fn phase_step_low(angular_frequency: int, delta_time: int) -> int {
    mul_toward_zero(angular_frequency, delta_time)
}

/// The angle `angular_frequency * delta_time` that one step covers, rounded away from zero.
pub open spec fn phase_step_high(angular_frequency: int, delta_time: int) -> int {
    mul_away_from_zero(angular_frequency, delta_time)
}

/// The share `angular_frequency^2 * delta_time` of the distance to the target that pulls
/// on the velocity in one step. Rounded toward zero and held to [`GAIN_LIMIT`]: rounding
/// never makes the spring stiffer.
pub open spec fn stiffness_gain(delta_time: int, angular_frequency: int) -> int {
    let exact = mul_toward_zero(phase_step_low(angular_frequency, delta_time), angular_frequency);
    if exact > GAIN_LIMIT {
        GAIN_LIMIT as int
    } else {
        exact
    }
}

/// What the velocity is divided by in one step: one, plus
/// `2 * damping_ratio * angular_frequency * delta_time` for the damping, plus
/// `(angular_frequency * delta_time)^2` for the stiffness, as a raw value. Each part is
/// rounded away from zero: rounding never makes the spring livelier.
pub open spec fn resistance(delta_time: int, angular_frequency: int, damping_ratio: int) -> int {
    let high = phase_step_high(angular_frequency, delta_time);
    SCALE + 2 * mul_away_from_zero(damping_ratio, high) + mul_away_from_zero(high, high)
}

/// One step of the spring on raw values, as (position, velocity).
///
/// The acceleration is the pull toward the target, `angular_frequency^2` times the
/// distance, less the drag, `2 * damping_ratio * angular_frequency` times the velocity,
/// both taken at the end of the step. So the new velocity is the old one plus the pull of
/// the distance at the start, divided by the resistance; then the position moves by the
/// new velocity over one time step. Both are rounded toward zero and saturated.
pub open spec fn spring_step(
    stiffness: int,
    resistance: int,
    delta_time: int,
    position: int,
    velocity: int,
    target: int,
) -> (int, int) {
    let pull = velocity * SCALE + stiffness * (target - position);
    let next_velocity = saturate(div_toward_zero(pull, resistance));
    let next_position = saturate(position + mul_toward_zero(delta_time, next_velocity));
    (next_position, next_velocity)
}

/// The length of one frame at `frames_per_second`, in seconds; `None` exactly when the rate
/// is zero.
pub fn fps(frames_per_second: u32) -> (r: Option<Fixed>)
    ensures
        frames_per_second == 0 <==> r is None,
        r matches Some(dt) ==> dt@ == (SCALE as int) / (frames_per_second as int),
{
    if frames_per_second == 0 {
        None
    } else {
        Some(Fixed { raw: SCALE / (frames_per_second as i64) })
    }
}

/// One step of a spring with the given gains.
pub fn advance(
    stiffness: Fixed,
    resistance: i128,
    delta_time: Fixed,
    position: Fixed,
    velocity: Fixed,
    target: Fixed,
) -> (next: (Fixed, Fixed))
    requires
        -GAIN_LIMIT <= stiffness@ <= GAIN_LIMIT,
        resistance > 0,
    ensures
        (next.0@, next.1@) == spring_step(
            stiffness@,
            resistance as int,
            delta_time@,
            position@,
            velocity@,
            target@,
        ),
{
    let distance: i128 = target.raw as i128 - position.raw as i128;
    assert(-0x4000_0000_0000_0000_0000_0000_0000_0000 <= stiffness@ * (distance as int)
        <= 0x4000_0000_0000_0000_0000_0000_0000_0000) by (nonlinear_arith)
        requires
            -0x4000_0000_0000_0000 <= stiffness@ <= 0x4000_0000_0000_0000,
            -0x1_0000_0000_0000_0000 <= distance as int <= 0x1_0000_0000_0000_0000,
    ;
    assert(-0x80_0000_0000_0000_0000_0000 <= velocity@ * SCALE <= 0x80_0000_0000_0000_0000_0000)
        by (nonlinear_arith)
        requires
            -0x8000_0000_0000_0000 <= velocity@ <= 0x7fff_ffff_ffff_ffff,
            SCALE == 16777216,
    ;
    let pull: i128 = (velocity.raw as i128) * (SCALE as i128) + (stiffness.raw as i128) * distance;
    let next_velocity = narrow(pull / resistance);
    proof {
        lemma_product_bounds(delta_time@, next_velocity@);
        lemma_div_toward_zero(delta_time@ * next_velocity@, SCALE as int);
    }
    let moved: i128 = wide_div_toward_zero(wide_product(delta_time.raw, next_velocity.raw), SCALE);
    let next_position = narrow(position.raw as i128 + moved);
    (next_position, next_velocity)
}

impl Default for Spring {
    /// Sixty steps per second, an angular frequency of 20 and a damping ratio of 0.7.
    fn default() -> (r: Spring)
        ensures
            r.delta_time@ == 279620,
            r.angular_frequency@ == 20 * SCALE,
            r.damping_ratio@ == 11744051,
            r.wf(),
    {
        let r = Spring {
            delta_time: Fixed { raw: 279620 },
            angular_frequency: Fixed { raw: 335544320 },
            damping_ratio: Fixed { raw: 11744051 },
        };
        proof {
            lemma_product_bounds(r.angular_frequency@, r.delta_time@);
            lemma_div_away_from_zero(r.angular_frequency@ * r.delta_time@, SCALE as int);
        }
        r
    }
}

impl Spring {
    /// Whether the tuning describes a spring: a positive time step, a positive angular
    /// frequency, a damping ratio that is not negative, and an angle per step that is
    /// representable.
    pub open spec fn wf(&self) -> bool {
        &&& self.delta_time@ > 0
        &&& self.angular_frequency@ > 0
        &&& self.damping_ratio@ >= 0
        &&& phase_step_high(self.angular_frequency@, self.delta_time@) <= i64::MAX
    }

    /// The stiffness gain of this spring.
    pub open spec fn stiffness(&self) -> int {
        stiffness_gain(self.delta_time@, self.angular_frequency@)
    }

    /// The resistance of this spring.
    pub open spec fn resistance(&self) -> int {
        resistance(self.delta_time@, self.angular_frequency@, self.damping_ratio@)
    }

    /// One step of this spring on raw values, as (position, velocity).
    pub open spec fn step(&self, position: int, velocity: int, target: int) -> (int, int) {
        spring_step(
            self.stiffness(),
            self.resistance(),
            self.delta_time@,
            position,
            velocity,
            target,
        )
    }

    /// Whether the spring is strong enough to move a scalar at rest that is more than
    /// `slack` raw units from its target: the displacement of one step is then at least one
    /// raw unit.
    pub open spec fn moves_beyond(&self, slack: int) -> bool {
        mul_toward_zero(
            self.delta_time@,
            div_toward_zero(self.stiffness() * (slack + 1), self.resistance()),
        ) >= 1
    }

    /// A spring with the given tuning; `None` exactly when the tuning describes no spring.
    pub fn new(delta_time: Fixed, angular_frequency: Fixed, damping_ratio: Fixed) -> (r: Option<
        Spring,
    >)
        ensures
            r is Some <==> (Spring { delta_time, angular_frequency, damping_ratio }).wf(),
            r matches Some(s) ==> s == (Spring { delta_time, angular_frequency, damping_ratio }),
    {
        if delta_time.raw > 0 && angular_frequency.raw > 0 && damping_ratio.raw >= 0 {
            let high = wide_div_away_from_zero(
                wide_product(angular_frequency.raw, delta_time.raw),
                SCALE,
            );
            if high <= i64::MAX as i128 {
                return Some(Spring { delta_time, angular_frequency, damping_ratio });
            }
        }
        None
    }

    /// The stiffness gain and the resistance of this spring.
    pub fn gains(&self) -> (r: (Fixed, i128))
        requires
            self.wf(),
        ensures
            r.0@ == self.stiffness(),
            r.1 == self.resistance(),
            0 <= r.0@ <= GAIN_LIMIT,
            r.1 >= SCALE,
    {
        let w = self.angular_frequency;
        let exact: i128 = wide_product(w.raw, self.delta_time.raw);
        proof {
            lemma_product_bounds(w@, self.delta_time@);
            assert(w@ * self.delta_time@ >= 0) by (nonlinear_arith)
                requires
                    w@ > 0,
                    self.delta_time@ > 0,
            ;
            lemma_div_toward_zero(w@ * self.delta_time@, SCALE as int);
            lemma_div_away_from_zero(w@ * self.delta_time@, SCALE as int);
        }
        let low: i128 = wide_div_toward_zero(exact, SCALE);
        let high: i128 = wide_div_away_from_zero(exact, SCALE);
        assert(0 <= low <= high <= i64::MAX);
        proof {
            lemma_product_bounds(low as int, w@);
            assert(low * w@ >= 0) by (nonlinear_arith)
                requires
                    low >= 0,
                    w@ > 0,
            ;
            lemma_div_toward_zero(low * w@, SCALE as int);
            lemma_product_bounds(self.damping_ratio@, high as int);
            assert(self.damping_ratio@ * high >= 0) by (nonlinear_arith)
                requires
                    self.damping_ratio@ >= 0,
                    high >= 0,
            ;
            lemma_div_away_from_zero(self.damping_ratio@ * high, SCALE as int);
            lemma_product_bounds(high as int, high as int);
            assert(high * high >= 0) by (nonlinear_arith);
            lemma_div_away_from_zero(high * high, SCALE as int);
        }
        let pull: i128 = wide_div_toward_zero(wide_product(low as i64, w.raw), SCALE);
        let stiffness = if pull > GAIN_LIMIT as i128 {
            Fixed { raw: GAIN_LIMIT }
        } else {
            Fixed { raw: pull as i64 }
        };
        let drag: i128 = wide_div_away_from_zero(
            wide_product(self.damping_ratio.raw, high as i64),
            SCALE,
        );
        let hold: i128 = wide_div_away_from_zero(wide_product(high as i64, high as i64), SCALE);
        (stiffness, SCALE as i128 + 2 * drag + hold)
    }

    /// Advances one scalar by one time step and returns its new (position, velocity).
    ///
    /// Every state gives a result: a velocity or position that would leave the representable
    /// range stops at its end.
    pub fn update(&self, position: Fixed, velocity: Fixed, target: Fixed) -> (next: (Fixed, Fixed))
        requires
            self.wf(),
        ensures
            (next.0@, next.1@) == self.step(position@, velocity@, target@),
    {
        let (stiffness, resistance) = self.gains();
        advance(stiffness, resistance, self.delta_time, position, velocity, target)
    }
}

/// A step never leaves the representable range: whatever the state and the target, the next
/// position and velocity are raw values that a [`Fixed`] can hold.
pub proof fn lemma_step_is_representable(spring: Spring, position: int, velocity: int, target: int)
    ensures
        i64::MIN <= spring.step(position, velocity, target).0 <= i64::MAX,
        i64::MIN <= spring.step(position, velocity, target).1 <= i64::MAX,
{
}

/// Whether a scalar at `position` with `velocity` is moving toward `target` no faster than
/// `angular_frequency` times its distance. A scalar at rest always is.
pub open spec fn approaching(angular_frequency: int, position: int, velocity: int, target: int) -> bool {
    &&& position >= target ==> velocity <= 0 && (SCALE as int) * (-velocity) <= angular_frequency
        * (position - target)
    &&& position <= target ==> velocity >= 0 && (SCALE as int) * velocity <= angular_frequency * (
        target - position)
}

/// The state of a scalar that starts at rest at `start` and is advanced `steps` times toward
/// `target`, as (position, velocity).
pub open spec fn trajectory(spring: Spring, start: int, target: int, steps: nat) -> (int, int)
    decreases steps,
{
    if steps == 0 {
        (start, 0)
    } else {
        let before = trajectory(spring, start, target, (steps - 1) as nat);
        spring.step(before.0, before.1, target)
    }
}

/// The arithmetic behind one step toward the target: with distance `e`, speed `u` toward
/// the target, new speed `u2` and displacement `p`, under a stiffness gain `k1` and a
/// resistance `r` made of the angle per step `hu`, the damping `kz` and the hold `hh`.
proof fn lemma_approach_arithmetic(
    s: int,
    w: int,
    dt: int,
    k1: int,
    hu: int,
    kz: int,
    hh: int,
    r: int,
    e: int,
    u: int,
    u2: int,
    p: int,
)
    requires
        s > 0,
        w >= 0,
        dt >= 0,
        e >= 0,
        u >= 0,
        s * u <= w * e,
        k1 >= 0,
        dt * w <= hu * s,
        k1 * s <= hu * w,
        kz >= hu >= 0,
        hh * s >= hu * hu,
        r == s + 2 * kz + hh,
        0 <= u2,
        u2 * r <= u * s + k1 * e,
        0 <= p,
        p * s <= dt * u2,
    ensures
        p <= e,
        s * u2 <= w * (e - p),
{
    let a = w * e;
    assert(a >= 0 && k1 * e >= 0 && hh >= 0 && r > 0) by (nonlinear_arith)
        requires
            a == w * e,
            w >= 0,
            e >= 0,
            k1 >= 0,
            hh * s >= hu * hu,
            s > 0,
            kz >= 0,
            r == s + 2 * kz + hh,
    ;
    // The new speed against the distance.
    assert(u2 * r <= (w + k1) * e) by (nonlinear_arith)
        requires
            u2 * r <= u * s + k1 * e,
            s * u <= w * e,
    ;
    // One time step of the pull is no more than the resistance.
    assert(dt * k1 <= hh * s) by (nonlinear_arith)
        requires
            k1 * s <= hu * w,
            dt * w <= hu * s,
            hh * s >= hu * hu,
            s > 0,
            dt >= 0,
            hu >= 0,
            k1 >= 0,
    {
        assert(dt * (k1 * s) <= dt * (hu * w));
        assert(dt * (hu * w) == hu * (dt * w));
        assert(hu * (dt * w) <= hu * (hu * s));
        assert((dt * k1) * s <= (hu * hu) * s);
    }
    assert(dt * (w + k1) <= s * r) by (nonlinear_arith)
        requires
            dt * w <= hu * s,
            dt * k1 <= hh * s,
            kz >= hu,
            r == s + 2 * kz + hh,
            s > 0,
            hh >= 0,
            kz >= 0,
    {
        assert(hu * s <= kz * s);
        assert(dt * (w + k1) == dt * w + dt * k1);
        assert(s * r == s * s + 2 * (kz * s) + hh * s);
    }
    // The displacement does not pass the target.
    assert((s * r) * p <= (s * r) * e) by (nonlinear_arith)
        requires
            p * s <= dt * u2,
            u2 * r <= (w + k1) * e,
            dt * (w + k1) <= s * r,
            dt >= 0,
            r > 0,
            e >= 0,
    {
        assert((s * r) * p == r * (p * s));
        assert(r * (p * s) <= r * (dt * u2));
        assert(r * (dt * u2) == dt * (u2 * r));
        assert(dt * (u2 * r) <= dt * ((w + k1) * e));
        assert(dt * ((w + k1) * e) == (dt * (w + k1)) * e);
        assert((dt * (w + k1)) * e <= (s * r) * e);
    }
    assert(p <= e) by (nonlinear_arith)
        requires
            (s * r) * p <= (s * r) * e,
            s > 0,
            r > 0,
    {
        assert(s * r > 0);
    }
    // The new speed is within the bound at the new distance.
    assert(w * p <= hu * u2) by (nonlinear_arith)
        requires
            p * s <= dt * u2,
            dt * w <= hu * s,
            w >= 0,
            u2 >= 0,
            s > 0,
    {
        assert(w * (p * s) <= w * (dt * u2));
        assert(w * (dt * u2) == (dt * w) * u2);
        assert((dt * w) * u2 <= (hu * s) * u2);
        assert((w * p) * s <= (hu * u2) * s);
    }
    assert((s + hu) * (w + k1) <= w * r) by (nonlinear_arith)
        requires
            k1 * s <= hu * w,
            kz >= hu >= 0,
            hh * s >= hu * hu,
            r == s + 2 * kz + hh,
            w >= 0,
            k1 >= 0,
            s > 0,
    {
        assert(hu * w <= kz * w);
        assert(hu * (k1 * s) <= hu * (hu * w));
        assert((hu * hu) * w <= (hh * s) * w);
        assert((hu * k1) * s <= (hh * w) * s);
        assert(hu * k1 <= hh * w);
        assert((s + hu) * (w + k1) == s * w + k1 * s + hu * w + hu * k1);
        assert(w * r == s * w + 2 * (kz * w) + hh * w);
    }
    assert((s + hu) * u2 <= a) by (nonlinear_arith)
        requires
            u2 * r <= (w + k1) * e,
            (s + hu) * (w + k1) <= w * r,
            a == w * e,
            s > 0,
            hu >= 0,
            e >= 0,
            r > 0,
            u2 >= 0,
    {
        assert((s + hu) * (u2 * r) <= (s + hu) * ((w + k1) * e));
        assert((s + hu) * ((w + k1) * e) == ((s + hu) * (w + k1)) * e);
        assert(((s + hu) * (w + k1)) * e <= (w * r) * e);
        assert(((s + hu) * u2) * r <= a * r);
    }
    assert(s * u2 <= w * (e - p)) by (nonlinear_arith)
        requires
            (s + hu) * u2 <= a,
            w * p <= hu * u2,
            a == w * e,
    ;
}

/// What the gains of a spring are worth against the exact products that they round.
pub proof fn lemma_gains(spring: Spring)
    requires
        spring.wf(),
    ensures
        ({
            let s = SCALE as int;
            let w = spring.angular_frequency@;
            let dt = spring.delta_time@;
            let hu = phase_step_high(w, dt);
            let kz = mul_away_from_zero(spring.damping_ratio@, hu);
            let hh = mul_away_from_zero(hu, hu);
            &&& 0 <= spring.stiffness() <= GAIN_LIMIT
            &&& dt * w <= hu * s
            &&& spring.stiffness() * s <= hu * w
            &&& 0 <= hu <= i64::MAX
            &&& kz >= 0
            &&& spring.damping_ratio@ >= s ==> kz >= hu
            &&& hh * s >= hu * hu
            &&& hh >= 0
            &&& dt * spring.stiffness() <= hh * s
            &&& spring.resistance() == s + 2 * kz + hh
            &&& spring.resistance() >= s
        }),
{
    let s = SCALE as int;
    let w = spring.angular_frequency@;
    let dt = spring.delta_time@;
    let z = spring.damping_ratio@;
    let exact = w * dt;
    assert(exact >= 0 && dt * w == exact) by (nonlinear_arith)
        requires
            exact == w * dt,
            w > 0,
            dt > 0,
    ;
    lemma_div_toward_zero(exact, s);
    lemma_div_away_from_zero(exact, s);
    let hl = phase_step_low(w, dt);
    let hu = phase_step_high(w, dt);
    assert(0 <= hl <= hu);
    assert(hl * w >= 0 && hl * w <= hu * w) by (nonlinear_arith)
        requires
            0 <= hl <= hu,
            w > 0,
    ;
    lemma_div_toward_zero(hl * w, s);
    assert(z * hu >= 0) by (nonlinear_arith)
        requires
            z >= 0,
            hu >= 0,
    ;
    lemma_div_away_from_zero(z * hu, s);
    let kz = mul_away_from_zero(z, hu);
    if z >= s {
        assert(kz >= hu) by (nonlinear_arith)
            requires
                kz * s >= z * hu,
                z >= s,
                s > 0,
                hu >= 0,
        {
            assert(z * hu >= s * hu);
        }
    }
    assert(hu * hu >= 0) by (nonlinear_arith);
    lemma_div_away_from_zero(hu * hu, s);
    let k1 = spring.stiffness();
    let hh = mul_away_from_zero(hu, hu);
    assert(dt * k1 <= hh * s) by (nonlinear_arith)
        requires
            k1 * s <= hu * w,
            dt * w <= hu * s,
            hh * s >= hu * hu,
            s > 0,
            dt >= 0,
            hu >= 0,
            k1 >= 0,
    {
        assert(dt * (k1 * s) <= dt * (hu * w));
        assert(dt * (hu * w) == hu * (dt * w));
        assert(hu * (dt * w) <= hu * (hu * s));
        assert((dt * k1) * s <= (hu * hu) * s);
    }
}

/// One step of an overdamped spring from a state that approaches the target gives a state
/// that still approaches it, no farther from the target and on the same side.
pub proof fn lemma_step_approaches(spring: Spring, position: Fixed, velocity: Fixed, target: Fixed)
    requires
        spring.wf(),
        spring.damping_ratio@ >= SCALE,
        approaching(spring.angular_frequency@, position@, velocity@, target@),
    ensures
        ({
            let next = spring.step(position@, velocity@, target@);
            &&& approaching(spring.angular_frequency@, next.0, next.1, target@)
            &&& position@ >= target@ ==> target@ <= next.0 <= position@
            &&& position@ <= target@ ==> position@ <= next.0 <= target@
        }),
{
    let s = SCALE as int;
    let w = spring.angular_frequency@;
    let dt = spring.delta_time@;
    let k1 = spring.stiffness();
    let r = spring.resistance();
    let hu = phase_step_high(w, dt);
    let kz = mul_away_from_zero(spring.damping_ratio@, hu);
    let hh = mul_away_from_zero(hu, hu);
    let x = position@;
    let v = velocity@;
    let t = target@;
    lemma_gains(spring);
    let pull = v * s + k1 * (t - x);
    let v2 = saturate(div_toward_zero(pull, r));
    let moved = mul_toward_zero(dt, v2);
    let next = spring.step(x, v, t);
    assert(next == (saturate(x + moved), v2));
    lemma_div_toward_zero(pull, r);
    lemma_div_toward_zero(dt * v2, s);
    let e = magnitude(x - t);
    let u = magnitude(v);
    let u2 = magnitude(v2);
    let p = magnitude(moved);
    assert(k1 * e >= 0 && u * s >= 0) by (nonlinear_arith)
        requires
            k1 >= 0,
            e >= 0,
            u >= 0,
            s > 0,
    ;
    if x >= t {
        assert(pull == -(u * s + k1 * e)) by (nonlinear_arith)
            requires
                pull == v * s + k1 * (t - x),
                u == -v,
                e == x - t,
        ;
        assert(u2 * r <= u * s + k1 * e) by (nonlinear_arith)
            requires
                0 >= div_toward_zero(pull, r) * r >= pull,
                pull == -(u * s + k1 * e),
                0 <= u2 <= -div_toward_zero(pull, r),
                r > 0,
        {
            assert(u2 * r <= (-div_toward_zero(pull, r)) * r);
        }
        assert(dt * v2 == -(dt * u2) && dt * u2 >= 0) by (nonlinear_arith)
            requires
                u2 == -v2,
                u2 >= 0,
                dt > 0,
        ;
        assert(p * s == -(moved * s)) by (nonlinear_arith)
            requires
                p == -moved,
        ;
    } else {
        assert(pull == u * s + k1 * e) by (nonlinear_arith)
            requires
                pull == v * s + k1 * (t - x),
                u == v,
                e == t - x,
        ;
        assert(u2 * r <= u * s + k1 * e) by (nonlinear_arith)
            requires
                0 <= div_toward_zero(pull, r) * r <= pull,
                pull == u * s + k1 * e,
                0 <= u2 <= div_toward_zero(pull, r),
                r > 0,
        {
            assert(u2 * r <= div_toward_zero(pull, r) * r);
        }
        assert(dt * u2 >= 0) by (nonlinear_arith)
            requires
                u2 >= 0,
                dt > 0,
        ;
    }
    lemma_approach_arithmetic(s, w, dt, k1, hu, kz, hh, r, e, u, u2, p);
    assert(w * (e - p) == 0 ==> u2 == 0) by (nonlinear_arith)
        requires
            s * u2 <= w * (e - p),
            u2 >= 0,
            s > 0,
    ;
    assert(e - p == 0 ==> w * (e - p) == 0) by (nonlinear_arith);
}

/// An overdamped spring never overshoots: started at rest, a scalar moves toward its target
/// at every step, never away from it and never past it. This holds for every spring whose
/// damping ratio is at least one.
pub proof fn lemma_overdamped_never_overshoots(
    spring: Spring,
    start: Fixed,
    target: Fixed,
    steps: nat,
)
    requires
        spring.wf(),
        spring.damping_ratio@ >= SCALE,
    ensures
        ({
            let before = trajectory(spring, start@, target@, steps);
            let after = trajectory(spring, start@, target@, steps + 1);
            &&& start@ >= target@ ==> target@ <= after.0 <= before.0 <= start@
            &&& start@ <= target@ ==> start@ <= before.0 <= after.0 <= target@
            &&& approaching(spring.angular_frequency@, after.0, after.1, target@)
        }),
    decreases steps,
{
    let w = spring.angular_frequency@;
    assert(w * (start@ - target@) >= 0 <== start@ >= target@) by (nonlinear_arith)
        requires
            w > 0,
    ;
    assert(w * (target@ - start@) >= 0 <== start@ <= target@) by (nonlinear_arith)
        requires
            w > 0,
    ;
    if steps == 0 {
        assert(trajectory(spring, start@, target@, 0) == (start@, 0int));
        assert(trajectory(spring, start@, target@, 1) == spring.step(start@, 0, target@)) by {
            reveal_with_fuel(trajectory, 2);
        }
        lemma_step_approaches(spring, start, Fixed { raw: 0 }, target);
    } else {
        lemma_overdamped_never_overshoots(spring, start, target, (steps - 1) as nat);
        let before = trajectory(spring, start@, target@, steps);
        assert(i64::MIN <= before.0 <= i64::MAX);
        assert(i64::MIN <= before.1 <= i64::MAX);
        lemma_step_approaches(
            spring,
            Fixed { raw: before.0 as i64 },
            Fixed { raw: before.1 as i64 },
            target,
        );
    }
}

/// One step of an overdamped spring brings a scalar that approaches its target from more
/// than `slack` away at least one raw unit nearer, if the spring moves beyond `slack`.
pub proof fn lemma_step_advances(
    spring: Spring,
    position: Fixed,
    velocity: Fixed,
    target: Fixed,
    slack: int,
)
    requires
        spring.wf(),
        spring.damping_ratio@ >= SCALE,
        approaching(spring.angular_frequency@, position@, velocity@, target@),
        slack >= 0,
        spring.moves_beyond(slack),
        magnitude(position@ - target@) > slack,
    ensures
        magnitude(spring.step(position@, velocity@, target@).0 - target@) < magnitude(
            position@ - target@,
        ),
{
    let s = SCALE as int;
    let dt = spring.delta_time@;
    let k1 = spring.stiffness();
    let r = spring.resistance();
    let x = position@;
    let v = velocity@;
    let t = target@;
    lemma_gains(spring);
    lemma_step_approaches(spring, position, velocity, target);
    let pull = v * s + k1 * (t - x);
    let v2 = saturate(div_toward_zero(pull, r));
    let moved = mul_toward_zero(dt, v2);
    let next = spring.step(x, v, t);
    assert(next == (saturate(x + moved), v2));
    lemma_div_toward_zero(pull, r);
    lemma_div_toward_zero(dt * v2, s);
    let e = magnitude(x - t);
    let u = magnitude(v);
    let u2 = magnitude(v2);
    let p = magnitude(moved);
    let least = div_toward_zero(k1 * (slack + 1), r);
    assert(0 <= k1 * (slack + 1) <= k1 * e && u * s >= 0) by (nonlinear_arith)
        requires
            k1 >= 0,
            0 <= slack + 1 <= e,
            u >= 0,
            s > 0,
    ;
    lemma_div_toward_zero(k1 * (slack + 1), r);
    assert(least >= 0);
    assert(dt * least >= 0) by (nonlinear_arith)
        requires
            dt > 0,
            least >= 0,
    ;
    assert(dt * least >= s) by {
        lemma_div_toward_zero(dt * least, s);
    }
    if x >= t {
        assert(pull == -(u * s + k1 * e)) by (nonlinear_arith)
            requires
                pull == v * s + k1 * (t - x),
                u == -v,
                e == x - t,
        ;
        lemma_div_is_ordered(k1 * (slack + 1), -pull, r);
    } else {
        assert(pull == u * s + k1 * e) by (nonlinear_arith)
            requires
                pull == v * s + k1 * (t - x),
                u == v,
                e == t - x,
        ;
        lemma_div_is_ordered(k1 * (slack + 1), pull, r);
    }
    assert(magnitude(div_toward_zero(pull, r)) >= least);
    assert(u2 >= least || u2 >= i64::MAX);
    assert(dt * u2 >= s) by (nonlinear_arith)
        requires
            dt * least >= s,
            u2 >= least || u2 >= 0x7fff_ffff_ffff_ffff,
            dt >= 1,
            s == 16777216,
            least >= 0,
    ;
    if x >= t {
        assert(dt * v2 == -(dt * u2)) by (nonlinear_arith)
            requires
                u2 == -v2,
        ;
    }
    lemma_div_is_ordered(s, dt * u2, s);
    assert(p >= 1);
}

/// An overdamped spring gets there: started at rest, a scalar comes within `slack` raw
/// units of its target after a number of steps that is at most its distance to the target
/// in raw units, for every `slack` that the spring moves beyond.
///
/// Returns such a number of steps.
pub proof fn lemma_overdamped_reaches_target(
    spring: Spring,
    start: Fixed,
    target: Fixed,
    slack: int,
) -> (steps: nat)
    requires
        spring.wf(),
        spring.damping_ratio@ >= SCALE,
        slack >= 0,
        spring.moves_beyond(slack),
    ensures
        magnitude(trajectory(spring, start@, target@, steps).0 - target@) <= slack,
        steps <= magnitude(start@ - target@),
{
    lemma_reaches_from(spring, start, target, slack, 0)
}

/// The induction behind [`lemma_overdamped_reaches_target`], from the state after `done`
/// steps on.
proof fn lemma_reaches_from(spring: Spring, start: Fixed, target: Fixed, slack: int, done: nat) -> (steps:
    nat)
    requires
        spring.wf(),
        spring.damping_ratio@ >= SCALE,
        slack >= 0,
        spring.moves_beyond(slack),
    ensures
        magnitude(trajectory(spring, start@, target@, steps).0 - target@) <= slack,
        steps >= done,
        steps - done <= magnitude(trajectory(spring, start@, target@, done).0 - target@),
    decreases magnitude(trajectory(spring, start@, target@, done).0 - target@),
{
    let here = trajectory(spring, start@, target@, done);
    if magnitude(here.0 - target@) <= slack {
        done
    } else {
        let w = spring.angular_frequency@;
        if done == 0 {
            assert(w * (start@ - target@) >= 0 <== start@ >= target@) by (nonlinear_arith)
                requires
                    w > 0,
            ;
            assert(w * (target@ - start@) >= 0 <== start@ <= target@) by (nonlinear_arith)
                requires
                    w > 0,
            ;
        } else {
            lemma_overdamped_never_overshoots(spring, start, target, (done - 1) as nat);
        }
        assert(i64::MIN <= here.0 <= i64::MAX && i64::MIN <= here.1 <= i64::MAX) by {
            if done > 0 {
                let before = trajectory(spring, start@, target@, (done - 1) as nat);
                assert(here == spring.step(before.0, before.1, target@));
            }
        }
        lemma_step_advances(
            spring,
            Fixed { raw: here.0 as i64 },
            Fixed { raw: here.1 as i64 },
            target,
            slack,
        );
        assert(trajectory(spring, start@, target@, done + 1) == spring.step(
            here.0,
            here.1,
            target@,
        ));
        lemma_reaches_from(spring, start, target, slack, done + 1)
    }
}

} // verus!
