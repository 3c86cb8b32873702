//! Why transitions end: every step of a spring takes energy out of the scalar it moves.

use crate::fixed::{
    div_toward_zero, lemma_div_toward_zero, magnitude, mul_away_from_zero, mul_toward_zero,
    saturate, Fixed, SCALE,
};
use crate::mat4::{cells_within, zero_cells};
use crate::spring::{lemma_gains, phase_step_high, Spring};
use crate::spring_mat4::{lemma_after_tick, lemma_completion_fires_once, Motion};
use vstd::prelude::*;

verus! {

/// The energy of a scalar under a spring, up to a constant factor: that of its motion,
/// `delta_time * velocity^2`, and that of the spring's tension,
/// `stiffness * distance^2`, in raw units.
pub open spec fn energy(spring: Spring, position: int, velocity: int, target: int) -> int {
    spring.delta_time@ * (velocity * velocity) + spring.stiffness() * ((position - target) * (
        position - target))
}

/// The energy of a scalar that is `reach` from its target and moves at `speed`.
pub open spec fn energy_at(spring: Spring, reach: int, speed: int) -> int {
    spring.delta_time@ * (speed * speed) + spring.stiffness() * (reach * reach)
}

/// Whether the spring tells a scalar `reach` raw units from its target, or one moving at
/// `speed` raw units, from one at rest on it: whether at that distance the pull, and at
/// that speed the motion, outweigh what rounding can add in one step.
pub open spec fn resolves(spring: Spring, reach: int, speed: int) -> bool {
    let s = SCALE as int;
    let dt = spring.delta_time@;
    let k1 = spring.stiffness();
    let r = spring.resistance();
    &&& reach >= 1
    &&& speed >= 1
    &&& k1 >= 1
    &&& dt * (k1 * reach) >= 12 * (s * s)
    &&& dt * (k1 * reach - 2 * r) >= 6 * (s * (r - s))
    &&& dt * speed >= s * (2 + reach)
}

/// Three factors can be multiplied in any grouping and order.
proof fn lemma_regroup(a: int, b: int, c: int)
    ensures
        (a * b) * c == a * (b * c),
        (a * b) * c == b * (a * c),
        a * (b * c) == b * (a * c),
        a * (b * c) == c * (a * b),
{
    assert((a * b) * c == a * (b * c)) by (nonlinear_arith);
    assert((a * b) * c == b * (a * c)) by (nonlinear_arith);
    assert(a * (b * c) == c * (a * b)) by (nonlinear_arith);
}

/// How the energy before a step compares with the energy after it: with `v2` and `e2` the
/// velocity and the distance after the step, `m` the displacement, `rho` what rounding
/// took from it, and `u` what the resistance took from the velocity.
proof fn lemma_energy_identity(
    s: int,
    dt: int,
    k1: int,
    v: int,
    e: int,
    v2: int,
    e2: int,
    u: int,
    m: int,
    rho: int,
)
    requires
        v * s == v2 * s + u + k1 * e2,
        e == e2 - m,
        rho == dt * v2 - m * s,
    ensures
        (s * s) * (dt * (v * v) + k1 * (e * e)) - (s * s) * (dt * (v2 * v2) + k1 * (e2 * e2))
            == dt * ((u + k1 * e2) * (u + k1 * e2)) + 2 * (dt * (s * (v2 * u))) + k1 * ((m * s) * (
            m * s)) + 2 * (k1 * (s * (rho * e2))),
{
    let a = v * s;
    let c = u + k1 * e2;
    let f = s * e;
    let p = v2 * s;
    let g = s * e2;
    let h = m * s;
    assert(a == p + c);
    assert(f == g - h) by (nonlinear_arith)
        requires
            f == s * e,
            g == s * e2,
            h == m * s,
            e == e2 - m,
    ;
    assert(a * a == p * p + 2 * (p * c) + c * c) by (nonlinear_arith)
        requires
            a == p + c,
    ;
    assert(f * f == g * g - 2 * (g * h) + h * h) by (nonlinear_arith)
        requires
            f == g - h,
    ;
    assert((s * s) * (v * v) == a * a) by (nonlinear_arith)
        requires
            a == v * s,
    ;
    assert((s * s) * (e * e) == f * f) by (nonlinear_arith)
        requires
            f == s * e,
    ;
    assert((s * s) * (v2 * v2) == p * p) by (nonlinear_arith)
        requires
            p == v2 * s,
    ;
    assert((s * s) * (e2 * e2) == g * g) by (nonlinear_arith)
        requires
            g == s * e2,
    ;
    assert((s * s) * (dt * (v * v)) == dt * (a * a)) by (nonlinear_arith)
        requires
            (s * s) * (v * v) == a * a,
    ;
    assert((s * s) * (k1 * (e * e)) == k1 * (f * f)) by (nonlinear_arith)
        requires
            (s * s) * (e * e) == f * f,
    ;
    assert((s * s) * (dt * (v2 * v2)) == dt * (p * p)) by (nonlinear_arith)
        requires
            (s * s) * (v2 * v2) == p * p,
    ;
    assert((s * s) * (k1 * (e2 * e2)) == k1 * (g * g)) by (nonlinear_arith)
        requires
            (s * s) * (e2 * e2) == g * g,
    ;
    // What the two cross terms leave.
    let w1 = v2 * u;
    let w2 = v2 * e2;
    let w3 = rho * e2;
    let sw2 = s * w2;
    let ke = k1 * e2;
    let dv = dt * v2;
    assert(p * c == p * u + p * ke) by (nonlinear_arith)
        requires
            c == u + ke,
    ;
    lemma_regroup(v2, s, u);
    lemma_regroup(v2, s, ke);
    lemma_regroup(v2, k1, e2);
    lemma_regroup(s, k1, w2);
    assert(p * u == s * w1);
    assert(p * ke == k1 * sw2);
    assert(h == dv - rho);
    assert(g * h == g * dv - g * rho) by (nonlinear_arith)
        requires
            h == dv - rho,
    ;
    lemma_regroup(s, e2, rho);
    lemma_regroup(e2, s, rho);
    lemma_regroup(s, e2, dv);
    lemma_regroup(e2, dt, v2);
    lemma_regroup(s, dt, w2);
    assert(e2 * rho == w3) by (nonlinear_arith)
        requires
            w3 == rho * e2,
    ;
    assert(e2 * v2 == w2) by (nonlinear_arith)
        requires
            w2 == v2 * e2,
    ;
    assert(g * rho == s * w3);
    assert(g * dv == dt * sw2);
    assert(dt * (p * c) == dt * (s * w1) + dt * (k1 * sw2)) by (nonlinear_arith)
        requires
            p * c == s * w1 + k1 * sw2,
    ;
    assert(k1 * (g * h) == k1 * (dt * sw2) - k1 * (s * w3)) by (nonlinear_arith)
        requires
            g * h == dt * sw2 - s * w3,
    ;
    lemma_regroup(dt, k1, sw2);
    assert(dt * (p * c) - k1 * (g * h) == dt * (s * (v2 * u)) + k1 * (s * (rho * e2)));
    assert(dt * (a * a) == dt * (p * p) + 2 * (dt * (p * c)) + dt * (c * c)) by (nonlinear_arith)
        requires
            a * a == p * p + 2 * (p * c) + c * c,
    ;
    assert(k1 * (f * f) == k1 * (g * g) - 2 * (k1 * (g * h)) + k1 * (h * h)) by (nonlinear_arith)
        requires
            f * f == g * g - 2 * (g * h) + h * h,
    ;
    assert((s * s) * (dt * (v * v) + k1 * (e * e)) == (s * s) * (dt * (v * v)) + (s * s) * (k1 * (
        e * e))) by (nonlinear_arith);
    assert((s * s) * (dt * (v2 * v2) + k1 * (e2 * e2)) == (s * s) * (dt * (v2 * v2)) + (s * s) * (
        k1 * (e2 * e2))) by (nonlinear_arith);
}

/// Far from the target a step takes energy out: with `a` the distance after the step, `b`
/// the speed, `uu` what the resistance took from the speed and `d` what is left of the
/// pull, the gains outweigh what rounding the displacement can add.
proof fn lemma_drop_when_far(
    s: int,
    dt: int,
    k1: int,
    r: int,
    reach: int,
    a: int,
    b: int,
    uu: int,
    d: int,
    r1: int,
)
    requires
        s > 0,
        dt > 0,
        k1 >= 1,
        r >= s,
        reach >= 1,
        a >= reach,
        b >= 0,
        uu >= 0,
        d >= 0,
        d >= k1 * a - uu,
        0 <= r1,
        uu <= b * (r - s) + r1,
        r1 < r || dt * b >= 3 * s,
        dt * (k1 * reach) >= 12 * (s * s),
        dt * (k1 * reach - 2 * r) >= 6 * (s * (r - s)),
    ensures
        dt * (d * d) + 2 * (dt * (s * (b * uu))) >= s * s + 2 * (k1 * (s * (s * a))),
{
    let y = k1 * a;
    let ss = s * s;
    let g = r - s;
    assert(y >= k1 * reach && y >= 1 && ss > 0) by (nonlinear_arith)
        requires
            y == k1 * a,
            ss == s * s,
            a >= reach,
            reach >= 1,
            k1 >= 1,
            s > 0,
    ;
    assert(dt * y >= 12 * ss) by (nonlinear_arith)
        requires
            dt * (k1 * reach) >= 12 * ss,
            y >= k1 * reach,
            dt > 0,
    ;
    lemma_regroup(k1, s, s * a);
    lemma_regroup(s, s, a);
    lemma_regroup(k1, ss, a);
    assert(k1 * (s * (s * a)) == ss * y) by (nonlinear_arith)
        requires
            y == k1 * a,
            ss == s * s,
            k1 * (s * (s * a)) == s * (k1 * (s * a)),
            (s * s) * a == s * (s * a),
            (k1 * ss) * a == ss * (k1 * a),
            (k1 * ss) * a == k1 * (ss * a),
    {
        assert(s * (k1 * (s * a)) == k1 * (ss * a));
    }
    assert(b * uu >= 0 && d * d >= 0) by (nonlinear_arith)
        requires
            b >= 0,
            uu >= 0,
    ;
    if 2 * uu <= y {
        assert(4 * (d * d) >= y * y) by (nonlinear_arith)
            requires
                2 * d >= y,
                y >= 0,
                d >= 0,
        ;
        assert(4 * (dt * (d * d)) >= (dt * y) * y) by (nonlinear_arith)
            requires
                4 * (d * d) >= y * y,
                dt > 0,
        ;
        assert((dt * y) * y >= (12 * ss) * y) by (nonlinear_arith)
            requires
                dt * y >= 12 * ss,
                y >= 0,
        ;
        assert(ss * y >= ss) by (nonlinear_arith)
            requires
                y >= 1,
                ss > 0,
        ;
        assert(dt * (s * (b * uu)) >= 0) by (nonlinear_arith)
            requires
                dt > 0,
                s > 0,
                b * uu >= 0,
        ;
        assert((12 * ss) * y == 12 * (ss * y)) by (nonlinear_arith);
        assert(dt * (d * d) >= 3 * (ss * y));
        assert(dt * (d * d) + 2 * (dt * (s * (b * uu))) >= s * s + 2 * (k1 * (s * (s * a))));
    } else {
        if r1 < r {
            assert(dt * (2 * (b * g)) > dt * (k1 * reach - 2 * r)) by (nonlinear_arith)
                requires
                    2 * (b * g) + 2 * r > k1 * reach,
                    dt > 0,
            ;
            assert(dt * (2 * (b * g)) == 2 * ((dt * b) * g)) by (nonlinear_arith);
            assert(6 * (s * g) == 2 * ((3 * s) * g)) by (nonlinear_arith);
            assert(dt * b >= 3 * s) by (nonlinear_arith)
                requires
                    2 * ((dt * b) * g) > 2 * ((3 * s) * g),
                    g >= 0,
            ;
        }
        lemma_regroup(dt, s, b * uu);
        lemma_regroup(dt, b, uu);
        assert(dt * (s * (b * uu)) == s * ((dt * b) * uu));
        assert(2 * (s * ((dt * b) * uu)) >= s * ((3 * s) * (y + 1))) by (nonlinear_arith)
            requires
                dt * b >= 3 * s,
                2 * uu >= y + 1,
                s > 0,
                y >= 0,
                uu >= 0,
        {
            assert((dt * b) * (2 * uu) >= (3 * s) * (y + 1));
            assert(2 * ((dt * b) * uu) == (dt * b) * (2 * uu));
        }
        assert(s * ((3 * s) * (y + 1)) == 3 * (ss * y) + 3 * ss) by (nonlinear_arith)
            requires
                ss == s * s,
        ;
        assert(ss * y >= 0) by (nonlinear_arith)
            requires
                y >= 0,
                ss > 0,
        ;
        assert(dt * (d * d) >= 0) by (nonlinear_arith)
            requires
                dt > 0,
                d * d >= 0,
        ;
        assert(dt * (d * d) + 2 * (dt * (s * (b * uu))) >= s * s + 2 * (k1 * (s * (s * a))));
    }
}

/// At speed a step takes energy out: with `a` the distance after the step, `b` the speed
/// and `mm` the size of the displacement times the scale, the energy that the motion loses
/// outweighs what rounding the displacement can add.
proof fn lemma_drop_when_fast(
    s: int,
    dt: int,
    k1: int,
    reach: int,
    speed: int,
    a: int,
    b: int,
    mm: int,
)
    requires
        s > 0,
        dt > 0,
        k1 >= 1,
        reach >= 1,
        0 <= a <= reach,
        b >= speed,
        dt * speed >= s * (2 + reach),
        mm > dt * b - s,
    ensures
        k1 * (mm * mm) >= s * s + 2 * (k1 * (s * (s * a))),
{
    let ss = s * s;
    let lo = s * (1 + reach);
    assert(dt * b >= dt * speed) by (nonlinear_arith)
        requires
            b >= speed,
            dt > 0,
    ;
    assert(s * (2 + reach) - s == lo) by (nonlinear_arith)
        requires
            lo == s * (1 + reach),
    ;
    assert(mm >= lo && lo >= 0) by (nonlinear_arith)
        requires
            mm > dt * b - s,
            dt * b >= s * (2 + reach),
            s * (2 + reach) - s == lo,
            lo == s * (1 + reach),
            s > 0,
            reach >= 1,
    ;
    assert(mm * mm >= lo * lo) by (nonlinear_arith)
        requires
            mm >= lo,
            lo >= 0,
    ;
    assert(lo * lo == ss * ((1 + reach) * (1 + reach))) by (nonlinear_arith)
        requires
            lo == s * (1 + reach),
            ss == s * s,
    ;
    assert((1 + reach) * (1 + reach) >= 1 + 2 * a) by (nonlinear_arith)
        requires
            0 <= a <= reach,
    ;
    assert(ss * ((1 + reach) * (1 + reach)) >= ss * (1 + 2 * a)) by (nonlinear_arith)
        requires
            (1 + reach) * (1 + reach) >= 1 + 2 * a,
            ss == s * s,
    ;
    assert(k1 * (mm * mm) >= k1 * (ss * (1 + 2 * a))) by (nonlinear_arith)
        requires
            mm * mm >= ss * (1 + 2 * a),
            k1 >= 1,
    ;
    lemma_regroup(s, s, a);
    assert(k1 * (ss * (1 + 2 * a)) == k1 * ss + 2 * (k1 * (s * (s * a)))) by (nonlinear_arith)
        requires
            ss == s * s,
            (s * s) * a == s * (s * a),
    ;
    assert(k1 * ss >= ss) by (nonlinear_arith)
        requires
            k1 >= 1,
            ss == s * s,
    ;
}

/// What dividing the pull `n` by the resistance `r` leaves: the remainder `r1` points the
/// way of the new velocity `v2`, and is less than the resistance unless the velocity
/// saturated.
proof fn lemma_velocity_parts(n: int, r: int, v2: int, r1: int)
    requires
        r > 0,
        v2 == saturate(div_toward_zero(n, r)),
        r1 == n - v2 * r,
    ensures
        v2 > 0 ==> r1 >= 0,
        v2 < 0 ==> r1 <= 0,
        magnitude(r1) < r || magnitude(v2) >= i64::MAX,
{
    let q = div_toward_zero(n, r);
    lemma_div_toward_zero(n, r);
    assert((q - v2) * r >= 0 <== q >= v2) by (nonlinear_arith)
        requires
            r > 0,
    ;
    assert((q - v2) * r <= 0 <== q <= v2) by (nonlinear_arith)
        requires
            r > 0,
    ;
    assert(n - v2 * r == (n - q * r) + (q - v2) * r) by (nonlinear_arith);
    assert(0 * r == 0) by (nonlinear_arith);
}

/// What rounding the displacement leaves: with `m` the displacement of a step at velocity
/// `v2`, the remainder `rho` points the way of the velocity and is less than the scale.
proof fn lemma_displacement_parts(s: int, dt: int, v2: int, m: int, rho: int)
    requires
        s > 0,
        dt > 0,
        m == div_toward_zero(dt * v2, s),
        rho == dt * v2 - m * s,
    ensures
        magnitude(rho) < s,
        v2 >= 0 ==> rho >= 0 && m >= 0,
        v2 <= 0 ==> rho <= 0 && m <= 0,
        magnitude(m * s) > dt * magnitude(v2) - s,
        dt * magnitude(v2) == magnitude(dt * v2),
{
    lemma_div_toward_zero(dt * v2, s);
    assert(v2 >= 0 ==> dt * v2 >= 0) by (nonlinear_arith)
        requires
            dt > 0,
    ;
    assert(v2 <= 0 ==> dt * v2 <= 0) by (nonlinear_arith)
        requires
            dt > 0,
    ;
    assert(dt * (-v2) == -(dt * v2)) by (nonlinear_arith);
    assert(m >= 0 ==> m * s >= 0) by (nonlinear_arith)
        requires
            s > 0,
    ;
    assert(m <= 0 ==> m * s <= 0) by (nonlinear_arith)
        requires
            s > 0,
    ;
}

/// What the resistance takes from the velocity points the way of the velocity: with `g`
/// the resistance above one, `hh` the part of it that holds against the stiffness `k1`,
/// and `u` what is left of `v2 * g` and the remainder `r1` after the pull on the
/// displacement `m`.
proof fn lemma_resistance_parts(
    s: int,
    dt: int,
    k1: int,
    g: int,
    hh: int,
    v2: int,
    m: int,
    r1: int,
    u: int,
)
    requires
        s > 0,
        dt > 0,
        k1 >= 0,
        g >= hh >= 0,
        dt * k1 <= hh * s,
        v2 >= 0 ==> 0 <= m && m * s <= dt * v2,
        v2 <= 0 ==> 0 >= m && m * s >= dt * v2,
        v2 > 0 ==> r1 >= 0,
        v2 < 0 ==> r1 <= 0,
        u == v2 * g + r1 - k1 * m,
    ensures
        v2 > 0 ==> u >= 0,
        v2 < 0 ==> u <= 0,
        magnitude(u) <= magnitude(v2) * g + magnitude(r1),
{
    let b = magnitude(v2);
    let mm = magnitude(m);
    assert(mm * s <= dt * b) by (nonlinear_arith)
        requires
            v2 >= 0 ==> 0 <= m && m * s <= dt * v2,
            v2 <= 0 ==> 0 >= m && m * s >= dt * v2,
            b == magnitude(v2),
            mm == magnitude(m),
    {
        assert((-m) * s == -(m * s));
        assert(dt * (-v2) == -(dt * v2));
    }
    // The pull on the displacement is no more than what the resistance holds.
    assert(k1 * mm <= b * g) by (nonlinear_arith)
        requires
            mm * s <= dt * b,
            dt * k1 <= hh * s,
            g >= hh >= 0,
            k1 >= 0,
            b >= 0,
            mm >= 0,
            s > 0,
    {
        assert(k1 * (mm * s) <= k1 * (dt * b));
        assert(k1 * (dt * b) == (dt * k1) * b);
        assert((dt * k1) * b <= (hh * s) * b);
        assert((k1 * mm) * s <= (hh * b) * s);
        assert(k1 * mm <= hh * b);
        assert(hh * b <= g * b);
    }
    assert(k1 * mm >= 0) by (nonlinear_arith)
        requires
            k1 >= 0,
            mm >= 0,
    ;
    assert(v2 * g == b * g || v2 * g == -(b * g)) by (nonlinear_arith)
        requires
            v2 == b || v2 == -b,
    ;
    assert(k1 * m == k1 * mm || k1 * m == -(k1 * mm)) by (nonlinear_arith)
        requires
            m == mm || m == -mm,
    ;
    if v2 >= 0 {
        assert(v2 * g == b * g);
        assert(k1 * m == k1 * mm);
    } else {
        assert(v2 * g == -(b * g)) by (nonlinear_arith)
            requires
                v2 == -b,
        ;
        assert(k1 * m == -(k1 * mm)) by (nonlinear_arith)
            requires
                m == -mm,
        ;
    }
}

/// The square of a number is the square of its size, and grows with it.
proof fn lemma_squares(a: int, b: int)
    ensures
        a * a == magnitude(a) * magnitude(a),
        a * a >= 0,
        magnitude(a) <= magnitude(b) ==> a * a <= b * b,
{
    let x = magnitude(a);
    let y = magnitude(b);
    assert(a * a == x * x && a * a >= 0) by (nonlinear_arith)
        requires
            a == x || a == -x,
    ;
    assert(b * b == y * y) by (nonlinear_arith)
        requires
            b == y || b == -y,
    ;
    assert(x <= y ==> x * x <= y * y) by (nonlinear_arith)
        requires
            0 <= x,
            0 <= y,
    ;
}

/// The product of two numbers that point the same way is the product of their sizes.
proof fn lemma_same_way(a: int, b: int)
    requires
        a > 0 ==> b >= 0,
        a < 0 ==> b <= 0,
    ensures
        a * b == magnitude(a) * magnitude(b),
        a * b >= 0,
{
    let x = magnitude(a);
    let y = magnitude(b);
    assert(a * b == x * y && a * b >= 0) by (nonlinear_arith)
        requires
            (a == x && b == y) || (a == -x && b == -y) || (a == 0 && x == 0),
            x >= 0,
            y >= 0,
    ;
}

/// Every step takes energy out: after a step of a spring, the energy of the scalar is at
/// least one unit less than before, unless it is no more than that of a scalar `reach`
/// from its target moving at `speed`, for every `reach` and `speed` that the spring
/// resolves. This holds whatever the damping ratio and whatever the state.
pub proof fn lemma_step_loses_energy(
    spring: Spring,
    position: Fixed,
    velocity: Fixed,
    target: Fixed,
    reach: int,
    speed: int,
)
    requires
        spring.wf(),
        resolves(spring, reach, speed),
    ensures
        ({
            let next = spring.step(position@, velocity@, target@);
            let before = energy(spring, position@, velocity@, target@);
            let after = energy(spring, next.0, next.1, target@);
            after <= before - 1 || after <= energy_at(spring, reach, speed)
        }),
{
    let s = SCALE as int;
    let dt = spring.delta_time@;
    let k1 = spring.stiffness();
    let r = spring.resistance();
    let hu = phase_step_high(spring.angular_frequency@, dt);
    let hh = mul_away_from_zero(hu, hu);
    let g = r - s;
    let x = position@;
    let v = velocity@;
    let t = target@;
    lemma_gains(spring);
    let e = x - t;
    let n = v * s + k1 * (t - x);
    let v2 = saturate(div_toward_zero(n, r));
    let m = mul_toward_zero(dt, v2);
    let x2 = saturate(x + m);
    assert(spring.step(x, v, t) == (x2, v2));
    let r1 = n - v2 * r;
    let rho = dt * v2 - m * s;
    let e2 = e + m;
    let e3 = x2 - t;
    let u = v2 * g + r1 - k1 * m;
    lemma_velocity_parts(n, r, v2, r1);
    lemma_displacement_parts(s, dt, v2, m, rho);
    lemma_resistance_parts(s, dt, k1, g, hh, v2, m, r1, u);
    assert(v * s == v2 * s + u + k1 * e2) by (nonlinear_arith)
        requires
            n == v * s + k1 * (t - x),
            r1 == n - v2 * r,
            u == v2 * g + r1 - k1 * m,
            g == r - s,
            e2 == x - t + m,
    {
        assert(k1 * (t - x) == -(k1 * (x - t)));
        assert(k1 * (x - t + m) == k1 * (x - t) + k1 * m);
        assert(v2 * r == v2 * s + v2 * (r - s));
    }
    lemma_energy_identity(s, dt, k1, v, e, v2, e2, u, m, rho);
    let before = dt * (v * v) + k1 * (e * e);
    let middle = dt * (v2 * v2) + k1 * (e2 * e2);
    let after = dt * (v2 * v2) + k1 * (e3 * e3);
    assert(before == energy(spring, x, v, t));
    assert(after == energy(spring, x2, v2, t));
    // Saturating the position brings it no farther from the target.
    lemma_squares(e3, e2);
    assert(after <= middle) by (nonlinear_arith)
        requires
            e3 * e3 <= e2 * e2,
            k1 >= 0,
            after == dt * (v2 * v2) + k1 * (e3 * e3),
            middle == dt * (v2 * v2) + k1 * (e2 * e2),
    ;
    let a = magnitude(e2);
    let b = magnitude(v2);
    let uu = magnitude(u);
    let d = magnitude(u + k1 * e2);
    let rr = magnitude(r1);
    let mm = magnitude(m * s);
    let ss = s * s;
    let t1 = dt * ((u + k1 * e2) * (u + k1 * e2));
    let t2 = 2 * (dt * (s * (v2 * u)));
    let t3 = k1 * ((m * s) * (m * s));
    let t4 = 2 * (k1 * (s * (rho * e2)));
    assert(ss * before - ss * middle == t1 + t2 + t3 + t4);
    lemma_squares(u + k1 * e2, 0);
    lemma_squares(m * s, 0);
    lemma_same_way(v2, u);
    assert(t1 == dt * (d * d) && t1 >= 0) by (nonlinear_arith)
        requires
            t1 == dt * ((u + k1 * e2) * (u + k1 * e2)),
            (u + k1 * e2) * (u + k1 * e2) == d * d,
            d * d >= 0,
            dt > 0,
    ;
    assert(t2 == 2 * (dt * (s * (b * uu))) && t2 >= 0) by (nonlinear_arith)
        requires
            t2 == 2 * (dt * (s * (v2 * u))),
            v2 * u == b * uu,
            v2 * u >= 0,
            dt > 0,
            s > 0,
    ;
    assert(t3 == k1 * (mm * mm) && t3 >= 0) by (nonlinear_arith)
        requires
            t3 == k1 * ((m * s) * (m * s)),
            (m * s) * (m * s) == mm * mm,
            (m * s) * (m * s) >= 0,
            k1 >= 0,
    ;
    // What rounding the displacement can add.
    assert(t4 >= -(2 * (k1 * (s * (s * a))))) by (nonlinear_arith)
        requires
            t4 == 2 * (k1 * (s * (rho * e2))),
            -s <= rho <= s,
            a == magnitude(e2),
            k1 >= 0,
            s > 0,
    {
        assert(rho * e2 >= -(s * a));
        assert(s * (rho * e2) >= -(s * (s * a)));
    }
    if a >= reach {
        assert(d >= k1 * a - uu) by (nonlinear_arith)
            requires
                d == magnitude(u + k1 * e2),
                uu == magnitude(u),
                a == magnitude(e2),
                k1 >= 0,
        {
            assert(k1 * e2 == k1 * a || k1 * e2 == -(k1 * a));
        }
        assert(dt * b >= 3 * s <== b >= i64::MAX) by (nonlinear_arith)
            requires
                dt >= 1,
                s == 16777216,
        ;
        lemma_drop_when_far(s, dt, k1, r, reach, a, b, uu, d, rr);
        assert(ss * before - ss * middle >= ss);
    } else if b >= speed {
        lemma_drop_when_fast(s, dt, k1, reach, speed, a, b, mm);
        assert(ss * before - ss * middle >= ss);
    } else {
        lemma_squares(e2, reach);
        lemma_squares(v2, speed);
        assert(middle <= energy_at(spring, reach, speed)) by (nonlinear_arith)
            requires
                e2 * e2 <= reach * reach,
                v2 * v2 <= speed * speed,
                k1 >= 0,
                dt > 0,
                middle == dt * (v2 * v2) + k1 * (e2 * e2),
                energy_at(spring, reach, speed) == dt * (speed * speed) + k1 * (reach * reach),
        ;
    }
    assert(before - middle >= 1 <== ss * before - ss * middle >= ss) by (nonlinear_arith)
        requires
            ss == s * s,
            s > 0,
    ;
}

/// The state of a scalar that starts at `position` with `velocity` and is advanced `steps`
/// times toward `target`, as (position, velocity).
pub open spec fn orbit(
    spring: Spring,
    position: int,
    velocity: int,
    target: int,
    steps: nat,
) -> (int, int)
    decreases steps,
{
    if steps == 0 {
        (position, velocity)
    } else {
        let before = orbit(spring, position, velocity, target, (steps - 1) as nat);
        spring.step(before.0, before.1, target)
    }
}

/// Every spring settles: whatever the damping ratio and whatever the state it starts in,
/// after a number of steps a scalar is within `near` of its target and no faster than
/// `slow`, and has no more energy than a scalar `reach` from its target moving at `speed`,
/// for every `reach` and `speed` that the spring resolves and every `near` and `slow` that
/// hold that energy.
///
/// Returns such a number of steps, at most the energy at the start.
pub proof fn lemma_spring_settles(
    spring: Spring,
    position: Fixed,
    velocity: Fixed,
    target: Fixed,
    reach: int,
    speed: int,
    near: int,
    slow: int,
) -> (steps: nat)
    requires
        spring.wf(),
        resolves(spring, reach, speed),
        near >= 0,
        slow >= 0,
        energy_at(spring, reach, speed) <= energy_at(spring, near, 0),
        energy_at(spring, reach, speed) <= energy_at(spring, 0, slow),
    ensures
        ({
            let end = orbit(spring, position@, velocity@, target@, steps);
            &&& energy(spring, end.0, end.1, target@) <= energy_at(spring, reach, speed)
            &&& magnitude(end.0 - target@) <= near
            &&& magnitude(end.1) <= slow
        }),
        steps <= energy(spring, position@, velocity@, target@),
    decreases energy(spring, position@, velocity@, target@),
{
    let here = energy(spring, position@, velocity@, target@);
    let rest = energy_at(spring, reach, speed);
    lemma_squares(velocity@, 0);
    lemma_squares(position@ - target@, 0);
    lemma_gains(spring);
    assert(here >= 0) by (nonlinear_arith)
        requires
            here == spring.delta_time@ * (velocity@ * velocity@) + spring.stiffness() * ((
            position@ - target@) * (position@ - target@)),
            spring.delta_time@ > 0,
            spring.stiffness() >= 0,
            velocity@ * velocity@ >= 0,
            (position@ - target@) * (position@ - target@) >= 0,
    ;
    if here <= rest {
        lemma_low_energy_is_near(spring, position@, velocity@, target@, near, slow, rest);
        0
    } else {
        lemma_step_loses_energy(spring, position, velocity, target, reach, speed);
        let next = spring.step(position@, velocity@, target@);
        let after = energy(spring, next.0, next.1, target@);
        lemma_squares(next.1, 0);
        lemma_squares(next.0 - target@, 0);
        assert(after >= 0) by (nonlinear_arith)
            requires
                after == spring.delta_time@ * (next.1 * next.1) + spring.stiffness() * ((next.0
                    - target@) * (next.0 - target@)),
                spring.delta_time@ > 0,
                spring.stiffness() >= 0,
                next.1 * next.1 >= 0,
                (next.0 - target@) * (next.0 - target@) >= 0,
        ;
        assert(after < here);
        assert(i64::MIN <= next.0 <= i64::MAX && i64::MIN <= next.1 <= i64::MAX);
        let more = lemma_spring_settles(
            spring,
            Fixed { raw: next.0 as i64 },
            Fixed { raw: next.1 as i64 },
            target,
            reach,
            speed,
            near,
            slow,
        );
        lemma_orbit_from_next(spring, position@, velocity@, target@, more);
        more + 1
    }
}

/// A settled spring stays settled: a step from a state with no more energy than a scalar
/// `reach` from its target moving at `speed` gives such a state again, for every `reach`
/// and `speed` that the spring resolves.
pub proof fn lemma_settled_stays_settled(
    spring: Spring,
    position: Fixed,
    velocity: Fixed,
    target: Fixed,
    reach: int,
    speed: int,
)
    requires
        spring.wf(),
        resolves(spring, reach, speed),
        energy(spring, position@, velocity@, target@) <= energy_at(spring, reach, speed),
    ensures
        ({
            let next = spring.step(position@, velocity@, target@);
            energy(spring, next.0, next.1, target@) <= energy_at(spring, reach, speed)
        }),
{
    lemma_step_loses_energy(spring, position, velocity, target, reach, speed);
}

/// Stepping first and then `steps` more times is stepping `steps + 1` times.
proof fn lemma_orbit_from_next(spring: Spring, position: int, velocity: int, target: int, steps: nat)
    ensures
        ({
            let next = spring.step(position, velocity, target);
            orbit(spring, next.0, next.1, target, steps) == orbit(
                spring,
                position,
                velocity,
                target,
                steps + 1,
            )
        }),
    decreases steps,
{
    if steps == 0 {
        reveal_with_fuel(orbit, 2);
    } else {
        lemma_orbit_from_next(spring, position, velocity, target, (steps - 1) as nat);
    }
}

/// The energy of cell `i` of a transform above the level `rest`, or zero below it.
pub open spec fn excess<E>(motion: Motion<E>, rest: int, i: int) -> int {
    let here = energy(motion.spring, motion.current[i], motion.velocity[i], motion.target[i]);
    if here > rest {
        here - rest
    } else {
        0
    }
}

/// The energy of the first `n` cells of a transform above the level `rest`, summed.
pub open spec fn excess_upto<E>(motion: Motion<E>, rest: int, n: int) -> int
    decreases n,
{
    if n <= 0 {
        0
    } else {
        excess_upto(motion, rest, n - 1) + excess(motion, rest, n - 1)
    }
}

/// Where no cell has more energy above the level than before, the sum is no larger, and
/// it is smaller where cell `less` has less.
proof fn lemma_excess_shrinks<E>(before: Motion<E>, after: Motion<E>, rest: int, n: int, less: int)
    requires
        forall|i: int| 0 <= i < n ==> #[trigger] excess(after, rest, i) <= excess(before, rest, i),
    ensures
        0 <= excess_upto(after, rest, n) <= excess_upto(before, rest, n),
        0 <= less < n && excess(after, rest, less) < excess(before, rest, less) ==> excess_upto(
            after,
            rest,
            n,
        ) < excess_upto(before, rest, n),
    decreases n,
{
    if n > 0 {
        lemma_excess_shrinks(before, after, rest, n - 1, less);
        assert(excess(after, rest, n - 1) <= excess(before, rest, n - 1));
    }
}

/// A scalar with no more energy than one `reach` from its target moving at `speed` is
/// within every tolerance that holds that energy.
proof fn lemma_low_energy_is_near(
    spring: Spring,
    position: int,
    velocity: int,
    target: int,
    near: int,
    slow: int,
    rest: int,
)
    requires
        spring.delta_time@ > 0,
        spring.stiffness() >= 1,
        near >= 0,
        slow >= 0,
        energy(spring, position, velocity, target) <= rest,
        rest <= energy_at(spring, near, 0),
        rest <= energy_at(spring, 0, slow),
    ensures
        magnitude(position - target) <= near,
        magnitude(velocity) <= slow,
{
    let dt = spring.delta_time@;
    let k1 = spring.stiffness();
    let e = position - target;
    lemma_squares(e, near);
    lemma_squares(velocity, slow);
    lemma_squares(near, e);
    lemma_squares(slow, velocity);
    assert(0 * 0 == 0) by (nonlinear_arith);
    assert(k1 * (e * e) <= k1 * (near * near)) by (nonlinear_arith)
        requires
            dt * (velocity * velocity) + k1 * (e * e) <= rest,
            rest <= dt * 0 + k1 * (near * near),
            dt > 0,
            velocity * velocity >= 0,
    ;
    assert(dt * (velocity * velocity) <= dt * (slow * slow)) by (nonlinear_arith)
        requires
            dt * (velocity * velocity) + k1 * (e * e) <= rest,
            rest <= dt * (slow * slow) + k1 * 0,
            k1 >= 1,
            e * e >= 0,
    ;
    assert(e * e <= near * near) by (nonlinear_arith)
        requires
            k1 * (e * e) <= k1 * (near * near),
            k1 >= 1,
    ;
    assert(velocity * velocity <= slow * slow) by (nonlinear_arith)
        requires
            dt * (velocity * velocity) <= dt * (slow * slow),
            dt > 0,
    ;
    assert(magnitude(e) <= near) by (nonlinear_arith)
        requires
            e * e <= near * near,
            magnitude(e) * magnitude(e) == e * e,
            near >= 0,
            magnitude(e) >= 0,
    ;
    assert(magnitude(velocity) <= slow) by (nonlinear_arith)
        requires
            velocity * velocity <= slow * slow,
            magnitude(velocity) * magnitude(velocity) == velocity * velocity,
            slow >= 0,
            magnitude(velocity) >= 0,
    ;
}

/// A frame tick that does not settle a transform takes energy out of it: no cell gains
/// energy above the level of `reach` and `speed`, and the cells together lose some.
proof fn lemma_unsettled_tick_loses_energy<E>(motion: Motion<E>, reach: int, speed: int)
    requires
        motion.wf(),
        motion.is_animating,
        resolves(motion.spring, reach, speed),
        motion.position_tolerance >= 0,
        motion.velocity_tolerance >= 0,
        energy_at(motion.spring, reach, speed) <= energy_at(
            motion.spring,
            motion.position_tolerance,
            0,
        ),
        energy_at(motion.spring, reach, speed) <= energy_at(
            motion.spring,
            0,
            motion.velocity_tolerance,
        ),
        !motion.settles(),
    ensures
        0 <= excess_upto(motion.tick(), energy_at(motion.spring, reach, speed), 16) < excess_upto(
            motion,
            energy_at(motion.spring, reach, speed),
            16,
        ),
{
    let rest = energy_at(motion.spring, reach, speed);
    let next = motion.tick();
    let near = motion.position_tolerance;
    let slow = motion.velocity_tolerance;
    assert(next.current == motion.stepped_current());
    assert(next.velocity == motion.stepped_velocity());
    assert forall|i: int| 0 <= i < 16 implies #[trigger] excess(next, rest, i) <= excess(
        motion,
        rest,
        i,
    ) && (excess(next, rest, i) > 0 ==> excess(next, rest, i) < excess(motion, rest, i)) by {
        lemma_step_loses_energy(
            motion.spring,
            Fixed { raw: motion.current[i] as i64 },
            Fixed { raw: motion.velocity[i] as i64 },
            Fixed { raw: motion.target[i] as i64 },
            reach,
            speed,
        );
        assert(next.current[i] == motion.spring.step(
            motion.current[i],
            motion.velocity[i],
            motion.target[i],
        ).0);
        assert(next.velocity[i] == motion.spring.step(
            motion.current[i],
            motion.velocity[i],
            motion.target[i],
        ).1);
    }
    // Were every cell at the level, the tick would have settled the transform.
    let high = choose|i: int| 0 <= i < 16 && excess(next, rest, i) > 0;
    if forall|i: int| 0 <= i < 16 ==> excess(next, rest, i) <= 0 {
        assert forall|i: int| 0 <= i < 16 implies magnitude(
            #[trigger] motion.stepped_current()[i] - motion.target[i],
        ) <= near by {
            assert(excess(next, rest, i) <= 0);
            lemma_low_energy_is_near(
                motion.spring,
                next.current[i],
                next.velocity[i],
                next.target[i],
                near,
                slow,
                rest,
            );
        }
        assert forall|i: int| 0 <= i < 16 implies magnitude(
            #[trigger] motion.stepped_velocity()[i] - zero_cells()[i],
        ) <= slow by {
            assert(excess(next, rest, i) <= 0);
            lemma_low_energy_is_near(
                motion.spring,
                next.current[i],
                next.velocity[i],
                next.target[i],
                near,
                slow,
                rest,
            );
        }
        assert(cells_within(motion.stepped_current(), motion.target, near));
        assert(cells_within(motion.stepped_velocity(), zero_cells(), slow));
        assert(false);
    }
    assert(0 <= high < 16 && excess(next, rest, high) > 0);
    lemma_excess_shrinks(motion, next, rest, 16, high);
}

/// Every transition ends: whatever the damping ratio and whatever the state in which the
/// transition began, the transform comes to rest after a number of frame ticks, and by
/// then its completion event has fired exactly once.
///
/// This holds wherever the spring resolves some `reach` and `speed` whose energy the two
/// tolerances hold. Returns such a number of ticks, at most one more than the energy of
/// the cells above that level.
pub proof fn lemma_transition_completes<E>(motion: Motion<E>, reach: int, speed: int) -> (ticks: nat)
    requires
        motion.wf(),
        motion.is_animating,
        resolves(motion.spring, reach, speed),
        motion.position_tolerance >= 0,
        motion.velocity_tolerance >= 0,
        energy_at(motion.spring, reach, speed) <= energy_at(
            motion.spring,
            motion.position_tolerance,
            0,
        ),
        energy_at(motion.spring, reach, speed) <= energy_at(
            motion.spring,
            0,
            motion.velocity_tolerance,
        ),
    ensures
        !motion.after(ticks).is_animating,
        1 <= ticks <= excess_upto(motion, energy_at(motion.spring, reach, speed), 16) + 1,
        motion.events_over(ticks) == seq![motion.on_complete->0],
    decreases excess_upto(motion, energy_at(motion.spring, reach, speed), 16),
{
    let next = motion.tick();
    lemma_after_tick(motion, 0);
    assert(motion.after(1) == next);
    if motion.settles() {
        lemma_completion_fires_once(motion, 1);
        lemma_excess_shrinks(motion, motion, energy_at(motion.spring, reach, speed), 16, 0);
        1
    } else {
        lemma_unsettled_tick_loses_energy(motion, reach, speed);
        let rest = lemma_transition_completes(next, reach, speed);
        lemma_after_tick(motion, rest);
        assert(motion.tick_events() + next.events_over(rest) =~= next.events_over(rest));
        rest + 1
    }
}

/// Every `spring_to` is answered: sent toward any target from any state, at rest or in
/// motion, the transform comes to rest after a number of frame ticks, the first step of
/// `spring_to` included, and by then `on_complete` has been emitted exactly once, unless
/// another `spring_to` took its place before.
///
/// The conditions on the spring and the tolerances are those of
/// [`lemma_transition_completes`]. Returns such a number of ticks.
pub proof fn lemma_spring_to_completes<E>(
    motion: Motion<E>,
    target: Seq<int>,
    on_complete: E,
    reach: int,
    speed: int,
) -> (ticks: nat)
    requires
        motion.wf(),
        target.len() == 16,
        crate::mat4::representable(target),
        resolves(motion.spring, reach, speed),
        motion.position_tolerance >= 0,
        motion.velocity_tolerance >= 0,
        energy_at(motion.spring, reach, speed) <= energy_at(
            motion.spring,
            motion.position_tolerance,
            0,
        ),
        energy_at(motion.spring, reach, speed) <= energy_at(
            motion.spring,
            0,
            motion.velocity_tolerance,
        ),
    ensures
        ticks >= 1,
        !motion.retarget(target, on_complete).after(ticks).is_animating,
        motion.retarget(target, on_complete).events_over(ticks) == seq![on_complete],
{
    lemma_transition_completes(motion.retarget(target, on_complete), reach, speed)
}

/// The gains of the default spring, and what it resolves: a scalar 109 raw units from its
/// target, or one that moves at 6661 raw units.
proof fn lemma_default_spring(spring: Spring)
    requires
        spring.delta_time@ == 279620,
        spring.angular_frequency@ == 20 * SCALE,
        spring.damping_ratio@ == 11744051,
    ensures
        spring.wf(),
        spring.stiffness() == 111848000,
        spring.resistance() == 26470708,
        resolves(spring, 109, 6661),
        energy_at(spring, 109, 6661) == 13735303778020,
{
    let s = SCALE as int;
    let w = spring.angular_frequency@;
    let dt = spring.delta_time@;
    let z = spring.damping_ratio@;
    assert(w * dt == 93824902758400 && 93824902758400int / 16777216 == 5592400 && 5592400int
        * 16777216 == 93824902758400) by (nonlinear_arith)
        requires
            w == 335544320,
            dt == 279620,
    ;
    let hu = phase_step_high(w, dt);
    assert(hu == 5592400);
    assert(hu * w == 1876498055168000 && 1876498055168000int / 16777216 == 111848000)
        by (nonlinear_arith)
        requires
            hu == 5592400,
            w == 335544320,
    ;
    assert(z * hu == 65677430812400 && 65677430812400int / 16777216 == 3914679 && 3914679int
        * 16777216 != 65677430812400) by (nonlinear_arith)
        requires
            z == 11744051,
            hu == 5592400,
    ;
    assert(hu * hu == 31274937760000 && 31274937760000int / 16777216 == 1864131 && 1864131int
        * 16777216 != 31274937760000) by (nonlinear_arith)
        requires
            hu == 5592400,
    ;
    assert(mul_away_from_zero(z, hu) == 3914680);
    assert(mul_away_from_zero(hu, hu) == 1864132);
    let k1 = spring.stiffness();
    let r = spring.resistance();
    assert(k1 == 111848000);
    assert(r == 26470708);
    assert(dt * (k1 * 109) == 3408968215840000 && 12 * (s * s) == 3377699720527872 && dt * (k1
        * 109 - 2 * r) == 3394164737098080 && 6 * (s * (r - s)) == 975778854469632 && dt * 6661
        == 1862548820 && s * (2 + 109) == 1862270976) by (nonlinear_arith)
        requires
            dt == 279620,
            k1 == 111848000,
            r == 26470708,
            s == 16777216,
    ;
    assert(dt * (6661int * 6661) + k1 * (109int * 109) == 13735303778020) by (nonlinear_arith)
        requires
            dt == 279620,
            k1 == 111848000,
    ;
}

/// A transform with the default spring and the default tolerances always arrives: sent
/// toward any target from any state, it comes to rest after a number of frame ticks, and
/// by then its completion event has fired exactly once.
///
/// Returns such a number of ticks.
pub proof fn lemma_default_transition_completes<E>(motion: Motion<E>) -> (ticks: nat)
    requires
        motion.wf(),
        motion.is_animating,
        motion.spring.delta_time@ == 279620,
        motion.spring.angular_frequency@ == 20 * SCALE,
        motion.spring.damping_ratio@ == 11744051,
        motion.position_tolerance == SCALE,
        motion.velocity_tolerance == 100 * SCALE,
    ensures
        ticks >= 1,
        !motion.after(ticks).is_animating,
        motion.events_over(ticks) == seq![motion.on_complete->0],
{
    let s = SCALE as int;
    lemma_default_spring(motion.spring);
    assert(energy_at(motion.spring, s, 0) == 31482413195133452288000 && energy_at(
        motion.spring,
        0,
        100 * s,
    ) == 787060329878336307200000) by (nonlinear_arith)
        requires
            energy_at(motion.spring, s, 0) == 279620 * (0int * 0) + 111848000 * (s * s),
            energy_at(motion.spring, 0, 100 * s) == 279620 * ((100 * s) * (100 * s)) + 111848000
                * (0int * 0),
            s == 16777216,
    ;
    lemma_transition_completes(motion, 109, 6661)
}

} // verus!
