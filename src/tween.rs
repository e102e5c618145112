use vstd::prelude::*;

verus! {

/// Fixed-point scale of progress and easing values: `UNIT` stands for 1.
pub const UNIT: i64 = 1000000;

/// Largest magnitude of a tween's end points, so that every intermediate value fits.
pub const POS_LIMIT: i64 = 72057594037927936;

/// Coefficient of the back curves' overshoot (1.70158), in units of `UNIT`.
pub const BACK_C1: i64 = 1701580;

/// `BACK_C1 + 1`, in units of `UNIT`.
pub const BACK_C3: i64 = 2701580;

/// The shape of a transition.
#[derive(Clone, Copy, Debug, PartialEq, Eq, Structural)]
pub enum EasingFunction {
    Linear,
    SmoothStep,
    SmootherStep,
    EaseIn,
    EaseOut,
    EaseInOut,
    EaseInBack,
    EaseOutBack,
}

/// `t²` in fixed point.
pub open spec fn sq(t: int) -> int {
    t * t / (UNIT as int)
}

/// `t³` in fixed point.
pub open spec fn cube(t: int) -> int {
    sq(t) * t / (UNIT as int)
}

/// The easing curve `f` at progress `t` (both in units of `UNIT`).
pub open spec fn ease_spec(f: EasingFunction, t: int) -> int {
    let u = UNIT as int;
    match f {
        EasingFunction::Linear => t,
        EasingFunction::SmoothStep => (3 * u - 2 * t) * sq(t) / u,
        EasingFunction::SmootherStep => (6 * sq(t) + 10 * u) * cube(t) / u - 15 * t * cube(t) / u,
        EasingFunction::EaseIn => sq(t),
        EasingFunction::EaseOut => u - sq(u - t),
        EasingFunction::EaseInOut => if 2 * t < u {
            2 * sq(t)
        } else {
            u - 2 * sq(u - t)
        },
        EasingFunction::EaseInBack => BACK_C3 * cube(t) / u - BACK_C1 * sq(t) / u,
        EasingFunction::EaseOutBack => u - BACK_C3 * cube(u - t) / u + BACK_C1 * sq(u - t) / u,
    }
}

proof fn lemma_powers_bounded(t: int)
    requires
        0 <= t <= UNIT,
    ensures
        0 <= sq(t) <= UNIT,
        0 <= cube(t) <= UNIT,
{
    let u = UNIT as int;
    assert(0 <= t * t <= u * u) by (nonlinear_arith)
        requires
            0 <= t <= u,
    ;
    assert(0 <= t * t / u <= u) by (nonlinear_arith)
        requires
            0 <= t * t <= u * u,
            u > 0,
    ;
    let s = sq(t);
    assert(0 <= s * t <= u * u) by (nonlinear_arith)
        requires
            0 <= t <= u,
            0 <= s <= u,
    ;
    assert(0 <= s * t / u <= u) by (nonlinear_arith)
        requires
            0 <= s * t <= u * u,
            u > 0,
    ;
}

proof fn lemma_ease_bounded(f: EasingFunction, t: int)
    requires
        0 <= t <= UNIT,
    ensures
        -16 * UNIT <= ease_spec(f, t) <= 16 * UNIT,
        0 <= (6 * sq(t) + 10 * UNIT) * cube(t) <= 16 * UNIT * UNIT,
        0 <= 15 * t * cube(t) <= 15 * UNIT * UNIT,
        0 <= (3 * UNIT - 2 * t) * sq(t) <= 3 * UNIT * UNIT,
{
    let u = UNIT as int;
    lemma_powers_bounded(t);
    lemma_powers_bounded(u - t);
    let s = sq(t);
    let c = cube(t);
    let sv = sq(u - t);
    let cv = cube(u - t);
    assert(0 <= (3 * u - 2 * t) * s <= 3 * u * u) by (nonlinear_arith)
        requires
            0 <= t <= u,
            0 <= s <= u,
    ;
    assert(0 <= (6 * s + 10 * u) * c <= 16 * u * u) by (nonlinear_arith)
        requires
            0 <= s <= u,
            0 <= c <= u,
    ;
    assert(0 <= 15 * t * c <= 15 * u * u) by (nonlinear_arith)
        requires
            0 <= t <= u,
            0 <= c <= u,
    ;
}

/// The curves other than the two back curves, which overshoot.
pub open spec fn stays_in_unit(f: EasingFunction) -> bool {
    f != EasingFunction::EaseInBack && f != EasingFunction::EaseOutBack
}

proof fn lemma_half_square(t: int)
    requires
        0 <= t,
        2 * t <= UNIT,
    ensures
        0 <= 2 * sq(t) <= UNIT / 2 + 1,
        2 * sq(t) <= UNIT,
{
    let u = UNIT as int;
    assert(4 * (t * t) <= u * u) by (nonlinear_arith)
        requires
            0 <= t,
            2 * t <= u,
    ;
    let s = t * t / u;
    assert(s * u <= t * t && s >= 0) by (nonlinear_arith)
        requires
            u > 0,
            t * t >= 0,
            s == t * t / u,
    ;
    assert(4 * s <= u) by (nonlinear_arith)
        requires
            s * u <= t * t,
            4 * (t * t) <= u * u,
            u > 0,
    ;
}

proof fn lemma_smoothstep_unit(t: int)
    requires
        0 <= t <= UNIT,
    ensures
        0 <= ease_spec(EasingFunction::SmoothStep, t) <= UNIT,
{
    let u = UNIT as int;
    lemma_powers_bounded(t);
    let s = sq(t);
    let w = 3 * u - 2 * t;
    assert(s * u <= t * t) by (nonlinear_arith)
        requires
            u > 0,
            s == t * t / u,
    ;
    assert(u * u * u - w * (t * t) == (u - t) * (u - t) * (u + 2 * t)) by (nonlinear_arith)
        requires
            w == 3 * u - 2 * t,
    ;
    assert((u - t) * (u - t) * (u + 2 * t) >= 0) by (nonlinear_arith)
        requires
            0 <= t <= u,
    ;
    assert(w * s * u <= w * (t * t)) by (nonlinear_arith)
        requires
            w >= 0,
            s * u <= t * t,
    ;
    assert(w * s <= u * u) by (nonlinear_arith)
        requires
            w * s * u <= u * u * u,
            u > 0,
    ;
    assert(w * s / u <= u) by (nonlinear_arith)
        requires
            w * s <= u * u,
            w * s >= 0,
            u > 0,
    ;
}

/// The smoother step stays between 0 and 1.
proof fn lemma_smootherstep_unit(t: int)
    requires
        0 <= t <= UNIT,
    ensures
        0 <= ease_spec(EasingFunction::SmootherStep, t) <= UNIT,
{
    let u = UNIT as int;
    lemma_powers_bounded(t);
    let s = sq(t);
    let c = cube(t);
    assert(s * u <= t * t && t * t < s * u + u) by (nonlinear_arith)
        requires
            u > 0,
            s == t * t / u,
    ;
    assert(c * u <= s * t) by (nonlinear_arith)
        requires
            u > 0,
            c == s * t / u,
            s * t >= 0,
    ;
    let q = 6 * s + 10 * u - 15 * t;
    let p = 6 * (t * t) + 10 * (u * u) - 15 * t * u;
    let d = u - t;
    let w = 3 * u - 2 * t;
    assert(u * q >= p - 6 * u) by (nonlinear_arith)
        requires
            q == 6 * s + 10 * u - 15 * t,
            p == 6 * (t * t) + 10 * (u * u) - 15 * t * u,
            t * t < s * u + u,
    ;
    assert(p == u * u + 3 * w * d) by (nonlinear_arith)
        requires
            p == 6 * (t * t) + 10 * (u * u) - 15 * t * u,
            w == 3 * u - 2 * t,
            d == u - t,
    ;
    assert(3 * w * d >= 0) by (nonlinear_arith)
        requires
            w >= 0,
            d >= 0,
    ;
    assert(q >= 0) by (nonlinear_arith)
        requires
            u * q >= p - 6 * u,
            p >= u * u,
            u == 1000000,
    ;
    assert(u * q <= p) by (nonlinear_arith)
        requires
            q == 6 * s + 10 * u - 15 * t,
            p == 6 * (t * t) + 10 * (u * u) - 15 * t * u,
            s * u <= t * t,
    ;
    let t3 = t * t * t;
    assert(c * u * u <= t3) by (nonlinear_arith)
        requires
            c * u <= s * t,
            s * u <= t * t,
            c >= 0,
            t >= 0,
            u > 0,
            t3 == t * t * t,
    ;
    let g = u * u + u * t + t * t;
    assert(u * u * u - t3 == d * g) by (nonlinear_arith)
        requires
            d == u - t,
            g == u * u + u * t + t * t,
            t3 == t * t * t,
    ;
    let h = 6 * (t * t) + 3 * u * t + u * u;
    let aa = 3 * w * t3;
    let bb = u * u * g;
    let tt = t * t;
    let ut = u * t;
    let uu = u * u;
    let d2 = d * d;
    assert(d2 == uu - 2 * ut + tt) by (nonlinear_arith)
        requires
            d == u - t,
            d2 == d * d,
            tt == t * t,
            ut == u * t,
            uu == u * u,
    ;
    assert(h == 6 * tt + 3 * ut + uu);
    assert(g == uu + ut + tt);
    assert(t3 == tt * t);
    let e1 = uu * tt;
    let e2 = uu * ut;
    let e3 = uu * uu;
    let e4 = ut * tt;
    let e5 = ut * ut;
    let e6 = tt * tt;
    assert(d2 * h == 6 * e1 + 3 * e2 + e3 - 12 * e4 - 6 * e5 - 2 * e2 + 6 * e6 + 3 * e4 + e1) by (nonlinear_arith)
        requires
            d2 == uu - 2 * ut + tt,
            h == 6 * tt + 3 * ut + uu,
            e1 == uu * tt,
            e2 == uu * ut,
            e3 == uu * uu,
            e4 == ut * tt,
            e5 == ut * ut,
            e6 == tt * tt,
    ;
    assert(e5 == e1) by (nonlinear_arith)
        requires
            e5 == ut * ut,
            e1 == uu * tt,
            ut == u * t,
            uu == u * u,
            tt == t * t,
    ;
    assert(bb == e3 + e2 + e1) by (nonlinear_arith)
        requires
            bb == u * u * g,
            g == uu + ut + tt,
            uu == u * u,
            e1 == uu * tt,
            e2 == uu * ut,
            e3 == uu * uu,
    ;
    assert(aa == 9 * e4 - 6 * e6) by (nonlinear_arith)
        requires
            aa == 3 * w * t3,
            w == 3 * u - 2 * t,
            t3 == tt * t,
            tt == t * t,
            ut == u * t,
            e4 == ut * tt,
            e6 == tt * tt,
    ;
    assert(bb - aa == d * d * h);
    assert(d * d * h >= 0) by (nonlinear_arith)
        requires
            d >= 0,
            h >= 0,
    ;
    assert(aa * d <= bb * d) by (nonlinear_arith)
        requires
            aa <= bb,
            d >= 0,
    ;
    assert(p * t3 == u * u * t3 + aa * d) by (nonlinear_arith)
        requires
            p == u * u + 3 * w * d,
            aa == 3 * w * t3,
    ;
    assert(u * u * t3 + bb * d == u * u * (u * u * u)) by (nonlinear_arith)
        requires
            bb == u * u * g,
            d * g == u * u * u - t3,
    ;
    let x = (6 * s + 10 * u) * c;
    let y = 15 * t * c;
    assert(x - y == q * c) by (nonlinear_arith)
        requires
            x == (6 * s + 10 * u) * c,
            y == 15 * t * c,
            q == 6 * s + 10 * u - 15 * t,
    ;
    let qc = q * c;
    assert(qc >= 0) by (nonlinear_arith)
        requires
            q >= 0,
            c >= 0,
            qc == q * c,
    ;
    assert((u * q) * (c * u * u) <= p * t3) by (nonlinear_arith)
        requires
            0 <= u * q <= p,
            0 <= c * u * u <= t3,
    ;
    assert((u * q) * (c * u * u) == qc * (u * u * u)) by (nonlinear_arith)
        requires
            qc == q * c,
    ;
    assert(qc <= u * u) by (nonlinear_arith)
        requires
            qc * (u * u * u) <= u * u * (u * u * u),
            u > 0,
    ;
    let a = x / u;
    let b = y / u;
    assert(0 <= a - b <= u) by (nonlinear_arith)
        requires
            a == x / u,
            b == y / u,
            x - y == qc,
            0 <= qc <= u * u,
            y >= 0,
            u > 0,
    ;
}

/// Every curve but the back curves stays between 0 and 1.
pub proof fn lemma_ease_in_unit(f: EasingFunction, t: int)
    requires
        0 <= t <= UNIT,
        stays_in_unit(f),
    ensures
        0 <= ease_spec(f, t) <= UNIT,
{
    let u = UNIT as int;
    lemma_powers_bounded(t);
    lemma_powers_bounded(u - t);
    match f {
        EasingFunction::SmoothStep => lemma_smoothstep_unit(t),
        EasingFunction::SmootherStep => lemma_smootherstep_unit(t),
        EasingFunction::EaseInOut => {
            if 2 * t < u {
                lemma_half_square(t);
            } else {
                lemma_half_square(u - t);
            }
        },
        _ => {},
    }
}

/// The easing curve `f` at progress `t`.
pub fn ease(f: EasingFunction, t: i64) -> (r: i64)
    requires
        0 <= t <= UNIT,
    ensures
        r == ease_spec(f, t as int),
        -16 * UNIT <= r <= 16 * UNIT,
        stays_in_unit(f) ==> 0 <= r <= UNIT,
{
    proof {
        if stays_in_unit(f) {
            lemma_ease_in_unit(f, t as int);
        }
        lemma_ease_bounded(f, t as int);
        lemma_powers_bounded(t as int);
        lemma_powers_bounded(UNIT - t);
    }
    let s = t * t / UNIT;
    let c = s * t / UNIT;
    let v = UNIT - t;
    let sv = v * v / UNIT;
    let cv = sv * v / UNIT;
    match f {
        EasingFunction::Linear => t,
        EasingFunction::SmoothStep => (3 * UNIT - 2 * t) * s / UNIT,
        EasingFunction::SmootherStep => (6 * s + 10 * UNIT) * c / UNIT - 15 * t * c / UNIT,
        EasingFunction::EaseIn => s,
        EasingFunction::EaseOut => UNIT - sv,
        EasingFunction::EaseInOut => if 2 * t < UNIT {
            2 * s
        } else {
            UNIT - 2 * sv
        },
        EasingFunction::EaseInBack => BACK_C3 * c / UNIT - BACK_C1 * s / UNIT,
        EasingFunction::EaseOutBack => UNIT - BACK_C3 * cv / UNIT + BACK_C1 * sv / UNIT,
    }
}

/// Every easing curve starts at 0 and ends at 1.
pub proof fn lemma_ease_end_points(f: EasingFunction)
    ensures
        ease_spec(f, 0) == 0,
        ease_spec(f, UNIT as int) == UNIT,
{
    let u = UNIT as int;
    assert(u * u / u == u) by (nonlinear_arith)
        requires
            u > 0,
    ;
    assert(sq(u) == u);
    assert(cube(u) == u);
    assert(sq(0) == 0);
    assert(cube(0) == 0);
}

/// `p / UNIT`, rounded toward zero.
pub open spec fn scaled(p: int) -> int {
    if p >= 0 {
        p / (UNIT as int)
    } else {
        -((-p) / (UNIT as int))
    }
}

/// The value of a transition from `from` to `to` at progress `t`:
/// `from + (to - from) * f(t)`.
pub open spec fn value_at(from: int, to: int, f: EasingFunction, t: int) -> int {
    from + scaled((to - from) * ease_spec(f, t))
}

/// Progress, in units of `UNIT`, after `elapsed` of `duration`.
pub open spec fn progress(elapsed: int, duration: int) -> int {
    elapsed * UNIT / duration
}

/// A tween that has not started, at its start point.
pub open spec fn fresh(from: i64, to: i64, duration: u32, easing: EasingFunction) -> Tween {
    Tween {
        from,
        to,
        duration,
        easing,
        value: from,
        has_started: false,
        is_paused: false,
        is_ended: from == to,
        infinite: false,
        elapsed: 0,
    }
}

/// A time-driven interpolation of one scalar between two end points.
#[derive(Clone, Copy, Debug, PartialEq, Eq, Structural)]
pub struct Tween {
    pub from: i64,
    pub to: i64,
    /// Length of the transition, in milliseconds.
    pub duration: u32,
    pub easing: EasingFunction,
    pub value: i64,
    pub has_started: bool,
    pub is_paused: bool,
    pub is_ended: bool,
    /// Wraps back to the start instead of ending.
    pub infinite: bool,
    /// Time spent so far, in milliseconds, between 0 and `duration`.
    pub elapsed: u32,
}

impl Tween {
    pub open spec fn wf(self) -> bool {
        &&& -POS_LIMIT <= self.from <= POS_LIMIT
        &&& -POS_LIMIT <= self.to <= POS_LIMIT
        &&& self.elapsed <= self.duration
    }

    /// The tween after `dt` milliseconds, and whether it ended during them.
    pub open spec fn update_spec(self, dt: i64) -> (Tween, bool) {
        if !self.has_started || self.is_paused || self.is_ended {
            (self, false)
        } else {
            let e = self.elapsed + dt;
            if e >= self.duration || (dt < 0 && e <= 0) {
                if self.infinite {
                    (Tween { elapsed: 0, value: self.from, ..self }, false)
                } else if e >= self.duration {
                    (Tween { elapsed: self.duration, value: self.to, is_ended: true, ..self }, true)
                } else {
                    (Tween { elapsed: 0, value: self.from, is_ended: true, ..self }, true)
                }
            } else {
                (
                    Tween {
                        elapsed: e as u32,
                        value: value_at(
                            self.from as int,
                            self.to as int,
                            self.easing,
                            progress(e, self.duration as int),
                        ) as i64,
                        ..self
                    },
                    false,
                )
            }
        }
    }

    /// A tween at its start point; one whose end points are equal has already ended.
    pub fn new(from: i64, to: i64, duration: u32, easing: EasingFunction) -> (r: Tween)
        requires
            -POS_LIMIT <= from <= POS_LIMIT,
            -POS_LIMIT <= to <= POS_LIMIT,
        ensures
            r == fresh(from, to, duration, easing),
            r.wf(),
    {
        Tween {
            from,
            to,
            duration,
            easing,
            value: from,
            has_started: false,
            is_paused: false,
            is_ended: from == to,
            infinite: false,
            elapsed: 0,
        }
    }

    /// Like `new`, but the tween starts over each time it reaches an end.
    pub fn new_infinite(from: i64, to: i64, duration: u32, easing: EasingFunction) -> (r: Tween)
        requires
            -POS_LIMIT <= from <= POS_LIMIT,
            -POS_LIMIT <= to <= POS_LIMIT,
        ensures
            r == (Tween { infinite: true, ..fresh(from, to, duration, easing) }),
            r.wf(),
    {
        let mut t = Tween::new(from, to, duration, easing);
        t.infinite = true;
        t
    }

    pub fn start(&mut self)
        ensures
            *final(self) == (Tween {
                is_ended: old(self).from == old(self).to,
                has_started: true,
                ..*old(self)
            }),
    {
        self.is_ended = self.from == self.to;
        self.has_started = true;
    }

    pub fn reset(&mut self)
        ensures
            *final(self) == (Tween {
                elapsed: 0,
                is_paused: false,
                has_started: false,
                is_ended: false,
                ..*old(self)
            }),
    {
        self.elapsed = 0;
        self.is_paused = false;
        self.has_started = false;
        self.is_ended = false;
    }

    pub fn toggle(&mut self)
        ensures
            *final(self) == (Tween { is_paused: !old(self).is_paused, ..*old(self) }),
    {
        if self.is_paused {
            self.resume();
        } else {
            self.pause();
        }
    }

    pub fn pause(&mut self)
        ensures
            *final(self) == (Tween { is_paused: true, ..*old(self) }),
    {
        self.is_paused = true;
    }

    pub fn resume(&mut self)
        ensures
            *final(self) == (Tween { is_paused: false, ..*old(self) }),
    {
        self.is_paused = false;
    }

    pub fn is_running(&self) -> (r: bool)
        ensures
            r == (self.has_started && !(self.is_ended || self.is_paused)),
    {
        self.has_started && !(self.is_ended || self.is_paused)
    }

    /// Advances the tween by `dt` milliseconds (backwards when negative). Returns whether
    /// it ended now, which is when a redraw and a finish notice are due.
    pub fn update(&mut self, dt: i64) -> (finished: bool)
        requires
            old(self).wf(),
        ensures
            (*final(self), finished) == old(self).update_spec(dt),
            final(self).wf(),
    {
        if !self.has_started || self.is_paused || self.is_ended {
            return false;
        }
        let e: i128 = self.elapsed as i128 + dt as i128;
        if e >= self.duration as i128 || (dt < 0 && e <= 0) {
            if self.infinite {
                self.elapsed = 0;
                self.value = self.from;
                return false;
            } else if e >= self.duration as i128 {
                self.elapsed = self.duration;
                self.value = self.to;
                self.is_ended = true;
                return true;
            } else {
                self.elapsed = 0;
                self.value = self.from;
                self.is_ended = true;
                return true;
            }
        }
        let e = e as u32;
        let t = self.progress_at(e);
        let f = ease(self.easing, t);
        let delta: i128 = self.to as i128 - self.from as i128;
        proof {
            let lim = 2 * POS_LIMIT as int;
            let m = 16 * UNIT as int;
            assert(-lim * m <= delta * f <= lim * m) by (nonlinear_arith)
                requires
                    -lim <= delta <= lim,
                    -m <= f <= m,
            ;
            assert(lim * m / (UNIT as int) == lim * 16);
            assert(-lim * 16 <= scaled(delta * f) <= lim * 16) by (nonlinear_arith)
                requires
                    -lim * m <= delta * f <= lim * m,
                    m == 16 * UNIT,
                    UNIT > 0,
            ;
        }
        let p: i128 = delta * f as i128;
        let q: i128 = if p >= 0 {
            p / UNIT as i128
        } else {
            -((-p) / UNIT as i128)
        };
        self.elapsed = e;
        self.value = (self.from as i128 + q) as i64;
        false
    }

    fn progress_at(&self, e: u32) -> (t: i64)
        requires
            e < self.duration,
        ensures
            t == progress(e as int, self.duration as int),
            0 <= t <= UNIT,
    {
        proof {
            let d = self.duration as int;
            assert(0 <= e * UNIT / d <= UNIT) by (nonlinear_arith)
                requires
                    0 <= e < d,
            ;
        }
        (e as u64 * UNIT as u64 / self.duration as u64) as i64
    }
}

/// Total of a sequence of time steps.
pub open spec fn total(dts: Seq<i64>) -> int
    decreases dts.len(),
{
    if dts.len() == 0 {
        0
    } else {
        dts[0] + total(dts.drop_first())
    }
}

/// The tween after each of `dts` in turn, and how many of those updates ended it.
pub open spec fn run(tw: Tween, dts: Seq<i64>) -> (Tween, nat)
    decreases dts.len(),
{
    if dts.len() == 0 {
        (tw, 0)
    } else {
        let (next, finished) = tw.update_spec(dts[0]);
        let (last, count) = run(next, dts.drop_first());
        (last, count + if finished {
            1nat
        } else {
            0nat
        })
    }
}

/// Once a tween has ended, further updates change nothing and none reports an end.
pub proof fn lemma_run_ended(tw: Tween, dts: Seq<i64>)
    requires
        tw.is_ended,
    ensures
        run(tw, dts) == (tw, 0nat),
    decreases dts.len(),
{
    if dts.len() > 0 {
        lemma_run_ended(tw, dts.drop_first());
    }
}

proof fn lemma_total_nonneg(dts: Seq<i64>)
    requires
        forall|i: int| 0 <= i < dts.len() ==> dts[i] >= 0,
    ensures
        total(dts) >= 0,
    decreases dts.len(),
{
    if dts.len() > 0 {
        lemma_total_nonneg(dts.drop_first());
    }
}

proof fn lemma_run_from_running(tw: Tween, dts: Seq<i64>)
    requires
        tw.has_started,
        !tw.is_paused,
        !tw.is_ended,
        !tw.infinite,
        dts.len() > 0,
        forall|i: int| 0 <= i < dts.len() ==> dts[i] >= 0,
        tw.elapsed + total(dts) == tw.duration,
    ensures
        run(tw, dts).0.is_ended,
        run(tw, dts).0.value == tw.to,
        run(tw, dts).1 == 1,
    decreases dts.len(),
{
    let rest = dts.drop_first();
    lemma_total_nonneg(rest);
    let (next, finished) = tw.update_spec(dts[0]);
    if tw.elapsed + dts[0] >= tw.duration {
        lemma_run_ended(next, rest);
    } else {
        assert(rest.len() > 0);
        lemma_run_from_running(next, rest);
    }
}

/// Started from its beginning, a transition between two different points that is fed
/// time steps adding up to its duration ends exactly once, at its end point.
pub proof fn lemma_tween_reaches_target(
    from: i64,
    to: i64,
    duration: u32,
    easing: EasingFunction,
    dts: Seq<i64>,
)
    requires
        from != to,
        dts.len() > 0,
        forall|i: int| 0 <= i < dts.len() ==> dts[i] >= 0,
        total(dts) == duration,
    ensures
        ({
            let started = Tween { has_started: true, ..fresh(from, to, duration, easing) };
            run(started, dts).0.is_ended && run(started, dts).0.value == to && run(started, dts).1
                == 1
        }),
{
    let started = Tween { has_started: true, ..fresh(from, to, duration, easing) };
    lemma_run_from_running(started, dts);
}

/// A transition between equal points has ended before any update.
pub proof fn lemma_tween_zero_length(from: i64, duration: u32, easing: EasingFunction)
    ensures
        fresh(from, from, duration, easing).is_ended,
{
}

} // verus!
