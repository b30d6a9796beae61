use vstd::prelude::*;

use vstd::arithmetic::div_mod::{lemma_div_is_ordered, lemma_div_multiples_vanish, lemma_div_pos_is_pos};

use crate::store::{Ent, Store};
use crate::timer::{Timer, MAX_DURATION_MS};

verus! {

/// Largest coordinate magnitude an animated position may have.
pub const TWEEN_BOUND: i64 = 0x200000000;

/// An animated 3D position in integer world units (x, y, and render layer z).
#[derive(Clone, Copy, PartialEq, Eq, Structural, Debug)]
pub struct Vec3i {
    pub x: i64,
    pub y: i64,
    pub z: i64,
}

impl Vec3i {
    pub fn new(x: i64, y: i64, z: i64) -> (r: Vec3i)
        ensures
            r == (Vec3i { x, y, z }),
    {
        Vec3i { x, y, z }
    }

    pub fn zero() -> (r: Vec3i)
        ensures
            r == (Vec3i { x: 0, y: 0, z: 0 }),
    {
        Vec3i { x: 0, y: 0, z: 0 }
    }
}

pub open spec fn pos_bounded(v: Vec3i) -> bool {
    &&& -TWEEN_BOUND <= v.x <= TWEEN_BOUND
    &&& -TWEEN_BOUND <= v.y <= TWEEN_BOUND
    &&& -TWEEN_BOUND <= v.z <= TWEEN_BOUND
}

/// Which easing profile a tween follows.
#[derive(Clone, Copy, PartialEq, Eq, Structural, Debug)]
pub enum TweenMode {
    /// Slide: straight interpolation from `from`, reaching `to` at completion.
    Move,
    /// Lunge: travel from `from` toward `to` and back, ending at `from`.
    Attack,
}

pub open spec fn abs_int(v: int) -> int {
    if v >= 0 {
        v
    } else {
        -v
    }
}

/// Easing numerator out of denominator `d` after `e` of `d` milliseconds:
/// the slide profile is `e` itself; the lunge profile is `d - |2e - d|`,
/// zero at both ends and `d` exactly at the half-way point.
pub open spec fn ease_num(mode: TweenMode, e: int, d: int) -> int {
    match mode {
        TweenMode::Move => e,
        TweenMode::Attack => d - abs_int(2 * e - d),
    }
}

/// Interpolation from `a` toward `b` by the fraction `k / d`, computed on
/// integers with the division applied to a nonnegative magnitude.
pub open spec fn lerp_coord(a: int, b: int, k: int, d: int) -> int {
    if b >= a {
        a + (b - a) * k / d
    } else {
        a - (a - b) * k / d
    }
}

/// The interpolated coordinate of a tween axis after `e` of `d` milliseconds.
pub open spec fn tween_coord(mode: TweenMode, a: int, b: int, e: int, d: int) -> int {
    lerp_coord(a, b, ease_num(mode, e, d), d)
}

/// The easing numerator stays within `[0, d]` whenever `0 <= e <= d`.
pub proof fn lemma_ease_in_range(mode: TweenMode, e: int, d: int)
    requires
        0 <= e <= d,
    ensures
        0 <= ease_num(mode, e, d) <= d,
{
}

/// Interpolating by a whole fraction lands exactly on an endpoint.
pub proof fn lemma_lerp_endpoints(a: int, b: int, d: int)
    requires
        1 <= d,
    ensures
        lerp_coord(a, b, 0, d) == a,
        lerp_coord(a, b, d, d) == b,
{
    if b >= a {
        assert((b - a) * 0 == 0);
        assert((b - a) * 0 / d == 0);
        assert((b - a) * d == d * (b - a)) by (nonlinear_arith);
        lemma_div_multiples_vanish(b - a, d);
    } else {
        assert((a - b) * 0 == 0);
        assert((a - b) * 0 / d == 0);
        assert((a - b) * d == d * (a - b)) by (nonlinear_arith);
        lemma_div_multiples_vanish(a - b, d);
    }
}

/// Terminal values of both easing profiles: at the start both yield `from`;
/// at completion the slide yields `to` while the lunge has returned to
/// `from`; exactly half-way through, the lunge yields `to`.
pub proof fn lemma_tween_terminals(a: int, b: int, d: int, e: int)
    requires
        1 <= d,
        0 <= e <= d,
    ensures
        tween_coord(TweenMode::Move, a, b, 0, d) == a,
        tween_coord(TweenMode::Attack, a, b, 0, d) == a,
        tween_coord(TweenMode::Move, a, b, d, d) == b,
        tween_coord(TweenMode::Attack, a, b, d, d) == a,
        2 * e == d ==> tween_coord(TweenMode::Attack, a, b, e, d) == b,
{
    lemma_lerp_endpoints(a, b, d);
    assert(ease_num(TweenMode::Attack, 0, d) == 0);
    assert(ease_num(TweenMode::Attack, d, d) == 0);
    if 2 * e == d {
        assert(ease_num(TweenMode::Attack, e, d) == d);
    }
}

/// Interpolating by a fraction of the whole stays between the endpoints.
pub proof fn lemma_lerp_in_range(a: int, b: int, k: int, d: int)
    requires
        1 <= d,
        0 <= k <= d,
    ensures
        a <= b ==> a <= lerp_coord(a, b, k, d) <= b,
        b < a ==> b <= lerp_coord(a, b, k, d) <= a,
{
    if b >= a {
        assert(0 <= (b - a) * k) by (nonlinear_arith)
            requires
                0 <= b - a,
                0 <= k,
        ;
        lemma_div_pos_is_pos((b - a) * k, d);
        assert((b - a) * k <= (b - a) * d) by (nonlinear_arith)
            requires
                0 <= b - a,
                k <= d,
        ;
        lemma_div_is_ordered((b - a) * k, (b - a) * d, d);
        assert((b - a) * d == d * (b - a)) by (nonlinear_arith);
        lemma_div_multiples_vanish(b - a, d);
    } else {
        assert(0 <= (a - b) * k) by (nonlinear_arith)
            requires
                0 <= a - b,
                0 <= k,
        ;
        lemma_div_pos_is_pos((a - b) * k, d);
        assert((a - b) * k <= (a - b) * d) by (nonlinear_arith)
            requires
                0 <= a - b,
                k <= d,
        ;
        lemma_div_is_ordered((a - b) * k, (a - b) * d, d);
        assert((a - b) * d == d * (a - b)) by (nonlinear_arith);
        lemma_div_multiples_vanish(a - b, d);
    }
}

/// A well-formed tween's interpolated position stays within bounds.
pub proof fn lemma_tween_value_bounded(t: Tween)
    requires
        t.wf(),
    ensures
        pos_bounded(t.value_spec()),
{
    let e = t.timer_spec().elapsed();
    let d = t.timer_spec().duration();
    lemma_ease_in_range(t.mode_spec(), e, d);
    lemma_lerp_in_range(t.from.x as int, t.to.x as int, ease_num(t.mode_spec(), e, d), d);
    lemma_lerp_in_range(t.from.y as int, t.to.y as int, ease_num(t.mode_spec(), e, d), d);
    lemma_lerp_in_range(t.from.z as int, t.to.z as int, ease_num(t.mode_spec(), e, d), d);
}

/// One interpolated axis, computed in unsigned arithmetic on the magnitude.
fn lerp_axis(a: i64, b: i64, k: u32, d: u32) -> (r: i64)
    requires
        -TWEEN_BOUND <= a <= TWEEN_BOUND,
        -TWEEN_BOUND <= b <= TWEEN_BOUND,
        1 <= d <= MAX_DURATION_MS,
        k <= d,
    ensures
        r == lerp_coord(a as int, b as int, k as int, d as int),
{
    if b >= a {
        let delta = (b - a) as u64;
        proof {
            assert(delta * (k as u64) <= delta * (d as u64) && delta * (d as u64)
                <= 0x400000000u64 * 1000000u64) by (nonlinear_arith)
                requires
                    k <= d <= 1000000u64,
                    delta <= 0x400000000u64,
            ;
        }
        let q = delta * (k as u64) / (d as u64);
        proof {
            lemma_div_is_ordered(
                (delta * (k as u64)) as int,
                (delta * (d as u64)) as int,
                d as int,
            );
            assert((delta as int) * (d as int) == (d as int) * (delta as int)) by (nonlinear_arith);
            lemma_div_multiples_vanish(delta as int, d as int);
            assert(q <= delta);
        }
        a + (q as i64)
    } else {
        let delta = (a - b) as u64;
        proof {
            assert(delta * (k as u64) <= delta * (d as u64) && delta * (d as u64)
                <= 0x400000000u64 * 1000000u64) by (nonlinear_arith)
                requires
                    k <= d <= 1000000u64,
                    delta <= 0x400000000u64,
            ;
        }
        let q = delta * (k as u64) / (d as u64);
        proof {
            lemma_div_is_ordered(
                (delta * (k as u64)) as int,
                (delta * (d as u64)) as int,
                d as int,
            );
            assert((delta as int) * (d as int) == (d as int) * (delta as int)) by (nonlinear_arith);
            lemma_div_multiples_vanish(delta as int, d as int);
            assert(q <= delta);
        }
        a - (q as i64)
    }
}

/// Per-entity interpolation state: observes a logical transition between two
/// world positions and yields the continuous in-between position.
#[derive(Clone, Copy, PartialEq, Eq, Structural, Debug)]
pub struct Tween {
    pub from: Vec3i,
    pub to: Vec3i,
    pub timer: Timer,
    pub mode: TweenMode,
}

impl Tween {
    pub open spec fn timer_spec(self) -> Timer {
        self.timer
    }

    pub open spec fn mode_spec(self) -> TweenMode {
        self.mode
    }

    pub open spec fn wf(self) -> bool {
        &&& pos_bounded(self.from)
        &&& pos_bounded(self.to)
        &&& self.timer_spec().wf()
    }

    /// The interpolated position this tween stands at.
    pub open spec fn value_spec(self) -> Vec3i {
        Vec3i {
            x: tween_coord(
                self.mode_spec(),
                self.from.x as int,
                self.to.x as int,
                self.timer_spec().elapsed(),
                self.timer_spec().duration(),
            ) as i64,
            y: tween_coord(
                self.mode_spec(),
                self.from.y as int,
                self.to.y as int,
                self.timer_spec().elapsed(),
                self.timer_spec().duration(),
            ) as i64,
            z: tween_coord(
                self.mode_spec(),
                self.from.z as int,
                self.to.z as int,
                self.timer_spec().elapsed(),
                self.timer_spec().duration(),
            ) as i64,
        }
    }

    pub fn new(translation: Vec3i) -> (r: Tween)
        requires
            pos_bounded(translation),
        ensures
            r.from == translation,
            r.to == translation,
            r.mode_spec() == TweenMode::Move,
            r.timer_spec().elapsed() == 0,
            r.timer_spec().duration() == 200,
            r.wf(),
    {
        Tween {
            from: translation,
            to: translation,
            timer: Timer::from_millis(200),
            mode: TweenMode::Move,
        }
    }

    pub fn value(&self) -> (r: Vec3i)
        requires
            self.wf(),
        ensures
            r == self.value_spec(),
    {
        let e = self.timer.elapsed_millis();
        let d = self.timer.duration_millis();
        let k: u32 = match self.mode {
            TweenMode::Move => e,
            TweenMode::Attack => {
                let t2: u64 = 2 * (e as u64);
                let dd: u64 = d as u64;
                let diff = if t2 >= dd {
                    t2 - dd
                } else {
                    dd - t2
                };
                (dd - diff) as u32
            },
        };
        proof {
            lemma_ease_in_range(self.mode, e as int, d as int);
        }
        Vec3i {
            x: lerp_axis(self.from.x, self.to.x, k, d),
            y: lerp_axis(self.from.y, self.to.y, k, d),
            z: lerp_axis(self.from.z, self.to.z, k, d),
        }
    }

    /// Advance the animation by `delta_ms` of real time; a completed tween
    /// stays frozen at its terminal value.
    pub fn tick(&mut self, delta_ms: u32)
        requires
            old(self).wf(),
        ensures
            final(self).wf(),
            final(self).from == old(self).from,
            final(self).to == old(self).to,
            final(self).mode_spec() == old(self).mode_spec(),
            final(self).timer_spec().duration() == old(self).timer_spec().duration(),
            final(self).timer_spec().elapsed() == old(self).timer_spec().advanced(
                delta_ms as int,
            ),
    {
        self.timer.tick(delta_ms);
    }

    /// Restart the animation with a fresh period and easing profile; the
    /// recorded endpoints are left for the caller to set.
    pub fn start(&mut self, duration_ms: u32, mode: TweenMode)
        requires
            1 <= duration_ms <= MAX_DURATION_MS,
        ensures
            final(self).from == old(self).from,
            final(self).to == old(self).to,
            final(self).mode_spec() == mode,
            final(self).timer_spec().elapsed() == 0,
            final(self).timer_spec().duration() == duration_ms,
            pos_bounded(old(self).from) && pos_bounded(old(self).to) ==> final(self).wf(),
    {
        self.mode = mode;
        self.timer.restart(duration_ms);
    }

    pub fn finished(&self) -> (r: bool)
        ensures
            r == self.timer_spec().spec_finished(),
    {
        self.timer.finished()
    }
}

impl Default for Tween {
    /// A completed slide resting at the origin.
    fn default() -> (r: Tween)
        ensures
            r.from == (Vec3i { x: 0, y: 0, z: 0 }),
            r.to == (Vec3i { x: 0, y: 0, z: 0 }),
            r.mode_spec() == TweenMode::Move,
            r.timer_spec().elapsed() == 0,
            r.timer_spec().duration() == 200,
            r.wf(),
    {
        Tween {
            from: Vec3i { x: 0, y: 0, z: 0 },
            to: Vec3i { x: 0, y: 0, z: 0 },
            timer: Timer::from_millis(200),
            mode: TweenMode::Move,
        }
    }
}

/// A tween with its clock advanced by `delta` milliseconds of real time.
pub open spec fn ticked_tween(t: Tween, delta: int) -> Tween {
    Tween {
        timer: Timer {
            elapsed_ms: t.timer.advanced(delta) as u32,
            duration_ms: t.timer.duration_ms,
        },
        ..t
    }
}

/// Advance every entity's running tween by this frame's real time; a tween
/// that has already completed stays frozen at its terminal value until its
/// next start. The render layer then reads each entity's `tween.value()`.
pub fn tween(store: &mut Store, delta_ms: u32)
    requires
        old(store).wf(),
    ensures
        final(store).wf(),
        final(store).s().len() == old(store).s().len(),
        forall|m: int|
            0 <= m < old(store).s().len() ==> final(store).s()[m] == if (#[trigger] old(
                store,
            ).s()[m]).tween.timer_spec().spec_finished() {
                old(store).s()[m]
            } else {
                Ent { tween: ticked_tween(old(store).s()[m].tween, delta_ms as int), ..old(
                    store,
                ).s()[m] }
            },
{
    let n = store.len();
    let mut i: usize = 0;
    while i < n
        invariant
            store.wf(),
            old(store).wf(),
            n == store.s().len(),
            n == old(store).s().len(),
            0 <= i <= n,
            forall|m: int| i <= m < n ==> store.s()[m] == old(store).s()[m],
            forall|m: int|
                0 <= m < i ==> store.s()[m] == if (#[trigger] old(
                    store,
                ).s()[m]).tween.timer_spec().spec_finished() {
                    old(store).s()[m]
                } else {
                    Ent { tween: ticked_tween(old(store).s()[m].tween, delta_ms as int), ..old(
                        store,
                    ).s()[m] }
                },
        decreases n - i,
    {
        let mut e = store.ents[i];
        if !e.tween.finished() {
            e.tween.tick(delta_ms);
            proof {
                assert(e.tween == ticked_tween(old(store).s()[i as int].tween, delta_ms as int));
            }
            store.set_at(i, e);
        }
        i = i + 1;
    }
}

} // verus!
