//! Fan curves: temperature keyed speed points and their evaluation.
//!
//! A speed is a fraction of full speed in steps of one ten-thousandth, so
//! `FULL_SPEED` stands for 1.0 and `0` for a fan at rest.

use vstd::arithmetic::div_mod::{
    lemma_div_is_ordered, lemma_div_multiples_vanish, lemma_div_pos_is_pos,
    lemma_fundamental_div_mod, lemma_hoist_over_denominator, lemma_mod_bound,
};
use vstd::prelude::*;

verus! {

/// The speed that stands for a fan running flat out.
pub const FULL_SPEED: u32 = 10_000;

/// The duty cycle that the hardware takes for a fan running flat out.
pub const FULL_DUTY: u8 = 255;

/// One point of a curve: at `temperature` the fan runs at `speed`.
#[derive(Clone, Copy, Debug, PartialEq, Eq, Structural)]
pub struct CurvePoint {
    pub temperature: i64,
    pub speed: u32,
}

/// Temperatures rise strictly from one point to the next.
pub open spec fn ascending(s: Seq<CurvePoint>) -> bool {
    forall|i: int, j: int| 0 <= i < j < s.len() ==> s[i].temperature < s[j].temperature
}

/// No point asks for more than full speed.
pub open spec fn within_full_speed(s: Seq<CurvePoint>) -> bool {
    forall|i: int| 0 <= i < s.len() ==> s[i].speed <= FULL_SPEED
}

/// What a sequence of points must satisfy to be a curve.
pub open spec fn is_curve(s: Seq<CurvePoint>) -> bool {
    s.len() > 0 && ascending(s) && within_full_speed(s)
}

/// How many leading points of `s` lie below `t`. In an ascending sequence
/// this is the index at which a point at `t` belongs.
pub open spec fn rank(s: Seq<CurvePoint>, t: int) -> int
    decreases s.len(),
{
    if s.len() == 0 {
        0
    } else if s.last().temperature < t {
        s.len() as int
    } else {
        rank(s.drop_last(), t)
    }
}

/// `s` with `p` put in its place: `p` replaces a point of the same
/// temperature, and otherwise goes between its cooler and hotter neighbours.
pub open spec fn with_point(s: Seq<CurvePoint>, p: CurvePoint) -> Seq<CurvePoint> {
    let k = rank(s, p.temperature as int);
    if k < s.len() && s[k].temperature == p.temperature {
        s.update(k, p)
    } else {
        s.insert(k, p)
    }
}

/// The curve that results from putting the points in one after another.
/// The order of arrival matters only where a temperature repeats: the later
/// point wins.
pub open spec fn curve_of(points: Seq<CurvePoint>) -> Seq<CurvePoint>
    decreases points.len(),
{
    if points.len() == 0 {
        Seq::empty()
    } else {
        with_point(curve_of(points.drop_last()), points.last())
    }
}

/// The speed on the straight line from `lo` to `hi` at temperature `t`,
/// rounded down to a whole step.
pub open spec fn interpolate(lo: CurvePoint, hi: CurvePoint, t: int) -> int {
    lo.speed + ((hi.speed - lo.speed) * (t - lo.temperature)) / (hi.temperature
        - lo.temperature)
}

/// The speed that curve `s` gives at temperature `t`: the first point's speed
/// at or below the lowest key, the last point's above the highest, and the
/// line between the two neighbouring points otherwise.
pub open spec fn speed_at(s: Seq<CurvePoint>, t: int) -> int {
    let k = rank(s, t);
    if k == 0 {
        s[0].speed as int
    } else if k == s.len() {
        s.last().speed as int
    } else {
        interpolate(s[k - 1], s[k], t)
    }
}

/// The duty cycle for a speed: the same fraction of `FULL_DUTY`, rounded
/// down; a speed beyond full counts as full.
pub open spec fn duty_of(speed: int) -> int {
    if speed >= FULL_SPEED {
        FULL_DUTY as int
    } else {
        (speed * FULL_DUTY as int) / (FULL_SPEED as int)
    }
}

/// The duty cycle to write for a speed.
pub fn duty(speed: u32) -> (d: u8)
    ensures
        d == duty_of(speed as int),
{
    if speed >= FULL_SPEED {
        FULL_DUTY
    } else {
        let scaled: u32 = speed * 255;
        (scaled / 10_000) as u8
    }
}

/// In an ascending sequence the rank of `t` is the index `k` that parts the
/// points below `t` from the rest.
pub proof fn lemma_rank_is_partition(s: Seq<CurvePoint>, t: int, k: int)
    requires
        0 <= k <= s.len(),
        forall|i: int| 0 <= i < k ==> s[i].temperature < t,
        forall|i: int| k <= i < s.len() ==> s[i].temperature >= t,
    ensures
        rank(s, t) == k,
    decreases s.len(),
{
    if s.len() == 0 {
    } else if s.last().temperature < t {
        if k < s.len() {
            assert(s[s.len() - 1].temperature >= t);
        }
    } else {
        assert(k < s.len());
        let d = s.drop_last();
        assert forall|i: int| 0 <= i < k implies d[i].temperature < t by {
            assert(d[i] == s[i]);
        }
        assert forall|i: int| k <= i < d.len() implies d[i].temperature >= t by {
            assert(d[i] == s[i]);
        }
        lemma_rank_is_partition(d, t, k);
    }
}

/// The rank parts an ascending sequence: points before it are below `t`,
/// points from it on are not.
pub proof fn lemma_rank_parts(s: Seq<CurvePoint>, t: int)
    requires
        ascending(s),
    ensures
        0 <= rank(s, t) <= s.len(),
        forall|i: int| 0 <= i < rank(s, t) ==> s[i].temperature < t,
        forall|i: int| rank(s, t) <= i < s.len() ==> s[i].temperature >= t,
    decreases s.len(),
{
    if s.len() == 0 {
    } else if s.last().temperature < t {
        assert forall|i: int| 0 <= i < s.len() implies s[i].temperature < t by {
            if i < s.len() - 1 {
                assert(s[i].temperature < s[s.len() - 1].temperature);
            }
        }
    } else {
        let d = s.drop_last();
        assert(ascending(d)) by {
            assert forall|i: int, j: int| 0 <= i < j < d.len() implies d[i].temperature
                < d[j].temperature by {
                assert(d[i] == s[i] && d[j] == s[j]);
            }
        }
        lemma_rank_parts(d, t);
        assert forall|i: int| 0 <= i < rank(s, t) implies s[i].temperature < t by {
            assert(d[i] == s[i]);
        }
        assert forall|i: int| rank(s, t) <= i < s.len() implies s[i].temperature >= t by {
            if i < d.len() {
                assert(d[i] == s[i]);
            }
        }
    }
}

/// Putting a point in keeps an ascending sequence ascending, keeps speeds
/// within bounds, and leaves at least one point.
pub proof fn lemma_with_point_is_curve(s: Seq<CurvePoint>, p: CurvePoint)
    requires
        ascending(s),
        within_full_speed(s),
        p.speed <= FULL_SPEED,
    ensures
        is_curve(with_point(s, p)),
{
    let t = p.temperature as int;
    let k = rank(s, t);
    lemma_rank_parts(s, t);
    let r = with_point(s, p);
    if k < s.len() && s[k].temperature == p.temperature {
        assert forall|i: int, j: int| 0 <= i < j < r.len() implies r[i].temperature
            < r[j].temperature by {
            assert(r[i].temperature == s[i].temperature);
            assert(r[j].temperature == s[j].temperature);
        }
        assert forall|i: int| 0 <= i < r.len() implies r[i].speed <= FULL_SPEED by {
            if i != k {
                assert(r[i] == s[i]);
            }
        }
    } else {
        assert forall|i: int, j: int| 0 <= i < j < r.len() implies r[i].temperature
            < r[j].temperature by {
            if j < k {
                assert(r[i] == s[i] && r[j] == s[j]);
            } else if j == k {
                assert(r[i] == s[i]);
            } else if i < k {
                assert(r[i] == s[i] && r[j] == s[j - 1]);
            } else if i == k {
                assert(r[j] == s[j - 1]);
            } else {
                assert(r[i] == s[i - 1] && r[j] == s[j - 1]);
            }
        }
        assert forall|i: int| 0 <= i < r.len() implies r[i].speed <= FULL_SPEED by {
            if i < k {
                assert(r[i] == s[i]);
            } else if i > k {
                assert(r[i] == s[i - 1]);
            }
        }
    }
}

/// Any non-empty run of points within bounds makes a curve.
pub proof fn lemma_curve_of_is_curve(points: Seq<CurvePoint>)
    requires
        within_full_speed(points),
    ensures
        ascending(curve_of(points)),
        within_full_speed(curve_of(points)),
        points.len() > 0 ==> is_curve(curve_of(points)),
    decreases points.len(),
{
    if points.len() > 0 {
        let d = points.drop_last();
        assert(within_full_speed(d)) by {
            assert forall|i: int| 0 <= i < d.len() implies d[i].speed <= FULL_SPEED by {
                assert(d[i] == points[i]);
            }
        }
        lemma_curve_of_is_curve(d);
        lemma_with_point_is_curve(curve_of(d), points.last());
    }
}

/// No two points have the same temperature.
pub open spec fn distinct_temperatures(points: Seq<CurvePoint>) -> bool {
    forall|i: int, j: int|
        0 <= i < j < points.len() ==> points[i].temperature != points[j].temperature
}

/// Putting in a point whose temperature is new adds the point and keeps the
/// others.
proof fn lemma_with_point_members(s: Seq<CurvePoint>, p: CurvePoint)
    requires
        ascending(s),
        forall|i: int| 0 <= i < s.len() ==> s[i].temperature != p.temperature,
    ensures
        forall|x: CurvePoint| with_point(s, p).contains(x) <==> (s.contains(x) || x == p),
{
    let k = rank(s, p.temperature as int);
    lemma_rank_parts(s, p.temperature as int);
    let r = with_point(s, p);
    assert(r == s.insert(k, p));
    assert forall|x: CurvePoint| r.contains(x) <==> (s.contains(x) || x == p) by {
        if r.contains(x) {
            let i = choose|i: int| 0 <= i < r.len() && r[i] == x;
            if i < k {
                assert(s[i] == x);
            } else if i > k {
                assert(s[i - 1] == x);
            }
        }
        if s.contains(x) {
            let i = choose|i: int| 0 <= i < s.len() && s[i] == x;
            if i < k {
                assert(r[i] == x);
            } else {
                assert(r[i + 1] == x);
            }
        }
        if x == p {
            assert(r[k] == x);
        }
    }
}

/// The curve of points with distinct temperatures holds exactly the points.
proof fn lemma_curve_of_members(points: Seq<CurvePoint>)
    requires
        distinct_temperatures(points),
    ensures
        ascending(curve_of(points)),
        forall|x: CurvePoint| curve_of(points).contains(x) <==> points.contains(x),
    decreases points.len(),
{
    if points.len() == 0 {
        assert forall|x: CurvePoint| !curve_of(points).contains(x) by {}
    } else {
        let d = points.drop_last();
        let p = points.last();
        assert(distinct_temperatures(d)) by {
            assert forall|i: int, j: int| 0 <= i < j < d.len() implies d[i].temperature
                != d[j].temperature by {
                assert(d[i] == points[i] && d[j] == points[j]);
            }
        }
        lemma_curve_of_members(d);
        let c = curve_of(d);
        assert forall|i: int| 0 <= i < c.len() implies c[i].temperature != p.temperature by {
            assert(c.contains(c[i]));
            assert(d.contains(c[i]));
            let j = choose|j: int| 0 <= j < d.len() && d[j] == c[i];
            assert(points[j] == d[j]);
            assert(points[j].temperature != points[points.len() - 1].temperature);
        }
        lemma_with_point_members(c, p);
        assert forall|x: CurvePoint| curve_of(points).contains(x) <==> points.contains(x) by {
            if points.contains(x) {
                let i = choose|i: int| 0 <= i < points.len() && points[i] == x;
                if i < d.len() {
                    assert(d[i] == x);
                    assert(d.contains(x));
                }
            }
            if d.contains(x) {
                let i = choose|i: int| 0 <= i < d.len() && d[i] == x;
                assert(points[i] == x);
            }
            if x == p {
                assert(points[points.len() - 1] == x);
            }
        }
        lemma_ascending_after(c, p);
    }
}

/// Putting a point in keeps an ascending sequence ascending.
proof fn lemma_ascending_after(s: Seq<CurvePoint>, p: CurvePoint)
    requires
        ascending(s),
        forall|i: int| 0 <= i < s.len() ==> s[i].temperature != p.temperature,
    ensures
        ascending(with_point(s, p)),
{
    let k = rank(s, p.temperature as int);
    lemma_rank_parts(s, p.temperature as int);
    let r = with_point(s, p);
    assert forall|i: int, j: int| 0 <= i < j < r.len() implies r[i].temperature
        < r[j].temperature by {
        if j < k {
            assert(r[i] == s[i] && r[j] == s[j]);
        } else if j == k {
            assert(r[i] == s[i]);
        } else if i < k {
            assert(r[i] == s[i] && r[j] == s[j - 1]);
        } else if i == k {
            assert(r[j] == s[j - 1]);
        } else {
            assert(r[i] == s[i - 1] && r[j] == s[j - 1]);
        }
    }
}

/// Two ascending sequences that hold the same points agree on their first
/// `n` points.
proof fn lemma_ascending_agree(a: Seq<CurvePoint>, b: Seq<CurvePoint>, n: int)
    requires
        ascending(a),
        ascending(b),
        forall|x: CurvePoint| a.contains(x) <==> b.contains(x),
        0 <= n <= a.len(),
        n <= b.len(),
    ensures
        forall|j: int| 0 <= j < n ==> a[j] == b[j],
    decreases n,
{
    if n > 0 {
        lemma_ascending_agree(a, b, n - 1);
        let i = n - 1;
        assert(a.contains(a[i]));
        let m = choose|m: int| 0 <= m < b.len() && b[m] == a[i];
        assert(b.contains(b[i]));
        let w = choose|w: int| 0 <= w < a.len() && a[w] == b[i];
        if m < i {
            assert(a[m] == b[m]);
            assert(a[m].temperature < a[i].temperature);
        }
        if w < i {
            assert(a[w] == b[w]);
            assert(b[w].temperature < b[i].temperature);
        }
        if m > i {
            assert(b[i].temperature < b[m].temperature);
        }
        if w > i {
            assert(a[i].temperature < a[w].temperature);
        }
    }
}

/// A curve does not depend on the order in which its points arrive: lists of
/// points with distinct temperatures that hold the same points make the
/// same curve.
pub proof fn lemma_curve_ignores_order(p: Seq<CurvePoint>, q: Seq<CurvePoint>)
    requires
        distinct_temperatures(p),
        distinct_temperatures(q),
        forall|x: CurvePoint| p.contains(x) <==> q.contains(x),
    ensures
        curve_of(p) == curve_of(q),
{
    lemma_curve_of_members(p);
    lemma_curve_of_members(q);
    let a = curve_of(p);
    let b = curve_of(q);
    assert forall|x: CurvePoint| a.contains(x) <==> b.contains(x) by {
        assert(a.contains(x) <==> p.contains(x));
        assert(p.contains(x) <==> q.contains(x));
        assert(b.contains(x) <==> q.contains(x));
    }
    if a.len() <= b.len() {
        lemma_ascending_agree(a, b, a.len() as int);
        if a.len() < b.len() {
            let extra = b[a.len() as int];
            assert(b.contains(extra));
            let w = choose|w: int| 0 <= w < a.len() && a[w] == extra;
            assert(b[w] == a[w]);
            assert(b[w].temperature < b[a.len() as int].temperature);
        }
    } else {
        lemma_ascending_agree(a, b, b.len() as int);
        let extra = a[b.len() as int];
        assert(a.contains(extra));
        let m = choose|m: int| 0 <= m < b.len() && b[m] == extra;
        assert(a[m] == b[m]);
        assert(a[m].temperature < a[b.len() as int].temperature);
    }
    assert(a =~= b);
}

/// A fan curve: at least one point, temperatures strictly rising, no speed
/// above `FULL_SPEED`.
#[derive(Debug, PartialEq, Eq)]
pub struct FanCurve {
    points: Vec<CurvePoint>,
}

impl View for FanCurve {
    type V = Seq<CurvePoint>;

    closed spec fn view(&self) -> Seq<CurvePoint> {
        self.points@
    }
}

impl Clone for FanCurve {
    fn clone(&self) -> (r: Self)
        ensures
            r@ == self@,
    {
        FanCurve { points: self.points.clone() }
    }
}

/// Puts `p` in its place in an ascending vector.
fn place(v: &mut Vec<CurvePoint>, p: CurvePoint)
    requires
        ascending(old(v)@),
    ensures
        final(v)@ == with_point(old(v)@, p),
{
    let mut k: usize = 0;
    while k < v.len() && v[k].temperature < p.temperature
        invariant
            k <= v.len(),
            v@ == old(v)@,
            ascending(v@),
            forall|i: int| 0 <= i < k ==> v@[i].temperature < p.temperature,
        decreases v.len() - k,
    {
        k += 1;
    }
    proof {
        assert forall|i: int| k <= i < v@.len() implies v@[i].temperature
            >= p.temperature by {
            if i > k {
                assert(v@[k as int].temperature < v@[i].temperature);
            }
        }
        lemma_rank_is_partition(v@, p.temperature as int, k as int);
    }
    if k < v.len() && v[k].temperature == p.temperature {
        v.set(k, p);
    } else {
        v.insert(k, p);
    }
}

/// The curve that a device starts with: at rest up to 40 degrees, then
/// rising to full speed at 100 degrees.
pub open spec fn default_points() -> Seq<CurvePoint> {
    seq![
        CurvePoint { temperature: 20, speed: 0 },
        CurvePoint { temperature: 40, speed: 0 },
        CurvePoint { temperature: 60, speed: 5_000 },
        CurvePoint { temperature: 80, speed: 8_800 },
        CurvePoint { temperature: 100, speed: 10_000 },
    ]
}

/// The curve that a device starts with is a curve.
pub proof fn lemma_default_points_is_curve()
    ensures
        is_curve(default_points()),
{
}

impl FanCurve {
    /// The invariant of the type.
    pub open spec fn wf(&self) -> bool {
        is_curve(self@)
    }

    /// The curve of `default_points`.
    pub fn default_curve() -> (r: FanCurve)
        ensures
            r@ == default_points(),
            r.wf(),
    {
        let mut v: Vec<CurvePoint> = Vec::new();
        v.push(CurvePoint { temperature: 20, speed: 0 });
        v.push(CurvePoint { temperature: 40, speed: 0 });
        v.push(CurvePoint { temperature: 60, speed: 5_000 });
        v.push(CurvePoint { temperature: 80, speed: 8_800 });
        v.push(CurvePoint { temperature: 100, speed: 10_000 });
        assert(v@ =~= default_points());
        FanCurve { points: v }
    }

    /// Builds the curve that holds `points`. A list with no point, or with a
    /// speed above `FULL_SPEED`, is no curve.
    pub fn from_points(points: &Vec<CurvePoint>) -> (r: Option<FanCurve>)
        ensures
            r is Some <==> points@.len() > 0 && within_full_speed(points@),
            r is Some ==> r.unwrap()@ == curve_of(points@) && r.unwrap().wf(),
    {
        if points.len() == 0 {
            return None;
        }
        let mut v: Vec<CurvePoint> = Vec::new();
        let mut i: usize = 0;
        while i < points.len()
            invariant
                i <= points.len(),
                within_full_speed(points@.subrange(0, i as int)),
                v@ == curve_of(points@.subrange(0, i as int)),
            decreases points.len() - i,
        {
            let p = points[i];
            if p.speed > FULL_SPEED {
                return None;
            }
            proof {
                let before = points@.subrange(0, i as int);
                let upto = points@.subrange(0, i as int + 1);
                assert(upto.drop_last() == before);
                assert(upto.last() == p);
                assert forall|j: int| 0 <= j < upto.len() implies upto[j].speed
                    <= FULL_SPEED by {
                    if j < i {
                        assert(before[j] == upto[j]);
                    }
                }
                lemma_curve_of_is_curve(before);
            }
            place(&mut v, p);
            i += 1;
        }
        proof {
            assert(points@.subrange(0, i as int) == points@);
            lemma_curve_of_is_curve(points@);
        }
        Some(FanCurve { points: v })
    }

    /// The points of the curve, coolest first.
    pub fn points(&self) -> (r: &Vec<CurvePoint>)
        ensures
            r@ == self@,
    {
        &self.points
    }

    /// The speed the curve gives at `temperature`.
    pub fn evaluate(&self, temperature: i64) -> (speed: u32)
        requires
            self.wf(),
        ensures
            speed == speed_at(self@, temperature as int),
            speed <= FULL_SPEED,
    {
        let n = self.points.len();
        let mut k: usize = 0;
        while k < n && self.points[k].temperature < temperature
            invariant
                n == self.points@.len(),
                k <= n,
                forall|i: int| 0 <= i < k ==> self.points@[i].temperature < temperature,
            decreases n - k,
        {
            k += 1;
        }
        proof {
            assert forall|i: int| k <= i < n implies self.points@[i].temperature
                >= temperature by {
                if i > k {
                    assert(self.points@[k as int].temperature < self.points@[i].temperature);
                }
            }
            lemma_rank_is_partition(self@, temperature as int, k as int);
        }
        if k == 0 {
            self.points[0].speed
        } else if k == n {
            self.points[n - 1].speed
        } else {
            let lo = self.points[k - 1];
            let hi = self.points[k];
            assert(lo.temperature < hi.temperature);
            between(lo, hi, temperature)
        }
    }
}

/// The speed on the line from `lo` to `hi` at a temperature that lies after
/// `lo` and not after `hi`.
fn between(lo: CurvePoint, hi: CurvePoint, temperature: i64) -> (speed: u32)
    requires
        lo.temperature < temperature <= hi.temperature,
        lo.speed <= FULL_SPEED,
        hi.speed <= FULL_SPEED,
    ensures
        speed == interpolate(lo, hi, temperature as int),
        lo.speed <= speed <= hi.speed || hi.speed <= speed <= lo.speed,
{
    let width: u128 = (hi.temperature as i128 - lo.temperature as i128) as u128;
    if hi.speed >= lo.speed {
        let rise: u128 = (hi.speed - lo.speed) as u128;
        let run: u128 = (temperature as i128 - lo.temperature as i128) as u128;
        assert(rise * run <= rise * width && rise * width <= 10_000 * 0x1_0000_0000_0000_0000)
            by (nonlinear_arith)
            requires
                rise <= 10_000,
                run <= width,
                width <= 0x1_0000_0000_0000_0000,
        ;
        let gain: u128 = (rise * run) / width;
        proof {
            lemma_gain_bounded(rise as int, run as int, width as int);
        }
        lo.speed + gain as u32
    } else {
        let fall: u128 = (lo.speed - hi.speed) as u128;
        let rest: u128 = (hi.temperature as i128 - temperature as i128) as u128;
        assert(fall * rest <= fall * width && fall * width <= 10_000 * 0x1_0000_0000_0000_0000)
            by (nonlinear_arith)
            requires
                fall <= 10_000,
                rest <= width,
                width <= 0x1_0000_0000_0000_0000,
        ;
        let gain: u128 = (fall * rest) / width;
        proof {
            lemma_gain_bounded(fall as int, rest as int, width as int);
            lemma_falling_line(fall as int, width as int - rest as int, width as int);
        }
        hi.speed + gain as u32
    }
}

/// A share `run / width` of `rise` is no more than `rise`.
proof fn lemma_gain_bounded(rise: int, run: int, width: int)
    requires
        0 <= rise,
        0 <= run <= width,
        0 < width,
    ensures
        0 <= (rise * run) / width <= rise,
{
    assert(0 <= rise * run <= rise * width) by (nonlinear_arith)
        requires
            0 <= rise,
            0 <= run <= width,
    ;
    assert(rise * width == width * rise) by (nonlinear_arith);
    lemma_div_multiples_vanish(rise, width);
    lemma_div_is_ordered(rise * run, width * rise, width);
    lemma_div_pos_is_pos(rise * run, width);
}

/// Going down by `fall` over `width`, the speed after `run` is the same
/// whether measured from the upper end or from the lower one.
proof fn lemma_falling_line(fall: int, run: int, width: int)
    requires
        0 < width,
    ensures
        (fall * (width - run)) / width - fall == ((0 - fall) * run) / width,
{
    let x = (0 - fall) * run;
    lemma_hoist_over_denominator(x, fall, width as nat);
    assert(x + fall * width == fall * (width - run)) by (nonlinear_arith)
        requires
            x == (0 - fall) * run,
    ;
}

/// Division rounds towards the smaller number, so a share of a positive
/// amount is less than the amount while the run is short of the width, and
/// at least one step once `amount * run` reaches the width.
proof fn lemma_share(amount: int, run: int, width: int)
    requires
        0 < amount,
        0 < run < width,
    ensures
        0 <= (amount * run) / width < amount,
        amount * run >= width ==> (amount * run) / width >= 1,
        0 - amount <= ((0 - amount) * run) / width <= -1,
        amount * (width - run) >= width ==> ((0 - amount) * run) / width >= 1 - amount,
{
    let x = amount * run;
    assert(0 < x < amount * width) by (nonlinear_arith)
        requires
            x == amount * run,
            0 < amount,
            0 < run < width,
    ;
    lemma_fundamental_div_mod(x, width);
    lemma_mod_bound(x, width);
    let q = x / width;
    assert(0 <= q < amount && (x >= width ==> q >= 1)) by (nonlinear_arith)
        requires
            x == width * q + x % width,
            0 <= x % width < width,
            0 < x < amount * width,
            0 < width,
    ;
    let y = (0 - amount) * run;
    assert(y == 0 - x) by (nonlinear_arith)
        requires
            y == (0 - amount) * run,
            x == amount * run,
    ;
    lemma_fundamental_div_mod(y, width);
    lemma_mod_bound(y, width);
    let r = y / width;
    assert(0 - amount <= r <= -1) by (nonlinear_arith)
        requires
            y == width * r + y % width,
            0 <= y % width < width,
            y == 0 - x,
            0 < x < amount * width,
            0 < width,
    ;
    if amount * (width - run) >= width {
        assert(r >= 1 - amount) by (nonlinear_arith)
            requires
                y == width * r + y % width,
                0 <= y % width < width,
                y == (0 - amount) * run,
                amount * (width - run) >= width,
                0 < width,
        ;
    }
}

/// At or below its lowest key a curve gives exactly that key's speed.
pub proof fn lemma_clamps_below(s: Seq<CurvePoint>, t: int)
    requires
        is_curve(s),
        t <= s[0].temperature,
    ensures
        speed_at(s, t) == s[0].speed,
{
    assert forall|i: int| 0 <= i < s.len() implies s[i].temperature >= t by {
        if i > 0 {
            assert(s[0].temperature < s[i].temperature);
        }
    }
    lemma_rank_is_partition(s, t, 0);
}

/// At or above its highest key a curve gives exactly that key's speed.
pub proof fn lemma_clamps_above(s: Seq<CurvePoint>, t: int)
    requires
        is_curve(s),
        t >= s.last().temperature,
    ensures
        speed_at(s, t) == s.last().speed,
{
    let n = s.len() as int;
    if t > s.last().temperature {
        assert(rank(s, t) == n);
    } else {
        assert forall|i: int| 0 <= i < n - 1 implies s[i].temperature < t by {
            assert(s[i].temperature < s[n - 1].temperature);
        }
        lemma_rank_is_partition(s, t, n - 1);
        if n > 1 {
            let lo = s[n - 2];
            let hi = s[n - 1];
            assert(lo.temperature < hi.temperature);
            let w = hi.temperature - lo.temperature;
            let d = hi.speed - lo.speed;
            assert(d * w == w * d) by (nonlinear_arith);
            lemma_div_multiples_vanish(d, w);
        }
    }
}

/// Between two neighbouring keys a curve follows the straight line that
/// joins them, so the speed is proportional to the position between the
/// keys and never leaves the range that their speeds span.
pub proof fn lemma_between_neighbours(s: Seq<CurvePoint>, i: int, t: int)
    requires
        is_curve(s),
        0 <= i < s.len() - 1,
        s[i].temperature < t < s[i + 1].temperature,
    ensures
        speed_at(s, t) == interpolate(s[i], s[i + 1], t),
        s[i].speed < s[i + 1].speed ==> s[i].speed <= speed_at(s, t) < s[i + 1].speed,
        s[i].speed > s[i + 1].speed ==> s[i + 1].speed <= speed_at(s, t) < s[i].speed,
        s[i].speed == s[i + 1].speed ==> speed_at(s, t) == s[i].speed,
{
    let lo = s[i];
    let hi = s[i + 1];
    assert forall|j: int| 0 <= j < i + 1 implies s[j].temperature < t by {
        if j < i {
            assert(s[j].temperature < s[i].temperature);
        }
    }
    assert forall|j: int| i + 1 <= j < s.len() implies s[j].temperature >= t by {
        if j > i + 1 {
            assert(s[i + 1].temperature < s[j].temperature);
        }
    }
    lemma_rank_is_partition(s, t, i + 1);
    let w = hi.temperature - lo.temperature;
    let run = t - lo.temperature;
    if lo.speed < hi.speed {
        lemma_share(hi.speed - lo.speed, run, w);
    } else if lo.speed > hi.speed {
        let fall = lo.speed - hi.speed;
        lemma_share(fall, run, w);
        assert(hi.speed - lo.speed == 0 - fall);
    } else {
        assert((hi.speed - lo.speed) * run == 0) by (nonlinear_arith)
            requires
                hi.speed - lo.speed == 0,
        ;
    }
}

/// Between two neighbouring keys the speed lies strictly between the two
/// keys' speeds, provided the line has moved by at least one whole step away
/// from the speed it starts at: for a rising line at least one step above
/// the cooler key, for a falling line at least one step above the hotter.
pub proof fn lemma_strictly_between(s: Seq<CurvePoint>, i: int, t: int)
    requires
        is_curve(s),
        0 <= i < s.len() - 1,
        s[i].temperature < t < s[i + 1].temperature,
        s[i].speed < s[i + 1].speed ==> (s[i + 1].speed - s[i].speed) * (t - s[i].temperature)
            >= s[i + 1].temperature - s[i].temperature,
        s[i].speed > s[i + 1].speed ==> (s[i].speed - s[i + 1].speed) * (s[i + 1].temperature
            - t) >= s[i + 1].temperature - s[i].temperature,
        s[i].speed != s[i + 1].speed,
    ensures
        s[i].speed < speed_at(s, t) < s[i + 1].speed || s[i + 1].speed < speed_at(s, t)
            < s[i].speed,
{
    let lo = s[i];
    let hi = s[i + 1];
    lemma_between_neighbours(s, i, t);
    let w = hi.temperature - lo.temperature;
    let run = t - lo.temperature;
    if lo.speed < hi.speed {
        lemma_share(hi.speed - lo.speed, run, w);
    } else {
        let fall = lo.speed - hi.speed;
        lemma_share(fall, run, w);
        assert(hi.speed - lo.speed == 0 - fall);
        assert(hi.temperature - t == w - run);
    }
}

} // verus!
