//! The wheel-alignment engine: raw inputs in micrometres, and every derived
//! quantity as an exact value. Lengths are exact quotients; angles are sums of
//! weighted arctangents of exact quotients, evaluated by the consumer.
use vstd::prelude::*;

use crate::decimal::{parse_micros, parse_model, MAX_MICROS};

verus! {

/// One of the four wheel positions.
#[derive(Clone, Copy, Debug, PartialEq, Eq, Structural)]
pub enum Wheel {
    FrontLeft,
    FrontRight,
    RearLeft,
    RearRight,
}

impl Wheel {
    pub open spec fn is_left(self) -> bool {
        self is FrontLeft || self is RearLeft
    }
}

/// One of the four laser readings taken at a wheel: the two face readings
/// (toe) and the two height readings (camber).
#[derive(Clone, Copy, Debug, PartialEq, Eq, Structural)]
pub enum Slot {
    FaceFront,
    FaceBack,
    HeightTop,
    HeightBottom,
}

/// A raw input of the engine. Every value is in micrometres.
#[derive(Clone, Copy, Debug, PartialEq, Eq, Structural)]
pub enum Input {
    Wheelbase,
    FrontOverhang,
    RearOverhang,
    LaserWidthFront,
    LaserWidthRear,
    WheelDiameter,
    Reading(Wheel, Slot),
}

/// A derived quantity of the engine.
#[derive(Clone, Copy, Debug, PartialEq, Eq, Structural)]
pub enum Derived {
    HubOffset(Wheel),
    LaserHalfAngle,
    TrackWidthFront,
    TrackWidthRear,
    CarYawAngle,
    Toe(Wheel),
    Camber(Wheel),
    TotalToeFront,
    TotalToeRear,
}

/// The exact quotient `num / den`. A zero `den` is the degenerate quotient of a
/// division by zero, left for the consumer to evaluate.
#[derive(Clone, Copy, Debug, PartialEq, Eq, Structural)]
pub struct Ratio {
    pub num: i128,
    pub den: i128,
}

/// The angle `halves / 2 * atan(tan.num / tan.den)`, in degrees.
#[derive(Clone, Copy, Debug, PartialEq, Eq, Structural)]
pub struct Term {
    pub halves: i8,
    pub tan: Ratio,
}

/// The value of a derived quantity: a length in micrometres, or an angle in
/// degrees written as the sum of its terms.
#[derive(Debug)]
pub enum Quantity {
    Length(Ratio),
    Angle(Vec<Term>),
}

/// The mathematical value of a `Quantity`.
pub enum QuantityModel {
    Length(int, int),
    Angle(Seq<(int, int, int)>),
}

pub open spec fn term_model(t: Term) -> (int, int, int) {
    (t.halves as int, t.tan.num as int, t.tan.den as int)
}

impl Quantity {
    pub open spec fn model(&self) -> QuantityModel {
        match self {
            Quantity::Length(r) => QuantityModel::Length(r.num as int, r.den as int),
            Quantity::Angle(ts) => QuantityModel::Angle(ts@.map_values(|t: Term| term_model(t))),
        }
    }
}

pub open spec fn opt_model(q: Option<Quantity>) -> Option<QuantityModel> {
    match q {
        Some(v) => Some(v.model()),
        None => None,
    }
}

/// The text given for an input is not a decimal number of millimetres.
#[derive(Clone, Copy, Debug, PartialEq, Eq, Structural)]
pub struct ParseError;

pub open spec fn opt_int(o: Option<i64>) -> Option<int> {
    match o {
        Some(v) => Some(v as int),
        None => None,
    }
}

pub open spec fn in_range(v: int) -> bool {
    -MAX_MICROS < v < MAX_MICROS
}

/// The four readings of one wheel, each `None` until it is first supplied.
#[derive(Clone, Copy, Debug)]
struct Corner {
    face_front: Option<i64>,
    face_back: Option<i64>,
    height_top: Option<i64>,
    height_bottom: Option<i64>,
}

impl Corner {
    spec fn reading(&self, s: Slot) -> Option<int> {
        match s {
            Slot::FaceFront => opt_int(self.face_front),
            Slot::FaceBack => opt_int(self.face_back),
            Slot::HeightTop => opt_int(self.height_top),
            Slot::HeightBottom => opt_int(self.height_bottom),
        }
    }

    spec fn wf(&self) -> bool {
        forall|s: Slot| #[trigger] self.reading(s) matches Some(v) ==> in_range(v)
    }

    fn empty() -> (r: Corner)
        ensures
            forall|s: Slot| #[trigger] r.reading(s) is None,
    {
        Corner { face_front: None, face_back: None, height_top: None, height_bottom: None }
    }

    fn get(&self, s: Slot) -> (r: Option<i64>)
        ensures
            opt_int(r) == self.reading(s),
    {
        match s {
            Slot::FaceFront => self.face_front,
            Slot::FaceBack => self.face_back,
            Slot::HeightTop => self.height_top,
            Slot::HeightBottom => self.height_bottom,
        }
    }

    fn set(&mut self, s: Slot, v: i64)
        ensures
            forall|t: Slot| #[trigger]
                final(self).reading(t) == if t == s {
                    Some(v as int)
                } else {
                    old(self).reading(t)
                },
    {
        match s {
            Slot::FaceFront => self.face_front = Some(v),
            Slot::FaceBack => self.face_back = Some(v),
            Slot::HeightTop => self.height_top = Some(v),
            Slot::HeightBottom => self.height_bottom = Some(v),
        }
    }
}

/// Owns the raw inputs of a wheel-alignment measurement and computes every
/// derived quantity from them.
#[derive(Debug)]
pub struct GeometryEngine {
    wheelbase: i64,
    front_overhang: i64,
    rear_overhang: i64,
    laser_width_front: i64,
    laser_width_rear: i64,
    wheel_diameter: i64,
    front_left: Corner,
    front_right: Corner,
    rear_left: Corner,
    rear_right: Corner,
}

/// Default wheelbase, in micrometres.
pub const DEFAULT_WHEELBASE: i64 = 2_420_000;

/// Default front and rear overhang: half of a 4181 mm body less the wheelbase.
pub const DEFAULT_OVERHANG: i64 = 880_500;

/// Default distance between the two laser emitters, front and rear.
pub const DEFAULT_LASER_WIDTH: i64 = 1_980_000;

/// Default wheel diameter: 18 inches.
pub const DEFAULT_WHEEL_DIAMETER: i64 = 457_200;

impl GeometryEngine {
    spec fn corner(&self, w: Wheel) -> Corner {
        match w {
            Wheel::FrontLeft => self.front_left,
            Wheel::FrontRight => self.front_right,
            Wheel::RearLeft => self.rear_left,
            Wheel::RearRight => self.rear_right,
        }
    }

    /// The value stored for an input, `None` for a reading never supplied.
    /// The vehicle dimensions always hold a value.
    pub closed spec fn raw(&self, n: Input) -> Option<int> {
        match n {
            Input::Wheelbase => Some(self.wheelbase as int),
            Input::FrontOverhang => Some(self.front_overhang as int),
            Input::RearOverhang => Some(self.rear_overhang as int),
            Input::LaserWidthFront => Some(self.laser_width_front as int),
            Input::LaserWidthRear => Some(self.laser_width_rear as int),
            Input::WheelDiameter => Some(self.wheel_diameter as int),
            Input::Reading(w, s) => self.corner(w).reading(s),
        }
    }

    /// The value of an input as read back: zero for a reading never supplied.
    pub open spec fn value(&self, n: Input) -> int {
        match self.raw(n) {
            Some(v) => v,
            None => 0,
        }
    }

    /// Every stored value lies within the parser's range.
    pub closed spec fn wf(&self) -> bool {
        &&& in_range(self.wheelbase as int)
        &&& in_range(self.front_overhang as int)
        &&& in_range(self.rear_overhang as int)
        &&& in_range(self.laser_width_front as int)
        &&& in_range(self.laser_width_rear as int)
        &&& in_range(self.wheel_diameter as int)
        &&& self.front_left.wf()
        &&& self.front_right.wf()
        &&& self.rear_left.wf()
        &&& self.rear_right.wf()
    }

    /// The raw inputs after `n` is given the value `v`.
    pub open spec fn updated(&self, n: Input, v: int, m: Input) -> Option<int> {
        if m == n {
            Some(v)
        } else {
            self.raw(m)
        }
    }

    /// An engine with the nominal vehicle dimensions and no reading supplied.
    pub fn new() -> (r: GeometryEngine)
        ensures
            r.wf(),
            r.raw(Input::Wheelbase) == Some(DEFAULT_WHEELBASE as int),
            r.raw(Input::FrontOverhang) == Some(DEFAULT_OVERHANG as int),
            r.raw(Input::RearOverhang) == Some(DEFAULT_OVERHANG as int),
            r.raw(Input::LaserWidthFront) == Some(DEFAULT_LASER_WIDTH as int),
            r.raw(Input::LaserWidthRear) == Some(DEFAULT_LASER_WIDTH as int),
            r.raw(Input::WheelDiameter) == Some(DEFAULT_WHEEL_DIAMETER as int),
            forall|w: Wheel, s: Slot| #[trigger] r.raw(Input::Reading(w, s)) is None,
    {
        GeometryEngine {
            wheelbase: DEFAULT_WHEELBASE,
            front_overhang: DEFAULT_OVERHANG,
            rear_overhang: DEFAULT_OVERHANG,
            laser_width_front: DEFAULT_LASER_WIDTH,
            laser_width_rear: DEFAULT_LASER_WIDTH,
            wheel_diameter: DEFAULT_WHEEL_DIAMETER,
            front_left: Corner::empty(),
            front_right: Corner::empty(),
            rear_left: Corner::empty(),
            rear_right: Corner::empty(),
        }
    }

    fn get_reading(&self, w: Wheel, s: Slot) -> (r: Option<i64>)
        requires
            self.wf(),
        ensures
            opt_int(r) == self.raw(Input::Reading(w, s)),
            r matches Some(v) ==> in_range(v as int),
    {
        let r = match w {
            Wheel::FrontLeft => self.front_left.get(s),
            Wheel::FrontRight => self.front_right.get(s),
            Wheel::RearLeft => self.rear_left.get(s),
            Wheel::RearRight => self.rear_right.get(s),
        };
        assert(self.corner(w).reading(s) matches Some(v) ==> in_range(v));
        r
    }

    /// The current value of an input, in micrometres: zero for a reading that
    /// was never supplied.
    pub fn get_input(&self, n: Input) -> (r: i64)
        requires
            self.wf(),
        ensures
            r == self.value(n),
            in_range(r as int),
    {
        match n {
            Input::Wheelbase => self.wheelbase,
            Input::FrontOverhang => self.front_overhang,
            Input::RearOverhang => self.rear_overhang,
            Input::LaserWidthFront => self.laser_width_front,
            Input::LaserWidthRear => self.laser_width_rear,
            Input::WheelDiameter => self.wheel_diameter,
            Input::Reading(w, s) => match self.get_reading(w, s) {
                Some(v) => v,
                None => 0,
            },
        }
    }

    fn store(&mut self, n: Input, v: i64)
        requires
            old(self).wf(),
            in_range(v as int),
        ensures
            final(self).wf(),
            forall|m: Input| #[trigger] final(self).raw(m) == old(self).updated(n, v as int, m),
    {
        match n {
            Input::Wheelbase => self.wheelbase = v,
            Input::FrontOverhang => self.front_overhang = v,
            Input::RearOverhang => self.rear_overhang = v,
            Input::LaserWidthFront => self.laser_width_front = v,
            Input::LaserWidthRear => self.laser_width_rear = v,
            Input::WheelDiameter => self.wheel_diameter = v,
            Input::Reading(w, s) => match w {
                Wheel::FrontLeft => self.front_left.set(s, v),
                Wheel::FrontRight => self.front_right.set(s, v),
                Wheel::RearLeft => self.rear_left.set(s, v),
                Wheel::RearRight => self.rear_right.set(s, v),
            },
        }
        assert forall|m: Input| #[trigger] self.raw(m) == old(self).updated(n, v as int, m) by {
            if let Input::Reading(w2, s2) = m {
                assert(self.corner(w2).reading(s2) == old(self).updated(n, v as int, m));
            }
        }
    }

    /// Parses `text` as a decimal number of millimetres and stores it in `n`.
    /// Malformed text leaves every input as it was.
    pub fn set_input(&mut self, n: Input, text: &str) -> (r: Result<(), ParseError>)
        requires
            old(self).wf(),
        ensures
            final(self).wf(),
            match parse_model(text@) {
                Some(v) => r is Ok && forall|m: Input| #[trigger] final(self).raw(m)
                    == old(self).updated(n, v, m),
                None => r is Err && forall|m: Input| #[trigger] final(self).raw(m) == old(
                    self,
                ).raw(m),
            },
    {
        match parse_micros(text) {
            Some(v) => {
                self.store(n, v);
                Ok(())
            },
            None => Err(ParseError),
        }
    }
}

pub open spec fn opt_wide(o: Option<i128>) -> Option<int> {
    match o {
        Some(v) => Some(v as int),
        None => None,
    }
}

/// The angle is exactly zero: every term is the arctangent of a zero numerator
/// over a non-zero denominator.
pub open spec fn angle_is_zero(q: Option<QuantityModel>) -> bool {
    &&& q matches Some(QuantityModel::Angle(ts))
    &&& forall|i: int| 0 <= i < ts.len() ==> (#[trigger] ts[i]).1 == 0 && ts[i].2 != 0
}

proof fn lemma_mul_bound(a: int, b: int, x: int, y: int)
    requires
        0 <= x,
        0 <= y,
        -x <= a <= x,
        -y <= b <= y,
    ensures
        -(x * y) <= a * b <= x * y,
{
    assert(-(x * y) <= a * b <= x * y) by (nonlinear_arith)
        requires
            0 <= x,
            0 <= y,
            -x <= a <= x,
            -y <= b <= y,
    ;
}

impl GeometryEngine {
    /// Front plus back face reading of a wheel: twice its hub offset.
    pub open spec fn hub_sum(&self, w: Wheel) -> Option<int> {
        match (self.raw(Input::Reading(w, Slot::FaceFront)), self.raw(Input::Reading(w, Slot::FaceBack))) {
            (Some(a), Some(b)) => Some(a + b),
            _ => None,
        }
    }

    /// Distance between the front and rear laser measurement planes.
    pub open spec fn total_length(&self) -> int {
        self.value(Input::RearOverhang) + self.value(Input::Wheelbase) + self.value(
            Input::FrontOverhang,
        )
    }

    /// Front laser width less rear laser width.
    pub open spec fn laser_taper(&self) -> int {
        self.value(Input::LaserWidthFront) - self.value(Input::LaserWidthRear)
    }

    /// Tangent of the car's yaw: the front axle's half left/right asymmetry
    /// less the rear axle's, over the wheelbase.
    pub open spec fn yaw_tangent(&self) -> Option<(int, int)> {
        match (
            self.hub_sum(Wheel::FrontLeft),
            self.hub_sum(Wheel::FrontRight),
            self.hub_sum(Wheel::RearLeft),
            self.hub_sum(Wheel::RearRight),
        ) {
            (Some(fl), Some(fr), Some(rl), Some(rr)) => Some(
                ((fr - fl) - (rr - rl), 4 * self.value(Input::Wheelbase)),
            ),
            _ => None,
        }
    }

    /// Terms of a wheel's toe angle: its own face angle, less the laser
    /// half-angle, less the yaw on the left and plus the yaw on the right.
    pub open spec fn toe_terms(&self, w: Wheel) -> Option<Seq<(int, int, int)>> {
        match (
            self.raw(Input::Reading(w, Slot::FaceFront)),
            self.raw(Input::Reading(w, Slot::FaceBack)),
            self.yaw_tangent(),
        ) {
            (Some(f), Some(b), Some((yn, yd))) => Some(
                seq![
                    (2, f - b, self.value(Input::WheelDiameter)),
                    (-1, self.laser_taper(), self.total_length()),
                    (if w.is_left() { -2 } else { 2 }, yn, yd),
                ],
            ),
            _ => None,
        }
    }

    /// Every derived quantity, as a function of the raw inputs.
    pub open spec fn derived(&self, d: Derived) -> Option<QuantityModel> {
        let len = self.total_length();
        match d {
            Derived::HubOffset(w) => match self.hub_sum(w) {
                Some(s) => Some(QuantityModel::Length(s, 2)),
                None => None,
            },
            Derived::LaserHalfAngle => Some(
                QuantityModel::Angle(seq![(1, self.laser_taper(), len)]),
            ),
            Derived::TrackWidthRear => match (
                self.hub_sum(Wheel::RearLeft),
                self.hub_sum(Wheel::RearRight),
            ) {
                (Some(a), Some(b)) => Some(
                    QuantityModel::Length(
                        2 * (self.value(Input::LaserWidthRear) * len) + 2 * (self.laser_taper()
                            * self.value(Input::RearOverhang)) - (a + b) * len,
                        2 * len,
                    ),
                ),
                _ => None,
            },
            // Both axles take the laser width interpolated at the rear axle,
            // `Lb + (Lf - Lb) / len * Ro`; the front one tolerates a missing hub offset.
            Derived::TrackWidthFront => {
                let a = self.hub_sum(Wheel::FrontLeft);
                let b = self.hub_sum(Wheel::FrontRight);
                if a is None && b is None {
                    None
                } else {
                    let sa = match a {
                        Some(v) => v,
                        None => 0,
                    };
                    let sb = match b {
                        Some(v) => v,
                        None => 0,
                    };
                    Some(
                        QuantityModel::Length(
                            2 * (self.value(Input::LaserWidthRear) * len) + 2 * (
                            self.laser_taper() * self.value(Input::RearOverhang)) - (sa + sb)
                                * len,
                            2 * len,
                        ),
                    )
                }
            },
            Derived::CarYawAngle => match self.yaw_tangent() {
                Some((n, dn)) => Some(QuantityModel::Angle(seq![(2, n, dn)])),
                None => None,
            },
            Derived::Toe(w) => match self.toe_terms(w) {
                Some(ts) => Some(QuantityModel::Angle(ts)),
                None => None,
            },
            Derived::Camber(w) => match (
                self.raw(Input::Reading(w, Slot::HeightTop)),
                self.raw(Input::Reading(w, Slot::HeightBottom)),
            ) {
                (Some(top), Some(bottom)) => Some(
                    QuantityModel::Angle(
                        seq![(2, bottom - top, self.value(Input::WheelDiameter))],
                    ),
                ),
                _ => None,
            },
            Derived::TotalToeFront => match (
                self.toe_terms(Wheel::FrontLeft),
                self.toe_terms(Wheel::FrontRight),
            ) {
                (Some(l), Some(r)) => Some(QuantityModel::Angle(l + r)),
                _ => None,
            },
            Derived::TotalToeRear => match (
                self.toe_terms(Wheel::RearLeft),
                self.toe_terms(Wheel::RearRight),
            ) {
                (Some(l), Some(r)) => Some(QuantityModel::Angle(l + r)),
                _ => None,
            },
        }
    }

    fn compute_hub_sum(&self, w: Wheel) -> (r: Option<i128>)
        requires
            self.wf(),
        ensures
            opt_wide(r) == self.hub_sum(w),
            r matches Some(v) ==> -2 * MAX_MICROS < v < 2 * MAX_MICROS,
    {
        match (self.get_reading(w, Slot::FaceFront), self.get_reading(w, Slot::FaceBack)) {
            (Some(a), Some(b)) => Some(a as i128 + b as i128),
            _ => None,
        }
    }

    fn compute_total_length(&self) -> (r: i128)
        requires
            self.wf(),
        ensures
            r == self.total_length(),
            -3 * MAX_MICROS < r < 3 * MAX_MICROS,
    {
        self.rear_overhang as i128 + self.wheelbase as i128 + self.front_overhang as i128
    }

    fn compute_laser_taper(&self) -> (r: i128)
        requires
            self.wf(),
        ensures
            r == self.laser_taper(),
            -2 * MAX_MICROS < r < 2 * MAX_MICROS,
    {
        self.laser_width_front as i128 - self.laser_width_rear as i128
    }

    fn compute_yaw_tangent(&self) -> (r: Option<Ratio>)
        requires
            self.wf(),
        ensures
            match (r, self.yaw_tangent()) {
                (Some(q), Some((n, d))) => q.num == n && q.den == d,
                (None, None) => true,
                _ => false,
            },
    {
        let fl = self.compute_hub_sum(Wheel::FrontLeft);
        let fr = self.compute_hub_sum(Wheel::FrontRight);
        let rl = self.compute_hub_sum(Wheel::RearLeft);
        let rr = self.compute_hub_sum(Wheel::RearRight);
        match (fl, fr, rl, rr) {
            (Some(fl), Some(fr), Some(rl), Some(rr)) => Some(
                Ratio { num: (fr - fl) - (rr - rl), den: 4 * self.wheelbase as i128 },
            ),
            _ => None,
        }
    }

    fn compute_toe_terms(&self, w: Wheel) -> (r: Option<Vec<Term>>)
        requires
            self.wf(),
        ensures
            match (r, self.toe_terms(w)) {
                (Some(v), Some(ts)) => v@.map_values(|t: Term| term_model(t)) == ts,
                (None, None) => true,
                _ => false,
            },
    {
        let yaw = self.compute_yaw_tangent();
        match (self.get_reading(w, Slot::FaceFront), self.get_reading(w, Slot::FaceBack), yaw) {
            (Some(f), Some(b), Some(y)) => {
                let yaw_halves: i8 = match w {
                    Wheel::FrontLeft | Wheel::RearLeft => -2,
                    Wheel::FrontRight | Wheel::RearRight => 2,
                };
                let mut v: Vec<Term> = Vec::new();
                v.push(
                    Term {
                        halves: 2,
                        tan: Ratio {
                            num: f as i128 - b as i128,
                            den: self.wheel_diameter as i128,
                        },
                    },
                );
                v.push(
                    Term {
                        halves: -1,
                        tan: Ratio {
                            num: self.compute_laser_taper(),
                            den: self.compute_total_length(),
                        },
                    },
                );
                v.push(Term { halves: yaw_halves, tan: y });
                assert(v@.map_values(|t: Term| term_model(t)) =~= self.toe_terms(w)->0);
                Some(v)
            },
            _ => None,
        }
    }

    fn angle_of(halves: i8, num: i128, den: i128) -> (r: Quantity)
        ensures
            r.model() == QuantityModel::Angle(seq![(halves as int, num as int, den as int)]),
    {
        let mut v: Vec<Term> = Vec::new();
        v.push(Term { halves, tan: Ratio { num, den } });
        let r = Quantity::Angle(v);
        assert(v@.map_values(|t: Term| term_model(t)) =~= seq![
            (halves as int, num as int, den as int),
        ]);
        r
    }

    fn total_toe(&self, left: Wheel, right: Wheel) -> (r: Option<Quantity>)
        requires
            self.wf(),
        ensures
            opt_model(r) == match (self.toe_terms(left), self.toe_terms(right)) {
                (Some(l), Some(r)) => Some(QuantityModel::Angle(l + r)),
                _ => None,
            },
    {
        match (self.compute_toe_terms(left), self.compute_toe_terms(right)) {
            (Some(l), Some(r)) => {
                let mut l = l;
                let mut r = r;
                let ghost lv = l@;
                let ghost rv = r@;
                l.append(&mut r);
                assert(l@.map_values(|t: Term| term_model(t)) =~= lv.map_values(
                    |t: Term| term_model(t),
                ) + rv.map_values(|t: Term| term_model(t)));
                Some(Quantity::Angle(l))
            },
            _ => None,
        }
    }

    fn track_width_rear(&self) -> (r: Option<Quantity>)
        requires
            self.wf(),
        ensures
            opt_model(r) == self.derived(Derived::TrackWidthRear),
    {
        match (self.compute_hub_sum(Wheel::RearLeft), self.compute_hub_sum(Wheel::RearRight)) {
            (Some(a), Some(b)) => {
                let len = self.compute_total_length();
                let taper = self.compute_laser_taper();
                let lb = self.laser_width_rear as i128;
                let ro = self.rear_overhang as i128;
                let ghost m: int = MAX_MICROS as int;
                proof {
                    lemma_mul_bound(lb as int, len as int, m, 3 * m);
                    lemma_mul_bound(taper as int, ro as int, 2 * m, m);
                    lemma_mul_bound((a + b) as int, len as int, 4 * m, 3 * m);
                }
                Some(
                    Quantity::Length(
                        Ratio { num: 2 * (lb * len) + 2 * (taper * ro) - (a + b) * len, den: 2 * len },
                    ),
                )
            },
            _ => None,
        }
    }

    fn track_width_front(&self) -> (r: Option<Quantity>)
        requires
            self.wf(),
        ensures
            opt_model(r) == self.derived(Derived::TrackWidthFront),
    {
        let a = self.compute_hub_sum(Wheel::FrontLeft);
        let b = self.compute_hub_sum(Wheel::FrontRight);
        if a.is_none() && b.is_none() {
            return None;
        }
        let sa: i128 = match a {
            Some(v) => v,
            None => 0,
        };
        let sb: i128 = match b {
            Some(v) => v,
            None => 0,
        };
        let len = self.compute_total_length();
        let taper = self.compute_laser_taper();
        let lb = self.laser_width_rear as i128;
        let ro = self.rear_overhang as i128;
        let ghost m: int = MAX_MICROS as int;
        proof {
            lemma_mul_bound(lb as int, len as int, m, 3 * m);
            lemma_mul_bound(taper as int, ro as int, 2 * m, m);
            lemma_mul_bound((sa + sb) as int, len as int, 4 * m, 3 * m);
        }
        Some(
            Quantity::Length(
                Ratio { num: 2 * (lb * len) + 2 * (taper * ro) - (sa + sb) * len, den: 2 * len },
            ),
        )
    }

    /// The current value of a derived quantity, or `None` while an input it
    /// depends on has not been supplied.
    pub fn get_derived(&self, d: Derived) -> (r: Option<Quantity>)
        requires
            self.wf(),
        ensures
            opt_model(r) == self.derived(d),
    {
        match d {
            Derived::HubOffset(w) => match self.compute_hub_sum(w) {
                Some(s) => Some(Quantity::Length(Ratio { num: s, den: 2 })),
                None => None,
            },
            Derived::LaserHalfAngle => Some(
                Self::angle_of(1, self.compute_laser_taper(), self.compute_total_length()),
            ),
            Derived::TrackWidthFront => self.track_width_front(),
            Derived::TrackWidthRear => self.track_width_rear(),
            Derived::CarYawAngle => match self.compute_yaw_tangent() {
                Some(y) => Some(Self::angle_of(2, y.num, y.den)),
                None => None,
            },
            Derived::Toe(w) => match self.compute_toe_terms(w) {
                Some(v) => Some(Quantity::Angle(v)),
                None => None,
            },
            Derived::Camber(w) => match (
                self.get_reading(w, Slot::HeightTop),
                self.get_reading(w, Slot::HeightBottom),
            ) {
                (Some(top), Some(bottom)) => Some(
                    Self::angle_of(
                        2,
                        bottom as i128 - top as i128,
                        self.wheel_diameter as i128,
                    ),
                ),
                _ => None,
            },
            Derived::TotalToeFront => self.total_toe(Wheel::FrontLeft, Wheel::FrontRight),
            Derived::TotalToeRear => self.total_toe(Wheel::RearLeft, Wheel::RearRight),
        }
    }
}

/// The derived quantities in the order in which they are evaluated: each one
/// comes after every quantity that it is computed from.
pub open spec fn evaluation_order() -> Seq<Derived> {
    seq![
        Derived::HubOffset(Wheel::FrontLeft),
        Derived::HubOffset(Wheel::FrontRight),
        Derived::HubOffset(Wheel::RearLeft),
        Derived::HubOffset(Wheel::RearRight),
        Derived::LaserHalfAngle,
        Derived::TrackWidthFront,
        Derived::TrackWidthRear,
        Derived::CarYawAngle,
        Derived::Toe(Wheel::FrontLeft),
        Derived::Toe(Wheel::FrontRight),
        Derived::Toe(Wheel::RearLeft),
        Derived::Toe(Wheel::RearRight),
        Derived::Camber(Wheel::FrontLeft),
        Derived::Camber(Wheel::FrontRight),
        Derived::Camber(Wheel::RearLeft),
        Derived::Camber(Wheel::RearRight),
        Derived::TotalToeFront,
        Derived::TotalToeRear,
    ]
}

/// The derived quantities, leaves first.
pub fn derived_names() -> (r: Vec<Derived>)
    ensures
        r@ == evaluation_order(),
{
    let mut r: Vec<Derived> = Vec::new();
    r.push(Derived::HubOffset(Wheel::FrontLeft));
    r.push(Derived::HubOffset(Wheel::FrontRight));
    r.push(Derived::HubOffset(Wheel::RearLeft));
    r.push(Derived::HubOffset(Wheel::RearRight));
    r.push(Derived::LaserHalfAngle);
    r.push(Derived::TrackWidthFront);
    r.push(Derived::TrackWidthRear);
    r.push(Derived::CarYawAngle);
    r.push(Derived::Toe(Wheel::FrontLeft));
    r.push(Derived::Toe(Wheel::FrontRight));
    r.push(Derived::Toe(Wheel::RearLeft));
    r.push(Derived::Toe(Wheel::RearRight));
    r.push(Derived::Camber(Wheel::FrontLeft));
    r.push(Derived::Camber(Wheel::FrontRight));
    r.push(Derived::Camber(Wheel::RearLeft));
    r.push(Derived::Camber(Wheel::RearRight));
    r.push(Derived::TotalToeFront);
    r.push(Derived::TotalToeRear);
    assert(r@ =~= evaluation_order());
    r
}

impl GeometryEngine {
    /// Evaluates every derived quantity, in `evaluation_order`.
    pub fn recompute_all(&self) -> (r: Vec<Option<Quantity>>)
        requires
            self.wf(),
        ensures
            r@.len() == evaluation_order().len(),
            forall|i: int|
                0 <= i < r@.len() ==> opt_model(#[trigger] r@[i]) == self.derived(
                    evaluation_order()[i],
                ),
    {
        let names = derived_names();
        let mut r: Vec<Option<Quantity>> = Vec::new();
        let mut i: usize = 0;
        while i < names.len()
            invariant
                self.wf(),
                names@ == evaluation_order(),
                i <= names@.len(),
                r@.len() == i,
                forall|j: int|
                    0 <= j < i ==> opt_model(#[trigger] r@[j]) == self.derived(
                        evaluation_order()[j],
                    ),
            decreases names@.len() - i,
        {
            r.push(self.get_derived(names[i]));
            i = i + 1;
        }
        r
    }
}

/// A value that parses is read back exactly as it was parsed.
pub proof fn lemma_set_then_get(
    before: GeometryEngine,
    after: GeometryEngine,
    n: Input,
    text: Seq<char>,
)
    requires
        parse_model(text) is Some,
        forall|m: Input| #[trigger] after.raw(m) == before.updated(n, parse_model(text)->0, m),
    ensures
        after.value(n) == parse_model(text)->0,
        after.raw(n) == Some(parse_model(text)->0),
{
    assert(after.raw(n) == before.updated(n, parse_model(text)->0, n));
}

/// Text that does not parse changes no input.
pub proof fn lemma_rejected_text_keeps_inputs(
    before: GeometryEngine,
    after: GeometryEngine,
    text: Seq<char>,
)
    requires
        parse_model(text) is None,
        forall|m: Input| #[trigger] after.raw(m) == before.raw(m),
    ensures
        forall|m: Input| #[trigger] after.value(m) == before.value(m),
        forall|d: Derived| #[trigger] after.derived(d) == before.derived(d),
{
    lemma_derived_determined_by_inputs(before, after);
}

/// The derived quantities are a function of the raw inputs alone: evaluating
/// them again without changing an input gives the same values.
pub proof fn lemma_derived_determined_by_inputs(a: GeometryEngine, b: GeometryEngine)
    requires
        forall|m: Input| #[trigger] a.raw(m) == b.raw(m),
    ensures
        forall|m: Input| #[trigger] a.value(m) == b.value(m),
        forall|d: Derived| #[trigger] a.derived(d) == b.derived(d),
{
    assert(a.value(Input::LaserWidthFront) == b.value(Input::LaserWidthFront));
    assert(a.value(Input::LaserWidthRear) == b.value(Input::LaserWidthRear));
    assert(a.value(Input::RearOverhang) == b.value(Input::RearOverhang));
    assert(a.value(Input::FrontOverhang) == b.value(Input::FrontOverhang));
    assert(a.value(Input::Wheelbase) == b.value(Input::Wheelbase));
    assert(a.value(Input::WheelDiameter) == b.value(Input::WheelDiameter));
    assert(a.hub_sum(Wheel::FrontLeft) == b.hub_sum(Wheel::FrontLeft));
    assert(a.hub_sum(Wheel::FrontRight) == b.hub_sum(Wheel::FrontRight));
    assert(a.hub_sum(Wheel::RearLeft) == b.hub_sum(Wheel::RearLeft));
    assert(a.hub_sum(Wheel::RearRight) == b.hub_sum(Wheel::RearRight));
    assert forall|w: Wheel| #[trigger] a.toe_terms(w) == b.toe_terms(w) by {
        assert(a.raw(Input::Reading(w, Slot::FaceFront)) == b.raw(
            Input::Reading(w, Slot::FaceFront),
        ));
        assert(a.raw(Input::Reading(w, Slot::FaceBack)) == b.raw(
            Input::Reading(w, Slot::FaceBack),
        ));
    }
    assert forall|d: Derived| #[trigger] a.derived(d) == b.derived(d) by {
        match d {
            Derived::HubOffset(w) => {
                assert(a.hub_sum(w) == b.hub_sum(w));
            },
            Derived::Toe(w) => {
                assert(a.toe_terms(w) == b.toe_terms(w));
            },
            Derived::Camber(w) => {
                assert(a.raw(Input::Reading(w, Slot::HeightTop)) == b.raw(
                    Input::Reading(w, Slot::HeightTop),
                ));
                assert(a.raw(Input::Reading(w, Slot::HeightBottom)) == b.raw(
                    Input::Reading(w, Slot::HeightBottom),
                ));
            },
            Derived::TotalToeFront => {
                assert(a.toe_terms(Wheel::FrontLeft) == b.toe_terms(Wheel::FrontLeft));
                assert(a.toe_terms(Wheel::FrontRight) == b.toe_terms(Wheel::FrontRight));
            },
            Derived::TotalToeRear => {
                assert(a.toe_terms(Wheel::RearLeft) == b.toe_terms(Wheel::RearLeft));
                assert(a.toe_terms(Wheel::RearRight) == b.toe_terms(Wheel::RearRight));
            },
            _ => {},
        }
    }
}

/// The yaw angle is zero when the left/right asymmetry of the front axle
/// equals that of the rear axle, whatever their size, on a non-zero wheelbase.
pub proof fn lemma_equal_asymmetry_zero_yaw(e: GeometryEngine)
    requires
        e.hub_sum(Wheel::FrontLeft) is Some,
        e.hub_sum(Wheel::FrontRight) is Some,
        e.hub_sum(Wheel::RearLeft) is Some,
        e.hub_sum(Wheel::RearRight) is Some,
        e.hub_sum(Wheel::FrontRight)->0 - e.hub_sum(Wheel::FrontLeft)->0 == e.hub_sum(
            Wheel::RearRight,
        )->0 - e.hub_sum(Wheel::RearLeft)->0,
        e.value(Input::Wheelbase) != 0,
    ensures
        angle_is_zero(e.derived(Derived::CarYawAngle)),
{
}

/// With equal front and back face readings at every wheel, the same left/right
/// asymmetry on both axles and equal laser widths, every toe angle and both
/// total toes are zero. Wheel diameter, wheelbase and measured length are
/// non-zero.
pub proof fn lemma_equal_face_readings_zero_toe(e: GeometryEngine)
    requires
        forall|w: Wheel|
            #![trigger e.raw(Input::Reading(w, Slot::FaceFront))]
            e.raw(Input::Reading(w, Slot::FaceFront)) is Some && e.raw(
                Input::Reading(w, Slot::FaceFront),
            ) == e.raw(Input::Reading(w, Slot::FaceBack)),
        e.hub_sum(Wheel::FrontRight)->0 - e.hub_sum(Wheel::FrontLeft)->0 == e.hub_sum(
            Wheel::RearRight,
        )->0 - e.hub_sum(Wheel::RearLeft)->0,
        e.value(Input::LaserWidthFront) == e.value(Input::LaserWidthRear),
        e.value(Input::WheelDiameter) != 0,
        e.value(Input::Wheelbase) != 0,
        e.total_length() != 0,
    ensures
        forall|w: Wheel| #[trigger] angle_is_zero(e.derived(Derived::Toe(w))),
        angle_is_zero(e.derived(Derived::TotalToeFront)),
        angle_is_zero(e.derived(Derived::TotalToeRear)),
{
    assert(e.raw(Input::Reading(Wheel::FrontLeft, Slot::FaceFront)) is Some);
    assert(e.raw(Input::Reading(Wheel::FrontRight, Slot::FaceFront)) is Some);
    assert(e.raw(Input::Reading(Wheel::RearLeft, Slot::FaceFront)) is Some);
    assert(e.raw(Input::Reading(Wheel::RearRight, Slot::FaceFront)) is Some);
    assert(e.yaw_tangent() == Some((0int, 4 * e.value(Input::Wheelbase))));
    assert forall|w: Wheel| #[trigger] angle_is_zero(e.derived(Derived::Toe(w))) by {
        assert(e.raw(Input::Reading(w, Slot::FaceFront)) is Some);
        let ts = e.toe_terms(w)->0;
        assert forall|i: int| 0 <= i < ts.len() implies (#[trigger] ts[i]).1 == 0 && ts[i].2
            != 0 by {}
    }
    let fl = e.toe_terms(Wheel::FrontLeft)->0;
    let fr = e.toe_terms(Wheel::FrontRight)->0;
    let rl = e.toe_terms(Wheel::RearLeft)->0;
    let rr = e.toe_terms(Wheel::RearRight)->0;
    assert(angle_is_zero(e.derived(Derived::Toe(Wheel::FrontLeft))));
    assert(angle_is_zero(e.derived(Derived::Toe(Wheel::FrontRight))));
    assert(angle_is_zero(e.derived(Derived::Toe(Wheel::RearLeft))));
    assert(angle_is_zero(e.derived(Derived::Toe(Wheel::RearRight))));
    assert forall|i: int| 0 <= i < (fl + fr).len() implies (#[trigger] (fl + fr)[i]).1 == 0 && (fl
        + fr)[i].2 != 0 by {
        if i < fl.len() {
            assert((fl + fr)[i] == fl[i]);
        } else {
            assert((fl + fr)[i] == fr[i - fl.len()]);
        }
    }
    assert forall|i: int| 0 <= i < (rl + rr).len() implies (#[trigger] (rl + rr)[i]).1 == 0 && (rl
        + rr)[i].2 != 0 by {
        if i < rl.len() {
            assert((rl + rr)[i] == rl[i]);
        } else {
            assert((rl + rr)[i] == rr[i - rl.len()]);
        }
    }
}

/// With equal top and bottom readings at a wheel and a non-zero wheel
/// diameter, the wheel's camber is zero.
pub proof fn lemma_equal_height_readings_zero_camber(e: GeometryEngine, w: Wheel)
    requires
        e.raw(Input::Reading(w, Slot::HeightTop)) is Some,
        e.raw(Input::Reading(w, Slot::HeightTop)) == e.raw(Input::Reading(w, Slot::HeightBottom)),
        e.value(Input::WheelDiameter) != 0,
    ensures
        angle_is_zero(e.derived(Derived::Camber(w))),
{
}

/// While no face reading has been supplied, every quantity computed from one is
/// unresolved: hub offsets, both track widths, the yaw, the toes and total toes.
/// The laser half-angle depends on the dimensions alone and stays resolved.
pub proof fn lemma_unresolved_without_face_readings(e: GeometryEngine)
    requires
        forall|w: Wheel|
            #![trigger e.raw(Input::Reading(w, Slot::FaceFront))]
            e.raw(Input::Reading(w, Slot::FaceFront)) is None && e.raw(
                Input::Reading(w, Slot::FaceBack),
            ) is None,
    ensures
        forall|w: Wheel| #[trigger] e.derived(Derived::HubOffset(w)) is None,
        forall|w: Wheel| #[trigger] e.derived(Derived::Toe(w)) is None,
        e.derived(Derived::TrackWidthFront) is None,
        e.derived(Derived::TrackWidthRear) is None,
        e.derived(Derived::CarYawAngle) is None,
        e.derived(Derived::TotalToeFront) is None,
        e.derived(Derived::TotalToeRear) is None,
        e.derived(Derived::LaserHalfAngle) is Some,
{
    assert(e.raw(Input::Reading(Wheel::FrontLeft, Slot::FaceFront)) is None);
    assert(e.raw(Input::Reading(Wheel::FrontRight, Slot::FaceFront)) is None);
    assert(e.raw(Input::Reading(Wheel::RearLeft, Slot::FaceFront)) is None);
    assert(e.raw(Input::Reading(Wheel::RearRight, Slot::FaceFront)) is None);
    assert forall|w: Wheel| #[trigger] e.derived(Derived::HubOffset(w)) is None by {
        assert(e.raw(Input::Reading(w, Slot::FaceFront)) is None);
    }
    assert forall|w: Wheel| #[trigger] e.derived(Derived::Toe(w)) is None by {
        assert(e.raw(Input::Reading(w, Slot::FaceFront)) is None);
    }
}

} // verus!
