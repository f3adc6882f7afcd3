use car_geometry::decimal::parse_micros;
use car_geometry::geometry::{
    derived_names, Derived, GeometryEngine, Input, ParseError, Quantity, Ratio, Slot, Term, Wheel,
};

const WHEELS: [Wheel; 4] = [Wheel::FrontLeft, Wheel::FrontRight, Wheel::RearLeft, Wheel::RearRight];
const SLOTS: [Slot; 4] = [Slot::FaceFront, Slot::FaceBack, Slot::HeightTop, Slot::HeightBottom];

fn evaluate(q: &Quantity) -> f64 {
    match q {
        Quantity::Length(r) => r.num as f64 / r.den as f64 / 1000.0,
        Quantity::Angle(terms) => terms
            .iter()
            .map(|t| t.halves as f64 * 0.5 * (t.tan.num as f64 / t.tan.den as f64).atan().to_degrees())
            .sum(),
    }
}

fn derived(e: &GeometryEngine, d: Derived) -> f64 {
    evaluate(&e.get_derived(d).expect("resolved"))
}

fn set(e: &mut GeometryEngine, n: Input, text: &str) {
    assert_eq!(e.set_input(n, text), Ok(()));
}

fn scenario_a_engine() -> GeometryEngine {
    let mut e = GeometryEngine::new();
    set(&mut e, Input::Wheelbase, "2420");
    set(&mut e, Input::FrontOverhang, "880.5");
    set(&mut e, Input::RearOverhang, "880.5");
    set(&mut e, Input::LaserWidthFront, "1980");
    set(&mut e, Input::LaserWidthRear, "1980");
    for w in WHEELS {
        for s in SLOTS {
            set(&mut e, Input::Reading(w, s), "0");
        }
    }
    e
}

#[test]
fn scenario_a_all_zero_readings() {
    let e = scenario_a_engine();
    assert_eq!(format!("{:.2}", derived(&e, Derived::LaserHalfAngle)), "0.00");
    assert_eq!(format!("{:.2}", derived(&e, Derived::CarYawAngle)), "0.00");
    for w in WHEELS {
        assert_eq!(format!("{:.2}", derived(&e, Derived::Toe(w))), "0.00");
        assert_eq!(format!("{:.2}", derived(&e, Derived::Camber(w))), "0.00");
    }
    assert_eq!(format!("{:.2}", derived(&e, Derived::TrackWidthRear)), "1980.00");
    match e.get_derived(Derived::TrackWidthRear) {
        Some(Quantity::Length(r)) => assert_eq!(r.num, 1_980_000 * r.den),
        other => panic!("unexpected {:?}", other),
    }
}

#[test]
fn scenario_b_front_left_toe() {
    let mut e = scenario_a_engine();
    set(&mut e, Input::WheelDiameter, "457.2");
    set(&mut e, Input::Reading(Wheel::FrontLeft, Slot::FaceFront), "10");
    set(&mut e, Input::Reading(Wheel::FrontLeft, Slot::FaceBack), "0");
    let face = (10.0f64 / 457.2).atan().to_degrees();
    assert!((face - 1.2527).abs() < 1e-3);
    match e.get_derived(Derived::Toe(Wheel::FrontLeft)) {
        Some(Quantity::Angle(terms)) => {
            assert_eq!(terms[0], Term { halves: 2, tan: Ratio { num: 10_000, den: 457_200 } });
        }
        other => panic!("unexpected {:?}", other),
    }
    let uncorrected = evaluate(&Quantity::Angle(vec![Term { halves: 2, tan: Ratio { num: 10_000, den: 457_200 } }]));
    assert_eq!(format!("{:.2}", uncorrected), "1.25");
    // the 10 mm reading also moves the front-left hub offset by 5 mm, which
    // gives the car a yaw that left toe subtracts
    let yaw = (-2.5f64 / 2420.0).atan().to_degrees();
    assert!((derived(&e, Derived::CarYawAngle) - yaw).abs() < 1e-12);
    let toe = derived(&e, Derived::Toe(Wheel::FrontLeft));
    assert!((toe - (face - yaw)).abs() < 1e-12);
    assert_eq!(format!("{:.2}", toe), "1.31");
}

#[test]
fn scenario_c_front_track_unresolved_before_face_readings() {
    let e = GeometryEngine::new();
    assert!(e.get_derived(Derived::TrackWidthFront).is_none());
    assert!(e.get_derived(Derived::TrackWidthRear).is_none());
    assert!(e.get_derived(Derived::CarYawAngle).is_none());
    assert!(e.get_derived(Derived::LaserHalfAngle).is_some());
}

#[test]
fn set_then_get_round_trip() {
    let mut e = GeometryEngine::new();
    let cases: [(&str, i64); 22] = [
        ("880.5", 880_500),
        ("-12", -12_000),
        ("+.25", 250),
        ("3.", 3_000),
        ("0", 0),
        ("457.2", 457_200),
        ("999999999.999", 999_999_999_999),
        ("-0.001", -1),
        ("1e3", 1_000_000),
        ("1.98e3", 1_980_000),
        ("1.98E+3", 1_980_000),
        ("5E-1", 500),
        ("1e-3", 1),
        ("0001.5000", 1_500),
        ("0.000123456e7", 1_234_560),
        ("0e999999999", 0),
        ("1.2345", 1_235),
        ("1.2344", 1_234),
        ("2.5e-3", 3),
        ("0.0001", 0),
        ("-0.0005", -1),
        ("1e-30", 0),
    ];
    for (text, micros) in cases {
        set(&mut e, Input::Wheelbase, text);
        assert_eq!(e.get_input(Input::Wheelbase), micros);
        set(&mut e, Input::Reading(Wheel::RearRight, Slot::HeightTop), text);
        assert_eq!(e.get_input(Input::Reading(Wheel::RearRight, Slot::HeightTop)), micros);
    }
}

#[test]
fn malformed_text_is_rejected_and_changes_nothing() {
    let mut e = GeometryEngine::new();
    set(&mut e, Input::FrontOverhang, "12.5");
    let before = format!("{:?}", e);
    for text in [
        "", "-", "+", ".", "-.", "abc", "12a", "1..2", " 1", "1234567890", "--1", "1e", "e5",
        "1e+", "1e3x", ".e1", "1e9", "inf", "NaN", "1.2.3", "1e-", "0x10",
    ] {
        assert_eq!(e.set_input(Input::FrontOverhang, text), Err(ParseError));
        assert_eq!(e.get_input(Input::FrontOverhang), 12_500);
        assert_eq!(format!("{:?}", e), before);
    }
    assert_eq!(parse_micros("1e3"), Some(1_000_000));
    assert_eq!(parse_micros("-1.5e-2"), Some(-15));
    assert_eq!(parse_micros("999999999.999"), Some(999_999_999_999));
    assert_eq!(parse_micros("1000000000"), None);
}

#[test]
fn long_zero_padding_and_exponents() {
    let zeros = "0".repeat(60);
    assert_eq!(parse_micros(&format!("{}12.5", zeros)), Some(12_500));
    assert_eq!(parse_micros(&format!("0.{}1e64", zeros)), Some(1_000_000));
    assert_eq!(parse_micros(&format!("0.{}1", zeros)), Some(0));
    assert_eq!(parse_micros("1e0000000003"), Some(1_000_000));
    assert_eq!(parse_micros("1e-00000000000000000000000000001"), Some(100));
    assert_eq!(parse_micros("1e99999999999999999999999999999"), None);
    assert_eq!(parse_micros("0e99999999999999999999999999999"), Some(0));
    assert_eq!(parse_micros("7e-99999999999999999999999999999"), Some(0));
    assert_eq!(parse_micros("123456789012345678901234567890123456e-30"), Some(123_456_789));
}

#[test]
fn exponent_after_plain_value() {
    let mut e = GeometryEngine::new();
    set(&mut e, Input::LaserWidthFront, "-3.25");
    assert_eq!(e.get_input(Input::LaserWidthFront), -3_250);
    set(&mut e, Input::LaserWidthFront, "1.98e3");
    assert_eq!(e.get_input(Input::LaserWidthFront), 1_980_000);
}

#[test]
fn unsupplied_reading_reads_as_zero() {
    let e = GeometryEngine::new();
    for w in WHEELS {
        for s in SLOTS {
            assert_eq!(e.get_input(Input::Reading(w, s)), 0);
        }
    }
    assert_eq!(e.get_input(Input::Wheelbase), 2_420_000);
    assert_eq!(e.get_input(Input::WheelDiameter), 457_200);
}

#[test]
fn recompute_all_twice_is_identical() {
    let mut e = scenario_a_engine();
    set(&mut e, Input::Reading(Wheel::FrontRight, Slot::FaceFront), "3.5");
    set(&mut e, Input::LaserWidthFront, "2000");
    let first = e.recompute_all();
    let second = e.recompute_all();
    assert_eq!(first.len(), 18);
    assert_eq!(format!("{:?}", first), format!("{:?}", second));
    for (i, d) in derived_names().into_iter().enumerate() {
        assert_eq!(format!("{:?}", first[i]), format!("{:?}", e.get_derived(d)));
    }
}

#[test]
fn identical_readings_give_zero_toe_and_camber() {
    let mut e = scenario_a_engine();
    for w in WHEELS {
        for s in SLOTS {
            set(&mut e, Input::Reading(w, s), "42.5");
        }
    }
    for w in WHEELS {
        assert_eq!(derived(&e, Derived::Toe(w)), 0.0);
        assert_eq!(derived(&e, Derived::Camber(w)), 0.0);
    }
    assert_eq!(derived(&e, Derived::TotalToeFront), 0.0);
    assert_eq!(derived(&e, Derived::TotalToeRear), 0.0);
}

#[test]
fn equal_asymmetry_gives_zero_yaw() {
    let mut e = scenario_a_engine();
    let readings = [(Wheel::FrontLeft, "10"), (Wheel::FrontRight, "20"), (Wheel::RearLeft, "100"), (Wheel::RearRight, "110")];
    for (w, v) in readings {
        set(&mut e, Input::Reading(w, Slot::FaceFront), v);
        set(&mut e, Input::Reading(w, Slot::FaceBack), v);
    }
    assert_eq!(derived(&e, Derived::CarYawAngle), 0.0);
}

#[test]
fn yaw_from_unequal_asymmetry() {
    let mut e = scenario_a_engine();
    set(&mut e, Input::Reading(Wheel::FrontRight, Slot::FaceFront), "40");
    set(&mut e, Input::Reading(Wheel::FrontRight, Slot::FaceBack), "40");
    // front half asymmetry 20 mm, rear 0, over 2420 mm
    let expected = (20.0f64 / 2420.0).atan().to_degrees();
    assert!((derived(&e, Derived::CarYawAngle) - expected).abs() < 1e-12);
    let left = derived(&e, Derived::Toe(Wheel::FrontLeft));
    let right = derived(&e, Derived::Toe(Wheel::FrontRight));
    assert!((left + expected).abs() < 1e-12);
    assert!((right - expected).abs() < 1e-12);
    assert!((derived(&e, Derived::TotalToeFront) - (left + right)).abs() < 1e-12);
}

#[test]
fn hub_offset_is_mean_of_face_readings() {
    let mut e = GeometryEngine::new();
    assert!(e.get_derived(Derived::HubOffset(Wheel::RearLeft)).is_none());
    set(&mut e, Input::Reading(Wheel::RearLeft, Slot::FaceFront), "10");
    assert!(e.get_derived(Derived::HubOffset(Wheel::RearLeft)).is_none());
    set(&mut e, Input::Reading(Wheel::RearLeft, Slot::FaceBack), "20");
    assert_eq!(derived(&e, Derived::HubOffset(Wheel::RearLeft)), 15.0);
}

#[test]
fn front_track_tolerates_one_missing_hub_rear_does_not() {
    let mut e = GeometryEngine::new();
    set(&mut e, Input::Reading(Wheel::FrontLeft, Slot::FaceFront), "100");
    set(&mut e, Input::Reading(Wheel::FrontLeft, Slot::FaceBack), "100");
    assert!((derived(&e, Derived::TrackWidthFront) - 1880.0).abs() < 1e-9);
    set(&mut e, Input::Reading(Wheel::RearLeft, Slot::FaceFront), "100");
    set(&mut e, Input::Reading(Wheel::RearLeft, Slot::FaceBack), "100");
    assert!(e.get_derived(Derived::TrackWidthRear).is_none());
    set(&mut e, Input::Reading(Wheel::RearRight, Slot::FaceFront), "50");
    set(&mut e, Input::Reading(Wheel::RearRight, Slot::FaceBack), "50");
    assert!((derived(&e, Derived::TrackWidthRear) - 1830.0).abs() < 1e-9);
}

#[test]
fn track_widths_follow_laser_taper() {
    let mut e = scenario_a_engine();
    set(&mut e, Input::LaserWidthFront, "2000");
    // measured length 4181 mm, taper 20 mm
    let rear = 1980.0 + 20.0 / 4181.0 * 880.5;
    // both axles take the laser width interpolated at the rear axle
    let front = rear;
    assert!((derived(&e, Derived::TrackWidthRear) - rear).abs() < 1e-9);
    assert!((derived(&e, Derived::TrackWidthFront) - front).abs() < 1e-9);
    match e.get_derived(Derived::LaserHalfAngle) {
        Some(Quantity::Angle(terms)) => {
            assert_eq!(terms, vec![Term { halves: 1, tan: Ratio { num: 20_000, den: 4_181_000 } }]);
        }
        other => panic!("unexpected {:?}", other),
    }
    let half = (20.0f64 / 4181.0).atan().to_degrees() * 0.5;
    assert!((derived(&e, Derived::LaserHalfAngle) - half).abs() < 1e-12);
    assert!((derived(&e, Derived::Toe(Wheel::RearRight)) + half).abs() < 1e-12);
}

#[test]
fn camber_from_height_difference() {
    let mut e = GeometryEngine::new();
    set(&mut e, Input::Reading(Wheel::FrontRight, Slot::HeightTop), "5");
    assert!(e.get_derived(Derived::Camber(Wheel::FrontRight)).is_none());
    set(&mut e, Input::Reading(Wheel::FrontRight, Slot::HeightBottom), "15");
    let expected = (10.0f64 / 457.2).atan().to_degrees();
    assert!((derived(&e, Derived::Camber(Wheel::FrontRight)) - expected).abs() < 1e-12);
}

#[test]
fn zero_wheelbase_is_degenerate() {
    let mut e = scenario_a_engine();
    set(&mut e, Input::Wheelbase, "0");
    match e.get_derived(Derived::CarYawAngle) {
        Some(Quantity::Angle(terms)) => assert_eq!(terms[0].tan, Ratio { num: 0, den: 0 }),
        other => panic!("unexpected {:?}", other),
    }
    assert!(derived(&e, Derived::CarYawAngle).is_nan());
}
