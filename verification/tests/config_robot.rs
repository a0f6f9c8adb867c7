use picrawler::config::{default_rate_hz, F32Bits, JointConfig, LegConfig, TelemetryConfig, TelemetrySocketConfig, WebUiConfig};
use picrawler::robot::{legs_from_config, total_joints, Joint, Leg};
use picrawler::telemetry::TelemetryServer;

fn f(x: f32) -> F32Bits {
    F32Bits { bits: x.to_bits() }
}

fn joint(name: &str, channel: u8) -> JointConfig {
    JointConfig {
        name: name.to_string(),
        channel,
        calibration_deg: f(1.5),
        min_deg: f(-45.0),
        max_deg: f(60.0),
    }
}

fn leg(id: &str, joints: Vec<JointConfig>) -> LegConfig {
    LegConfig { id: id.to_string(), mount_offset_mm: [f(10.0), f(-20.0), f(0.0)], joints }
}

#[test]
fn defaults() {
    let s = TelemetrySocketConfig::default();
    assert_eq!(s.bind, "0.0.0.0");
    assert_eq!(s.port, 8765);
    let w = WebUiConfig::default();
    assert!(!w.enable);
    assert_eq!(w.bind, "0.0.0.0");
    assert_eq!(w.port, 8080);
    assert_eq!(w.root, "webui");
    let t = TelemetryConfig::default();
    assert!(!t.enable);
    assert_eq!(f32::from_bits(t.rate_hz.bits), 20.0);
    assert_eq!(t.socket.port, 8765);
    assert_eq!(t.webui.port, 8080);
    assert_eq!(f32::from_bits(default_rate_hz().bits), 20.0);
}

#[test]
fn joint_from_config_starts_at_zero() {
    let j = Joint::from_config(&joint("femur", 7));
    assert_eq!(j.name, "femur");
    assert_eq!(j.channel, 7);
    assert_eq!(f32::from_bits(j.angle.bits), 0.0);
    assert_eq!(f32::from_bits(j.calibration_deg.bits), 1.5);
    assert_eq!(f32::from_bits(j.min_deg.bits), -45.0);
    assert_eq!(f32::from_bits(j.max_deg.bits), 60.0);
}

#[test]
fn leg_orders_joints_coxa_femur_tibia() {
    let l = leg("lf", vec![joint("tibia", 2), joint("coxa", 0), joint("femur", 1), joint("coxa", 9)]);
    let built: Leg = Leg::from_config(&l).unwrap();
    assert_eq!(built.id, "lf");
    assert_eq!(built.joints[0].name, "coxa");
    assert_eq!(built.joints[0].channel, 0);
    assert_eq!(built.joints[1].channel, 1);
    assert_eq!(built.joints[2].channel, 2);
}

#[test]
fn leg_missing_joints() {
    let e = Leg::from_config(&leg("rf", vec![joint("femur", 1), joint("tibia", 2)])).unwrap_err();
    assert_eq!(e, "leg rf: missing coxa joint");
    let e = Leg::from_config(&leg("rf", vec![joint("coxa", 1), joint("tibia", 2)])).unwrap_err();
    assert_eq!(e, "leg rf: missing femur joint");
    let e = Leg::from_config(&leg("rb", vec![joint("coxa", 1), joint("femur", 2)])).unwrap_err();
    assert_eq!(e, "leg rb: missing tibia joint");
    let e = Leg::from_config(&leg("x", vec![])).unwrap_err();
    assert_eq!(e, "leg x: missing coxa joint");
    // names are matched exactly
    let e = Leg::from_config(&leg("y", vec![joint("Coxa", 0), joint("femur", 1), joint("tibia", 2)])).unwrap_err();
    assert_eq!(e, "leg y: missing coxa joint");
}

#[test]
fn all_legs_or_first_error() {
    let good = |id: &str, base: u8| leg(id, vec![joint("coxa", base), joint("femur", base + 1), joint("tibia", base + 2)]);
    let legs = vec![good("a", 0), good("b", 3), good("c", 6), good("d", 9)];
    let built = legs_from_config(&legs).unwrap();
    assert_eq!(built.len(), 4);
    let channels: Vec<u8> = built.iter().flat_map(|l| l.joints.iter().map(|j| j.channel)).collect();
    assert_eq!(channels, vec![0, 1, 2, 3, 4, 5, 6, 7, 8, 9, 10, 11]);
    assert_eq!(total_joints(&legs), 12);

    let legs = vec![good("a", 0), leg("b", vec![joint("coxa", 3)]), leg("c", vec![])];
    assert_eq!(legs_from_config(&legs).unwrap_err(), "leg b: missing femur joint");
    assert_eq!(total_joints(&legs), 4);
    assert_eq!(total_joints(&vec![]), 0);
}

#[test]
fn telemetry_latest_is_last_stored() {
    let mut t = TelemetryServer::new();
    assert_eq!(t.latest(), "{\"type\":\"telemetry\",\"legs\":[]}");
    t.store("{\"a\":1}".to_string());
    assert_eq!(t.latest(), "{\"a\":1}");
    t.store("{}".to_string());
    assert_eq!(t.latest(), "{}");
}
