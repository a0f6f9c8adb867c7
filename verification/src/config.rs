//! The robot's configuration, as read from its YAML file.
//!
//! Real-valued settings are kept as the bit pattern of an IEEE-754 single
//! (`F32Bits`): the library only stores and copies them, and the bit pattern
//! keeps them exactly.
use vstd::prelude::*;

verus! {

/// A single-precision float held by its bit pattern (`f32::to_bits`).
#[derive(Copy, Clone, PartialEq, Eq, Debug, Structural)]
pub struct F32Bits {
    pub bits: u32,
}

/// `0.0`.
pub open spec fn zero_f32() -> F32Bits {
    F32Bits { bits: 0 }
}

/// `20.0`, the default telemetry rate in Hz.
pub open spec fn twenty_f32() -> F32Bits {
    F32Bits { bits: 0x41a0_0000 }
}

#[derive(Debug)]
pub struct RobotConfig {
    pub name: String,
    pub hardware: HardwareConfig,
    pub telemetry: TelemetryConfig,
    pub geometry: Option<GeometryConfig>,
    pub legs: Vec<LegConfig>,
}

#[derive(Debug)]
pub struct TelemetryConfig {
    pub enable: bool,
    pub rate_hz: F32Bits,
    pub socket: TelemetrySocketConfig,
    pub webui: WebUiConfig,
}

#[derive(Debug)]
pub struct TelemetrySocketConfig {
    pub bind: String,
    pub port: u16,
}

#[derive(Debug)]
pub struct WebUiConfig {
    pub enable: bool,
    pub bind: String,
    pub port: u16,
    pub root: String,
}

#[derive(Debug, Clone, Copy)]
pub struct GeometryConfig {
    pub coxa_length_mm: F32Bits,
    pub femur_length_mm: F32Bits,
    pub tibia_length_mm: F32Bits,
}

#[derive(Debug)]
pub struct HardwareConfig {
    pub i2c: I2cConfig,
    pub pwm: PwmConfig,
    pub servos: ServoConfig,
}

#[derive(Debug)]
pub struct I2cConfig {
    pub bus: u8,
    pub robot_hat_address: u8,
}

#[derive(Debug)]
pub struct PwmConfig {
    pub freq_hz: u16,
    pub period: u16,
}

#[derive(Debug)]
pub struct LegConfig {
    pub id: String,
    pub mount_offset_mm: [F32Bits; 3],
    pub joints: Vec<JointConfig>,
}

#[derive(Debug)]
pub struct JointConfig {
    pub name: String,
    pub channel: u8,
    pub calibration_deg: F32Bits,
    pub min_deg: F32Bits,
    pub max_deg: F32Bits,
}

#[derive(Debug)]
pub struct ServoConfig {
    pub zero_on_start: ZeroOnStart,
}

#[derive(Debug)]
pub struct ZeroOnStart {
    pub enable: bool,
    /// Milliseconds to wait before the servos are set up.
    pub delay: u64,
}

/// The telemetry rate used when the configuration names none: 20 Hz.
pub fn default_rate_hz() -> (r: F32Bits)
    ensures
        r == twenty_f32(),
{
    F32Bits { bits: 0x41a0_0000 }
}

impl Default for TelemetrySocketConfig {
    /// Listen on all interfaces, port 8765.
    fn default() -> (r: Self)
        ensures
            r.bind@ == "0.0.0.0"@,
            r.port == 8765,
    {
        TelemetrySocketConfig { bind: String::from_str("0.0.0.0"), port: 8765 }
    }
}

impl Default for WebUiConfig {
    /// Disabled; when enabled, listen on all interfaces, port 8080, serving `webui/`.
    fn default() -> (r: Self)
        ensures
            !r.enable,
            r.bind@ == "0.0.0.0"@,
            r.port == 8080,
            r.root@ == "webui"@,
    {
        WebUiConfig {
            enable: false,
            bind: String::from_str("0.0.0.0"),
            port: 8080,
            root: String::from_str("webui"),
        }
    }
}

impl Default for TelemetryConfig {
    /// Disabled, 20 Hz, with the default socket and dashboard settings.
    fn default() -> (r: Self)
        ensures
            !r.enable,
            r.rate_hz == twenty_f32(),
            r.socket.bind@ == "0.0.0.0"@,
            r.socket.port == 8765,
            !r.webui.enable,
            r.webui.bind@ == "0.0.0.0"@,
            r.webui.port == 8080,
            r.webui.root@ == "webui"@,
    {
        TelemetryConfig {
            enable: false,
            rate_hz: default_rate_hz(),
            socket: TelemetrySocketConfig::default(),
            webui: WebUiConfig::default(),
        }
    }
}

} // verus!
