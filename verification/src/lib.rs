//! Control library for a twelve-servo crawling robot on a Raspberry Pi robot HAT:
//! board pin numbering, the HAT's ADC and PWM register protocol, servo grouping
//! with an emergency stop, robot configuration and leg assembly, and the small
//! HTTP / websocket helpers used by the dashboard.
pub mod adc;
pub mod bus;
pub mod config;
pub mod device;
pub mod pwm;
pub mod robot;
pub mod servo_group;
pub mod telemetry;
pub mod text;
pub mod webui;
