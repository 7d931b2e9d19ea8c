//! The program's configuration: the MQTT broker and the meters to read.

use vstd::prelude::*;
use std::time::Duration;

verus! {

/// A meter attached to a serial port.
#[derive(Clone, Debug, PartialEq)]
pub struct SensorConfig {
    pub name: String,
    pub serial_port: String,
    pub baud_rate: u32,
}

/// The MQTT broker and how to address it.
#[derive(Clone, Debug, PartialEq)]
pub struct MqttConfig {
    pub host: String,
    pub port: u16,
    pub client_id: String,
    pub base_topic: String,
}

/// The whole configuration.
#[derive(Debug, PartialEq)]
pub struct Config {
    pub mqtt: MqttConfig,
    pub sensors: Vec<SensorConfig>,
    pub publish_interval: Duration,
}

} // verus!
