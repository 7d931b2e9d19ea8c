//! Reads EN 62056-21 smart-meter telegrams and turns them into MQTT messages
//! for Home Assistant.

pub mod text;
pub mod number;
pub mod parser;
pub mod mqtt;
pub mod mqtt_client;
pub mod serial;
pub mod config;
pub mod app;
