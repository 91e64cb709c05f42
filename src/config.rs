//! Build-time settings of the node.
use vstd::prelude::*;

verus! {

/// Settings of the node; those the update cycle needs are optional, and
/// updates are off until they are set.
pub struct Config {
    /// Device identifier, also sent to the update server.
    pub device_id: &'static str,
    /// Where the node is placed, as published with measurements.
    pub location: &'static str,
    /// Seconds between measurements.
    pub measurement_interval_seconds: u16,
    pub mqtt_hostname: &'static str,
    pub mqtt_password: &'static str,
    pub mqtt_port: u16,
    pub mqtt_topic: &'static str,
    pub mqtt_username: &'static str,
    /// Host name of the update server.
    pub ota_hostname: Option<&'static str>,
    /// Port of the update server.
    pub ota_port: Option<u16>,
    /// PEM-encoded CA certificate the server is checked against.
    pub tls_ca: Option<&'static str>,
    /// PEM-encoded client certificate, for mutual TLS.
    pub tls_cert: Option<&'static str>,
    /// PEM-encoded client private key, for mutual TLS.
    pub tls_key: Option<&'static str>,
    pub wifi_psk: &'static str,
    pub wifi_ssid: &'static str,
}

} // verus!
