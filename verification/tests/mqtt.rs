use stromzaehler2mqtt::mqtt::{
    discovery_entries, discovery_publishes, reading_publishes, reading_to_state,
    sanitize_lowercased, sanitize_topic_segment, Publish, Sensor,
};
use stromzaehler2mqtt::parser::{Reading, Telegram};

fn text(s: &str) -> String {
    s.to_string()
}

#[test]
fn sanitize_lowercase_and_replace() {
    assert_eq!(sanitize_topic_segment("EBZ5DD32R06ETA_107"), "ebz5dd32r06eta_107");
    assert_eq!(sanitize_topic_segment("EBZ-DD3.2R"), "ebz_dd3_2r");
    assert_eq!(sanitize_topic_segment("abc123"), "abc123");
    assert_eq!(sanitize_topic_segment("Haushalt"), "haushalt");
    assert_eq!(sanitize_topic_segment("Küche"), "kueche");
    assert_eq!(sanitize_topic_segment("ÜBER"), "ueber");
    assert_eq!(sanitize_topic_segment("Straße"), "strasse");
}

#[test]
fn reading_to_state_published_variants() {
    let cases = [
        (Reading::EnergyImport(text("2714.128")), "energy_import", "2714.128"),
        (Reading::EnergyExport(text("1.206")), "energy_export", "1.206"),
        (Reading::PowerTotal(text("211.26")), "power_total", "211.26"),
    ];
    for (reading, expected_subtopic, expected_value) in cases {
        let (subtopic, value) = reading_to_state(&reading).expect("should be Some");
        assert_eq!(subtopic, expected_subtopic);
        assert_eq!(value, expected_value);
    }
}

#[test]
fn reading_to_state_skipped_variants() {
    let skipped = [
        Reading::MeterId("x".into()),
        Reading::SerialNumber("x".into()),
        Reading::StatusFlags(0),
        Reading::OperatingTime(0),
        Reading::PowerL1(text("0")),
        Reading::PowerL2(text("0")),
        Reading::PowerL3(text("0")),
        Reading::Unknown { code: "x".into(), value: "y".into(), unit: None },
    ];
    for r in &skipped {
        assert!(reading_to_state(r).is_none(), "{} should be skipped", r.describe());
    }
}

#[test]
fn discovery_entries_count_and_topics() {
    let sensor = Sensor::new("main", "stromzaehler2mqtt", "EBZ5DD32R06ETA_107");
    let entries = discovery_entries(&sensor, "stromzaehler2mqtt");
    assert_eq!(entries.len(), 3);

    let topics: Vec<&str> = entries.iter().map(|(t, _)| t.as_str()).collect();
    assert!(topics.contains(
        &"homeassistant/sensor/stromzaehler2mqtt/main_ebz5dd32r06eta_107_energy_import/config"
    ));
    assert!(topics.contains(
        &"homeassistant/sensor/stromzaehler2mqtt/main_ebz5dd32r06eta_107_energy_export/config"
    ));
    assert!(topics.contains(
        &"homeassistant/sensor/stromzaehler2mqtt/main_ebz5dd32r06eta_107_power_total/config"
    ));
}

#[test]
fn discovery_payload_fields() {
    let sensor = Sensor::new("main", "stromzaehler2mqtt", "EBZ5DD32R06ETA_107");
    let entries = discovery_entries(&sensor, "stromzaehler2mqtt");
    let (_, payload_json) = entries.iter().find(|(t, _)| t.contains("energy_import")).unwrap();
    let v: serde_json::Value = serde_json::from_str(payload_json).unwrap();

    assert_eq!(v["device_class"], "energy");
    assert_eq!(v["state_class"], "total_increasing");
    assert_eq!(v["unit_of_measurement"], "kWh");
    assert_eq!(v["state_topic"], "stromzaehler2mqtt/main/energy_import");
    assert_eq!(v["unique_id"], "main_ebz5dd32r06eta_107_energy_import");
    assert_eq!(v["device"]["name"], "main");
    assert_eq!(v["device"]["identifiers"][0], "main_ebz5dd32r06eta_107");
}

#[test]
fn discovery_publishes_are_retained_and_match_entries() {
    let sensor = Sensor::new("main", "stromzaehler2mqtt", "EBZ5DD32R06ETA_107");

    let publishes = discovery_publishes(&sensor, "stromzaehler2mqtt");

    assert_eq!(publishes.len(), 3);
    assert!(publishes.iter().all(|publish| publish.retain));
    assert_eq!(
        publishes[0].topic,
        "homeassistant/sensor/stromzaehler2mqtt/main_ebz5dd32r06eta_107_energy_import/config"
    );
}

#[test]
fn reading_publishes_only_emit_supported_readings_without_retain() {
    let sensor = Sensor::new("main", "stromzaehler2mqtt", "EBZ5DD32R06ETA_107");
    let telegram = Telegram {
        device_id: "EBZ5DD32R06ETA_107".into(),
        readings: vec![
            Reading::EnergyImport(text("2714.128")),
            Reading::EnergyExport(text("1.206")),
            Reading::PowerTotal(text("211.26")),
            Reading::PowerL1(text("157.64")),
            Reading::Unknown {
                code: "1-0:99.9.9*255".into(),
                value: "ignored".into(),
                unit: Some("X".into()),
            },
        ],
    };

    let publishes = reading_publishes(&sensor, &telegram);

    assert_eq!(
        publishes,
        vec![
            Publish {
                topic: "stromzaehler2mqtt/main/energy_import".into(),
                payload: "2714.128".into(),
                retain: false,
            },
            Publish {
                topic: "stromzaehler2mqtt/main/energy_export".into(),
                payload: "1.206".into(),
                retain: false,
            },
            Publish {
                topic: "stromzaehler2mqtt/main/power_total".into(),
                payload: "211.26".into(),
                retain: false,
            },
        ]
    );
}

// Further cases of this library.

#[test]
fn discovery_payload_is_compact_json_with_sorted_keys() {
    let sensor = Sensor::new("main", "stromzaehler2mqtt", "EBZ5DD32R06ETA_107");
    let entries = discovery_entries(&sensor, "stromzaehler2mqtt");
    assert_eq!(
        entries[2].1,
        "{\"device\":{\"identifiers\":[\"main_ebz5dd32r06eta_107\"],\"name\":\"main\"},\
         \"device_class\":\"power\",\"name\":\"Power Total\",\"state_class\":\"measurement\",\
         \"state_topic\":\"stromzaehler2mqtt/main/power_total\",\
         \"unique_id\":\"main_ebz5dd32r06eta_107_power_total\",\"unit_of_measurement\":\"W\"}"
    );
    assert_eq!(
        entries[1].0,
        "homeassistant/sensor/stromzaehler2mqtt/main_ebz5dd32r06eta_107_energy_export/config"
    );
}

#[test]
fn discovery_payload_escapes_the_configured_name() {
    let sensor = Sensor::new("Haus \"A\"", "m", "D1");
    let entries = discovery_entries(&sensor, "n");
    let v: serde_json::Value = serde_json::from_str(&entries[0].1).unwrap();
    assert_eq!(v["device"]["name"], "Haus \"A\"");
    assert_eq!(v["state_topic"], "m/haus__a_/energy_import");
    assert!(entries[0].1.contains("\"name\":\"Haus \\\"A\\\"\""));
}

#[test]
fn sensor_keys_and_topics() {
    let sensor = Sensor::new("Küche", "base/x", "EBZ-1");
    assert_eq!(sensor.name, "Küche");
    assert_eq!(sensor.base_topic, "base/x");
    assert_eq!(sensor.device_id, "EBZ-1");
    assert_eq!(sensor.device_key(), "kueche_ebz_1");
    assert_eq!(sensor.value_topic("power_total"), "base/x/kueche/power_total");
}

#[test]
fn sanitize_maps_every_other_character_to_underscore() {
    assert_eq!(sanitize_lowercased("a/b+c#d e"), "a_b_c_d_e");
    assert_eq!(sanitize_lowercased("äöüß"), "aeoeuess");
    assert_eq!(sanitize_lowercased("é€"), "__");
    assert_eq!(sanitize_lowercased("ABC"), "ABC");
    assert_eq!(sanitize_topic_segment(""), "");
}

#[test]
fn sanitizing_twice_changes_nothing() {
    for raw in ["a/b+c#d e", "äöüß", "é€", "ABC", "", "x__y"] {
        let once = sanitize_lowercased(raw);
        assert_eq!(sanitize_lowercased(&once), once, "{raw}");
    }
}

#[test]
fn discovery_payload_escapes_control_characters() {
    let sensor = Sensor::new("a\nb\u{1}c\\d\t\u{7f}é", "m", "D1");
    let entries = discovery_entries(&sensor, "n");
    assert!(entries[0].1.contains("\"name\":\"a\\nb\\u0001c\\\\d\\t\u{7f}é\""));
    let v: serde_json::Value = serde_json::from_str(&entries[0].1).unwrap();
    assert_eq!(v["device"]["name"], "a\nb\u{1}c\\d\t\u{7f}é");
}
