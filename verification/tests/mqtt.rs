use dummycloud::mqtt::{
    autoconf_messages, autoconf_round, AutoconfSchedule, client_id_from_nanos, data_publications,
    device_payload, efficiency_publication, logger_publications, non_empty, report_publications,
    sensor_payload, state_publications, text_sensor_payload, wifi_publication, DeviceInfo,
    LoggerMetadata, LoggerMetadataStore, Publication,
};
use dummycloud::protocol::{DataPayload, GridData, InverterData, InverterMeta, LoggerPayload, PvData};

fn simple_device(identifier: &str) -> DeviceInfo {
    DeviceInfo {
        manufacturer: String::new(),
        model: String::new(),
        name: String::new(),
        configuration_url: String::new(),
        identifiers: vec![identifier.to_owned()],
        serial_number: String::new(),
        sw_version: None,
        hw_version: None,
        connections: Vec::new(),
    }
}

#[test]
fn creates_diagnostic_text_sensor_payload() {
    let device = simple_device("deye_dummycloud_123");
    let payload = text_sensor_payload(
        "deye-dummycloud/123",
        "logger/wifi_ssid",
        "Logger WiFi SSID",
        "deye_dummycloud_123_logger_wifi_ssid",
        Some("diagnostic"),
        Some("mdi:wifi-settings"),
        &device,
    );

    assert_eq!(payload.state_topic, "deye-dummycloud/123/logger/wifi_ssid");
    assert_eq!(payload.entity_category.as_deref(), Some("diagnostic"));
    assert_eq!(payload.icon.as_deref(), Some("mdi:wifi-settings"));
    assert_eq!(payload.unique_id, "deye_dummycloud_123_logger_wifi_ssid");
    assert_eq!(payload.device.identifiers, vec!["deye_dummycloud_123".to_owned()]);
}

#[test]
fn adds_logger_metadata_to_device_payload() {
    let metadata = LoggerMetadata {
        ip_address: Some("192.0.2.15".to_owned()),
        mac_address: Some("AA:BB:CC:DD:EE:FF".to_owned()),
        firmware_version: Some("MW3_16U_5406_1.53".to_owned()),
        hardware_version: Some("V1.1.00.0F".to_owned()),
        wifi_ssid: Some("test-net".to_owned()),
    };
    let payload = device_payload("1234567890", "192.0.2.15", Some(&metadata));

    assert_eq!(payload.serial_number, "1234567890");
    assert_eq!(payload.configuration_url, "http://192.0.2.15/index_cn.html");
    assert_eq!(payload.sw_version.as_deref(), Some("MW3_16U_5406_1.53"));
    assert_eq!(payload.hw_version.as_deref(), Some("V1.1.00.0F"));
    assert_eq!(payload.connections[0].0, "mac");
    assert_eq!(payload.connections[0].1, "AA:BB:CC:DD:EE:FF");
}

#[test]
fn device_payload_without_metadata() {
    let payload = device_payload("42", "10.0.0.2", None);
    assert_eq!(payload.manufacturer, "Deye");
    assert_eq!(payload.model, "Microinverter");
    assert_eq!(payload.name, "Deye Microinverter 42");
    assert_eq!(payload.identifiers, vec!["deye_dummycloud_42".to_owned()]);
    assert_eq!(payload.sw_version, None);
    assert!(payload.connections.is_empty());
}

#[test]
fn sensor_payload_sets_template_for_efficiency_only() {
    let device = simple_device("x");
    let p = sensor_payload("b", "inverter/efficiency", "Inverter Efficiency", Some("%"), None, Some("measurement"), "id", Some(360), None, Some("diagnostic"), Some("mdi:cog-transfer"), &device);
    assert_eq!(p.value_template.as_deref(), Some("{{ value_json }}"));
    assert_eq!(p.state_topic, "b/inverter/efficiency");
    assert_eq!(p.expire_after, Some(360));
    let p = sensor_payload("b", "grid/v", "Grid Voltage", Some("V"), Some("voltage"), Some("measurement"), "id", None, Some(true), None, None, &device);
    assert_eq!(p.value_template, None);
    assert_eq!(p.object_id, "id");
    assert_eq!(p.enabled_by_default, Some(true));
}

fn data(mppt_count: u8) -> DataPayload {
    DataPayload {
        pv: vec![
            PvData { v: 315, i: 52, w: 16380, kwh_today: 17, kwh_total: 0 },
            PvData { v: 300, i: 10, w: 3000, kwh_today: 0, kwh_total: 12345 },
            PvData { v: 0, i: 0, w: 0, kwh_today: 0, kwh_total: 0 },
            PvData { v: 0, i: 0, w: 0, kwh_today: 0, kwh_total: 0 },
        ],
        grid: GridData { active_power_w: 189, kwh_today: 120, kwh_total: 0, v: 2301, hz: 4998 },
        inverter: InverterData { radiator_temp_celsius: -5 },
        inverter_meta: InverterMeta { mppt_count },
    }
}

fn pairs(v: &[Publication]) -> Vec<(String, String, bool)> {
    v.iter().map(|p| (p.topic.clone(), p.payload.clone(), p.retain)).collect()
}

#[test]
fn data_publications_in_order() {
    let v = data_publications(123, &data(2)).unwrap();
    let expected: Vec<(String, String, bool)> = vec![
        ("deye-dummycloud/123/pv/1/v", "31.5", false),
        ("deye-dummycloud/123/pv/1/i", "5.2", false),
        ("deye-dummycloud/123/pv/1/w", "163.8", false),
        ("deye-dummycloud/123/pv/1/kWh_today", "1.7", true),
        ("deye-dummycloud/123/pv/2/v", "30", false),
        ("deye-dummycloud/123/pv/2/i", "1", false),
        ("deye-dummycloud/123/pv/2/w", "30", false),
        ("deye-dummycloud/123/pv/2/kWh_today", "0", true),
        ("deye-dummycloud/123/pv/2/kWh_total", "1234.5", true),
        ("deye-dummycloud/123/grid/active_power_w", "189", false),
        ("deye-dummycloud/123/grid/kWh_today", "1.2", true),
        ("deye-dummycloud/123/grid/v", "230.1", false),
        ("deye-dummycloud/123/grid/hz", "49.98", false),
        ("deye-dummycloud/123/inverter/radiator_temperature", "-0.05", false),
    ]
    .into_iter()
    .map(|(t, p, r)| (t.to_owned(), p.to_owned(), r))
    .collect();
    assert_eq!(pairs(&v), expected);
}

#[test]
fn data_without_trackers_is_not_published() {
    assert!(data_publications(1, &data(0)).is_none());
    let v = data_publications(1, &data(9)).unwrap();
    assert_eq!(v.iter().filter(|p| p.topic.contains("/pv/")).count(), 4 + 5 + 4 + 4);
}

#[test]
fn non_empty_trims_whitespace() {
    assert_eq!(non_empty("  abc \t"), Some("abc".to_owned()));
    assert_eq!(non_empty(" \u{3000} "), None);
    assert_eq!(non_empty(""), None);
}

#[test]
fn non_empty_of_its_own_result_is_unchanged() {
    assert_eq!(non_empty("  ab "), Some("ab".to_owned()));
    assert_eq!(non_empty("   "), None);
    for input in ["  ab ", "x", "\t a b \n", " \u{3000}q\u{3000} "] {
        let once = non_empty(input).unwrap();
        assert_eq!(non_empty(&once), Some(once.clone()));
    }
}

#[test]
fn metadata_from_handshake_falls_back_to_remote_address() {
    let logger = LoggerPayload {
        fw_ver: " MW3 ".to_owned(),
        ip: "  ".to_owned(),
        ver: String::new(),
        ssid: "net".to_owned(),
        mac: Some("AA".to_owned()),
    };
    let m = LoggerMetadata::from_handshake("192.0.2.7", &logger);
    assert_eq!(m.ip_address.as_deref(), Some("192.0.2.7"));
    assert_eq!(m.mac_address.as_deref(), Some("AA"));
    assert_eq!(m.firmware_version.as_deref(), Some("MW3"));
    assert_eq!(m.hardware_version, None);
    assert_eq!(m.wifi_ssid.as_deref(), Some("net"));
}

#[test]
fn logger_publications_skip_unknown_texts() {
    let m = LoggerMetadata {
        ip_address: Some("192.0.2.7".to_owned()),
        mac_address: None,
        firmware_version: None,
        hardware_version: Some("V1".to_owned()),
        wifi_ssid: None,
    };
    let v = logger_publications(77, &m);
    assert_eq!(
        pairs(&v),
        vec![
            ("deye-dummycloud/77/logger/serial_number".to_owned(), "77".to_owned(), true),
            ("deye-dummycloud/77/logger/ip_address".to_owned(), "192.0.2.7".to_owned(), true),
            ("deye-dummycloud/77/logger/hardware_version".to_owned(), "V1".to_owned(), true),
        ]
    );
}

#[test]
fn report_publications_with_and_without_reboot_time() {
    let v = report_publications(5, 100, 1_700_000_000);
    assert_eq!(
        pairs(&v),
        vec![
            ("deye-dummycloud/5/logger/uptime_seconds".to_owned(), "100".to_owned(), true),
            ("deye-dummycloud/5/logger/report_time".to_owned(), "2023-11-14T22:13:20Z".to_owned(), true),
            ("deye-dummycloud/5/logger/last_reboot".to_owned(), "2023-11-14T22:11:40Z".to_owned(), true),
        ]
    );
    assert_eq!(report_publications(5, 100, 99).len(), 2);
}

#[test]
fn wifi_signal_needs_the_known_ssid() {
    assert!(wifi_publication(5, "net", Some(80), None).is_none());
    assert!(wifi_publication(5, "", Some(80), Some("")).is_none());
    assert!(wifi_publication(5, "other", Some(80), Some("net")).is_none());
    assert!(wifi_publication(5, "net", None, Some("net")).is_none());
    let p = wifi_publication(5, "net", Some(80), Some("net")).unwrap();
    assert_eq!(p.topic, "deye-dummycloud/5/logger/wifi_signal");
    assert_eq!(p.payload, "80");
    assert!(p.retain);
}

#[test]
fn autoconf_is_due_after_four_hours() {
    let hour: u128 = 3_600_000_000_000;
    let mut schedule = AutoconfSchedule::new();
    assert!(schedule.is_due(7, 0));
    schedule.record(7, 5);
    assert!(!schedule.is_due(7, 5 + hour));
    assert!(!schedule.is_due(7, 5 + 4 * hour));
    assert!(schedule.is_due(7, 6 + 4 * hour));
    assert!(!schedule.is_due(7, 0));
    assert!(schedule.is_due(8, 5));
    schedule.record(8, 10);
    schedule.record(7, 6 + 4 * hour);
    assert!(!schedule.is_due(7, 7 + 4 * hour));
    assert!(!schedule.is_due(8, 10 + 4 * hour));
    assert!(schedule.is_due(8, 11 + 4 * hour));
}

#[test]
fn client_ids_use_seven_hex_digits() {
    assert_eq!(client_id_from_nanos(0), "deye_dummycloud_0000000");
    assert_eq!(client_id_from_nanos(999_999_999), "deye_dummycloud_b9ac9ff");
    assert_eq!(client_id_from_nanos(0x1234_5678), "deye_dummycloud_2345678");
}

#[test]
fn autoconf_lists_every_entity() {
    let v = autoconf_messages("192.0.2.15", "123", 2, None);
    assert_eq!(v.len(), 2 * 5 + 17);
    assert_eq!(v[0].topic, "homeassistant/sensor/deye_dummycloud_123/123_pv1_v/config");
    assert_eq!(v[0].config.state_topic, "deye-dummycloud/123/pv/1/v");
    assert_eq!(v[0].config.name, "PV 1 Voltage");
    assert_eq!(v[0].config.unique_id, "deye_dummycloud_123_pv_1_v");
    assert_eq!(v[0].config.enabled_by_default, Some(true));
    assert_eq!(v[9].topic, "homeassistant/sensor/deye_dummycloud_123/123_pv2_kWh_total/config");
    assert_eq!(v[11].config.unique_id, "deye_dummycloud_123_grid_energy_today");
    assert_eq!(v[15].config.unit_of_measurement.as_deref(), Some("\u{00b0}C"));
    assert_eq!(v[16].config.value_template.as_deref(), Some("{{ value_json }}"));
    assert_eq!(v[17].topic, "homeassistant/text_sensor/deye_dummycloud_123/123_logger_serial_number/config");
    assert_eq!(v[26].config.icon.as_deref(), Some("mdi:wifi-settings"));
    assert_eq!(v[26].config.device.configuration_url, "http://192.0.2.15/index_cn.html");
    assert!(v.iter().all(|m| m.retain));
    assert!(!v.iter().any(|m| m.topic.contains("pv0_") || m.topic.contains("pv3_")));
    let v = autoconf_messages("h", "9", 3, None);
    assert_eq!(v[10].config.enabled_by_default, Some(false));
}

#[test]
fn efficiency_closes_the_state_messages() {
    let p = efficiency_publication(123, "96.50".to_owned());
    assert_eq!(p.topic, "deye-dummycloud/123/inverter/efficiency");
    assert_eq!(p.payload, "96.50");
    assert!(!p.retain);
    let all = state_publications(123, &data(2), "null".to_owned()).unwrap();
    let plain = data_publications(123, &data(2)).unwrap();
    assert_eq!(all.len(), plain.len() + 1);
    assert_eq!(pairs(&all[..plain.len()]), pairs(&plain));
    assert_eq!(
        pairs(&all[plain.len()..]),
        vec![("deye-dummycloud/123/inverter/efficiency".to_owned(), "null".to_owned(), false)]
    );
    assert!(state_publications(123, &data(0), "1".to_owned()).is_none());
}

fn handshake(ip: &str, ssid: &str) -> LoggerPayload {
    LoggerPayload {
        fw_ver: "MW3_16U_5406_1.53".to_owned(),
        ip: ip.to_owned(),
        ver: "V1".to_owned(),
        ssid: ssid.to_owned(),
        mac: None,
    }
}

#[test]
fn metadata_store_keeps_each_logger_apart() {
    let mut store = LoggerMetadataStore::new();
    assert!(store.get(1).is_none());
    let v = store.record_handshake("192.0.2.1", 1, &handshake("", "home"));
    assert_eq!(v[0].topic, "deye-dummycloud/1/logger/serial_number");
    assert_eq!(v[1].payload, "192.0.2.1");
    assert!(v.iter().all(|p| p.retain));
    store.record_handshake("192.0.2.2", 2, &handshake("10.0.0.2", "lab"));
    assert_eq!(store.get(1).unwrap().wifi_ssid.as_deref(), Some("home"));
    assert_eq!(store.get(2).unwrap().ip_address.as_deref(), Some("10.0.0.2"));
    store.insert(1, LoggerMetadata::default());
    assert_eq!(store.get(1).unwrap().wifi_ssid, None);
    assert_eq!(store.get(2).unwrap().wifi_ssid.as_deref(), Some("lab"));
    assert!(store.get(3).is_none());
}

#[test]
fn autoconf_round_is_recorded_only_when_complete() {
    let hour: u128 = 3_600_000_000_000;
    let mut schedule = AutoconfSchedule::new();
    let mut store = LoggerMetadataStore::new();
    store.record_handshake("192.0.2.15", 123, &handshake("", "home"));
    let v = autoconf_round(&schedule, &store, "192.0.2.15", 123, 2, 0).unwrap();
    assert_eq!(v.len(), 27);
    assert!(v.iter().all(|m| m.retain));
    assert_eq!(v[0].config.device.sw_version.as_deref(), Some("MW3_16U_5406_1.53"));
    schedule.autoconf_done(123, 0, false);
    assert!(autoconf_round(&schedule, &store, "192.0.2.15", 123, 2, 1).is_some());
    schedule.autoconf_done(123, 1, true);
    assert!(autoconf_round(&schedule, &store, "192.0.2.15", 123, 2, 1 + 4 * hour).is_none());
    assert!(autoconf_round(&schedule, &store, "192.0.2.15", 123, 2, 2 + 4 * hour).is_some());
    assert!(autoconf_round(&schedule, &store, "192.0.2.15", 124, 1, 2).is_some());
}
