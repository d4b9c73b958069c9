use display_presets::{
    decode, decode_logical_monitor, decode_mode, decode_monitor, decode_monitor_info,
    encode_apply, encode_props, encode_value, prop_map_to_props, ApplyLogicalMonitor,
    ApplyModeEntry, DisplayConfigState, LogicalMonitor, Mode, Monitor, MonitorInfo,
    PersistenceMode, Props, RawLogicalMonitor, RawMode, RawMonitor, RawMonitorInfo, RawState,
    WireValue,
};

#[test]
fn monitor_info_from_dbus() {
    let connector = "C".to_string();
    let product = "P".to_string();
    let vendor = "V".to_string();
    let serial = "S".to_string();

    assert_eq!(
        MonitorInfo {
            connector: connector.clone(),
            product: product.clone(),
            vendor: vendor.clone(),
            serial: serial.clone(),
        },
        decode_monitor_info(&RawMonitorInfo {
            connector: connector.clone(),
            vendor: vendor.clone(),
            product: product.clone(),
            serial: serial.clone(),
        })
    )
}

fn raw_mode() -> RawMode {
    RawMode {
        id: String::from("I"),
        width: 1920,
        height: 1080,
        refresh_rate: 60.0f64.to_bits(),
        preferred_scale: 1.0f64.to_bits(),
        supported_scales: vec![
            1.0f64.to_bits(),
            1.25f64.to_bits(),
            1.5f64.to_bits(),
            2.0f64.to_bits(),
        ],
        properties: Vec::new(),
    }
}

fn expected_mode() -> Mode {
    Mode {
        id: String::from("I"),
        width: 1920,
        height: 1080,
        refresh_rate: 60.0f64.to_bits(),
        preferred_scale: 1.0f64.to_bits(),
        supported_scales: vec![
            1.0f64.to_bits(),
            1.25f64.to_bits(),
            1.5f64.to_bits(),
            2.0f64.to_bits(),
        ],
        properties: Props::new(),
    }
}

#[test]
fn mode_from_dbus() {
    assert_eq!(expected_mode(), decode_mode(&raw_mode()));
}

fn raw_monitor_info() -> RawMonitorInfo {
    RawMonitorInfo {
        connector: "C".to_string(),
        vendor: "V".to_string(),
        product: "P".to_string(),
        serial: "S".to_string(),
    }
}

#[test]
fn monitor_from_dbus() {
    let expected = Monitor {
        monitor_info: decode_monitor_info(&raw_monitor_info()),
        modes: vec![expected_mode()],
        properties: Props::new(),
    };
    assert_eq!(
        expected,
        decode_monitor(&RawMonitor {
            monitor_info: raw_monitor_info(),
            modes: vec![raw_mode()],
            properties: Vec::new(),
        })
    )
}

#[test]
fn logical_monitor_from_dbus() {
    let expected = LogicalMonitor {
        x: 10,
        y: 20,
        scale: 1.0f64.to_bits(),
        transform: 2,
        primary: true,
        monitors: vec![decode_monitor_info(&raw_monitor_info())],
        properties: Props::new(),
    };
    assert_eq!(
        expected,
        decode_logical_monitor(&RawLogicalMonitor {
            x: 10,
            y: 20,
            scale: 1.0f64.to_bits(),
            transform: 2,
            primary: true,
            monitors: vec![raw_monitor_info()],
            properties: Vec::new(),
        })
    )
}

#[test]
fn display_config_state_from_dbus() {
    let raw = RawState {
        serial: 1,
        monitors: vec![RawMonitor {
            monitor_info: raw_monitor_info(),
            modes: vec![raw_mode()],
            properties: Vec::new(),
        }],
        logical_monitors: vec![RawLogicalMonitor {
            x: 10,
            y: 20,
            scale: 1.0f64.to_bits(),
            transform: 2,
            primary: true,
            monitors: vec![raw_monitor_info()],
            properties: Vec::new(),
        }],
        properties: Vec::new(),
    };
    let expected = DisplayConfigState {
        serial: 1,
        monitors: vec![Monitor {
            monitor_info: decode_monitor_info(&raw_monitor_info()),
            modes: vec![expected_mode()],
            properties: Props::new(),
        }],
        logical_monitors: vec![LogicalMonitor {
            x: 10,
            y: 20,
            scale: 1.0f64.to_bits(),
            transform: 2,
            primary: true,
            monitors: vec![decode_monitor_info(&raw_monitor_info())],
            properties: Props::new(),
        }],
        properties: Props::new(),
    };
    assert_eq!(expected, decode(&raw));
}

#[test]
fn empty_snapshot_decodes_to_empty_model_lists() {
    let raw = RawState {
        serial: 7,
        monitors: vec![],
        logical_monitors: vec![],
        properties: Vec::new(),
    };
    let state = decode(&raw);
    assert_eq!(7, state.serial);
    assert!(state.monitors.is_empty());
    assert!(state.logical_monitors.is_empty());
    assert!(state.properties.is_empty());
}

#[test]
fn prop_map_decodes_strings_and_integers_and_drops_the_rest() {
    let wire = vec![
        ("a".to_string(), WireValue::Str("hello".to_string())),
        ("b".to_string(), WireValue::Int(-12)),
        ("c".to_string(), WireValue::Other),
        ("d".to_string(), WireValue::Int(0)),
    ];
    let expected: Props = vec![
        ("a".to_string(), "hello".to_string()),
        ("b".to_string(), "-12".to_string()),
        ("d".to_string(), "0".to_string()),
    ];
    assert_eq!(expected, prop_map_to_props(&wire));
}

#[test]
fn prop_bag_round_trips_strings_and_integers() {
    let wire = vec![
        ("a".to_string(), WireValue::Str("hello".to_string())),
        ("b".to_string(), WireValue::Int(-12)),
        ("c".to_string(), WireValue::Int(9000)),
    ];
    let decoded = prop_map_to_props(&wire);
    assert_eq!(wire, encode_props(&decoded));
}

#[test]
fn encode_value_tells_canonical_integers_from_strings() {
    assert_eq!(WireValue::Int(42), encode_value(&"42".to_string()));
    assert_eq!(WireValue::Int(-7), encode_value(&"-7".to_string()));
    assert_eq!(
        WireValue::Str("007".to_string()),
        encode_value(&"007".to_string())
    );
    assert_eq!(
        WireValue::Str("-0".to_string()),
        encode_value(&"-0".to_string())
    );
    assert_eq!(
        WireValue::Str("abc".to_string()),
        encode_value(&"abc".to_string())
    );
    assert_eq!(WireValue::Str("".to_string()), encode_value(&"".to_string()));
}

#[test]
fn encode_apply_end_to_end() {
    let raw = RawState {
        serial: 3,
        monitors: vec![RawMonitor {
            monitor_info: RawMonitorInfo {
                connector: "DP-1".to_string(),
                vendor: "V".to_string(),
                product: "P".to_string(),
                serial: "S".to_string(),
            },
            modes: vec![
                RawMode {
                    id: "1".to_string(),
                    width: 1920,
                    height: 1080,
                    refresh_rate: 60.0f64.to_bits(),
                    preferred_scale: 1.0f64.to_bits(),
                    supported_scales: vec![1.0f64.to_bits()],
                    properties: vec![("is-current".to_string(), WireValue::Int(1))],
                },
                RawMode {
                    id: "2".to_string(),
                    width: 1280,
                    height: 720,
                    refresh_rate: 60.0f64.to_bits(),
                    preferred_scale: 1.0f64.to_bits(),
                    supported_scales: vec![1.0f64.to_bits()],
                    properties: Vec::new(),
                },
            ],
            properties: Vec::new(),
        }],
        logical_monitors: vec![RawLogicalMonitor {
            x: 0,
            y: 0,
            scale: 1.0f64.to_bits(),
            transform: 0,
            primary: true,
            monitors: vec![RawMonitorInfo {
                connector: "DP-1".to_string(),
                vendor: "V".to_string(),
                product: "P".to_string(),
                serial: "S".to_string(),
            }],
            properties: Vec::new(),
        }],
        properties: Vec::new(),
    };
    let state = decode(&raw);
    let request = encode_apply(5, PersistenceMode::Transient, &state);
    assert_eq!(5, request.serial);
    assert_eq!(PersistenceMode::Transient, request.mode);
    assert_eq!(1, request.mode.method_code());
    assert_eq!(
        vec![ApplyLogicalMonitor {
            x: 0,
            y: 0,
            scale: 1.0f64.to_bits(),
            transform: 0,
            primary: true,
            modes: vec![ApplyModeEntry {
                connector: "DP-1".to_string(),
                mode_id: "1".to_string(),
                properties: Vec::new(),
            }],
        }],
        request.logical_monitors
    );
    assert!(request.properties.is_empty());
}

#[test]
fn encode_apply_omits_unresolvable_connectors() {
    let state = DisplayConfigState {
        serial: 9,
        monitors: vec![Monitor {
            monitor_info: MonitorInfo {
                connector: "DP-1".to_string(),
                vendor: "V".to_string(),
                product: "P".to_string(),
                serial: "S".to_string(),
            },
            // No mode carries the is-current marker.
            modes: vec![Mode {
                id: "1".to_string(),
                width: 800,
                height: 600,
                refresh_rate: 60.0f64.to_bits(),
                preferred_scale: 1.0f64.to_bits(),
                supported_scales: vec![],
                properties: Props::new(),
            }],
            properties: Props::new(),
        }],
        logical_monitors: vec![LogicalMonitor {
            x: 0,
            y: 0,
            scale: 1.0f64.to_bits(),
            transform: 0,
            primary: true,
            monitors: vec![
                MonitorInfo {
                    connector: "DP-1".to_string(),
                    vendor: "V".to_string(),
                    product: "P".to_string(),
                    serial: "S".to_string(),
                },
                MonitorInfo {
                    connector: "HDMI-1".to_string(),
                    vendor: "V".to_string(),
                    product: "P".to_string(),
                    serial: "S".to_string(),
                },
            ],
            properties: Props::new(),
        }],
        properties: Props::new(),
    };
    let request = encode_apply(9, PersistenceMode::Persistent, &state);
    assert_eq!(2, request.mode.method_code());
    assert_eq!(1, request.logical_monitors.len());
    assert!(request.logical_monitors[0].modes.is_empty());
}
