use display_presets::{
    Configuration, DisplayConfigState, Mode, Monitor, MonitorInfo, Preset, Props,
};

fn generate_preset_with_name(name: &str, serial: u32) -> Preset {
    Preset {
        name: String::from(name),
        display_config: DisplayConfigState {
            serial,
            monitors: vec![],
            logical_monitors: vec![],
            properties: Props::new(),
        },
    }
}

#[test]
fn get_preset_by_name() {
    let preset1 = generate_preset_with_name("Preset1", 1);
    let preset2 = generate_preset_with_name("Preset2", 2);

    let conf = Configuration {
        presets: vec![
            generate_preset_with_name("Preset1", 1),
            generate_preset_with_name("Preset2", 2),
        ],
    };

    assert_eq!(
        &preset1,
        conf.get_preset(&"Preset1".to_string()).unwrap()
    );
    assert_eq!(
        &preset2,
        conf.get_preset(&"Preset2".to_string()).unwrap()
    );
    assert!(conf.get_preset(&"Missing".to_string()).is_none());
}

#[test]
fn get_current_mode_id() {
    let monitor = Monitor {
        monitor_info: MonitorInfo {
            connector: "".to_string(),
            vendor: "".to_string(),
            product: "".to_string(),
            serial: "".to_string(),
        },
        modes: vec![
            Mode {
                id: "1".to_string(),
                width: 0,
                height: 0,
                refresh_rate: 0.0f64.to_bits(),
                preferred_scale: 0.0f64.to_bits(),
                supported_scales: vec![],
                properties: vec![("is-current".to_string(), "1".to_string())],
            },
            Mode {
                id: "2".to_string(),
                width: 0,
                height: 0,
                refresh_rate: 0.0f64.to_bits(),
                preferred_scale: 0.0f64.to_bits(),
                supported_scales: vec![],
                properties: Props::new(),
            },
        ],
        properties: Props::new(),
    };

    assert_eq!("1", monitor.get_current_mode_id().unwrap());
}
