use display_presets::{
    Configuration, DisplayConfigState, Preset, Props, StoreError,
};

fn snapshot(serial: u32) -> DisplayConfigState {
    DisplayConfigState {
        serial,
        monitors: vec![],
        logical_monitors: vec![],
        properties: Props::new(),
    }
}

fn empty_config() -> Configuration {
    Configuration { presets: vec![] }
}

#[test]
fn save_twice_fails_with_name_collision() {
    let mut conf = empty_config();
    assert_eq!(Ok(()), conf.save("P".to_string(), snapshot(1), false));
    assert_eq!(
        Err(StoreError::NameCollision),
        conf.save("P".to_string(), snapshot(2), false)
    );
    assert_eq!(1, conf.presets.len());
    assert_eq!(1, conf.presets[0].display_config.serial);
}

#[test]
fn forced_save_replaces_snapshot_but_not_name() {
    let mut conf = empty_config();
    assert_eq!(Ok(()), conf.save("P".to_string(), snapshot(1), false));
    assert_eq!(Ok(()), conf.save("P".to_string(), snapshot(2), true));
    assert_eq!(1, conf.presets.len());
    assert_eq!("P", conf.presets[0].name);
    assert_eq!(2, conf.presets[0].display_config.serial);
}

#[test]
fn rename_to_taken_name_fails_and_changes_nothing() {
    let mut conf = empty_config();
    conf.save("A".to_string(), snapshot(1), false).unwrap();
    conf.save("B".to_string(), snapshot(2), false).unwrap();
    assert_eq!(
        Err(StoreError::NameCollision),
        conf.rename(&"A".to_string(), &"B".to_string(), false)
    );
    assert_eq!(2, conf.presets.len());
    assert_eq!("A", conf.presets[0].name);
    assert_eq!(1, conf.presets[0].display_config.serial);
    assert_eq!("B", conf.presets[1].name);
    assert_eq!(2, conf.presets[1].display_config.serial);
}

#[test]
fn forced_rename_merges_onto_taken_name() {
    let mut conf = empty_config();
    conf.save("A".to_string(), snapshot(1), false).unwrap();
    conf.save("B".to_string(), snapshot(2), false).unwrap();
    assert_eq!(
        Ok(()),
        conf.rename(&"A".to_string(), &"B".to_string(), true)
    );
    assert_eq!(
        vec![Preset {
            name: "B".to_string(),
            display_config: snapshot(1),
        }],
        conf.presets
    );
}

#[test]
fn rename_to_fresh_name_keeps_content_and_place() {
    let mut conf = empty_config();
    conf.save("A".to_string(), snapshot(1), false).unwrap();
    conf.save("C".to_string(), snapshot(3), false).unwrap();
    assert_eq!(
        Ok(()),
        conf.rename(&"A".to_string(), &"B".to_string(), false)
    );
    assert_eq!("B", conf.presets[0].name);
    assert_eq!(1, conf.presets[0].display_config.serial);
    assert_eq!("C", conf.presets[1].name);
}

#[test]
fn rename_to_same_name_is_a_usage_error() {
    let mut conf = empty_config();
    conf.save("A".to_string(), snapshot(1), false).unwrap();
    assert_eq!(
        Err(StoreError::SameName),
        conf.rename(&"A".to_string(), &"A".to_string(), true)
    );
    assert_eq!(1, conf.presets.len());
}

#[test]
fn rename_of_missing_preset_fails_with_not_found() {
    let mut conf = empty_config();
    assert_eq!(
        Err(StoreError::NotFound),
        conf.rename(&"A".to_string(), &"B".to_string(), false)
    );
}

#[test]
fn delete_on_empty_configuration_fails_with_not_found() {
    let mut conf = empty_config();
    assert_eq!(Err(StoreError::NotFound), conf.delete(&"X".to_string()));
    assert!(conf.presets.is_empty());
}

#[test]
fn delete_removes_only_the_named_preset() {
    let mut conf = empty_config();
    conf.save("A".to_string(), snapshot(1), false).unwrap();
    conf.save("B".to_string(), snapshot(2), false).unwrap();
    assert_eq!(Ok(()), conf.delete(&"A".to_string()));
    assert_eq!(1, conf.presets.len());
    assert_eq!("B", conf.presets[0].name);
}

#[test]
fn list_on_empty_configuration_is_empty() {
    let conf = empty_config();
    assert!(conf.list().is_empty());
}

#[test]
fn list_keeps_insertion_order() {
    let mut conf = empty_config();
    conf.save("Zeta".to_string(), snapshot(1), false).unwrap();
    conf.save("Alpha".to_string(), snapshot(2), false).unwrap();
    assert_eq!(
        vec!["Zeta".to_string(), "Alpha".to_string()],
        conf.list()
    );
}
