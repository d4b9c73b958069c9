mod cli;
mod defaults;
mod help;
mod model;
mod mutter;
mod numeral;
mod store;
mod wire;

pub use cli::GenericOptions;
pub use defaults::{
    config_path_spec, default_timeout, resolve_config_file_path, ConfigPathError,
};
pub use help::{print_usage, usage_text};
pub use model::{
    Configuration, DisplayConfigState, LogicalMonitor, Mode, Monitor, MonitorInfo, Preset, Props,
};
pub use model::{
    contains_name, current_mode_id, index_of_name, lemma_first_index_unique, lemma_index_of_name,
    mode_is_current, props_first_match, props_get, props_unique_keys, props_view, string_eq,
    unique_names,
};
pub use numeral::{dec_rep, dec_to_i64, i64_to_dec, lemma_dec_rep_injective};
pub use mutter::{
    apply_entries_view, bag_entry_reversible, decode, decode_bag, decode_logical_monitor,
    decode_mode, decode_monitor, decode_monitor_info, decoded_value, encode_apply, encode_bag,
    encode_props, encode_value, encoded_value, find_monitor, is_canonical_dec,
    lemma_bag_round_trip, lemma_decode_drops_unknown, lemma_decode_preserves_unique_keys,
    logical_decoded, logical_encoded, minfo_decoded, mode_decoded, monitor_decoded,
    monitor_for_connector, prop_map_to_props, resolve_connector, resolved_modes, state_decoded,
    wire_unique_keys,
};
pub use store::{
    delete_post, lemma_rename_force_merge, lemma_save_then_override, lemma_save_twice, rename_post,
    save_post, StoreError,
};
pub use wire::{
    wire_props_view, ApplyLogicalMonitor, ApplyModeEntry, ApplyRequest, PersistenceMode,
    RawLogicalMonitor, RawMode, RawMonitor, RawMonitorInfo, RawState, WireProps, WireValue,
    WireValueV,
};
