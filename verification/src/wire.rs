use vstd::prelude::*;

verus! {

/// One scalar out of the wire protocol's open-ended attribute maps: the two
/// kinds the codec preserves, and a catch-all for every other kind, which it
/// drops on decode.
#[derive(Debug, PartialEq, Clone)]
pub enum WireValue {
    Str(String),
    Int(i64),
    Other,
}

/// Spec-level image of a wire scalar.
pub enum WireValueV {
    Str(Seq<char>),
    Int(i64),
    Other,
}

impl View for WireValue {
    type V = WireValueV;

    open spec fn view(&self) -> WireValueV {
        match self {
            WireValue::Str(s) => WireValueV::Str(s@),
            WireValue::Int(i) => WireValueV::Int(*i),
            WireValue::Other => WireValueV::Other,
        }
    }
}

/// An attribute map as it stands on the wire: keys to tagged scalars.
pub type WireProps = Vec<(String, WireValue)>;

pub open spec fn wire_props_view(s: Seq<(String, WireValue)>) -> Seq<(Seq<char>, WireValueV)> {
    s.map_values(|e: (String, WireValue)| (e.0@, e.1@))
}

/// Monitor identity as the wire carries it.
#[derive(Debug, PartialEq, Clone)]
pub struct RawMonitorInfo {
    pub connector: String,
    pub vendor: String,
    pub product: String,
    pub serial: String,
}

/// One mode as the wire carries it. Binary64 fields travel as bit patterns.
#[derive(Debug, PartialEq, Clone)]
pub struct RawMode {
    pub id: String,
    pub width: i32,
    pub height: i32,
    pub refresh_rate: u64,
    pub preferred_scale: u64,
    pub supported_scales: Vec<u64>,
    pub properties: WireProps,
}

/// One physical monitor as the wire carries it.
#[derive(Debug, PartialEq, Clone)]
pub struct RawMonitor {
    pub monitor_info: RawMonitorInfo,
    pub modes: Vec<RawMode>,
    pub properties: WireProps,
}

/// One logical monitor as the wire carries it.
#[derive(Debug, PartialEq, Clone)]
pub struct RawLogicalMonitor {
    pub x: i32,
    pub y: i32,
    pub scale: u64,
    pub transform: u32,
    pub primary: bool,
    pub monitors: Vec<RawMonitorInfo>,
    pub properties: WireProps,
}

/// A full snapshot as returned by the service's state query.
#[derive(Debug, PartialEq, Clone)]
pub struct RawState {
    pub serial: u32,
    pub monitors: Vec<RawMonitor>,
    pub logical_monitors: Vec<RawLogicalMonitor>,
    pub properties: WireProps,
}

/// Whether an applied configuration reverts on its own or is written to the
/// service's saved state. The service exposes the choice as two method
/// variants, not as a flag.
#[derive(Debug, PartialEq, Eq, Structural, Clone, Copy)]
pub enum PersistenceMode {
    Transient,
    Persistent,
}

impl PersistenceMode {
    /// The method selector of the service's apply call.
    pub open spec fn spec_method_code(self) -> u32 {
        match self {
            PersistenceMode::Transient => 1,
            PersistenceMode::Persistent => 2,
        }
    }

    pub fn method_code(&self) -> (r: u32)
        ensures
            r == self.spec_method_code(),
    {
        match self {
            PersistenceMode::Transient => 1,
            PersistenceMode::Persistent => 2,
        }
    }
}

/// One resolved connector of an apply request: the connector, the mode it is
/// to run, and an attribute map the encoder leaves empty.
#[derive(Debug, PartialEq, Clone)]
pub struct ApplyModeEntry {
    pub connector: String,
    pub mode_id: String,
    pub properties: WireProps,
}

/// One logical monitor of an apply request.
#[derive(Debug, PartialEq, Clone)]
pub struct ApplyLogicalMonitor {
    pub x: i32,
    pub y: i32,
    pub scale: u64,
    pub transform: u32,
    pub primary: bool,
    pub modes: Vec<ApplyModeEntry>,
}

/// A whole apply request, ready for the transport to send.
#[derive(Debug, PartialEq, Clone)]
pub struct ApplyRequest {
    pub serial: u32,
    pub mode: PersistenceMode,
    pub logical_monitors: Vec<ApplyLogicalMonitor>,
    pub properties: WireProps,
}

} // verus!
