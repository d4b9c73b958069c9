use vstd::prelude::*;

use crate::model::{
    props_view, DisplayConfigState, LogicalMonitor, Mode, Monitor, MonitorInfo, Props,
};
use crate::numeral::{dec_rep, dec_to_i64, i64_to_dec, lemma_dec_rep_injective};
use crate::wire::{
    wire_props_view, ApplyLogicalMonitor, ApplyModeEntry, ApplyRequest, PersistenceMode,
    RawLogicalMonitor, RawMode, RawMonitor, RawMonitorInfo, RawState, WireProps, WireValue,
    WireValueV,
};

verus! {

/// What one wire scalar becomes in a decoded bag: strings verbatim, signed
/// integers in their decimal form, anything else dropped.
pub open spec fn decoded_value(v: WireValueV) -> Option<Seq<char>> {
    match v {
        WireValueV::Str(s) => Some(s),
        WireValueV::Int(i) => Some(dec_rep(i as int)),
        WireValueV::Other => None,
    }
}

/// A decoded wire map: entries in order, unknown scalar kinds dropped.
pub open spec fn decode_bag(s: Seq<(Seq<char>, WireValueV)>) -> Seq<(Seq<char>, Seq<char>)>
    decreases s.len(),
{
    if s.len() == 0 {
        Seq::empty()
    } else {
        let rest = decode_bag(s.drop_last());
        match decoded_value(s.last().1) {
            Some(v) => rest.push((s.last().0, v)),
            None => rest,
        }
    }
}

/// `s` is the canonical decimal form of some 64-bit integer.
pub open spec fn is_canonical_dec(s: Seq<char>) -> bool {
    exists|i: i64| s == dec_rep(i as int)
}

pub open spec fn canonical_dec_val(s: Seq<char>) -> i64 {
    choose|i: i64| s == dec_rep(i as int)
}

/// What one bag value becomes on the wire: the integer it canonically
/// denotes, where it denotes one, else the string itself.
pub open spec fn encoded_value(s: Seq<char>) -> WireValueV {
    if is_canonical_dec(s) {
        WireValueV::Int(canonical_dec_val(s))
    } else {
        WireValueV::Str(s)
    }
}

/// An encoded bag: every entry kept, in order.
pub open spec fn encode_bag(b: Seq<(Seq<char>, Seq<char>)>) -> Seq<(Seq<char>, WireValueV)> {
    b.map_values(|e: (Seq<char>, Seq<char>)| (e.0, encoded_value(e.1)))
}

/// Decodes one wire map into a property bag.
pub fn prop_map_to_props(w: &WireProps) -> (r: Props)
    ensures
        props_view(r@) == decode_bag(wire_props_view(w@)),
{
    let ghost wv = wire_props_view(w@);
    let mut out: Props = Vec::new();
    proof {
        assert(wv.take(0) =~= Seq::<(Seq<char>, WireValueV)>::empty());
        assert(props_view(out@) =~= Seq::<(Seq<char>, Seq<char>)>::empty());
    }
    let mut i: usize = 0;
    while i < w.len()
        invariant
            0 <= i <= w@.len(),
            wv == wire_props_view(w@),
            wv.len() == w@.len(),
            props_view(out@) == decode_bag(wv.take(i as int)),
        decreases w@.len() - i,
    {
        let ghost pre = out@;
        match &w[i].1 {
            WireValue::Str(s) => {
                out.push((w[i].0.clone(), s.clone()));
            },
            WireValue::Int(n) => {
                let v = i64_to_dec(*n);
                out.push((w[i].0.clone(), v));
            },
            WireValue::Other => {},
        }
        proof {
            assert(wv[i as int] == (w@[i as int].0@, w@[i as int].1@));
            assert(wv.take(i + 1).drop_last() =~= wv.take(i as int));
            assert(wv.take(i + 1).last() == wv[i as int]);
            match decoded_value(wv[i as int].1) {
                Some(v) => {
                    assert(props_view(out@) =~= props_view(pre).push((w@[i as int].0@, v)));
                },
                None => {
                    assert(out@ == pre);
                },
            }
        }
        i = i + 1;
    }
    proof {
        assert(wv.take(i as int) =~= wv);
    }
    out
}

/// Encodes one property-bag value back to a wire scalar.
pub fn encode_value(v: &String) -> (r: WireValue)
    ensures
        r@ == encoded_value(v@),
{
    match dec_to_i64(v.as_str()) {
        Some(n) => {
            let t = i64_to_dec(n);
            if crate::model::string_eq(&t, v) {
                proof {
                    assert(is_canonical_dec(v@)) by {
                        assert(v@ == dec_rep(n as int));
                    }
                    let j = canonical_dec_val(v@);
                    assert(v@ == dec_rep(j as int));
                    lemma_dec_rep_injective(j as int, n as int);
                }
                WireValue::Int(n)
            } else {
                proof {
                    assert forall|i: i64| v@ != dec_rep(i as int) by {
                        if v@ == dec_rep(i as int) {
                            assert(i == n);
                            assert(false);
                        }
                    }
                }
                WireValue::Str(v.clone())
            }
        },
        None => {
            proof {
                assert forall|i: i64| v@ != dec_rep(i as int) by {
                    if v@ == dec_rep(i as int) {
                        assert(false);
                    }
                }
            }
            WireValue::Str(v.clone())
        },
    }
}

/// Encodes a property bag as a wire map.
pub fn encode_props(p: &Props) -> (r: WireProps)
    ensures
        wire_props_view(r@) == encode_bag(props_view(p@)),
{
    let ghost pv = props_view(p@);
    let mut out: WireProps = Vec::new();
    let mut i: usize = 0;
    proof {
        assert(wire_props_view(out@) =~= encode_bag(pv.take(0)));
    }
    while i < p.len()
        invariant
            0 <= i <= p@.len(),
            pv == props_view(p@),
            pv.len() == p@.len(),
            wire_props_view(out@) == encode_bag(pv.take(i as int)),
        decreases p@.len() - i,
    {
        let ghost pre = out@;
        let w = encode_value(&p[i].1);
        out.push((p[i].0.clone(), w));
        proof {
            assert(pv[i as int] == (p@[i as int].0@, p@[i as int].1@));
            assert(wire_props_view(out@) =~= wire_props_view(pre).push(
                (p@[i as int].0@, encoded_value(pv[i as int].1)),
            ));
            assert(encode_bag(pv.take(i + 1)) =~= encode_bag(pv.take(i as int)).push(
                (pv[i as int].0, encoded_value(pv[i as int].1)),
            ));
        }
        i = i + 1;
    }
    proof {
        assert(pv.take(i as int) =~= pv);
    }
    out
}

/// Dropping an unknown scalar is silent: it leaves the decoded bag as it
/// was.
pub proof fn lemma_decode_drops_unknown(s: Seq<(Seq<char>, WireValueV)>, k: Seq<char>)
    ensures
        decode_bag(s.push((k, WireValueV::Other))) == decode_bag(s),
{
    assert(s.push((k, WireValueV::Other)).drop_last() =~= s);
}

/// No two wire-map entries share a key.
pub open spec fn wire_unique_keys(s: Seq<(Seq<char>, WireValueV)>) -> bool {
    forall|i: int, j: int| 0 <= i < j < s.len() ==> s[i].0 != s[j].0
}

/// Every key of a decoded bag comes from the wire map.
pub proof fn lemma_decode_keys_from_wire(s: Seq<(Seq<char>, WireValueV)>, k: int)
    requires
        0 <= k < decode_bag(s).len(),
    ensures
        exists|m: int| 0 <= m < s.len() && (#[trigger] s[m]).0 == decode_bag(s)[k].0,
    decreases s.len(),
{
    if s.len() > 0 {
        let rest = s.drop_last();
        let d = decode_bag(s);
        if k < decode_bag(rest).len() {
            lemma_decode_keys_from_wire(rest, k);
            let m = choose|m: int|
                0 <= m < rest.len() && (#[trigger] rest[m]).0 == decode_bag(rest)[k].0;
            assert(s[m] == rest[m]);
            assert(d[k] == decode_bag(rest)[k]);
        } else {
            assert(d[k].0 == s[s.len() - 1].0);
        }
    }
}

/// A wire map without duplicate keys decodes to a bag without duplicate
/// keys: the bag invariant holds of everything the codec produces.
pub proof fn lemma_decode_preserves_unique_keys(s: Seq<(Seq<char>, WireValueV)>)
    requires
        wire_unique_keys(s),
    ensures
        crate::model::props_unique_keys(decode_bag(s)),
    decreases s.len(),
{
    if s.len() > 0 {
        let rest = s.drop_last();
        assert(forall|i: int| 0 <= i < rest.len() ==> rest[i] == s[i]);
        lemma_decode_preserves_unique_keys(rest);
        let d = decode_bag(s);
        let dr = decode_bag(rest);
        assert forall|i: int, j: int| 0 <= i < j < d.len() implies d[i].0 != d[j].0 by {
            if j < dr.len() {
                assert(d[i] == dr[i] && d[j] == dr[j]);
            } else {
                assert(d[i] == dr[i]);
                assert(d[j].0 == s[s.len() - 1].0);
                lemma_decode_keys_from_wire(rest, i);
                let m = choose|m: int|
                    0 <= m < rest.len() && (#[trigger] rest[m]).0 == dr[i].0;
                assert(s[m].0 == dr[i].0);
            }
        }
    }
}

/// A wire-map entry the codec can reproduce: an integer, or a string that
/// is not the canonical decimal form of one.
pub open spec fn bag_entry_reversible(e: (Seq<char>, WireValueV)) -> bool {
    match e.1 {
        WireValueV::Int(_) => true,
        WireValueV::Str(s) => !is_canonical_dec(s),
        WireValueV::Other => false,
    }
}

/// Decoding then encoding a wire map reproduces it, wherever every entry is
/// a string or integer scalar and no string spells a canonical integer.
pub proof fn lemma_bag_round_trip(x: Seq<(Seq<char>, WireValueV)>)
    requires
        forall|k: int| 0 <= k < x.len() ==> bag_entry_reversible(#[trigger] x[k]),
    ensures
        encode_bag(decode_bag(x)) == x,
    decreases x.len(),
{
    if x.len() == 0 {
        assert(decode_bag(x) =~= Seq::<(Seq<char>, Seq<char>)>::empty());
        assert(encode_bag(decode_bag(x)) =~= x);
    } else {
        let rest = x.drop_last();
        assert(forall|k: int| 0 <= k < rest.len() ==> bag_entry_reversible(#[trigger] rest[k]));
        lemma_bag_round_trip(rest);
        let e = x.last();
        match e.1 {
            WireValueV::Int(n) => {
                let v = dec_rep(n as int);
                assert(decode_bag(x) == decode_bag(rest).push((e.0, v)));
                assert(is_canonical_dec(v)) by {
                    assert(v == dec_rep(n as int));
                }
                let j = canonical_dec_val(v);
                assert(v == dec_rep(j as int));
                lemma_dec_rep_injective(j as int, n as int);
                assert(encoded_value(v) == WireValueV::Int(n));
                assert(encode_bag(decode_bag(rest).push((e.0, v))) =~= encode_bag(
                    decode_bag(rest),
                ).push((e.0, encoded_value(v))));
                assert(encode_bag(decode_bag(x)) =~= x);
            },
            WireValueV::Str(s) => {
                assert(decode_bag(x) == decode_bag(rest).push((e.0, s)));
                assert(encoded_value(s) == WireValueV::Str(s));
                assert(encode_bag(decode_bag(rest).push((e.0, s))) =~= encode_bag(
                    decode_bag(rest),
                ).push((e.0, encoded_value(s))));
                assert(encode_bag(decode_bag(x)) =~= x);
            },
            WireValueV::Other => {
                assert(false);
            },
        }
    }
}

/// The model image of one wire monitor identity.
pub open spec fn minfo_decoded(m: MonitorInfo, w: RawMonitorInfo) -> bool {
    &&& m.connector == w.connector
    &&& m.vendor == w.vendor
    &&& m.product == w.product
    &&& m.serial == w.serial
}

/// The model image of one wire mode.
pub open spec fn mode_decoded(m: Mode, w: RawMode) -> bool {
    &&& m.id == w.id
    &&& m.width == w.width
    &&& m.height == w.height
    &&& m.refresh_rate == w.refresh_rate
    &&& m.preferred_scale == w.preferred_scale
    &&& m.supported_scales@ == w.supported_scales@
    &&& props_view(m.properties@) == decode_bag(wire_props_view(w.properties@))
}

/// The model image of one wire monitor.
pub open spec fn monitor_decoded(m: Monitor, w: RawMonitor) -> bool {
    &&& minfo_decoded(m.monitor_info, w.monitor_info)
    &&& m.modes@.len() == w.modes@.len()
    &&& forall|k: int| 0 <= k < m.modes@.len() ==> mode_decoded(#[trigger] m.modes@[k], w.modes@[k])
    &&& props_view(m.properties@) == decode_bag(wire_props_view(w.properties@))
}

/// The model image of one wire logical monitor.
pub open spec fn logical_decoded(l: LogicalMonitor, w: RawLogicalMonitor) -> bool {
    &&& l.x == w.x
    &&& l.y == w.y
    &&& l.scale == w.scale
    &&& l.transform == w.transform
    &&& l.primary == w.primary
    &&& l.monitors@.len() == w.monitors@.len()
    &&& forall|k: int|
        0 <= k < l.monitors@.len() ==> minfo_decoded(#[trigger] l.monitors@[k], w.monitors@[k])
    &&& props_view(l.properties@) == decode_bag(wire_props_view(w.properties@))
}

/// The model image of a whole wire snapshot.
pub open spec fn state_decoded(s: DisplayConfigState, w: RawState) -> bool {
    &&& s.serial == w.serial
    &&& s.monitors@.len() == w.monitors@.len()
    &&& forall|k: int|
        0 <= k < s.monitors@.len() ==> monitor_decoded(#[trigger] s.monitors@[k], w.monitors@[k])
    &&& s.logical_monitors@.len() == w.logical_monitors@.len()
    &&& forall|k: int|
        0 <= k < s.logical_monitors@.len() ==> logical_decoded(
            #[trigger] s.logical_monitors@[k],
            w.logical_monitors@[k],
        )
    &&& props_view(s.properties@) == decode_bag(wire_props_view(w.properties@))
}

fn copy_scales(v: &Vec<u64>) -> (r: Vec<u64>)
    ensures
        r@ == v@,
{
    let mut out: Vec<u64> = Vec::new();
    let mut i: usize = 0;
    while i < v.len()
        invariant
            0 <= i <= v@.len(),
            out@ == v@.take(i as int),
        decreases v@.len() - i,
    {
        out.push(v[i]);
        proof {
            assert(v@.take(i + 1) =~= v@.take(i as int).push(v@[i as int]));
        }
        i = i + 1;
    }
    proof {
        assert(v@.take(i as int) =~= v@);
    }
    out
}

/// Decodes one wire monitor identity.
pub fn decode_monitor_info(w: &RawMonitorInfo) -> (r: MonitorInfo)
    ensures
        minfo_decoded(r, *w),
{
    MonitorInfo {
        connector: w.connector.clone(),
        vendor: w.vendor.clone(),
        product: w.product.clone(),
        serial: w.serial.clone(),
    }
}

/// Decodes one wire mode.
pub fn decode_mode(w: &RawMode) -> (r: Mode)
    ensures
        mode_decoded(r, *w),
{
    Mode {
        id: w.id.clone(),
        width: w.width,
        height: w.height,
        refresh_rate: w.refresh_rate,
        preferred_scale: w.preferred_scale,
        supported_scales: copy_scales(&w.supported_scales),
        properties: prop_map_to_props(&w.properties),
    }
}

/// Decodes one wire monitor.
pub fn decode_monitor(w: &RawMonitor) -> (r: Monitor)
    ensures
        monitor_decoded(r, *w),
{
    let mut modes: Vec<Mode> = Vec::new();
    let mut i: usize = 0;
    while i < w.modes.len()
        invariant
            0 <= i <= w.modes@.len(),
            modes@.len() == i,
            forall|k: int| 0 <= k < i ==> mode_decoded(#[trigger] modes@[k], w.modes@[k]),
        decreases w.modes@.len() - i,
    {
        modes.push(decode_mode(&w.modes[i]));
        i = i + 1;
    }
    Monitor {
        monitor_info: decode_monitor_info(&w.monitor_info),
        modes,
        properties: prop_map_to_props(&w.properties),
    }
}

/// Decodes one wire logical monitor.
pub fn decode_logical_monitor(w: &RawLogicalMonitor) -> (r: LogicalMonitor)
    ensures
        logical_decoded(r, *w),
{
    let mut monitors: Vec<MonitorInfo> = Vec::new();
    let mut i: usize = 0;
    while i < w.monitors.len()
        invariant
            0 <= i <= w.monitors@.len(),
            monitors@.len() == i,
            forall|k: int| 0 <= k < i ==> minfo_decoded(#[trigger] monitors@[k], w.monitors@[k]),
        decreases w.monitors@.len() - i,
    {
        monitors.push(decode_monitor_info(&w.monitors[i]));
        i = i + 1;
    }
    LogicalMonitor {
        x: w.x,
        y: w.y,
        scale: w.scale,
        transform: w.transform,
        primary: w.primary,
        monitors,
        properties: prop_map_to_props(&w.properties),
    }
}

/// Decodes a whole snapshot, element-wise and totally: an empty monitor or
/// logical-monitor list is a legitimate transient state and decodes to an
/// empty model list.
pub fn decode(w: &RawState) -> (r: DisplayConfigState)
    ensures
        state_decoded(r, *w),
{
    let mut monitors: Vec<Monitor> = Vec::new();
    let mut i: usize = 0;
    while i < w.monitors.len()
        invariant
            0 <= i <= w.monitors@.len(),
            monitors@.len() == i,
            forall|k: int| 0 <= k < i ==> monitor_decoded(#[trigger] monitors@[k], w.monitors@[k]),
        decreases w.monitors@.len() - i,
    {
        monitors.push(decode_monitor(&w.monitors[i]));
        i = i + 1;
    }
    let mut logical_monitors: Vec<LogicalMonitor> = Vec::new();
    let mut j: usize = 0;
    while j < w.logical_monitors.len()
        invariant
            0 <= j <= w.logical_monitors@.len(),
            logical_monitors@.len() == j,
            forall|k: int|
                0 <= k < j ==> logical_decoded(
                    #[trigger] logical_monitors@[k],
                    w.logical_monitors@[k],
                ),
        decreases w.logical_monitors@.len() - j,
    {
        logical_monitors.push(decode_logical_monitor(&w.logical_monitors[j]));
        j = j + 1;
    }
    DisplayConfigState {
        serial: w.serial,
        monitors,
        logical_monitors,
        properties: prop_map_to_props(&w.properties),
    }
}

/// The first monitor of `ms` on the given connector, if any.
pub open spec fn monitor_for_connector(ms: Seq<Monitor>, c: Seq<char>) -> Option<Monitor>
    decreases ms.len(),
{
    if ms.len() == 0 {
        None
    } else if ms[0].monitor_info.connector@ == c {
        Some(ms[0])
    } else {
        monitor_for_connector(ms.drop_first(), c)
    }
}

/// The mode a connector resolves to: the currently running mode of the
/// monitor on that connector, where both exist.
pub open spec fn resolve_connector(ms: Seq<Monitor>, c: Seq<char>) -> Option<Seq<char>> {
    match monitor_for_connector(ms, c) {
        Some(m) => crate::model::current_mode_id(m.modes@),
        None => None,
    }
}

/// The per-logical-monitor mode list of an apply request: one entry for each
/// referenced connector that resolves, in connector order; none for a
/// connector that does not.
pub open spec fn resolved_modes(ms: Seq<Monitor>, infos: Seq<MonitorInfo>) -> Seq<
    (Seq<char>, Seq<char>),
>
    decreases infos.len(),
{
    if infos.len() == 0 {
        Seq::empty()
    } else {
        let rest = resolved_modes(ms, infos.drop_last());
        match resolve_connector(ms, infos.last().connector@) {
            Some(id) => rest.push((infos.last().connector@, id)),
            None => rest,
        }
    }
}

/// The (connector, mode identifier) pairs of an apply mode list.
pub open spec fn apply_entries_view(v: Seq<ApplyModeEntry>) -> Seq<(Seq<char>, Seq<char>)> {
    v.map_values(|e: ApplyModeEntry| (e.connector@, e.mode_id@))
}

/// One encoded logical monitor: geometry carried verbatim, and the mode list
/// resolved against the snapshot's monitors.
pub open spec fn logical_encoded(
    a: ApplyLogicalMonitor,
    l: LogicalMonitor,
    ms: Seq<Monitor>,
) -> bool {
    &&& a.x == l.x
    &&& a.y == l.y
    &&& a.scale == l.scale
    &&& a.transform == l.transform
    &&& a.primary == l.primary
    &&& apply_entries_view(a.modes@) == resolved_modes(ms, l.monitors@)
    &&& forall|k: int| 0 <= k < a.modes@.len() ==> (#[trigger] a.modes@[k]).properties@.len() == 0
}

/// The first monitor on the given connector, if any.
pub fn find_monitor<'a>(ms: &'a Vec<Monitor>, connector: &String) -> (r: Option<&'a Monitor>)
    ensures
        match r {
            Some(m) => monitor_for_connector(ms@, connector@) == Some(*m),
            None => monitor_for_connector(ms@, connector@) is None,
        },
{
    let ghost s = ms@;
    proof {
        assert(s.skip(0) =~= s);
    }
    let mut i: usize = 0;
    while i < ms.len()
        invariant
            0 <= i <= s.len(),
            s == ms@,
            monitor_for_connector(s, connector@) == monitor_for_connector(
                s.skip(i as int),
                connector@,
            ),
        decreases s.len() - i,
    {
        proof {
            assert(s.skip(i as int).len() > 0);
            assert(s.skip(i as int)[0] == s[i as int]);
        }
        if crate::model::string_eq(&ms[i].monitor_info.connector, connector) {
            return Some(&ms[i]);
        }
        proof {
            assert(s.skip(i as int).drop_first() =~= s.skip(i + 1));
        }
        i = i + 1;
    }
    proof {
        assert(s.skip(i as int) =~= Seq::<Monitor>::empty());
    }
    None
}

/// Builds an apply request from a stored snapshot: the caller-supplied
/// serial carried through unchanged, the chosen persistence mode, and, for
/// every logical monitor, one mode entry per connector that resolves to a
/// monitor with a mode marked current — in connector order, with
/// unresolvable connectors omitted.
pub fn encode_apply(serial: u32, mode: PersistenceMode, state: &DisplayConfigState) -> (r:
    ApplyRequest)
    ensures
        r.serial == serial,
        r.mode == mode,
        r.properties@.len() == 0,
        r.logical_monitors@.len() == state.logical_monitors@.len(),
        forall|j: int|
            0 <= j < r.logical_monitors@.len() ==> logical_encoded(
                #[trigger] r.logical_monitors@[j],
                state.logical_monitors@[j],
                state.monitors@,
            ),
{
    let mut logical_monitors: Vec<ApplyLogicalMonitor> = Vec::new();
    let mut j: usize = 0;
    while j < state.logical_monitors.len()
        invariant
            0 <= j <= state.logical_monitors@.len(),
            logical_monitors@.len() == j,
            forall|k: int|
                0 <= k < j ==> logical_encoded(
                    #[trigger] logical_monitors@[k],
                    state.logical_monitors@[k],
                    state.monitors@,
                ),
        decreases state.logical_monitors@.len() - j,
    {
        let lm = &state.logical_monitors[j];
        let ghost infos = lm.monitors@;
        let mut modes: Vec<ApplyModeEntry> = Vec::new();
        proof {
            assert(infos.take(0) =~= Seq::<MonitorInfo>::empty());
            assert(apply_entries_view(modes@) =~= resolved_modes(state.monitors@, infos.take(0)));
        }
        let mut i: usize = 0;
        while i < lm.monitors.len()
            invariant
                0 <= i <= infos.len(),
                infos == state.logical_monitors@[j as int].monitors@,
                j < state.logical_monitors@.len(),
                lm == &state.logical_monitors@[j as int],
                apply_entries_view(modes@) == resolved_modes(state.monitors@, infos.take(i as int)),
                forall|k: int|
                    0 <= k < modes@.len() ==> (#[trigger] modes@[k]).properties@.len() == 0,
            decreases infos.len() - i,
        {
            let ghost pre = modes@;
            let connector = &lm.monitors[i].connector;
            match find_monitor(&state.monitors, connector) {
                Some(monitor) => {
                    match monitor.get_current_mode_id() {
                        Some(mode_id) => {
                            modes.push(
                                ApplyModeEntry {
                                    connector: connector.clone(),
                                    mode_id: mode_id.clone(),
                                    properties: Vec::new(),
                                },
                            );
                        },
                        None => {},
                    }
                },
                None => {},
            }
            proof {
                assert(infos.take(i + 1).drop_last() =~= infos.take(i as int));
                assert(infos.take(i + 1).last() == infos[i as int]);
                match resolve_connector(state.monitors@, infos[i as int].connector@) {
                    Some(id) => {
                        assert(apply_entries_view(modes@) =~= apply_entries_view(pre).push(
                            (infos[i as int].connector@, id),
                        ));
                    },
                    None => {
                        assert(modes@ == pre);
                    },
                }
            }
            i = i + 1;
        }
        proof {
            assert(infos.take(i as int) =~= infos);
        }
        logical_monitors.push(
            ApplyLogicalMonitor {
                x: lm.x,
                y: lm.y,
                scale: lm.scale,
                transform: lm.transform,
                primary: lm.primary,
                modes,
            },
        );
        j = j + 1;
    }
    ApplyRequest { serial, mode, logical_monitors, properties: Vec::new() }
}

} // verus!
