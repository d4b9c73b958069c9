use vstd::prelude::*;
use vstd::string::StringExecFns;

verus! {

/// An open-ended attribute map carried by the wire protocol: string keys to
/// string values, insertion order kept, keys unique on well-formed data.
pub type Props = Vec<(String, String)>;

/// First value stored under `key`, if any (on well-formed bags the only one).
pub open spec fn props_first_match(s: Seq<(String, String)>, key: Seq<char>) -> Option<Seq<char>>
    decreases s.len(),
{
    if s.len() == 0 {
        None
    } else if s[0].0@ == key {
        Some(s[0].1@)
    } else {
        props_first_match(s.drop_first(), key)
    }
}

/// A property bag as key/value character sequences, in order.
pub open spec fn props_view(s: Seq<(String, String)>) -> Seq<(Seq<char>, Seq<char>)> {
    s.map_values(|e: (String, String)| (e.0@, e.1@))
}

/// No two entries share a key.
pub open spec fn props_unique_keys(s: Seq<(Seq<char>, Seq<char>)>) -> bool {
    forall|i: int, j: int| 0 <= i < j < s.len() ==> s[i].0 != s[j].0
}

/// String equality by contents.
pub fn string_eq(a: &String, b: &String) -> (r: bool)
    ensures
        r == (a@ == b@),
{
    a.eq(b)
}

/// Looks `key` up in a property bag; the first matching entry wins.
pub fn props_get<'a>(props: &'a Props, key: &String) -> (r: Option<&'a String>)
    ensures
        match r {
            Some(v) => props_first_match(props@, key@) == Some(v@),
            None => props_first_match(props@, key@) is None,
        },
{
    let ghost s = props@;
    proof {
        assert(s.skip(0) =~= s);
    }
    let mut i: usize = 0;
    while i < props.len()
        invariant
            0 <= i <= s.len(),
            s == props@,
            props_first_match(s, key@) == props_first_match(s.skip(i as int), key@),
        decreases s.len() - i,
    {
        proof {
            assert(s.skip(i as int).len() > 0);
            assert(s.skip(i as int)[0] == s[i as int]);
        }
        if string_eq(&props[i].0, key) {
            return Some(&props[i].1);
        }
        proof {
            assert(s.skip(i as int).drop_first() =~= s.skip(i + 1));
        }
        i = i + 1;
    }
    proof {
        assert(s.skip(i as int) =~= Seq::<(String, String)>::empty());
    }
    None
}

/// Stable hardware identity of one physical monitor; the connector name is
/// the join key used throughout the model.
#[derive(Debug, PartialEq, Clone)]
pub struct MonitorInfo {
    pub connector: String,
    pub vendor: String,
    pub product: String,
    pub serial: String,
}

/// One display timing mode of a physical monitor. The wire protocol carries
/// the refresh rate and the scale factors as binary64 values; the model holds
/// their bit patterns verbatim, so nothing is lost or rounded in transit.
#[derive(Debug, PartialEq, Clone)]
pub struct Mode {
    pub id: String,
    pub width: i32,
    pub height: i32,
    /// Bit pattern of the refresh rate in Hz.
    pub refresh_rate: u64,
    /// Bit pattern of the preferred scale factor.
    pub preferred_scale: u64,
    /// Bit patterns of the supported scale factors.
    pub supported_scales: Vec<u64>,
    pub properties: Props,
}

/// The property-bag marker that singles out the mode a monitor is running
/// right now.
pub open spec fn mode_is_current(m: Mode) -> bool {
    props_first_match(m.properties@, "is-current"@) == Some("1"@)
}

/// Identifier of the first mode marked current in `ms`, if any.
pub open spec fn current_mode_id(ms: Seq<Mode>) -> Option<Seq<char>>
    decreases ms.len(),
{
    if ms.len() == 0 {
        None
    } else if mode_is_current(ms[0]) {
        Some(ms[0].id@)
    } else {
        current_mode_id(ms.drop_first())
    }
}

/// A physical monitor: its identity, its available modes and its attributes.
#[derive(Debug, PartialEq, Clone)]
pub struct Monitor {
    pub monitor_info: MonitorInfo,
    pub modes: Vec<Mode>,
    pub properties: Props,
}

impl Monitor {
    /// Identifier of the mode this monitor is running right now: the first
    /// mode whose property bag carries `is-current = "1"`.
    pub fn get_current_mode_id(&self) -> (r: Option<&String>)
        ensures
            match r {
                Some(id) => current_mode_id(self.modes@) == Some(id@),
                None => current_mode_id(self.modes@) is None,
            },
    {
        let key = String::from_str("is-current");
        let one = String::from_str("1");
        let ghost ms = self.modes@;
        proof {
            assert(ms.skip(0) =~= ms);
        }
        let mut i: usize = 0;
        while i < self.modes.len()
            invariant
                0 <= i <= ms.len(),
                ms == self.modes@,
                key@ == "is-current"@,
                one@ == "1"@,
                current_mode_id(ms) == current_mode_id(ms.skip(i as int)),
            decreases ms.len() - i,
        {
            proof {
                assert(ms.skip(i as int).len() > 0);
                assert(ms.skip(i as int)[0] == ms[i as int]);
            }
            let is_cur = match props_get(&self.modes[i].properties, &key) {
                Some(v) => string_eq(v, &one),
                None => false,
            };
            if is_cur {
                return Some(&self.modes[i].id);
            }
            proof {
                assert(ms.skip(i as int).drop_first() =~= ms.skip(i + 1));
            }
            i = i + 1;
        }
        proof {
            assert(ms.skip(i as int) =~= Seq::<Mode>::empty());
        }
        None
    }
}

/// One compositor-visible output surface, composed of one or more physical
/// monitors (more than one for mirrored setups). The scale factor travels as
/// a binary64 bit pattern, like the mode fields.
#[derive(Debug, PartialEq, Clone)]
pub struct LogicalMonitor {
    pub x: i32,
    pub y: i32,
    /// Bit pattern of the scale factor.
    pub scale: u64,
    pub transform: u32,
    pub primary: bool,
    pub monitors: Vec<MonitorInfo>,
    pub properties: Props,
}

/// A full snapshot of the display arrangement, as decoded from one query of
/// the configuration service. The serial is the service's generation token,
/// used for its optimistic-concurrency check on apply.
#[derive(Debug, PartialEq, Clone)]
pub struct DisplayConfigState {
    pub serial: u32,
    pub monitors: Vec<Monitor>,
    pub logical_monitors: Vec<LogicalMonitor>,
    pub properties: Props,
}

/// A named, stored snapshot.
#[derive(Debug, PartialEq, Clone)]
pub struct Preset {
    pub name: String,
    pub display_config: DisplayConfigState,
}

/// Index of the first preset named `name`, if any.
pub open spec fn index_of_name(s: Seq<Preset>, name: Seq<char>) -> Option<int>
    decreases s.len(),
{
    if s.len() == 0 {
        None
    } else if s[0].name@ == name {
        Some(0)
    } else {
        match index_of_name(s.drop_first(), name) {
            Some(i) => Some(i + 1),
            None => None,
        }
    }
}

/// Some preset in `s` is named `name`.
pub open spec fn contains_name(s: Seq<Preset>, name: Seq<char>) -> bool {
    exists|i: int| 0 <= i < s.len() && s[i].name@ == name
}

/// Preset names are unique.
pub open spec fn unique_names(s: Seq<Preset>) -> bool {
    forall|i: int, j: int| 0 <= i < j < s.len() ==> s[i].name@ != s[j].name@
}

/// What `index_of_name` finds: the first index holding `name`, or a witness
/// that no index holds it.
pub proof fn lemma_index_of_name(s: Seq<Preset>, name: Seq<char>)
    ensures
        match index_of_name(s, name) {
            Some(i) => 0 <= i < s.len() && s[i].name@ == name && (forall|k: int|
                0 <= k < i ==> s[k].name@ != name),
            None => !contains_name(s, name),
        },
    decreases s.len(),
{
    if s.len() > 0 && s[0].name@ != name {
        let rest = s.drop_first();
        lemma_index_of_name(rest, name);
        assert(forall|k: int| 0 <= k < rest.len() ==> rest[k] == s[k + 1]);
        match index_of_name(rest, name) {
            Some(i) => {
                assert(index_of_name(s, name) == Some(i + 1));
                assert(s[i + 1] == rest[i]);
                assert forall|k: int| 0 <= k < i + 1 implies s[k].name@ != name by {
                    if k > 0 {
                        assert(rest[k - 1] == s[k]);
                    }
                }
            },
            None => {
                assert(index_of_name(s, name) is None);
                assert forall|k: int| 0 <= k < s.len() implies s[k].name@ != name by {
                    if k > 0 {
                        assert(rest[k - 1] == s[k]);
                        assert(!contains_name(rest, name));
                    }
                }
            },
        }
    }
}

/// The whole collection of stored presets: the unit of persistence.
#[derive(Debug, PartialEq, Clone)]
pub struct Configuration {
    pub presets: Vec<Preset>,
}

impl Configuration {
    /// The stored preset named `name`, if any.
    pub fn get_preset<'a>(&'a self, name: &String) -> (r: Option<&'a Preset>)
        ensures
            match r {
                Some(p) => {
                    &&& index_of_name(self.presets@, name@) is Some
                    &&& *p == self.presets@[index_of_name(self.presets@, name@)->Some_0]
                },
                None => !contains_name(self.presets@, name@),
            },
    {
        let ghost s = self.presets@;
        proof {
            lemma_index_of_name(s, name@);
        }
        let mut i: usize = 0;
        while i < self.presets.len()
            invariant
                0 <= i <= s.len(),
                s == self.presets@,
                forall|k: int| 0 <= k < i ==> s[k].name@ != name@,
                match index_of_name(s, name@) {
                    Some(j) => 0 <= j < s.len() && s[j].name@ == name@ && (forall|k: int|
                        0 <= k < j ==> s[k].name@ != name@),
                    None => !contains_name(s, name@),
                },
            decreases s.len() - i,
        {
            if string_eq(&self.presets[i].name, name) {
                proof {
                    lemma_first_index_unique(s, name@, i as int);
                }
                return Some(&self.presets[i]);
            }
            i = i + 1;
        }
        None
    }
}

/// If `i` holds `name` and nothing before it does, `index_of_name` finds `i`.
pub proof fn lemma_first_index_unique(s: Seq<Preset>, name: Seq<char>, i: int)
    requires
        0 <= i < s.len(),
        s[i].name@ == name,
        forall|k: int| 0 <= k < i ==> s[k].name@ != name,
    ensures
        index_of_name(s, name) == Some(i),
    decreases s.len(),
{
    if i > 0 {
        assert forall|k: int| 0 <= k < s.drop_first().len() implies s.drop_first()[k]
            == s[k + 1] by {}
        lemma_first_index_unique(s.drop_first(), name, i - 1);
    }
}

} // verus!
