//! Cooling devices: which pump, radiator fans and other headers make up one cooler, and
//! which sensors go with it.
//!
//! This is description only. No write to a header depends on it; the policy that a device
//! names is looked up among those of the program.

use crate::collections::StringSet;
use crate::hwmon::device_policy;
use crate::hwmon::device_policy::{resolve, DevicePolicy, DEFAULT_POLICY_ID};
use crate::text;
use crate::text::{byte_count, chars_of, decimal_of, quote, starts_with, str_eq};
use vstd::prelude::*;
use vstd::string::*;

verus! {

/// How many cooling devices there may be.
pub const MAX_COOLING_DEVICES: usize = 16;

/// How many members a list of a device may have.
pub const MAX_MEMBERS_PER_LIST: usize = 32;

/// How long the id of a device may be, in bytes.
pub const MAX_DEVICE_ID_BYTES: usize = 64;

/// How long any other text of a device may be, in bytes.
pub const MAX_DEVICE_TEXT_BYTES: usize = 256;

/// What kind of cooler a device is. For display only.
#[derive(Debug, Clone, Copy, PartialEq, Eq, Structural)]
pub enum CoolingDeviceKind {
    Unknown,
    AioLiquid,
    AirCooler,
    CustomLoop,
}

impl Default for CoolingDeviceKind {
    fn default() -> (r: Self)
        ensures
            r == CoolingDeviceKind::Unknown,
    {
        CoolingDeviceKind::Unknown
    }
}

impl CoolingDeviceKind {
    /// The word for the kind.
    pub open spec fn word(self) -> Seq<char> {
        match self {
            CoolingDeviceKind::Unknown => "unknown"@,
            CoolingDeviceKind::AioLiquid => "aio_liquid"@,
            CoolingDeviceKind::AirCooler => "air_cooler"@,
            CoolingDeviceKind::CustomLoop => "custom_loop"@,
        }
    }

    /// The kind that a word stands for.
    pub open spec fn named(token: Seq<char>) -> Option<CoolingDeviceKind> {
        if token == "unknown"@ {
            Some(CoolingDeviceKind::Unknown)
        } else if token == "aio_liquid"@ {
            Some(CoolingDeviceKind::AioLiquid)
        } else if token == "air_cooler"@ {
            Some(CoolingDeviceKind::AirCooler)
        } else if token == "custom_loop"@ {
            Some(CoolingDeviceKind::CustomLoop)
        } else {
            None
        }
    }

    /// The word for the kind.
    pub fn as_str(self) -> (r: &'static str)
        ensures
            r@ == self.word(),
    {
        match self {
            CoolingDeviceKind::Unknown => "unknown",
            CoolingDeviceKind::AioLiquid => "aio_liquid",
            CoolingDeviceKind::AirCooler => "air_cooler",
            CoolingDeviceKind::CustomLoop => "custom_loop",
        }
    }

    /// The kind that a word stands for, letter for letter.
    pub fn from_token(token: &str) -> (r: Option<Self>)
        ensures
            r == Self::named(token@),
    {
        if str_eq(token, "unknown") {
            Some(CoolingDeviceKind::Unknown)
        } else if str_eq(token, "aio_liquid") {
            Some(CoolingDeviceKind::AioLiquid)
        } else if str_eq(token, "air_cooler") {
            Some(CoolingDeviceKind::AirCooler)
        } else if str_eq(token, "custom_loop") {
            Some(CoolingDeviceKind::CustomLoop)
        } else {
            None
        }
    }
}

/// A cooling device as it is stored. Kind and policy are kept as words, so that a word
/// that is not known spoils nothing else.
#[derive(Debug, PartialEq)]
pub struct CoolingDeviceConfig {
    pub id: String,
    pub name: String,
    pub kind: String,
    pub pump_member: Option<String>,
    pub radiator_members: Vec<String>,
    pub auxiliary_members: Vec<String>,
    /// The sensor that would go with the device. Advice only.
    pub preferred_sensor: Option<String>,
    pub fallback_sensor: Option<String>,
    /// The coolant sensor; a cooler on a motherboard header has none.
    pub coolant_sensor: Option<String>,
    pub device_policy_id: String,
}

/// What a cooling device says.
#[verifier::ext_equal]
pub struct DeviceView {
    pub id: Seq<char>,
    pub name: Seq<char>,
    pub kind: Seq<char>,
    pub pump_member: Option<Seq<char>>,
    pub radiator_members: Seq<Seq<char>>,
    pub auxiliary_members: Seq<Seq<char>>,
    pub preferred_sensor: Option<Seq<char>>,
    pub fallback_sensor: Option<Seq<char>>,
    pub coolant_sensor: Option<Seq<char>>,
    pub device_policy_id: Seq<char>,
}

impl View for CoolingDeviceConfig {
    type V = DeviceView;

    open spec fn view(&self) -> DeviceView {
        DeviceView {
            id: self.id@,
            name: self.name@,
            kind: self.kind@,
            pump_member: text::opt_text(self.pump_member),
            radiator_members: text::strings(self.radiator_members@),
            auxiliary_members: text::strings(self.auxiliary_members@),
            preferred_sensor: text::opt_text(self.preferred_sensor),
            fallback_sensor: text::opt_text(self.fallback_sensor),
            coolant_sensor: text::opt_text(self.coolant_sensor),
            device_policy_id: self.device_policy_id@,
        }
    }
}

fn clone_text(o: &Option<String>) -> (r: Option<String>)
    ensures
        text::opt_text(r) == text::opt_text(*o),
{
    match o {
        Some(s) => Some(s.clone()),
        None => None,
    }
}

fn clone_list(v: &Vec<String>) -> (r: Vec<String>)
    ensures
        text::strings(r@) == text::strings(v@),
{
    let mut r: Vec<String> = Vec::new();
    let mut i: usize = 0;
    while i < v.len()
        invariant
            i <= v@.len(),
            r@.len() == i,
            forall|k: int| 0 <= k < i ==> #[trigger] r@[k]@ == v@[k]@,
        decreases v@.len() - i,
    {
        r.push(v[i].clone());
        i += 1;
    }
    assert(text::strings(r@) =~= text::strings(v@));
    r
}

impl Clone for CoolingDeviceConfig {
    fn clone(&self) -> (r: Self)
        ensures
            r@ == self@,
    {
        CoolingDeviceConfig {
            id: self.id.clone(),
            name: self.name.clone(),
            kind: self.kind.clone(),
            pump_member: clone_text(&self.pump_member),
            radiator_members: clone_list(&self.radiator_members),
            auxiliary_members: clone_list(&self.auxiliary_members),
            preferred_sensor: clone_text(&self.preferred_sensor),
            fallback_sensor: clone_text(&self.fallback_sensor),
            coolant_sensor: clone_text(&self.coolant_sensor),
            device_policy_id: self.device_policy_id.clone(),
        }
    }
}

impl Default for CoolingDeviceConfig {
    fn default() -> (r: Self)
        ensures
            r@ == (DeviceView {
                id: Seq::empty(),
                name: Seq::empty(),
                kind: Seq::empty(),
                pump_member: None,
                radiator_members: Seq::empty(),
                auxiliary_members: Seq::empty(),
                preferred_sensor: None,
                fallback_sensor: None,
                coolant_sensor: None,
                device_policy_id: Seq::empty(),
            }),
    {
        proof {
            reveal_strlit("");
        }
        CoolingDeviceConfig {
            id: "".to_owned(),
            name: "".to_owned(),
            kind: "".to_owned(),
            pump_member: None,
            radiator_members: Vec::new(),
            auxiliary_members: Vec::new(),
            preferred_sensor: None,
            fallback_sensor: None,
            coolant_sensor: None,
            device_policy_id: "".to_owned(),
        }
    }
}

impl DeviceView {
    /// The members: the pump, the radiator fans, the others.
    pub open spec fn members(self) -> Seq<Seq<char>> {
        (match self.pump_member {
            Some(p) => seq![p],
            None => Seq::empty(),
        }) + self.radiator_members + self.auxiliary_members
    }

    /// What kind of cooler the device is.
    pub open spec fn cooler_kind(self) -> CoolingDeviceKind {
        match CoolingDeviceKind::named(self.kind) {
            Some(k) => k,
            None => CoolingDeviceKind::Unknown,
        }
    }

    /// The policy that the device names, or the default one where it names none.
    pub open spec fn policy(self) -> DevicePolicy {
        if self.device_policy_id.len() == 0 {
            device_policy::policy_of(DEFAULT_POLICY_ID@)
        } else {
            device_policy::policy_of(self.device_policy_id)
        }
    }
}

fn add_all<'a>(out: &mut Vec<&'a str>, v: &'a Vec<String>)
    ensures
        text::texts(final(out)@) == text::texts(old(out)@) + text::strings(v@),
{
    let ghost before = text::texts(out@);
    let ghost all = text::strings(v@);
    let mut i: usize = 0;
    assert(before + all.take(0) =~= before);
    while i < v.len()
        invariant
            i <= v@.len(),
            all == text::strings(v@),
            text::texts(out@) == before + all.take(i as int),
        decreases v@.len() - i,
    {
        let ghost was = text::texts(out@);
        out.push(v[i].as_str());
        proof {
            assert(text::texts(out@) =~= was.push(v@[i as int]@));
            assert(all.take(i + 1) =~= all.take(i as int).push(v@[i as int]@));
            assert(before + all.take(i + 1) =~= was.push(v@[i as int]@));
        }
        i += 1;
    }
    assert(all.take(i as int) =~= all);
}

impl CoolingDeviceConfig {
    /// What kind of cooler the device is; unknown where its word is not known.
    pub fn resolved_kind(&self) -> (r: CoolingDeviceKind)
        ensures
            r == self@.cooler_kind(),
    {
        match CoolingDeviceKind::from_token(self.kind.as_str()) {
            Some(k) => k,
            None => CoolingDeviceKind::Unknown,
        }
    }

    /// The policy of the device.
    pub fn resolved_policy(&self) -> (r: DevicePolicy)
        ensures
            r == self@.policy(),
    {
        if byte_count(self.device_policy_id.as_str()) == 0 {
            proof {
                lemma_no_bytes(self.device_policy_id@);
            }
            resolve(DEFAULT_POLICY_ID)
        } else {
            resolve(self.device_policy_id.as_str())
        }
    }

    /// The members of the device: the pump, the radiator fans, the others.
    pub fn all_members(&self) -> (r: Vec<&str>)
        ensures
            text::texts(r@) == self@.members(),
    {
        let mut out: Vec<&str> = Vec::new();
        if let Some(p) = &self.pump_member {
            out.push(p.as_str());
        }
        assert(text::texts(out@) =~= (match self@.pump_member {
            Some(p) => seq![p],
            None => Seq::empty(),
        }));
        add_all(&mut out, &self.radiator_members);
        add_all(&mut out, &self.auxiliary_members);
        out
    }

    /// Whether a header is a member of the device.
    pub fn claims(&self, header_id: &str) -> (r: bool)
        ensures
            r == self@.members().contains(header_id@),
    {
        let members: Vec<&str> = self.all_members();
        let ghost all = text::texts(members@);
        let mut i: usize = 0;
        while i < members.len()
            invariant
                i <= members@.len(),
                all == text::texts(members@),
                all == self@.members(),
                forall|k: int| 0 <= k < i ==> #[trigger] all[k] != header_id@,
            decreases members@.len() - i,
        {
            assert(all[i as int] == members@[i as int]@);
            if str_eq(members[i], header_id) {
                return true;
            }
            i += 1;
        }
        false
    }

    /// Whether there is a coolant sensor, in a word. None is no fault.
    pub fn coolant_telemetry(&self) -> (r: &'static str)
        ensures
            r@ == (match self@.coolant_sensor {
                Some(s) => if s.len() > 0 {
                    "available"@
                } else {
                    "unavailable"@
                },
                None => "unavailable"@,
            }),
    {
        match &self.coolant_sensor {
            Some(s) => {
                proof {
                    lemma_no_bytes(s@);
                }
                if byte_count(s.as_str()) > 0 {
                    "available"
                } else {
                    "unavailable"
                }
            },
            None => "unavailable",
        }
    }
}

proof fn lemma_no_bytes(s: Seq<char>)
    ensures
        text::byte_len(s) == 0 <==> s.len() == 0,
        text::byte_len(s) >= 0,
    decreases s.len(),
{
    if s.len() > 0 {
        lemma_no_bytes(s.skip(1));
    }
}

// ---------------------------------------------------------------------------
// Members that do not exist
// ---------------------------------------------------------------------------

/// Whether a member names a source that was discovered, and is not of it. A source that
/// showed nothing judges nothing.
pub open spec fn is_unknown(
    member: Seq<char>,
    hwmon_ids: Set<Seq<char>>,
    openfan_ids: Set<Seq<char>>,
) -> bool {
    let known = if text::starts(member, "openfan:"@) {
        openfan_ids
    } else {
        hwmon_ids
    };
    known != Set::<Seq<char>>::empty() && !known.contains(member)
}

/// The first of the members that is unknown.
pub open spec fn first_unknown(
    members: Seq<Seq<char>>,
    hwmon_ids: Set<Seq<char>>,
    openfan_ids: Set<Seq<char>>,
) -> Option<Seq<char>>
    decreases members.len(),
{
    if members.len() == 0 {
        None
    } else if is_unknown(members[0], hwmon_ids, openfan_ids) {
        Some(members[0])
    } else {
        first_unknown(members.skip(1), hwmon_ids, openfan_ids)
    }
}

/// The first of the members that names a source that was discovered, and is not of it.
///
/// Each source judges its own members: those that begin with `openfan:`, and all others
/// for hwmon.
pub fn unknown_member<'a>(
    members: &Vec<&'a str>,
    hwmon_ids: &StringSet,
    openfan_ids: &StringSet,
) -> (r: Option<&'a str>)
    ensures
        text::opt_str(r) == first_unknown(text::texts(members@), hwmon_ids@, openfan_ids@),
{
    let ghost all = text::texts(members@);
    let mut i: usize = 0;
    assert(all.skip(0) =~= all);
    while i < members.len()
        invariant
            i <= members@.len(),
            all == text::texts(members@),
            first_unknown(all, hwmon_ids@, openfan_ids@) == first_unknown(
                all.skip(i as int),
                hwmon_ids@,
                openfan_ids@,
            ),
        decreases members@.len() - i,
    {
        let m: &'a str = members[i];
        proof {
            assert(all.skip(i as int)[0] == m@);
            assert(all.skip(i as int).skip(1) =~= all.skip(i + 1));
        }
        let unknown: bool = if starts_with(m, "openfan:") {
            !openfan_ids.is_empty() && !openfan_ids.contains(m)
        } else {
            !hwmon_ids.is_empty() && !hwmon_ids.contains(m)
        };
        if unknown {
            return Some(m);
        }
        i += 1;
    }
    None
}

// ---------------------------------------------------------------------------
// Devices that can be stored
// ---------------------------------------------------------------------------

/// Whether a character may stand in the id of a device.
pub open spec fn is_id_char(c: char) -> bool {
    ||| 'a' <= c <= 'z'
    ||| 'A' <= c <= 'Z'
    ||| '0' <= c <= '9'
    ||| c == '-'
    ||| c == '_'
    ||| c == '.'
}

/// What is wrong with the id of a device.
pub open spec fn id_fault(id: Seq<char>) -> Option<Seq<char>> {
    if id.len() == 0 {
        Some("device id must not be empty"@)
    } else if text::byte_len(id) > MAX_DEVICE_ID_BYTES {
        Some("device id exceeds "@ + text::decimal(MAX_DEVICE_ID_BYTES as nat) + " bytes"@)
    } else if exists|i: int| 0 <= i < id.len() && !is_id_char(#[trigger] id[i]) {
        Some("device id may contain only ASCII letters, digits, '-', '_' and '.'"@)
    } else if id == "."@ || id == ".."@ {
        Some("device id must not be '.' or '..'"@)
    } else {
        None
    }
}

/// Whether a text is longer than a device may hold.
pub open spec fn is_overlong(t: Option<Seq<char>>) -> bool {
    t is Some && text::byte_len(t->0) > MAX_DEVICE_TEXT_BYTES
}

/// The first text of a device, but for its id, that is too long.
pub open spec fn overlong_field(d: DeviceView) -> Option<Seq<char>> {
    if is_overlong(Some(d.name)) {
        Some("name"@)
    } else if is_overlong(Some(d.kind)) {
        Some("kind"@)
    } else if is_overlong(d.preferred_sensor) {
        Some("preferred_sensor"@)
    } else if is_overlong(d.fallback_sensor) {
        Some("fallback_sensor"@)
    } else if is_overlong(d.coolant_sensor) {
        Some("coolant_sensor"@)
    } else if is_overlong(Some(d.device_policy_id)) {
        Some("device_policy_id"@)
    } else {
        None
    }
}

/// The first member that stood in the list before.
pub open spec fn first_repeat(members: Seq<Seq<char>>) -> Option<Seq<char>>
    decreases members.len(),
{
    if members.len() == 0 {
        None
    } else {
        match first_repeat(members.drop_last()) {
            Some(m) => Some(m),
            None => if members.drop_last().contains(members.last()) {
                Some(members.last())
            } else {
                None
            },
        }
    }
}

/// Whether a member is empty.
pub open spec fn has_empty_member(members: Seq<Seq<char>>) -> bool {
    exists|i: int| 0 <= i < members.len() && (#[trigger] members[i]).len() == 0
}

/// What is wrong with the members of a device.
pub open spec fn member_fault(d: DeviceView) -> Option<Seq<char>> {
    if d.radiator_members.len() > MAX_MEMBERS_PER_LIST || d.auxiliary_members.len()
        > MAX_MEMBERS_PER_LIST {
        Some(
            "a member list exceeds "@ + text::decimal(MAX_MEMBERS_PER_LIST as nat) + " entries"@,
        )
    } else if has_empty_member(d.members()) {
        Some("member ids must not be empty"@)
    } else {
        match first_repeat(d.members()) {
            Some(m) => Some(
                "member "@ + text::quoted(m) + " appears more than once in this device"@,
            ),
            None => None,
        }
    }
}

/// What is wrong with a device, if anything is.
pub open spec fn device_fault(d: DeviceView) -> Option<Seq<char>> {
    match id_fault(d.id) {
        Some(f) => Some(f),
        None => match overlong_field(d) {
            Some(field) => Some(
                field + " exceeds "@ + text::decimal(MAX_DEVICE_TEXT_BYTES as nat) + " bytes"@,
            ),
            None => member_fault(d),
        },
    }
}

fn find_id_fault(id: &str) -> (r: Option<String>)
    ensures
        text::opt_text(r) == id_fault(id@),
{
    proof {
        lemma_no_bytes(id@);
    }
    let n: usize = byte_count(id);
    if n == 0 {
        return Some("device id must not be empty".to_owned());
    }
    if n > MAX_DEVICE_ID_BYTES {
        let mut s: String = "device id exceeds ".to_owned();
        s.append(decimal_of(MAX_DEVICE_ID_BYTES as u64).as_str());
        s.append(" bytes");
        return Some(s);
    }
    let v: Vec<char> = chars_of(id);
    let mut i: usize = 0;
    while i < v.len()
        invariant
            i <= v@.len(),
            v@ == id@,
            0 < id@.len(),
            text::byte_len(id@) <= MAX_DEVICE_ID_BYTES,
            forall|k: int| 0 <= k < i ==> is_id_char(#[trigger] id@[k]),
        decreases v@.len() - i,
    {
        let c: char = v[i];
        if !(('a' <= c && c <= 'z') || ('A' <= c && c <= 'Z') || ('0' <= c && c <= '9') || c == '-'
            || c == '_' || c == '.') {
            assert(!is_id_char(id@[i as int]));
            return Some(
                "device id may contain only ASCII letters, digits, '-', '_' and '.'".to_owned(),
            );
        }
        i += 1;
    }
    if str_eq(id, ".") || str_eq(id, "..") {
        return Some("device id must not be '.' or '..'".to_owned());
    }
    None
}

fn overlong(t: &str) -> (r: bool)
    ensures
        r == is_overlong(Some(t@)),
{
    byte_count(t) > MAX_DEVICE_TEXT_BYTES
}

fn overlong_opt(t: &Option<String>) -> (r: bool)
    ensures
        r == is_overlong(text::opt_text(*t)),
{
    match t {
        Some(s) => overlong(s.as_str()),
        None => false,
    }
}

fn find_overlong_field(dev: &CoolingDeviceConfig) -> (r: Option<&'static str>)
    ensures
        text::opt_str(r) == overlong_field(dev@),
{
    if overlong(dev.name.as_str()) {
        Some("name")
    } else if overlong(dev.kind.as_str()) {
        Some("kind")
    } else if overlong_opt(&dev.preferred_sensor) {
        Some("preferred_sensor")
    } else if overlong_opt(&dev.fallback_sensor) {
        Some("fallback_sensor")
    } else if overlong_opt(&dev.coolant_sensor) {
        Some("coolant_sensor")
    } else if overlong(dev.device_policy_id.as_str()) {
        Some("device_policy_id")
    } else {
        None
    }
}

fn any_empty(members: &Vec<&str>) -> (r: bool)
    ensures
        r == has_empty_member(text::texts(members@)),
{
    let ghost all = text::texts(members@);
    let mut i: usize = 0;
    while i < members.len()
        invariant
            i <= members@.len(),
            all == text::texts(members@),
            forall|k: int| 0 <= k < i ==> (#[trigger] all[k]).len() > 0,
        decreases members@.len() - i,
    {
        proof {
            lemma_no_bytes(members@[i as int]@);
            assert(all[i as int] == members@[i as int]@);
        }
        if byte_count(members[i]) == 0 {
            return true;
        }
        i += 1;
    }
    false
}

fn find_repeat<'a>(members: &Vec<&'a str>) -> (r: Option<&'a str>)
    ensures
        text::opt_str(r) == first_repeat(text::texts(members@)),
{
    let ghost all = text::texts(members@);
    let mut i: usize = 0;
    while i < members.len()
        invariant
            i <= members@.len(),
            all == text::texts(members@),
            first_repeat(all.take(i as int)) is None,
        decreases members@.len() - i,
    {
        let ghost before = all.take(i as int);
        proof {
            assert(all.take(i + 1).drop_last() =~= before);
            assert(all.take(i + 1).last() == members@[i as int]@);
        }
        let mut k: usize = 0;
        while k < i
            invariant
                k <= i < members@.len(),
                all == text::texts(members@),
                before == all.take(i as int),
                all.take(i + 1).drop_last() == before,
                all.take(i + 1).last() == members@[i as int]@,
                first_repeat(before) is None,
                forall|j: int| 0 <= j < k ==> #[trigger] before[j] != members@[i as int]@,
            decreases i - k,
        {
            assert(before[k as int] == members@[k as int]@);
            if str_eq(members[k], members[i]) {
                proof {
                    assert(before.contains(members@[i as int]@));
                    lemma_repeat_stays(all, i + 1);
                }
                return Some(members[i]);
            }
            k += 1;
        }
        assert(!before.contains(members@[i as int]@));
        i += 1;
    }
    assert(all.take(i as int) =~= all);
    None
}

proof fn lemma_repeat_stays(members: Seq<Seq<char>>, n: int)
    requires
        0 <= n <= members.len(),
        first_repeat(members.take(n)) is Some,
    ensures
        first_repeat(members) == first_repeat(members.take(n)),
    decreases members.len() - n,
{
    if n < members.len() {
        assert(members.take(n + 1).drop_last() =~= members.take(n));
        lemma_repeat_stays(members, n + 1);
    } else {
        assert(members.take(n) =~= members);
    }
}

/// Whether a device can be stored, or why not. That its members exist is not asked: a
/// header may be gone for a while.
pub fn validate_device(dev: &CoolingDeviceConfig) -> (r: Result<(), String>)
    ensures
        match (r, device_fault(dev@)) {
            (Ok(_), None) => true,
            (Err(e), Some(fault)) => e@ == fault,
            _ => false,
        },
{
    if let Some(fault) = find_id_fault(dev.id.as_str()) {
        return Err(fault);
    }
    if let Some(field) = find_overlong_field(dev) {
        let mut s: String = field.to_owned();
        s.append(" exceeds ");
        s.append(decimal_of(MAX_DEVICE_TEXT_BYTES as u64).as_str());
        s.append(" bytes");
        return Err(s);
    }
    proof {
        assert(dev@.radiator_members.len() == dev.radiator_members@.len());
        assert(dev@.auxiliary_members.len() == dev.auxiliary_members@.len());
    }
    if dev.radiator_members.len() > MAX_MEMBERS_PER_LIST || dev.auxiliary_members.len()
        > MAX_MEMBERS_PER_LIST {
        let mut s: String = "a member list exceeds ".to_owned();
        s.append(decimal_of(MAX_MEMBERS_PER_LIST as u64).as_str());
        s.append(" entries");
        return Err(s);
    }
    let members: Vec<&str> = dev.all_members();
    if any_empty(&members) {
        return Err("member ids must not be empty".to_owned());
    }
    if let Some(m) = find_repeat(&members) {
        let mut s: String = "member ".to_owned();
        s.append(quote(m).as_str());
        s.append(" appears more than once in this device");
        return Err(s);
    }
    Ok(())
}

/// Whether one of the devices has the id.
pub open spec fn has_id(devices: Seq<DeviceView>, id: Seq<char>) -> bool {
    exists|i: int| 0 <= i < devices.len() && (#[trigger] devices[i]).id == id
}

/// The devices that are kept: those without fault, the first with each id, as many as
/// there may be.
pub open spec fn kept(devices: Seq<DeviceView>) -> Seq<DeviceView>
    decreases devices.len(),
{
    if devices.len() == 0 {
        Seq::empty()
    } else {
        let before = kept(devices.drop_last());
        let d = devices.last();
        if before.len() < MAX_COOLING_DEVICES && device_fault(d) is None && !has_id(before, d.id) {
            before.push(d)
        } else {
            before
        }
    }
}

fn any_has_id(devices: &Vec<CoolingDeviceConfig>, id: &str) -> (r: bool)
    ensures
        r == has_id(text::views(devices@), id@),
{
    let ghost all = text::views(devices@);
    let mut i: usize = 0;
    while i < devices.len()
        invariant
            i <= devices@.len(),
            all == text::views(devices@),
            forall|k: int| 0 <= k < i ==> (#[trigger] all[k]).id != id@,
        decreases devices@.len() - i,
    {
        assert(all[i as int] == devices@[i as int]@);
        if str_eq(devices[i].id.as_str(), id) {
            return true;
        }
        i += 1;
    }
    false
}

/// Drops the devices that cannot be trusted and keeps the rest, in order: one bad device
/// costs no other.
pub fn sanitize(devices: Vec<CoolingDeviceConfig>) -> (r: Vec<CoolingDeviceConfig>)
    ensures
        text::views(r@) == kept(text::views(devices@)),
{
    let ghost all = text::views(devices@);
    let mut out: Vec<CoolingDeviceConfig> = Vec::new();
    let mut i: usize = 0;
    assert(text::views(out@) =~= Seq::<DeviceView>::empty());
    while i < devices.len()
        invariant
            i <= devices@.len(),
            all == text::views(devices@),
            text::views(out@) == kept(all.take(i as int)),
        decreases devices@.len() - i,
    {
        let dev: &CoolingDeviceConfig = &devices[i];
        proof {
            assert(all.take(i + 1).drop_last() =~= all.take(i as int));
            assert(all.take(i + 1).last() == dev@);
            assert(text::views(out@).len() == out@.len());
        }
        if out.len() < MAX_COOLING_DEVICES && validate_device(dev).is_ok() && !any_has_id(
            &out,
            dev.id.as_str(),
        ) {
            let ghost was = text::views(out@);
            out.push(dev.clone());
            assert(text::views(out@) =~= was.push(dev@));
        }
        i += 1;
    }
    assert(all.take(i as int) =~= all);
    out
}

// ---------------------------------------------------------------------------
// Laws
// ---------------------------------------------------------------------------

/// A kind is found by its own word.
pub proof fn kinds_are_found_by_their_words(k: CoolingDeviceKind)
    ensures
        CoolingDeviceKind::named(k.word()) == Some(k),
{
    reveal_strlit("unknown");
    reveal_strlit("aio_liquid");
    reveal_strlit("air_cooler");
    reveal_strlit("custom_loop");
    assert("unknown"@.len() == 7 && "custom_loop"@.len() == 11);
    assert("aio_liquid"@.len() == 10 && "air_cooler"@.len() == 10);
    assert("aio_liquid"@[2] == 'o' && "air_cooler"@[2] == 'r');
}

/// Whether devices can be stored together.
pub open spec fn is_sound(devices: Seq<DeviceView>) -> bool {
    &&& devices.len() <= MAX_COOLING_DEVICES
    &&& forall|i: int| 0 <= i < devices.len() ==> device_fault(#[trigger] devices[i]) is None
    &&& forall|i: int, j: int|
        0 <= i < j < devices.len() ==> (#[trigger] devices[i]).id != (#[trigger] devices[j]).id
}

/// What is kept can be stored together, and each of it was there before.
pub proof fn what_is_kept_is_sound(devices: Seq<DeviceView>)
    ensures
        is_sound(kept(devices)),
        forall|i: int|
            0 <= i < kept(devices).len() ==> devices.contains(#[trigger] kept(devices)[i]),
    decreases devices.len(),
{
    if devices.len() > 0 {
        let front = devices.drop_last();
        what_is_kept_is_sound(front);
        assert forall|i: int| 0 <= i < kept(devices).len() implies devices.contains(
            #[trigger] kept(devices)[i],
        ) by {
            if i < kept(front).len() {
                assert(kept(devices)[i] == kept(front)[i]);
                let k = front.index_of(kept(front)[i]);
                assert(devices[k] == front[k]);
            } else {
                assert(devices[devices.len() - 1] == devices.last());
            }
        }
    }
}

/// Devices that can be stored together are all kept, so that doing it again changes
/// nothing.
pub proof fn keeping_twice_changes_nothing(devices: Seq<DeviceView>)
    ensures
        is_sound(devices) ==> kept(devices) == devices,
        kept(kept(devices)) == kept(devices),
{
    if is_sound(devices) {
        lemma_sound_is_kept(devices);
    }
    what_is_kept_is_sound(devices);
    lemma_sound_is_kept(kept(devices));
}

proof fn lemma_sound_is_kept(devices: Seq<DeviceView>)
    requires
        is_sound(devices),
    ensures
        kept(devices) == devices,
    decreases devices.len(),
{
    if devices.len() > 0 {
        let front = devices.drop_last();
        lemma_sound_is_kept(front);
        assert forall|i: int| 0 <= i < front.len() implies (#[trigger] front[i]).id
            != devices.last().id by {
            assert(devices[i].id != devices[devices.len() - 1].id);
        }
        assert(device_fault(devices[devices.len() - 1]) is None);
        assert(front.push(devices.last()) =~= devices);
    }
}

/// A bad device costs no other: without it the same devices are kept.
pub proof fn a_bad_device_costs_no_other(
    before: Seq<DeviceView>,
    bad: DeviceView,
    after: Seq<DeviceView>,
)
    requires
        device_fault(bad) is Some,
    ensures
        kept(before.push(bad) + after) == kept(before + after),
    decreases after.len(),
{
    if after.len() == 0 {
        assert(before.push(bad) + after =~= before.push(bad));
        assert(before + after =~= before);
        assert(before.push(bad).drop_last() =~= before);
    } else {
        a_bad_device_costs_no_other(before, bad, after.drop_last());
        assert((before.push(bad) + after).drop_last() =~= before.push(bad) + after.drop_last());
        assert((before + after).drop_last() =~= before + after.drop_last());
    }
}

/// In a device without fault no header has two roles.
pub proof fn sound_members_are_distinct(d: DeviceView)
    requires
        device_fault(d) is None,
    ensures
        d.members().no_duplicates(),
{
    lemma_no_repeat(d.members());
}

proof fn lemma_no_repeat(members: Seq<Seq<char>>)
    requires
        first_repeat(members) is None,
    ensures
        members.no_duplicates(),
    decreases members.len(),
{
    if members.len() > 0 {
        let front = members.drop_last();
        lemma_no_repeat(front);
        assert forall|i: int, j: int| 0 <= i < j < members.len() implies members[i] != members[j] by {
            if j == members.len() - 1 {
                assert(front[i] == members[i]);
                assert(front.contains(front[i]));
            } else {
                assert(front[i] != front[j]);
            }
        }
    }
}

/// A device without fault is sound in each of its parts, and a device that is sound in each
/// has no fault: an id of 1 to 64 bytes of letters, digits and three marks that is no path;
/// texts of at most 256 bytes; lists of at most 32 members; and no member that is empty or
/// stands twice.
pub proof fn a_device_can_be_stored_where_each_part_is_sound(d: DeviceView)
    ensures
        device_fault(d) is None <==> {
            &&& 0 < d.id.len() && text::byte_len(d.id) <= 64
            &&& d.id != "."@ && d.id != ".."@
            &&& forall|i: int|
                0 <= i < d.id.len() ==> {
                    let c = #[trigger] d.id[i];
                    ('a' <= c <= 'z') || ('A' <= c <= 'Z') || ('0' <= c <= '9') || c == '-' || c
                        == '_' || c == '.'
                }
            &&& text::byte_len(d.name) <= 256
            &&& text::byte_len(d.kind) <= 256
            &&& text::byte_len(d.device_policy_id) <= 256
            &&& d.preferred_sensor is Some ==> text::byte_len(d.preferred_sensor->0) <= 256
            &&& d.fallback_sensor is Some ==> text::byte_len(d.fallback_sensor->0) <= 256
            &&& d.coolant_sensor is Some ==> text::byte_len(d.coolant_sensor->0) <= 256
            &&& d.radiator_members.len() <= 32
            &&& d.auxiliary_members.len() <= 32
            &&& forall|i: int| 0 <= i < d.members().len() ==> (#[trigger] d.members()[i]).len() > 0
            &&& d.members().no_duplicates()
        },
{
    if first_repeat(d.members()) is None {
        lemma_no_repeat(d.members());
    }
    if d.members().no_duplicates() {
        lemma_distinct_has_no_repeat(d.members());
    }
    assert(id_fault(d.id) is None <==> (0 < d.id.len() && text::byte_len(d.id) <= 64 && d.id
        != "."@ && d.id != ".."@ && forall|i: int|
        0 <= i < d.id.len() ==> is_id_char(#[trigger] d.id[i])));
    if id_fault(d.id) is None {
        assert forall|i: int| 0 <= i < d.id.len() implies {
            let c = #[trigger] d.id[i];
            ('a' <= c <= 'z') || ('A' <= c <= 'Z') || ('0' <= c <= '9') || c == '-' || c == '_' || c
                == '.'
        } by {
            assert(is_id_char(d.id[i]));
        }
    }
}

proof fn lemma_distinct_has_no_repeat(members: Seq<Seq<char>>)
    requires
        members.no_duplicates(),
    ensures
        first_repeat(members) is None,
    decreases members.len(),
{
    if members.len() > 0 {
        let front = members.drop_last();
        assert forall|i: int, j: int| 0 <= i < front.len() && 0 <= j < front.len() && i
            != j implies front[i] != front[j] by {
            assert(members[i] != members[j]);
        }
        lemma_distinct_has_no_repeat(front);
        if front.contains(members.last()) {
            let i = choose|i: int| 0 <= i < front.len() && front[i] == members.last();
            assert(members[i] == members[members.len() - 1]);
        }
    }
}

/// The members of a device are its pump, its radiator fans and the others, in this order and
/// none left out.
pub proof fn the_pump_comes_first_among_the_members(d: DeviceView, m: Seq<char>)
    ensures
        d.members().contains(m) <==> d.pump_member == Some(m) || d.radiator_members.contains(m)
            || d.auxiliary_members.contains(m),
        d.pump_member matches Some(p) ==> d.members()[0] == p,
        d.members().len() == d.radiator_members.len() + d.auxiliary_members.len() + (
        if d.pump_member is Some {
            1int
        } else {
            0
        }),
{
    let head = match d.pump_member {
        Some(p) => seq![p],
        None => Seq::empty(),
    };
    let all = d.members();
    let h = head.len() as int;
    let r = d.radiator_members.len() as int;
    if d.pump_member == Some(m) {
        assert(all[0] == m);
    }
    if d.radiator_members.contains(m) {
        let k = choose|k: int| 0 <= k < r && d.radiator_members[k] == m;
        assert(all[h + k] == m);
    }
    if d.auxiliary_members.contains(m) {
        let k = choose|k: int|
            0 <= k < d.auxiliary_members.len() && d.auxiliary_members[k] == m;
        assert(all[h + r + k] == m);
    }
    if all.contains(m) {
        let k = choose|k: int| 0 <= k < all.len() && all[k] == m;
        if k < h {
            assert(head[k] == m);
        } else if k < h + r {
            assert(d.radiator_members[k - h] == m);
        } else {
            assert(d.auxiliary_members[k - h - r] == m);
        }
    }
}

/// A member is unknown only to the source that it names, and only where that source showed
/// something: members that begin with `openfan:` are judged by the fan controller, all
/// others by hwmon.
pub proof fn each_source_judges_its_own_members(
    member: Seq<char>,
    hwmon_ids: Set<Seq<char>>,
    openfan_ids: Set<Seq<char>>,
    other: Set<Seq<char>>,
    shown: Seq<char>,
)
    ensures
        text::starts(member, "openfan:"@) ==> {
            &&& is_unknown(member, hwmon_ids, openfan_ids) == is_unknown(
                member,
                other,
                openfan_ids,
            )
            &&& openfan_ids.contains(member) ==> !is_unknown(member, hwmon_ids, openfan_ids)
            &&& openfan_ids.contains(shown) && !openfan_ids.contains(member) ==> is_unknown(
                member,
                hwmon_ids,
                openfan_ids,
            )
        },
        !text::starts(member, "openfan:"@) ==> {
            &&& is_unknown(member, hwmon_ids, openfan_ids) == is_unknown(member, hwmon_ids, other)
            &&& hwmon_ids.contains(member) ==> !is_unknown(member, hwmon_ids, openfan_ids)
            &&& hwmon_ids.contains(shown) && !hwmon_ids.contains(member) ==> is_unknown(
                member,
                hwmon_ids,
                openfan_ids,
            )
        },
        !is_unknown(member, Set::empty(), Set::empty()),
{
}

/// The first unknown member is named: it is one, it is unknown, and none before it is. Where
/// none is named, all are known.
pub proof fn the_first_unknown_member_is_named(
    members: Seq<Seq<char>>,
    hwmon_ids: Set<Seq<char>>,
    openfan_ids: Set<Seq<char>>,
    i: int,
)
    ensures
        first_unknown(members, hwmon_ids, openfan_ids) is None <==> forall|k: int|
            0 <= k < members.len() ==> !is_unknown(#[trigger] members[k], hwmon_ids, openfan_ids),
        0 <= i < members.len() && is_unknown(members[i], hwmon_ids, openfan_ids) && (forall|k: int|
            0 <= k < i ==> !is_unknown(#[trigger] members[k], hwmon_ids, openfan_ids))
            ==> first_unknown(members, hwmon_ids, openfan_ids) == Some(members[i]),
    decreases members.len(),
{
    if members.len() > 0 {
        let rest = members.skip(1);
        the_first_unknown_member_is_named(rest, hwmon_ids, openfan_ids, i - 1);
        assert forall|k: int| 0 <= k < rest.len() implies #[trigger] rest[k] == members[k + 1] by {}
        if !is_unknown(members[0], hwmon_ids, openfan_ids) {
            if first_unknown(members, hwmon_ids, openfan_ids) is None {
                assert forall|k: int| 0 <= k < members.len() implies !is_unknown(
                    #[trigger] members[k],
                    hwmon_ids,
                    openfan_ids,
                ) by {
                    if k > 0 {
                        assert(!is_unknown(rest[k - 1], hwmon_ids, openfan_ids));
                    }
                }
            }
            if 0 < i < members.len() {
                assert(rest[i - 1] == members[i]);
            }
        }
    }
}

/// A device whose kind is not known, or is written otherwise than letter for letter, is of
/// unknown kind; the words of the kinds are found.
pub proof fn a_kind_is_known_by_its_word(d: DeviceView)
    ensures
        d.kind == "aio_liquid"@ <==> d.cooler_kind() == CoolingDeviceKind::AioLiquid,
        d.kind == "air_cooler"@ <==> d.cooler_kind() == CoolingDeviceKind::AirCooler,
        d.kind == "custom_loop"@ <==> d.cooler_kind() == CoolingDeviceKind::CustomLoop,
{
    reveal_strlit("unknown");
    reveal_strlit("aio_liquid");
    reveal_strlit("air_cooler");
    reveal_strlit("custom_loop");
    let k = d.kind;
    assert(k == "unknown"@ ==> k.len() == 7);
    assert(k == "aio_liquid"@ ==> k.len() == 10 && k[2] == 'o');
    assert(k == "air_cooler"@ ==> k.len() == 10 && k[2] == 'r');
    assert(k == "custom_loop"@ ==> k.len() == 11);
}

/// The policy of a device is the one that it names, and a device that names none is held to
/// the most protection.
pub proof fn a_device_without_a_policy_is_taken_for_a_pump(d: DeviceView)
    ensures
        d.device_policy_id.len() == 0 ==> d.policy() == device_policy::pump_policy(),
        d.device_policy_id == "generic_fan"@ ==> d.policy() == device_policy::fan_policy(),
        d.device_policy_id != "generic_fan"@ ==> !d.policy().supports_stop,
{
    reveal_strlit("generic_fan");
    reveal_strlit("generic_pump");
    assert("generic_fan"@.len() == 11);
    device_policy::only_a_fan_may_stop(d.device_policy_id);
    device_policy::only_a_fan_may_stop(DEFAULT_POLICY_ID@);
}

/// Devices are kept as long as there is room for sixteen: the first sound ones with ids of
/// their own, in their order. A device behind them is dropped only for a fault of its own,
/// for its id, or for want of room.
pub proof fn a_sound_device_is_kept_while_there_is_room(before: Seq<DeviceView>, d: DeviceView)
    ensures
        ({
            let k = kept(before);
            let all = kept(before.push(d));
            &&& k.len() <= 16
            &&& k.len() < 16 && device_fault(d) is None && (forall|i: int|
                0 <= i < k.len() ==> (#[trigger] k[i]).id != d.id) ==> all == k.push(d)
            &&& k.len() == 16 || device_fault(d) is Some || (exists|i: int|
                0 <= i < k.len() && (#[trigger] k[i]).id == d.id) ==> all == k
        }),
{
    assert(before.push(d).drop_last() =~= before);
    what_is_kept_is_sound(before);
}

} // verus!
