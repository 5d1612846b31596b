//! Giving fan headers back as they were found.
//!
//! A header is taken from the firmware by writing 1 to its control mode. What it was
//! doing just before the first take is read and kept, and exactly that is given back;
//! where that cannot be, the header is left at full speed. A record of the headers that
//! are held, with what each gets back, is there for the case that the program dies.
//!
//! The record has one line for each header that is held, with tabs between the columns:
//!
//! ```text
//! <pwmN_enable path>  <pwmN path>  mode    <value>   write the mode
//! <pwmN_enable path>  <pwmN path>  manual  <raw>     write mode 1 and the duty
//! <pwmN_enable path>  <pwmN path>  full    -         full speed
//! ```

use crate::hwmon::aio;
use crate::hwmon::aio::is_nzxt_kraken3_chip;
use crate::hwmon::pwm_control::{Access, PwmHeaderDescriptor, SysfsWriter};
use crate::pwm;
use crate::pwm::{is_full_speed_alias, raw_to_percent};
use crate::text;
use crate::text::{chars_of, decimal_of, parse_u8, sorted_positions, str_eq, trim};
use vstd::prelude::*;
use vstd::string::*;

verus! {

/// The name of the record's file.
pub const RECORD_FILE_NAME: &'static str = "hwmon-handback";

/// The first line of the record.
pub const RECORD_HEADER: &'static str =
    "# control-ofc hwmon hand-back record v1: headers the daemon has taken from firmware. Written by control-ofc-daemon, replayed by control-ofc-restore-auto (ExecStopPost). Do not edit.";

/// The raw duty from which on a header counts as running at full speed: some chips cap
/// or round the value.
pub const FULL_SPEED_MIN_RAW: u8 = 190;

/// What giving a header back writes.
#[derive(Debug, Clone, Copy, PartialEq, Eq, Structural)]
pub enum HandBack {
    /// This control mode. Never 1: the duty would be missing.
    Mode(u8),
    /// The manual mode, with this raw duty.
    Manual(u8),
    /// Full speed, since the original is not known or not safe.
    FullSpeed,
}

impl HandBack {
    /// What a header gets back, by what it showed before it was first taken.
    pub open spec fn of_reading(
        chip_name: Seq<char>,
        enable: Option<u8>,
        raw_pwm: Option<u8>,
    ) -> HandBack {
        match enable {
            None => HandBack::FullSpeed,
            Some(mode) => if mode == 1 {
                match raw_pwm {
                    Some(raw) => HandBack::Manual(raw),
                    None => HandBack::FullSpeed,
                }
            } else if mode == 2 && aio::is_kraken3(chip_name) {
                HandBack::FullSpeed
            } else {
                HandBack::Mode(mode)
            },
        }
    }

    /// What a header gets back, by what it showed before it was first taken.
    ///
    /// What could not be read cannot be given back. A manual mode is nothing without its
    /// duty. Mode 2 of an nzxt-kraken3 would upload a curve that nothing has filled.
    pub fn from_reading(chip_name: &str, enable: Option<u8>, raw_pwm: Option<u8>) -> (r: Self)
        ensures
            r == Self::of_reading(chip_name@, enable, raw_pwm),
    {
        match enable {
            None => HandBack::FullSpeed,
            Some(mode) => {
                if mode == 1 {
                    match raw_pwm {
                        Some(raw) => HandBack::Manual(raw),
                        None => HandBack::FullSpeed,
                    }
                } else if mode == 2 && is_nzxt_kraken3_chip(chip_name) {
                    HandBack::FullSpeed
                } else {
                    HandBack::Mode(mode)
                }
            },
        }
    }

    /// The last two columns of the record.
    pub open spec fn columns(self) -> (Seq<char>, Seq<char>) {
        match self {
            HandBack::Mode(mode) => ("mode"@, text::decimal(mode as nat)),
            HandBack::Manual(raw) => ("manual"@, text::decimal(raw as nat)),
            HandBack::FullSpeed => ("full"@, "-"@),
        }
    }

    fn record_columns(self) -> (r: (&'static str, String))
        ensures
            (r.0@, r.1@) == self.columns(),
    {
        match self {
            HandBack::Mode(mode) => ("mode", decimal_of(mode as u64)),
            HandBack::Manual(raw) => ("manual", decimal_of(raw as u64)),
            HandBack::FullSpeed => ("full", "-".to_owned()),
        }
    }
}

/// What giving a header back achieved.
#[derive(Debug, Clone, Copy, PartialEq, Eq, Structural)]
pub enum HandBackOutcome {
    /// The recorded state is back; reading it confirmed that.
    Restored,
    /// The header runs at full speed.
    FullSpeed,
    /// Neither could be had: the header is as it was left.
    Failed,
}

impl HandBackOutcome {
    /// Whether the header is no longer held.
    pub fn released(self) -> (r: bool)
        ensures
            r == !(self is Failed),
    {
        match self {
            HandBackOutcome::Failed => false,
            _ => true,
        }
    }
}

// ---------------------------------------------------------------------------
// Giving one header back
// ---------------------------------------------------------------------------

/// Whether an access is the write of a value.
pub open spec fn is_write(a: Access, path: Seq<char>, value: Seq<char>) -> bool {
    a matches Access::Wrote { path: p, value: v, taken } && p == path && v == value
}

/// Whether an access is a write that was taken.
pub open spec fn took(a: Access) -> bool {
    a matches Access::Wrote { path, value, taken } && taken
}

/// Whether an access is a read of a file.
pub open spec fn is_read(a: Access, path: Seq<char>) -> bool {
    a matches Access::Read { path: p, content } && p == path
}

/// The number that a read showed.
pub open spec fn shown(a: Access) -> Option<u8> {
    match a {
        Access::Read { path, content: Some(t) } => match text::parsed(text::trimmed(t), 10, 255) {
            Some(n) => Some(n as u8),
            None => None,
        },
        _ => None,
    }
}

/// Where to find a header: the paths of its control mode and of its duty.
pub struct HeaderPaths {
    pub enable: Seq<char>,
    pub pwm: Seq<char>,
}

/// Whether accesses begin with the attempt at a mode: the write, and where that was taken
/// the read of the mode.
pub open spec fn tries_mode(log: Seq<Access>, h: HeaderPaths, mode: u8) -> bool {
    &&& log.len() >= mode_len(log)
    &&& is_write(log[0], h.enable, text::decimal(mode as nat))
    &&& took(log[0]) ==> is_read(log[1], h.enable)
}

/// How many accesses the attempt at a mode takes.
pub open spec fn mode_len(log: Seq<Access>) -> int {
    if took(log[0]) {
        2
    } else {
        1
    }
}

/// Whether the attempt at a mode succeeded: the mode was read back.
pub open spec fn mode_confirmed(log: Seq<Access>, mode: u8) -> bool {
    took(log[0]) && shown(log[1]) == Some(mode)
}

/// Whether accesses begin with the attempt at a manual duty: the writes of mode and duty,
/// and where both were taken the read of the mode, and of the duty where the mode is 1 or
/// 0.
pub open spec fn tries_manual(log: Seq<Access>, h: HeaderPaths, raw: u8) -> bool {
    &&& log.len() >= manual_len(log)
    &&& is_write(log[0], h.enable, "1"@)
    &&& took(log[0]) ==> is_write(log[1], h.pwm, text::decimal(raw as nat))
    &&& took(log[0]) && took(log[1]) ==> is_read(log[2], h.enable)
    &&& took(log[0]) && took(log[1]) && (shown(log[2]) == Some(1u8) || shown(log[2]) == Some(0u8))
        ==> is_read(log[3], h.pwm)
}

/// How many accesses the attempt at a manual duty takes.
pub open spec fn manual_len(log: Seq<Access>) -> int {
    if !took(log[0]) {
        1
    } else if !took(log[1]) {
        2
    } else if shown(log[2]) == Some(1u8) || shown(log[2]) == Some(0u8) {
        4
    } else {
        3
    }
}

/// The duty in percent that a read showed.
pub open spec fn shown_percent(a: Access) -> Option<u8> {
    match shown(a) {
        Some(raw) => Some(pwm::percent_of_raw(raw as int) as u8),
        None => None,
    }
}

/// Whether the attempt at a manual duty succeeded: the manual mode and the duty were read
/// back, or mode 0 at full scale where full scale was asked for.
pub open spec fn manual_confirmed_by(log: Seq<Access>, raw: u8) -> bool {
    &&& took(log[0])
    &&& took(log[1])
    &&& (shown(log[2]) == Some(1u8) && shown(log[3]) == Some(raw)) || (shown(log[2]) == Some(0u8)
        && pwm::full_speed_alias(
        pwm::percent_of_raw(raw as int) as u8,
        shown_percent(log[3]),
        Some(0u8),
    ))
}

/// Whether accesses are the attempt at full speed as manual duty, with this outcome.
pub open spec fn is_manual_full_speed(
    log: Seq<Access>,
    h: HeaderPaths,
    outcome: HandBackOutcome,
) -> bool {
    &&& log.len() >= 1
    &&& is_write(log[0], h.enable, "1"@)
    &&& if !took(log[0]) {
        log.len() == 1 && outcome == HandBackOutcome::Failed
    } else {
        &&& log.len() >= 2
        &&& is_write(log[1], h.pwm, "255"@)
        &&& if !took(log[1]) {
            log.len() == 2 && outcome == HandBackOutcome::Failed
        } else {
            &&& log.len() == 3
            &&& is_read(log[2], h.pwm)
            &&& outcome == (if shown(log[2]) is Some && shown(log[2])->0 >= FULL_SPEED_MIN_RAW {
                HandBackOutcome::FullSpeed
            } else {
                HandBackOutcome::Failed
            })
        }
    }
}

/// Whether accesses are the attempt at full speed, with this outcome: mode 0, and where
/// that is not confirmed the highest manual duty.
pub open spec fn is_fallback(
    log: Seq<Access>,
    h: HeaderPaths,
    outcome: HandBackOutcome,
) -> bool {
    &&& tries_mode(log, h, 0)
    &&& if mode_confirmed(log, 0) {
        log.len() == 2 && outcome == HandBackOutcome::FullSpeed
    } else {
        is_manual_full_speed(log.skip(mode_len(log)), h, outcome)
    }
}

/// Whether accesses are those of giving a header back, with this outcome: the attempt at
/// what was recorded, and where that is not confirmed the attempt at full speed.
pub open spec fn is_hand_back(
    log: Seq<Access>,
    h: HeaderPaths,
    action: HandBack,
    outcome: HandBackOutcome,
) -> bool {
    match action {
        HandBack::Mode(mode) => {
            &&& tries_mode(log, h, mode)
            &&& if mode_confirmed(log, mode) {
                log.len() == 2 && outcome == HandBackOutcome::Restored
            } else {
                is_fallback(log.skip(mode_len(log)), h, outcome)
            }
        },
        HandBack::Manual(raw) => {
            &&& tries_manual(log, h, raw)
            &&& if manual_confirmed_by(log, raw) {
                log.len() == manual_len(log) && outcome == HandBackOutcome::Restored
            } else {
                is_fallback(log.skip(manual_len(log)), h, outcome)
            }
        },
        HandBack::FullSpeed => is_fallback(log, h, outcome),
    }
}

/// The number that a file shows.
pub fn read_u8<W: SysfsWriter>(writer: &mut W, path: &str) -> (r: Option<u8>)
    ensures
        ({
            let log = final(writer).accesses();
            &&& log.len() == old(writer).accesses().len() + 1
            &&& log.drop_last() == old(writer).accesses()
            &&& is_read(log.last(), path@)
            &&& r == shown(log.last())
        }),
{
    let r: Option<u8> = match writer.read_file(path) {
        Ok(t) => parse_u8(trim(t.as_str())),
        Err(_) => None,
    };
    assert(writer.accesses().drop_last() =~= old(writer).accesses());
    r
}

fn full_speed<W: SysfsWriter>(writer: &mut W, enable_path: &str, pwm_path: &str) -> (outcome:
    HandBackOutcome)
    ensures
        final(writer).accesses().len() >= old(writer).accesses().len(),
        final(writer).accesses().take(old(writer).accesses().len() as int)
            == old(writer).accesses(),
        is_fallback(
            final(writer).accesses().skip(old(writer).accesses().len() as int),
            (HeaderPaths { enable: enable_path@, pwm: pwm_path@ }),
            outcome,
        ),
{
    let ghost start = writer.accesses();
    let ghost n = start.len() as int;
    let ghost h = HeaderPaths { enable: enable_path@, pwm: pwm_path@ };
    proof {
        reveal_strlit("0");
        assert(text::decimal(0) =~= "0"@);
    }
    if writer.write_file(enable_path, "0").is_ok() {
        let mode: Option<u8> = read_u8(writer, enable_path);
        proof {
            assert(writer.accesses()[n] == writer.accesses().drop_last()[n]);
            assert(writer.accesses().take(n) =~= writer.accesses().drop_last().take(n));
            assert(writer.accesses().take(n) =~= start);
        }
        if mode == Some(0u8) {
            return HandBackOutcome::FullSpeed;
        }
    }
    let ghost tried = writer.accesses();
    let ghost m = tried.skip(n).len() as int;
    proof {
        assert(tried.take(n) =~= start);
        assert(tries_mode(tried.skip(n), h, 0));
        assert(m == mode_len(tried.skip(n)));
    }
    let outcome: HandBackOutcome = manual_full_speed(writer, enable_path, pwm_path);
    proof {
        let all = writer.accesses();
        let log = all.skip(n);
        assert(all.take(n) =~= all.take(tried.len() as int).take(n));
        assert(log.skip(m) =~= all.skip(tried.len() as int));
        assert forall|i: int| 0 <= i < m implies #[trigger] log[i] == tried.skip(n)[i] by {
            assert(all.take(tried.len() as int)[n + i] == tried[n + i]);
        }
        assert(log[0] == tried.skip(n)[0]);
        assert(m == 2 ==> log[1] == tried.skip(n)[1]);
    }
    outcome
}

fn manual_full_speed<W: SysfsWriter>(writer: &mut W, enable_path: &str, pwm_path: &str) -> (outcome:
    HandBackOutcome)
    ensures
        final(writer).accesses().len() >= old(writer).accesses().len(),
        final(writer).accesses().take(old(writer).accesses().len() as int)
            == old(writer).accesses(),
        is_manual_full_speed(
            final(writer).accesses().skip(old(writer).accesses().len() as int),
            (HeaderPaths { enable: enable_path@, pwm: pwm_path@ }),
            outcome,
        ),
{
    let ghost start = writer.accesses();
    let ghost n = start.len() as int;
    let first: bool = writer.write_file(enable_path, "1").is_ok();
    assert(writer.accesses().take(n) =~= start);
    if !first {
        return HandBackOutcome::Failed;
    }
    let second: bool = writer.write_file(pwm_path, "255").is_ok();
    assert(writer.accesses().take(n) =~= start);
    if !second {
        return HandBackOutcome::Failed;
    }
    let ghost written = writer.accesses();
    let raw: Option<u8> = read_u8(writer, pwm_path);
    proof {
        let all = writer.accesses();
        assert(all.drop_last() == written);
        assert(all[n] == all.drop_last()[n] && all[n + 1] == all.drop_last()[n + 1]);
        assert(all.take(n) =~= all.drop_last().take(n));
        assert(written.take(n) =~= start);
    }
    match raw {
        Some(raw) => if raw >= FULL_SPEED_MIN_RAW {
            HandBackOutcome::FullSpeed
        } else {
            HandBackOutcome::Failed
        },
        None => HandBackOutcome::Failed,
    }
}

fn manual_confirmed<W: SysfsWriter>(
    writer: &mut W,
    enable_path: &str,
    pwm_path: &str,
    raw: u8,
) -> (r: bool)
    ensures
        ({
            let n = old(writer).accesses().len() as int;
            let log = final(writer).accesses();
            &&& log.len() >= n + 1
            &&& log.take(n) == old(writer).accesses()
            &&& is_read(log[n], enable_path@)
            &&& if shown(log[n]) == Some(1u8) {
                &&& log.len() == n + 2
                &&& is_read(log[n + 1], pwm_path@)
                &&& r == (shown(log[n + 1]) == Some(raw))
            } else if shown(log[n]) == Some(0u8) {
                &&& log.len() == n + 2
                &&& is_read(log[n + 1], pwm_path@)
                &&& r == pwm::full_speed_alias(
                    pwm::percent_of_raw(raw as int) as u8,
                    shown_percent(log[n + 1]),
                    Some(0u8),
                )
            } else {
                log.len() == n + 1 && !r
            }
        }),
{
    let ghost start = writer.accesses();
    let ghost n = start.len() as int;
    let mode: Option<u8> = read_u8(writer, enable_path);
    assert(writer.accesses().take(n) =~= start);
    match mode {
        Some(m) => {
            if m != 1 && m != 0 {
                return false;
            }
            let ghost before = writer.accesses();
            let duty: Option<u8> = read_u8(writer, pwm_path);
            proof {
                assert(writer.accesses()[n] == before[n]);
                assert(writer.accesses().take(n) =~= start);
            }
            if m == 1 {
                duty == Some(raw)
            } else {
                let shown_pct: Option<u8> = match duty {
                    Some(x) => Some(raw_to_percent(x)),
                    None => None,
                };
                is_full_speed_alias(raw_to_percent(raw), shown_pct, mode)
            }
        },
        None => false,
    }
}

/// Gives a header back: writes what was recorded, reads it back, and falls back to full
/// speed where that disagrees. A write that is taken is no proof that the value was: a
/// driver can store another.
pub fn hand_back<W: SysfsWriter>(
    writer: &mut W,
    enable_path: &str,
    pwm_path: &str,
    action: HandBack,
) -> (outcome: HandBackOutcome)
    ensures
        final(writer).accesses().len() >= old(writer).accesses().len(),
        final(writer).accesses().take(old(writer).accesses().len() as int)
            == old(writer).accesses(),
        is_hand_back(
            final(writer).accesses().skip(old(writer).accesses().len() as int),
            (HeaderPaths { enable: enable_path@, pwm: pwm_path@ }),
            action,
            outcome,
        ),
{
    let ghost start = writer.accesses();
    let ghost n = start.len() as int;
    let ghost h = HeaderPaths { enable: enable_path@, pwm: pwm_path@ };
    let mut restored: bool = false;
    match action {
        HandBack::Mode(mode) => {
            if writer.write_file(enable_path, decimal_of(mode as u64).as_str()).is_ok() {
                restored = read_u8(writer, enable_path) == Some(mode);
            }
        },
        HandBack::Manual(raw) => {
            if writer.write_file(enable_path, "1").is_ok() {
                if writer.write_file(pwm_path, decimal_of(raw as u64).as_str()).is_ok() {
                    let ghost before = writer.accesses();
                    restored = manual_confirmed(writer, enable_path, pwm_path, raw);
                    proof {
                        assert(writer.accesses()[n] == writer.accesses().take(n + 2)[n]);
                        assert(writer.accesses()[n + 1] == writer.accesses().take(n + 2)[n + 1]);
                        assert(writer.accesses().take(n) =~= writer.accesses().take(n + 2).take(
                            n,
                        ));
                        assert(before.take(n) =~= start);
                    }
                }
            }
        },
        HandBack::FullSpeed => {},
    }
    let ghost tried = writer.accesses();
    let ghost m = tried.len() - n;
    proof {
        assert(tried.take(n) =~= start);
        let log = tried.skip(n);
        match action {
            HandBack::Mode(mode) => {
                assert(tries_mode(log, h, mode) && m == mode_len(log));
                assert(restored == mode_confirmed(log, mode));
            },
            HandBack::Manual(raw) => {
                assert(tries_manual(log, h, raw) && m == manual_len(log));
                assert(restored == manual_confirmed_by(log, raw));
            },
            HandBack::FullSpeed => {
                assert(m == 0 && !restored);
            },
        }
    }
    if restored {
        return HandBackOutcome::Restored;
    }
    let outcome: HandBackOutcome = full_speed(writer, enable_path, pwm_path);
    proof {
        let all = writer.accesses();
        let log = all.skip(n);
        assert(all.take(n) =~= all.take(tried.len() as int).take(n));
        assert(log.skip(m) =~= all.skip(tried.len() as int));
        assert forall|i: int| 0 <= i < m implies #[trigger] log[i] == tried.skip(n)[i] by {
            assert(all.take(tried.len() as int)[n + i] == tried[n + i]);
        }
    }
    outcome
}

// ---------------------------------------------------------------------------
// The headers that are held
// ---------------------------------------------------------------------------

/// A header that is held, and what giving it back writes.
#[derive(Debug)]
pub struct TakenHeader {
    pub id: String,
    pub enable_path: String,
    pub pwm_path: String,
    pub action: HandBack,
}

/// What a held header is.
#[verifier::ext_equal]
pub struct TakenView {
    pub id: Seq<char>,
    pub enable_path: Seq<char>,
    pub pwm_path: Seq<char>,
    pub action: HandBack,
}

impl View for TakenHeader {
    type V = TakenView;

    open spec fn view(&self) -> TakenView {
        TakenView {
            id: self.id@,
            enable_path: self.enable_path@,
            pwm_path: self.pwm_path@,
            action: self.action,
        }
    }
}

/// A header that can be taken.
#[derive(Debug)]
struct Entry {
    id: String,
    enable_path: String,
    pwm_path: String,
    original: Option<HandBack>,
    taken: bool,
    failure_logged: bool,
}

/// What is known of a header that can be taken.
#[verifier::ext_equal]
pub struct EntryView {
    pub id: Seq<char>,
    pub enable_path: Seq<char>,
    pub pwm_path: Seq<char>,
    /// What it was doing before it was first taken. Once set it never changes: whatever
    /// is seen later was left by the program or put there again by the firmware.
    pub original: Option<HandBack>,
    /// Whether it is held.
    pub taken: bool,
    /// Whether a failure to give it back was told since it was last given back.
    pub failure_logged: bool,
}

impl View for Entry {
    type V = EntryView;

    closed spec fn view(&self) -> EntryView {
        EntryView {
            id: self.id@,
            enable_path: self.enable_path@,
            pwm_path: self.pwm_path@,
            original: self.original,
            taken: self.taken,
            failure_logged: self.failure_logged,
        }
    }
}

impl EntryView {
    /// What giving the header back writes: full speed where the original is not known.
    pub open spec fn action(self) -> HandBack {
        match self.original {
            Some(a) => a,
            None => HandBack::FullSpeed,
        }
    }

    /// The header as one that is held.
    pub open spec fn as_taken(self) -> TakenView {
        TakenView {
            id: self.id,
            enable_path: self.enable_path,
            pwm_path: self.pwm_path,
            action: self.action(),
        }
    }
}

impl Entry {
    fn as_taken(&self) -> (r: TakenHeader)
        ensures
            r@ == self@.as_taken(),
    {
        TakenHeader {
            id: self.id.clone(),
            enable_path: self.enable_path.clone(),
            pwm_path: self.pwm_path.clone(),
            action: match self.original {
                Some(a) => a,
                None => HandBack::FullSpeed,
            },
        }
    }

    fn with(&self, original: Option<HandBack>, taken: bool, failure_logged: bool) -> (r: Entry)
        ensures
            r@ == (EntryView { original, taken, failure_logged, ..self@ }),
    {
        Entry {
            id: self.id.clone(),
            enable_path: self.enable_path.clone(),
            pwm_path: self.pwm_path.clone(),
            original,
            taken,
            failure_logged,
        }
    }
}

/// The position of the first entry with an id, from a position on, or the length.
pub open spec fn entry_at(entries: Seq<EntryView>, id: Seq<char>, from: int) -> int
    decreases entries.len() - from,
{
    if from >= entries.len() || entries[from].id == id {
        from
    } else {
        entry_at(entries, id, from + 1)
    }
}

proof fn lemma_entry_at(entries: Seq<EntryView>, id: Seq<char>, from: int)
    requires
        0 <= from <= entries.len(),
    ensures
        ({
            let at = entry_at(entries, id, from);
            &&& from <= at <= entries.len()
            &&& at < entries.len() ==> entries[at].id == id
            &&& forall|i: int| from <= i < at ==> (#[trigger] entries[i]).id != id
        }),
    decreases entries.len() - from,
{
    if from < entries.len() && entries[from].id != id {
        lemma_entry_at(entries, id, from + 1);
    }
}

/// What is known of the header with an id.
pub open spec fn entry_of(entries: Seq<EntryView>, id: Seq<char>) -> Option<EntryView> {
    let at = entry_at(entries, id, 0);
    if at < entries.len() {
        Some(entries[at])
    } else {
        None
    }
}

/// The headers among the entries that are held.
pub open spec fn held(entries: Seq<EntryView>) -> Seq<EntryView>
    decreases entries.len(),
{
    if entries.len() == 0 {
        Seq::empty()
    } else if entries.last().taken {
        held(entries.drop_last()).push(entries.last())
    } else {
        held(entries.drop_last())
    }
}

/// Entries in the order of texts that go with them.
pub open spec fn arranged(entries: Seq<EntryView>, keys: Seq<Seq<char>>) -> Seq<EntryView> {
    text::order_of(keys).map_values(|i: int| entries[i])
}

/// The ids of entries.
pub open spec fn ids_of(entries: Seq<EntryView>) -> Seq<Seq<char>> {
    entries.map_values(|e: EntryView| e.id)
}

/// The mode paths of entries.
pub open spec fn enable_paths_of(entries: Seq<EntryView>) -> Seq<Seq<char>> {
    entries.map_values(|e: EntryView| e.enable_path)
}

/// The headers that are held, in the order of their ids.
pub open spec fn held_by_id(entries: Seq<EntryView>) -> Seq<EntryView> {
    arranged(held(entries), ids_of(held(entries)))
}

/// The headers that are held, in the order of their mode paths.
pub open spec fn held_by_path(entries: Seq<EntryView>) -> Seq<EntryView> {
    arranged(held(entries), enable_paths_of(held(entries)))
}

/// Whether a text holds what separates the columns or lines of the record.
pub open spec fn has_separator(s: Seq<char>) -> bool {
    s.contains('\t') || s.contains('\n')
}

/// Whether an entry can be written to the record.
pub open spec fn is_recordable(e: EntryView) -> bool {
    !has_separator(e.enable_path) && !has_separator(e.pwm_path)
}

/// The line of the record for an entry, without its end.
pub open spec fn record_line(e: EntryView) -> Seq<char> {
    e.enable_path + "\t"@ + e.pwm_path + "\t"@ + e.action().columns().0 + "\t"@
        + e.action().columns().1
}

/// The lines of the record for entries. One with a separator in a path could not be read
/// again, so it has none.
pub open spec fn record_lines(entries: Seq<EntryView>) -> Seq<char>
    decreases entries.len(),
{
    if entries.len() == 0 {
        Seq::empty()
    } else {
        let before = record_lines(entries.drop_last());
        if is_recordable(entries.last()) {
            before + record_line(entries.last()) + "\n"@
        } else {
            before
        }
    }
}

/// The record of the headers among the entries that are held.
pub open spec fn record_of(entries: Seq<EntryView>) -> Seq<char> {
    RECORD_HEADER@ + "\n"@ + record_lines(held_by_path(entries))
}

/// Which headers are held, and what each of them gets back.
#[derive(Debug)]
pub struct HandBackLedger {
    entries: Vec<Entry>,
    record_path: Option<String>,
    record_error_logged: bool,
}

/// What the ledger knows.
#[verifier::ext_equal]
pub struct LedgerView {
    /// The headers that can be taken.
    pub entries: Seq<EntryView>,
    /// Where the record is kept, where it is kept at all.
    pub record_path: Option<Seq<char>>,
    /// Whether a failure to store the record was told since it was last stored.
    pub record_error_logged: bool,
}

impl View for HandBackLedger {
    type V = LedgerView;

    closed spec fn view(&self) -> LedgerView {
        LedgerView {
            entries: text::views(self.entries@),
            record_path: text::opt_text(self.record_path),
            record_error_logged: self.record_error_logged,
        }
    }
}

impl LedgerView {
    /// The ledger with another entry for the header with an id, where there is one.
    pub open spec fn with_entry(self, id: Seq<char>, e: EntryView) -> LedgerView {
        LedgerView { entries: self.entries.update(entry_at(self.entries, id, 0), e), ..self }
    }

    /// The ledger after the take of a header.
    pub open spec fn after_take(self, id: Seq<char>, original: Option<HandBack>) -> LedgerView {
        match entry_of(self.entries, id) {
            Some(e) => self.with_entry(
                id,
                EntryView {
                    original: if e.original is None {
                        original
                    } else {
                        e.original
                    },
                    taken: true,
                    ..e
                },
            ),
            None => self,
        }
    }

    /// The ledger after a header was given back.
    pub open spec fn after_hand_back(self, id: Seq<char>) -> LedgerView {
        match entry_of(self.entries, id) {
            Some(e) => if e.taken {
                self.with_entry(id, EntryView { taken: false, failure_logged: false, ..e })
            } else {
                self
            },
            None => self,
        }
    }

    /// The ledger after a header could not be given back.
    pub open spec fn after_failure(self, id: Seq<char>) -> LedgerView {
        match entry_of(self.entries, id) {
            Some(e) => self.with_entry(id, EntryView { failure_logged: true, ..e }),
            None => self,
        }
    }

    /// The record to be stored on the way from this ledger to another: there is one where
    /// the record is kept and the ledgers differ.
    pub open spec fn record_due(self, after: LedgerView) -> Option<Seq<char>> {
        if self.record_path is Some && self.entries != after.entries {
            Some(record_of(after.entries))
        } else {
            None
        }
    }
}

/// The entry that a header gets, where it has a control mode to take.
pub open spec fn entry_for(h: PwmHeaderDescriptor) -> Option<EntryView> {
    match h.enable_path {
        Some(p) => if h.supports_enable {
            Some(
                EntryView {
                    id: h.id@,
                    enable_path: p@,
                    pwm_path: h.pwm_path@,
                    original: None,
                    taken: false,
                    failure_logged: false,
                },
            )
        } else {
            None
        },
        None => None,
    }
}

/// The entries of headers: of those with the same id the last counts.
pub open spec fn entries_for(headers: Seq<PwmHeaderDescriptor>) -> Seq<EntryView>
    decreases headers.len(),
{
    if headers.len() == 0 {
        Seq::empty()
    } else {
        let before = entries_for(headers.drop_last());
        match entry_for(headers.last()) {
            Some(e) => {
                let at = entry_at(before, e.id, 0);
                if at < before.len() {
                    before.update(at, e)
                } else {
                    before.push(e)
                }
            },
            None => before,
        }
    }
}

fn find_entry(entries: &Vec<Entry>, id: &str) -> (at: usize)
    ensures
        at == entry_at(text::views(entries@), id@, 0),
        at <= entries@.len(),
{
    let ghost all = text::views(entries@);
    let mut at: usize = 0;
    while at < entries.len()
        invariant
            at <= entries@.len(),
            all == text::views(entries@),
            entry_at(all, id@, 0) == entry_at(all, id@, at as int),
        decreases entries@.len() - at,
    {
        assert(all[at as int] == entries@[at as int]@);
        if str_eq(entries[at].id.as_str(), id) {
            return at;
        }
        at += 1;
    }
    at
}

fn separated(s: &str) -> (r: bool)
    ensures
        r == has_separator(s@),
{
    let v: Vec<char> = chars_of(s);
    let mut i: usize = 0;
    while i < v.len()
        invariant
            i <= v@.len(),
            v@ == s@,
            forall|k: int| 0 <= k < i ==> #[trigger] s@[k] != '\t' && s@[k] != '\n',
        decreases v@.len() - i,
    {
        if v[i] == '\t' || v[i] == '\n' {
            assert(s@.contains(s@[i as int]));
            return true;
        }
        i += 1;
    }
    false
}

impl HandBackLedger {
    /// A ledger of the headers that have a control mode; no other is ever taken.
    pub fn new(headers: &Vec<PwmHeaderDescriptor>) -> (r: Self)
        ensures
            r@ == (LedgerView {
                entries: entries_for(headers@),
                record_path: None,
                record_error_logged: false,
            }),
    {
        let mut entries: Vec<Entry> = Vec::new();
        let mut i: usize = 0;
        assert(text::views(entries@) =~= Seq::<EntryView>::empty());
        while i < headers.len()
            invariant
                i <= headers@.len(),
                text::views(entries@) == entries_for(headers@.take(i as int)),
            decreases headers@.len() - i,
        {
            let h: &PwmHeaderDescriptor = &headers[i];
            proof {
                assert(headers@.take(i + 1).drop_last() =~= headers@.take(i as int));
                assert(headers@.take(i + 1).last() == *h);
            }
            if let Some(p) = &h.enable_path {
                if h.supports_enable {
                    let e = Entry {
                        id: h.id.clone(),
                        enable_path: p.clone(),
                        pwm_path: h.pwm_path.clone(),
                        original: None,
                        taken: false,
                        failure_logged: false,
                    };
                    let ghost was = text::views(entries@);
                    let ghost new = e@;
                    let at: usize = find_entry(&entries, h.id.as_str());
                    if at < entries.len() {
                        entries.set(at, e);
                        assert(text::views(entries@) =~= was.update(at as int, new));
                    } else {
                        entries.push(e);
                        assert(text::views(entries@) =~= was.push(new));
                    }
                }
            }
            i += 1;
        }
        assert(headers@.take(i as int) =~= headers@);
        HandBackLedger { entries, record_path: None, record_error_logged: false }
    }

    /// Keeps the record at a path from now on. Returns the record, to be stored at once.
    pub fn set_record_path(&mut self, path: String) -> (record: String)
        ensures
            final(self)@ == (LedgerView { record_path: Some(path@), ..old(self)@ }),
            record@ == record_of(old(self)@.entries),
    {
        self.record_path = Some(path);
        self.render_record()
    }

    /// Where the record is kept.
    pub fn record_path(&self) -> (r: Option<&str>)
        ensures
            text::opt_str(r) == self@.record_path,
    {
        match &self.record_path {
            Some(p) => Some(p.as_str()),
            None => None,
        }
    }

    /// Notes that the record was stored, or that it could not be. Returns whether that is
    /// news: each failure and each recovery is told once.
    pub fn note_record_stored(&mut self, stored: bool) -> (news: bool)
        ensures
            final(self)@ == (LedgerView { record_error_logged: !stored, ..old(self)@ }),
            news == (stored == old(self)@.record_error_logged),
    {
        let news: bool = stored == self.record_error_logged;
        self.record_error_logged = !stored;
        news
    }

    /// Whether the next take of a header is its first, so that it must be read before.
    pub fn needs_original(&self, id: &str) -> (r: bool)
        ensures
            r == (entry_of(self@.entries, id@) matches Some(e) && e.original is None),
    {
        let at: usize = find_entry(&self.entries, id);
        assert(self@.entries.len() == self.entries@.len());
        if at < self.entries.len() {
            assert(self@.entries[at as int] == self.entries@[at as int]@);
            self.entries[at].original.is_none()
        } else {
            false
        }
    }

    fn replace(&mut self, at: usize, e: Entry)
        requires
            at < old(self)@.entries.len(),
        ensures
            final(self)@ == (LedgerView {
                entries: old(self)@.entries.update(at as int, e@),
                ..old(self)@
            }),
    {
        let ghost was = self@.entries;
        let ghost new = e@;
        assert(was.len() == self.entries@.len());
        self.entries.set(at, e);
        assert(self@.entries =~= was.update(at as int, new));
    }

    fn due(&self, changed: bool) -> (r: Option<String>)
        ensures
            text::opt_text(r) == (if changed && self@.record_path is Some {
                Some(record_of(self@.entries))
            } else {
                None
            }),
    {
        if changed && self.record_path.is_some() {
            Some(self.render_record())
        } else {
            None
        }
    }

    /// Notes that a header is about to be taken. The original is kept only where none is
    /// known yet.
    ///
    /// Returns the record, where it has to be stored: that is to be done before the
    /// header is taken, for a header that is held and that no record names is never
    /// given back.
    pub fn note_take(&mut self, id: &str, original: Option<HandBack>) -> (record: Option<String>)
        ensures
            final(self)@ == old(self)@.after_take(id@, original),
            text::opt_text(record) == old(self)@.record_due(final(self)@),
    {
        let ghost before = self@;
        let at: usize = find_entry(&self.entries, id);
        assert(before.entries.len() == self.entries@.len());
        if at >= self.entries.len() {
            return None;
        }
        let e: &Entry = &self.entries[at];
        let ghost was = e@;
        assert(before.entries[at as int] == was);
        let learns: bool = e.original.is_none() && original.is_some();
        let takes: bool = !e.taken;
        let kept: Option<HandBack> = if e.original.is_none() {
            original
        } else {
            e.original
        };
        let new: Entry = e.with(kept, true, e.failure_logged);
        let ghost became = new@;
        self.replace(at, new);
        proof {
            assert(self@.entries[at as int] == became);
            if learns || takes {
                assert(was != became);
            } else {
                assert(was =~= became);
                assert(self@.entries =~= before.entries);
            }
        }
        self.due(learns || takes)
    }

    /// Whether a header is held.
    pub fn is_taken(&self, id: &str) -> (r: bool)
        ensures
            r == (entry_of(self@.entries, id@) matches Some(e) && e.taken),
    {
        let at: usize = find_entry(&self.entries, id);
        assert(self@.entries.len() == self.entries@.len());
        if at < self.entries.len() {
            assert(self@.entries[at as int] == self.entries@[at as int]@);
            self.entries[at].taken
        } else {
            false
        }
    }

    /// A header and what giving it back writes, where it is held.
    pub fn taken_header(&self, id: &str) -> (r: Option<TakenHeader>)
        ensures
            match (r, entry_of(self@.entries, id@)) {
                (Some(t), Some(e)) => e.taken && t@ == e.as_taken(),
                (None, Some(e)) => !e.taken,
                (None, None) => true,
                _ => false,
            },
    {
        let at: usize = find_entry(&self.entries, id);
        assert(self@.entries.len() == self.entries@.len());
        if at < self.entries.len() {
            assert(self@.entries[at as int] == self.entries@[at as int]@);
            if self.entries[at].taken {
                return Some(self.entries[at].as_taken());
            }
        }
        None
    }

    fn held_positions(&self) -> (r: Vec<usize>)
        ensures
            r@.len() == held(self@.entries).len(),
            forall|i: int|
                0 <= i < r@.len() ==> (#[trigger] r@[i]) < self.entries@.len()
                    && self.entries@[r@[i] as int]@ == held(self@.entries)[i],
    {
        let ghost all = self@.entries;
        let mut r: Vec<usize> = Vec::new();
        let mut i: usize = 0;
        while i < self.entries.len()
            invariant
                i <= self.entries@.len(),
                all == text::views(self.entries@),
                r@.len() == held(all.take(i as int)).len(),
                forall|k: int|
                    0 <= k < r@.len() ==> (#[trigger] r@[k]) < i && self.entries@[r@[k] as int]@
                        == held(all.take(i as int))[k],
            decreases self.entries@.len() - i,
        {
            proof {
                assert(all.take(i + 1).drop_last() =~= all.take(i as int));
                assert(all.take(i + 1).last() == self.entries@[i as int]@);
            }
            if self.entries[i].taken {
                r.push(i);
            }
            i += 1;
        }
        assert(all.take(i as int) =~= all);
        r
    }

    /// The headers that are held, in the order of their ids.
    pub fn taken(&self) -> (r: Vec<TakenHeader>)
        ensures
            text::views(r@) == held_by_id(self@.entries).map_values(|e: EntryView| e.as_taken()),
    {
        let ghost some = held(self@.entries);
        let at: Vec<usize> = self.held_positions();
        let mut ids: Vec<String> = Vec::new();
        let mut i: usize = 0;
        while i < at.len()
            invariant
                i <= at@.len(),
                some == held(self@.entries),
                at@.len() == some.len(),
                forall|k: int|
                    0 <= k < at@.len() ==> (#[trigger] at@[k]) < self.entries@.len()
                        && self.entries@[at@[k] as int]@ == some[k],
                ids@.len() == i,
                forall|k: int| 0 <= k < i ==> (#[trigger] ids@[k])@ == some[k].id,
            decreases at@.len() - i,
        {
            assert(self.entries@[at@[i as int] as int]@ == some[i as int]);
            ids.push(self.entries[at[i]].id.clone());
            i += 1;
        }
        assert(text::strings(ids@) =~= ids_of(some));
        let order: Vec<usize> = sorted_positions(&ids);
        let ghost sorted = held_by_id(self@.entries);
        let mut r: Vec<TakenHeader> = Vec::new();
        let mut k: usize = 0;
        assert(text::positions(order@).len() == order@.len());
        while k < order.len()
            invariant
                k <= order@.len(),
                some == held(self@.entries),
                sorted == held_by_id(self@.entries),
                text::positions(order@) == text::order_of(ids_of(some)),
                order@.len() == at@.len(),
                at@.len() == some.len(),
                forall|j: int|
                    0 <= j < at@.len() ==> (#[trigger] at@[j]) < self.entries@.len()
                        && self.entries@[at@[j] as int]@ == some[j],
                forall|j: int| 0 <= j < order@.len() ==> #[trigger] order@[j] < at@.len(),
                r@.len() == k,
                forall|j: int| 0 <= j < k ==> (#[trigger] r@[j])@ == sorted[j].as_taken(),
            decreases order@.len() - k,
        {
            let p: usize = order[k];
            proof {
                assert(text::positions(order@)[k as int] == p as int);
                assert(sorted[k as int] == some[p as int]);
                assert(self.entries@[at@[p as int] as int]@ == some[p as int]);
            }
            r.push(self.entries[at[p]].as_taken());
            k += 1;
        }
        assert(sorted.len() == order@.len());
        assert(text::views(r@) =~= sorted.map_values(|e: EntryView| e.as_taken()));
        r
    }

    /// The ids of the headers that are held, in order.
    pub fn taken_ids(&self) -> (r: Vec<String>)
        ensures
            text::strings(r@) == ids_of(held_by_id(self@.entries)),
    {
        let headers: Vec<TakenHeader> = self.taken();
        let ghost sorted = held_by_id(self@.entries);
        let mut r: Vec<String> = Vec::new();
        let mut i: usize = 0;
        assert(text::views(headers@).len() == headers@.len());
        while i < headers.len()
            invariant
                i <= headers@.len(),
                headers@.len() == sorted.len(),
                text::views(headers@) == sorted.map_values(|e: EntryView| e.as_taken()),
                r@.len() == i,
                forall|k: int| 0 <= k < i ==> (#[trigger] r@[k])@ == sorted[k].id,
            decreases headers@.len() - i,
        {
            assert(text::views(headers@)[i as int] == headers@[i as int]@);
            r.push(headers[i].id.clone());
            i += 1;
        }
        assert(text::strings(r@) =~= ids_of(sorted));
        r
    }

    /// Notes that a header was given back. Returns the record, where it has to be stored.
    pub fn note_handed_back(&mut self, id: &str) -> (record: Option<String>)
        ensures
            final(self)@ == old(self)@.after_hand_back(id@),
            text::opt_text(record) == old(self)@.record_due(final(self)@),
    {
        let ghost before = self@;
        let at: usize = find_entry(&self.entries, id);
        assert(before.entries.len() == self.entries@.len());
        if at >= self.entries.len() {
            return None;
        }
        let e: &Entry = &self.entries[at];
        let ghost was = e@;
        assert(before.entries[at as int] == was);
        if !e.taken {
            return None;
        }
        let new: Entry = e.with(e.original, false, false);
        let ghost became = new@;
        self.replace(at, new);
        proof {
            assert(self@.entries[at as int] == became);
            assert(was != became);
        }
        self.due(true)
    }

    /// Notes that a header could not be given back. Returns whether that is the first
    /// time since it was last given back, so that it is told once.
    pub fn note_hand_back_failed(&mut self, id: &str) -> (first: bool)
        ensures
            final(self)@ == old(self)@.after_failure(id@),
            first == (entry_of(old(self)@.entries, id@) matches Some(e) && !e.failure_logged),
    {
        let ghost before = self@;
        let at: usize = find_entry(&self.entries, id);
        assert(before.entries.len() == self.entries@.len());
        if at >= self.entries.len() {
            return false;
        }
        let e: &Entry = &self.entries[at];
        assert(before.entries[at as int] == e@);
        let first: bool = !e.failure_logged;
        let new: Entry = e.with(e.original, e.taken, true);
        self.replace(at, new);
        first
    }

    /// The record of the headers that are held.
    pub fn render_record(&self) -> (r: String)
        ensures
            r@ == record_of(self@.entries),
    {
        let ghost some = held(self@.entries);
        let at: Vec<usize> = self.held_positions();
        let mut paths: Vec<String> = Vec::new();
        let mut i: usize = 0;
        while i < at.len()
            invariant
                i <= at@.len(),
                some == held(self@.entries),
                at@.len() == some.len(),
                forall|k: int|
                    0 <= k < at@.len() ==> (#[trigger] at@[k]) < self.entries@.len()
                        && self.entries@[at@[k] as int]@ == some[k],
                paths@.len() == i,
                forall|k: int| 0 <= k < i ==> (#[trigger] paths@[k])@ == some[k].enable_path,
            decreases at@.len() - i,
        {
            assert(self.entries@[at@[i as int] as int]@ == some[i as int]);
            paths.push(self.entries[at[i]].enable_path.clone());
            i += 1;
        }
        assert(text::strings(paths@) =~= enable_paths_of(some));
        let order: Vec<usize> = sorted_positions(&paths);
        let ghost sorted = held_by_path(self@.entries);
        let mut out: String = RECORD_HEADER.to_owned();
        out.append("\n");
        let ghost head = out@;
        let mut k: usize = 0;
        assert(text::positions(order@).len() == order@.len());
        assert(sorted.len() == order@.len());
        assert(head + record_lines(sorted.take(0)) =~= head);
        while k < order.len()
            invariant
                k <= order@.len(),
                some == held(self@.entries),
                sorted == held_by_path(self@.entries),
                sorted.len() == order@.len(),
                text::positions(order@) == text::order_of(enable_paths_of(some)),
                order@.len() == at@.len(),
                at@.len() == some.len(),
                forall|j: int|
                    0 <= j < at@.len() ==> (#[trigger] at@[j]) < self.entries@.len()
                        && self.entries@[at@[j] as int]@ == some[j],
                forall|j: int| 0 <= j < order@.len() ==> #[trigger] order@[j] < at@.len(),
                out@ == head + record_lines(sorted.take(k as int)),
            decreases order@.len() - k,
        {
            let p: usize = order[k];
            let e: &Entry = &self.entries[at[p]];
            proof {
                assert(text::positions(order@)[k as int] == p as int);
                assert(sorted[k as int] == some[p as int]);
                assert(e@ == some[p as int]);
                assert(sorted.take(k + 1).drop_last() =~= sorted.take(k as int));
                assert(sorted.take(k + 1).last() == e@);
            }
            if !separated(e.enable_path.as_str()) && !separated(e.pwm_path.as_str()) {
                let action: HandBack = match e.original {
                    Some(a) => a,
                    None => HandBack::FullSpeed,
                };
                let (kind, value): (&'static str, String) = action.record_columns();
                let ghost before = out@;
                out.append(e.enable_path.as_str());
                out.append("\t");
                out.append(e.pwm_path.as_str());
                out.append("\t");
                out.append(kind);
                out.append("\t");
                out.append(value.as_str());
                out.append("\n");
                assert(out@ =~= before + (record_line(e@) + "\n"@));
                assert(out@ =~= head + record_lines(sorted.take(k + 1)));
            }
            k += 1;
        }
        assert(sorted.take(k as int) =~= sorted);
        out
    }
}

// ---------------------------------------------------------------------------
// Laws
// ---------------------------------------------------------------------------

/// A header is told as restored only where reading it back confirmed what was recorded:
/// the mode itself, or the manual mode with its duty, or mode 0 at full scale where full
/// scale was recorded. Nothing recorded is never restored.
pub proof fn restored_means_confirmed(
    log: Seq<Access>,
    h: HeaderPaths,
    action: HandBack,
    outcome: HandBackOutcome,
)
    requires
        is_hand_back(log, h, action, outcome),
        outcome == HandBackOutcome::Restored,
    ensures
        match action {
            HandBack::Mode(mode) => is_read(log.last(), h.enable) && shown(log.last()) == Some(
                mode,
            ),
            HandBack::Manual(raw) => {
                &&& is_read(log[2], h.enable)
                &&& is_read(log.last(), h.pwm)
                &&& {
                    ||| shown(log[2]) == Some(1u8) && shown(log.last()) == Some(raw)
                    ||| shown(log[2]) == Some(0u8) && pwm::percent_of_raw(raw as int) >= 100
                        && shown_percent(log.last()) is Some && shown_percent(log.last())->0
                        >= 100
                }
            },
            HandBack::FullSpeed => false,
        },
{
}

/// A header is told as running at full speed only where the last read confirmed it: mode
/// 0, or a duty that counts as full speed.
pub proof fn full_speed_means_confirmed(
    log: Seq<Access>,
    h: HeaderPaths,
    action: HandBack,
    outcome: HandBackOutcome,
)
    requires
        is_hand_back(log, h, action, outcome),
        outcome == HandBackOutcome::FullSpeed,
    ensures
        log.len() > 0,
        ({
            ||| is_read(log.last(), h.enable) && shown(log.last()) == Some(0u8)
            ||| is_read(log.last(), h.pwm) && shown(log.last()) is Some && shown(log.last())->0
                >= FULL_SPEED_MIN_RAW
        }),
{
    let n = fallback_start(log, action);
    assert(is_fallback(log.skip(n), h, outcome));
    assert(log.skip(0) =~= log);
    let rest = log.skip(n);
    assert(rest.last() == log.last());
    if !mode_confirmed(rest, 0) {
        let m = mode_len(rest);
        assert(rest.skip(m).last() == rest.last());
    }
}

/// Where in the accesses of a hand-back the attempt at full speed begins.
pub open spec fn fallback_start(log: Seq<Access>, action: HandBack) -> int {
    match action {
        HandBack::Mode(mode) => mode_len(log),
        HandBack::Manual(raw) => manual_len(log),
        HandBack::FullSpeed => 0,
    }
}

/// Whether an access writes a control mode of its own: one other than 0 and 1, by which
/// full speed and the manual mode are had.
pub open spec fn writes_own_mode(a: Access, h: HeaderPaths) -> bool {
    a matches Access::Wrote { path, value, taken } && path == h.enable && value != "0"@ && value
        != "1"@
}

/// Giving a header back writes no control mode but the recorded one and those by which
/// full speed and the manual mode are had, and touches no file but the header's own.
pub proof fn only_the_recorded_mode_is_written(
    log: Seq<Access>,
    h: HeaderPaths,
    action: HandBack,
    outcome: HandBackOutcome,
    i: int,
)
    requires
        is_hand_back(log, h, action, outcome),
        0 <= i < log.len(),
        h.enable != h.pwm,
    ensures
        writes_own_mode(log[i], h) ==> (action matches HandBack::Mode(mode) && is_write(
            log[i],
            h.enable,
            text::decimal(mode as nat),
        )),
        match log[i] {
            Access::Wrote { path, value, taken } => path == h.enable || path == h.pwm,
            Access::Read { path, content } => path == h.enable || path == h.pwm,
        },
{
    reveal_strlit("0");
    assert(text::decimal(0) =~= "0"@);
    let n = fallback_start(log, action);
    if i >= n {
        let confirmed = match action {
            HandBack::Mode(mode) => mode_confirmed(log, mode),
            HandBack::Manual(raw) => manual_confirmed_by(log, raw),
            HandBack::FullSpeed => false,
        };
        if !confirmed {
            assert(log.skip(0) =~= log);
            let rest = log.skip(n);
            assert(is_fallback(rest, h, outcome));
            assert(rest[i - n] == log[i]);
            let m = mode_len(rest);
            if !mode_confirmed(rest, 0) && i - n >= m {
                assert(rest.skip(m)[i - n - m] == rest[i - n]);
            }
        }
    }
}

/// A Kraken of the nzxt-kraken3 driver is never given mode 2, whatever it showed: what it
/// gets back is not that mode, and giving that back does not write it.
pub proof fn a_kraken_is_never_given_mode_two(
    chip_name: Seq<char>,
    enable: Option<u8>,
    raw_pwm: Option<u8>,
    log: Seq<Access>,
    h: HeaderPaths,
    outcome: HandBackOutcome,
    i: int,
)
    requires
        aio::is_kraken3(chip_name),
        is_hand_back(log, h, HandBack::of_reading(chip_name, enable, raw_pwm), outcome),
        0 <= i < log.len(),
        h.enable != h.pwm,
    ensures
        !is_write(log[i], h.enable, text::decimal(2)),
{
    let action = HandBack::of_reading(chip_name, enable, raw_pwm);
    only_the_recorded_mode_is_written(log, h, action, outcome, i);
    reveal_strlit("0");
    reveal_strlit("1");
    assert(text::decimal(2)[0] == '2');
    if is_write(log[i], h.enable, text::decimal(2)) {
        assert(writes_own_mode(log[i], h));
        let mode = action->Mode_0;
        text::decimal_tells_numbers_apart(mode as nat, 2);
    }
}

/// What happens to a ledger.
pub enum LedgerStep {
    Take { id: Seq<char>, original: Option<HandBack> },
    HandedBack { id: Seq<char> },
    Failed { id: Seq<char> },
}

/// A ledger after a step.
pub open spec fn stepped(v: LedgerView, step: LedgerStep) -> LedgerView {
    match step {
        LedgerStep::Take { id, original } => v.after_take(id, original),
        LedgerStep::HandedBack { id } => v.after_hand_back(id),
        LedgerStep::Failed { id } => v.after_failure(id),
    }
}

/// A ledger after steps.
pub open spec fn after_steps(v: LedgerView, steps: Seq<LedgerStep>) -> LedgerView
    decreases steps.len(),
{
    if steps.len() == 0 {
        v
    } else {
        stepped(after_steps(v, steps.drop_last()), steps.last())
    }
}

proof fn lemma_step_keeps(v: LedgerView, step: LedgerStep, id: Seq<char>)
    requires
        entry_of(v.entries, id) is Some,
    ensures
        entry_of(stepped(v, step).entries, id) is Some,
        ({
            let before = entry_of(v.entries, id)->0;
            let after = entry_of(stepped(v, step).entries, id)->0;
            &&& after.enable_path == before.enable_path
            &&& after.pwm_path == before.pwm_path
            &&& before.original is Some ==> after.original == before.original
        }),
{
    let w = stepped(v, step);
    let target = match step {
        LedgerStep::Take { id, original } => id,
        LedgerStep::HandedBack { id } => id,
        LedgerStep::Failed { id } => id,
    };
    lemma_entry_at(v.entries, id, 0);
    lemma_entry_at(v.entries, target, 0);
    assert(w.entries.len() == v.entries.len());
    assert forall|i: int| 0 <= i < v.entries.len() implies (#[trigger] w.entries[i]).id
        == v.entries[i].id by {}
    lemma_same_position(v.entries, w.entries, id, 0);
}

proof fn lemma_same_position(a: Seq<EntryView>, b: Seq<EntryView>, id: Seq<char>, from: int)
    requires
        a.len() == b.len(),
        0 <= from <= a.len(),
        forall|i: int| 0 <= i < a.len() ==> (#[trigger] b[i]).id == a[i].id,
    ensures
        entry_at(a, id, from) == entry_at(b, id, from),
    decreases a.len() - from,
{
    if from < a.len() {
        assert(b[from].id == a[from].id);
        lemma_same_position(a, b, id, from + 1);
    }
}

/// The original of a header, once known, is kept for good: no take, hand-back or failure
/// that follows, of this header or another, changes it.
pub proof fn the_first_original_is_kept(v: LedgerView, steps: Seq<LedgerStep>, id: Seq<char>)
    requires
        entry_of(v.entries, id) matches Some(e) && e.original is Some,
    ensures
        entry_of(after_steps(v, steps).entries, id) is Some,
        entry_of(after_steps(v, steps).entries, id)->0.original == entry_of(
            v.entries,
            id,
        )->0.original,
    decreases steps.len(),
{
    if steps.len() > 0 {
        the_first_original_is_kept(v, steps.drop_last(), id);
        lemma_step_keeps(after_steps(v, steps.drop_last()), steps.last(), id);
    }
}

/// A header that the ledger does not know is never held, whatever happens.
pub proof fn unknown_headers_are_never_held(v: LedgerView, steps: Seq<LedgerStep>, id: Seq<char>)
    requires
        entry_of(v.entries, id) is None,
    ensures
        entry_of(after_steps(v, steps).entries, id) is None,
    decreases steps.len(),
{
    if steps.len() > 0 {
        let front = after_steps(v, steps.drop_last());
        unknown_headers_are_never_held(v, steps.drop_last(), id);
        let w = after_steps(v, steps);
        let target = match steps.last() {
            LedgerStep::Take { id, original } => id,
            LedgerStep::HandedBack { id } => id,
            LedgerStep::Failed { id } => id,
        };
        lemma_entry_at(front.entries, target, 0);
        lemma_same_position(front.entries, w.entries, id, 0);
    }
}

/// The lines of the record that are not its first: those of the entries that can be
/// written to it.
pub open spec fn lines_for(entries: Seq<EntryView>) -> Seq<Seq<char>>
    decreases entries.len(),
{
    if entries.len() == 0 {
        Seq::empty()
    } else if is_recordable(entries.last()) {
        lines_for(entries.drop_last()).push(record_line(entries.last()))
    } else {
        lines_for(entries.drop_last())
    }
}

proof fn lemma_column_chars(action: HandBack)
    ensures
        !has_separator(action.columns().0),
        !has_separator(action.columns().1),
        action.columns().1.len() > 0,
        action.columns().1.last() != '\r',
{
    reveal_strlit("mode");
    reveal_strlit("manual");
    reveal_strlit("full");
    reveal_strlit("-");
    match action {
        HandBack::Mode(mode) => {
            text::decimal_is_digits(mode as nat);
        },
        HandBack::Manual(raw) => {
            text::decimal_is_digits(raw as nat);
        },
        HandBack::FullSpeed => {},
    }
    assert(!"mode"@.contains('\t') && !"mode"@.contains('\n'));
    assert(!"manual"@.contains('\t') && !"manual"@.contains('\n'));
    assert(!"full"@.contains('\t') && !"full"@.contains('\n'));
    assert(!"-"@.contains('\t') && !"-"@.contains('\n'));
}

/// A line of the record tells its four columns apart, so that it can be read again.
pub proof fn a_record_line_has_four_columns(e: EntryView)
    requires
        is_recordable(e),
    ensures
        text::pieces(record_line(e), '\t') == seq![
            e.enable_path,
            e.pwm_path,
            e.action().columns().0,
            e.action().columns().1,
        ],
        !record_line(e).contains('\n'),
{
    reveal_strlit("\t");
    let (kind, value) = e.action().columns();
    lemma_column_chars(e.action());
    assert("\t"@ =~= seq!['\t']);
    let tail2 = kind + seq!['\t'] + value;
    let tail1 = e.pwm_path + seq!['\t'] + tail2;
    assert(record_line(e) =~= e.enable_path + seq!['\t'] + tail1);
    text::pieces_of_joined(e.enable_path, '\t', tail1);
    text::pieces_of_joined(e.pwm_path, '\t', tail2);
    text::pieces_of_joined(kind, '\t', value);
    text::pieces_of_joined(value, '\t', value);
    assert(text::pieces(record_line(e), '\t') =~= seq![e.enable_path, e.pwm_path, kind, value]);
    assert forall|i: int| 0 <= i < record_line(e).len() implies record_line(e)[i] != '\n' by {
        let a = e.enable_path.len();
        let b = e.pwm_path.len();
        let c = kind.len();
        if i < a {
            assert(e.enable_path.contains(e.enable_path[i]));
        } else if a < i < a + 1 + b {
            assert(e.pwm_path.contains(e.pwm_path[i - a - 1]));
        } else if a + b + 1 < i < a + b + 2 + c {
            assert(kind.contains(kind[i - a - b - 2]));
        } else if i > a + b + c + 2 {
            assert(value.contains(value[i - a - b - c - 3]));
        }
    }
}

proof fn lemma_record_lines(entries: Seq<EntryView>)
    ensures
        record_lines(entries).len() == 0 || record_lines(entries).last() == '\n',
        text::lines_of(record_lines(entries)) == lines_for(entries),
    decreases entries.len(),
{
    reveal_strlit("\n");
    assert("\n"@ =~= seq!['\n']);
    if entries.len() > 0 {
        let front = entries.drop_last();
        lemma_record_lines(front);
        let e = entries.last();
        if is_recordable(e) {
            let line = record_line(e);
            a_record_line_has_four_columns(e);
            lemma_column_chars(e.action());
            assert(line.last() == e.action().columns().1.last());
            text::one_line(line);
            assert(text::without_cr(line) == line);
            assert(record_lines(entries) =~= record_lines(front) + line.push('\n'));
            text::lines_of_joined(record_lines(front), line.push('\n'));
            assert(lines_for(front) + seq![line] =~= lines_for(entries));
        }
    } else {
        assert(text::lines_of(Seq::<char>::empty()) =~= Seq::<Seq<char>>::empty());
    }
}

proof fn lemma_held(entries: Seq<EntryView>, e: EntryView)
    ensures
        held(entries).contains(e) <==> entries.contains(e) && e.taken,
    decreases entries.len(),
{
    if entries.len() > 0 {
        let front = entries.drop_last();
        let last = entries.last();
        lemma_held(front, e);
        assert(entries =~= front.push(last));
        assert(entries.contains(e) <==> front.contains(e) || e == last) by {
            if front.contains(e) {
                assert(entries[front.index_of(e)] == e);
            }
            assert(entries[front.len() as int] == last);
            if entries.contains(e) && e != last {
                assert(front[entries.index_of(e)] == e);
            }
        }
        let kept = held(front);
        assert(kept.push(last).contains(e) <==> kept.contains(e) || e == last) by {
            if kept.contains(e) {
                assert(kept.push(last)[kept.index_of(e)] == e);
            }
            assert(kept.push(last)[kept.len() as int] == last);
        }
    }
}

/// The record has, after its first line, one line for each header that is held and can be
/// recorded, in the order of the paths, and no other.
pub proof fn the_record_names_exactly_the_held_headers(entries: Seq<EntryView>, e: EntryView)
    ensures
        text::lines_of(record_of(entries)) == seq![RECORD_HEADER@] + lines_for(
            held_by_path(entries),
        ),
        held_by_path(entries).len() == held(entries).len(),
        held_by_path(entries).contains(e) <==> entries.contains(e) && e.taken,
{
    reveal_strlit("\n");
    reveal_strlit(
        "# control-ofc hwmon hand-back record v1: headers the daemon has taken from firmware. Written by control-ofc-daemon, replayed by control-ofc-restore-auto (ExecStopPost). Do not edit.",
    );
    assert("\n"@ =~= seq!['\n']);
    let head = RECORD_HEADER@;
    assert(!head.contains('\n'));
    assert(head.last() != '\r');
    text::one_line(head);
    lemma_record_lines(held_by_path(entries));
    assert(head + "\n"@ =~= head.push('\n'));
    text::lines_of_joined(head.push('\n'), record_lines(held_by_path(entries)));
    let all = held(entries);
    text::ordering_keeps_everything(all, enable_paths_of(all));
    all.to_multiset_ensures();
    held_by_path(entries).to_multiset_ensures();
    assert(held_by_path(entries).to_multiset() == all.to_multiset());
    assert(held_by_path(entries).contains(e) <==> all.to_multiset().count(e) > 0);
    lemma_held(entries, e);
}

/// A header gets back what it showed before it was taken. In manual mode that is the mode
/// with exactly its duty, in any other mode the mode itself. Full speed is the answer only
/// where the mode was not read, where the duty of a manual mode was not read, or where a
/// Kraken showed mode 2.
pub proof fn a_header_gets_back_what_it_showed(
    chip_name: Seq<char>,
    enable: Option<u8>,
    raw_pwm: Option<u8>,
    mode: u8,
    raw: u8,
)
    ensures
        HandBack::of_reading(chip_name, Some(1), Some(raw)) == HandBack::Manual(raw),
        mode != 1 && !(mode == 2 && aio::is_kraken3(chip_name)) ==> HandBack::of_reading(
            chip_name,
            Some(mode),
            raw_pwm,
        ) == HandBack::Mode(mode),
        HandBack::of_reading(chip_name, enable, raw_pwm) == HandBack::FullSpeed <==> {
            ||| enable is None
            ||| enable == Some(1u8) && raw_pwm is None
            ||| enable == Some(2u8) && aio::is_kraken3(chip_name)
        },
{
}

/// Whether the files behind accesses do as they are told: every write is taken, and a read
/// shows what was last written to its file.
pub open spec fn is_obedient(log: Seq<Access>) -> bool {
    &&& forall|i: int| 0 <= i < log.len() ==> match #[trigger] log[i] {
        Access::Wrote { path, value, taken } => taken,
        Access::Read { path, content } => true,
    }
    &&& forall|i: int, j: int|
        #![trigger log[i], log[j]]
        0 <= i < j < log.len() && is_last_write(log, i, j) ==> match (log[i], log[j]) {
            (Access::Wrote { path, value, taken }, Access::Read { path: p, content }) => content
                == Some(value),
            _ => true,
        }
}

/// Whether the access at `i` is the last write before `j` to the file that `j` reads.
pub open spec fn is_last_write(log: Seq<Access>, i: int, j: int) -> bool {
    match (log[i], log[j]) {
        (Access::Wrote { path, value, taken }, Access::Read { path: p, content }) => {
            &&& path == p
            &&& forall|k: int|
                i < k < j ==> !(#[trigger] log[k] matches Access::Wrote { path: q, .. } && q == p)
        },
        _ => false,
    }
}

proof fn lemma_shown_decimal(a: Access, n: u8)
    requires
        a matches Access::Read { path, content: Some(t) } && t == text::decimal(n as nat),
    ensures
        shown(a) == Some(n),
{
    text::a_written_number_is_read_back(n as nat, 255);
}

/// A header whose files do as they are told is restored: its mode, or the manual mode and
/// its duty, is written and nothing else. One whose original is not known is set to full
/// speed by mode 0.
pub proof fn an_obedient_header_is_restored(
    log: Seq<Access>,
    h: HeaderPaths,
    action: HandBack,
    outcome: HandBackOutcome,
)
    requires
        is_hand_back(log, h, action, outcome),
        is_obedient(log),
        h.enable != h.pwm,
        log.len() > 0,
    ensures
        match action {
            HandBack::Mode(mode) => {
                &&& outcome == HandBackOutcome::Restored
                &&& log.len() == 2
                &&& is_write(log[0], h.enable, text::decimal(mode as nat))
            },
            HandBack::Manual(raw) => {
                &&& outcome == HandBackOutcome::Restored
                &&& log.len() == 4
                &&& is_write(log[0], h.enable, "1"@)
                &&& is_write(log[1], h.pwm, text::decimal(raw as nat))
            },
            HandBack::FullSpeed => {
                &&& outcome == HandBackOutcome::FullSpeed
                &&& log.len() == 2
                &&& is_write(log[0], h.enable, "0"@)
            },
        },
{
    lemma_small_decimals();
    match action {
        HandBack::Mode(mode) => {
            assert(took(log[0]));
            assert(is_last_write(log, 0, 1));
            lemma_shown_decimal(log[1], mode);
        },
        HandBack::Manual(raw) => {
            assert(took(log[0]));
            assert(took(log[1]));
            assert(is_last_write(log, 0, 2));
            lemma_shown_decimal(log[2], 1);
            assert(is_last_write(log, 1, 3));
            lemma_shown_decimal(log[3], raw);
        },
        HandBack::FullSpeed => {
            assert(took(log[0]));
            assert(is_last_write(log, 0, 1));
            lemma_shown_decimal(log[1], 0);
        },
    }
}

proof fn lemma_small_decimals()
    ensures
        text::decimal(0) == "0"@,
        text::decimal(1) == "1"@,
        text::decimal(2) == "2"@,
{
    reveal_strlit("0");
    reveal_strlit("1");
    reveal_strlit("2");
    assert(text::decimal(0) =~= "0"@);
    assert(text::decimal(1) =~= "1"@);
    assert(text::decimal(2) =~= "2"@);
}

/// Whether no write among accesses was taken.
pub open spec fn all_refused(log: Seq<Access>) -> bool {
    forall|i: int| 0 <= i < log.len() ==> !took(#[trigger] log[i])
}

/// A header that takes no write is never told as given back, and its full speed was tried
/// in both ways, last through the manual mode.
pub proof fn a_refusing_header_stays_held(
    log: Seq<Access>,
    h: HeaderPaths,
    action: HandBack,
    outcome: HandBackOutcome,
)
    requires
        is_hand_back(log, h, action, outcome),
        all_refused(log),
        log.len() > 0,
    ensures
        outcome == HandBackOutcome::Failed,
        log.len() == (if action == HandBack::FullSpeed {
            2int
        } else {
            3
        }),
        is_write(log[log.len() - 2], h.enable, "0"@),
        is_write(log[log.len() - 1], h.enable, "1"@),
{
    lemma_small_decimals();
    assert(!took(log[0]));
    if action != HandBack::FullSpeed {
        assert(log.skip(1)[0] == log[1]);
        assert(!took(log[1]));
        assert(log.skip(1).skip(1)[0] == log[2]);
        assert(!took(log[2]));
    } else {
        assert(log.skip(1)[0] == log[1]);
        assert(!took(log[1]));
    }
}

/// Full speed through the highest manual duty counts from a raw duty of 190 on, and the
/// duty that is written for it is 255.
pub proof fn full_speed_is_told_by_the_duty(
    log: Seq<Access>,
    h: HeaderPaths,
    outcome: HandBackOutcome,
)
    requires
        is_manual_full_speed(log, h, outcome),
        log.len() == 3,
    ensures
        is_write(log[0], h.enable, "1"@),
        is_write(log[1], h.pwm, "255"@),
        is_read(log[2], h.pwm),
        outcome == HandBackOutcome::FullSpeed <==> shown(log[2]) is Some && shown(log[2])->0
            >= 190,
        outcome == HandBackOutcome::FullSpeed || outcome == HandBackOutcome::Failed,
{
}

/// A header that was taken is held until it is given back, whatever happens to others; a
/// failure to give it back leaves it held.
pub proof fn a_taken_header_is_held_until_it_is_given_back(
    v: LedgerView,
    id: Seq<char>,
    original: Option<HandBack>,
    other: Seq<char>,
)
    requires
        entry_of(v.entries, id) is Some,
    ensures
        ({
            let e = entry_of(v.entries, id)->0;
            let taken = v.after_take(id, original);
            let back = taken.after_hand_back(id);
            let failed = taken.after_failure(id);
            &&& entry_of(taken.entries, id) matches Some(t) && t.taken && t.id == id
                && t.enable_path == e.enable_path && t.pwm_path == e.pwm_path
                && t.failure_logged == e.failure_logged && t.original == (if e.original is Some {
                e.original
            } else {
                original
            })
            &&& entry_of(back.entries, id) matches Some(t) && !t.taken && !t.failure_logged
                && t.original == entry_of(taken.entries, id)->0.original
            &&& entry_of(failed.entries, id) matches Some(t) && t.taken && t.failure_logged
                && t.original == entry_of(taken.entries, id)->0.original
            &&& other != id ==> {
                &&& entry_of(taken.entries, other) == entry_of(v.entries, other)
                &&& entry_of(back.entries, other) == entry_of(v.entries, other)
                &&& entry_of(failed.entries, other) == entry_of(v.entries, other)
            }
        }),
{
    let taken = v.after_take(id, original);
    let back = taken.after_hand_back(id);
    let failed = taken.after_failure(id);
    lemma_entry_at(v.entries, id, 0);
    let e = v.entries[entry_at(v.entries, id, 0)];
    let t = EntryView {
        original: if e.original is None {
            original
        } else {
            e.original
        },
        taken: true,
        ..e
    };
    lemma_with_entry(v, id, other, t);
    lemma_with_entry(taken, id, other, EntryView { taken: false, failure_logged: false, ..t });
    lemma_with_entry(taken, id, other, EntryView { failure_logged: true, ..t });
}

proof fn lemma_with_entry(v: LedgerView, id: Seq<char>, other: Seq<char>, e: EntryView)
    requires
        entry_of(v.entries, id) is Some,
        e.id == id,
    ensures
        entry_of(v.with_entry(id, e).entries, id) == Some(e),
        other != id ==> entry_of(v.with_entry(id, e).entries, other) == entry_of(v.entries, other),
{
    lemma_entry_at(v.entries, id, 0);
    let w = v.with_entry(id, e);
    assert forall|i: int| 0 <= i < v.entries.len() implies (#[trigger] w.entries[i]).id
        == v.entries[i].id by {}
    lemma_same_position(v.entries, w.entries, id, 0);
    lemma_same_position(v.entries, w.entries, other, 0);
    lemma_entry_at(v.entries, other, 0);
}

/// The record is stored with every take that changes something and with every hand-back of
/// a held header, where it is kept at all; and what is stored names the header as it is
/// then.
pub proof fn the_record_follows_every_take(
    v: LedgerView,
    id: Seq<char>,
    original: Option<HandBack>,
)
    requires
        v.record_path is Some,
        entry_of(v.entries, id) matches Some(e) && !e.taken,
    ensures
        ({
            let taken = v.after_take(id, original);
            let back = taken.after_hand_back(id);
            &&& v.record_due(taken) == Some(record_of(taken.entries))
            &&& taken.record_due(back) == Some(record_of(back.entries))
            &&& v.record_due(v) is None
        }),
{
    a_taken_header_is_held_until_it_is_given_back(v, id, original, id);
}

/// The line of a header in the record says what giving it back writes: the paths, and the
/// mode, the duty or full speed in the words of the record.
pub proof fn the_record_says_what_is_given_back(e: EntryView, n: u8)
    requires
        is_recordable(e),
    ensures
        ({
            let cols = text::pieces(record_line(e), '\t');
            &&& cols.len() == 4
            &&& cols[0] == e.enable_path
            &&& cols[1] == e.pwm_path
            &&& e.original == Some(HandBack::Mode(n)) ==> cols[2] == "mode"@ && text::parsed(
                cols[3],
                10,
                255,
            ) == Some(n as int)
            &&& e.original == Some(HandBack::Manual(n)) ==> cols[2] == "manual"@ && text::parsed(
                cols[3],
                10,
                255,
            ) == Some(n as int)
            &&& e.original == Some(HandBack::FullSpeed) || e.original is None ==> cols[2]
                == "full"@ && cols[3] == "-"@
        }),
{
    a_record_line_has_four_columns(e);
    text::a_written_number_is_read_back(n as nat, 255);
}

/// A header is in the ledger only where it has a control mode with a path; and it begins
/// as one that is not held and whose original is not known.
pub proof fn only_headers_with_a_mode_can_be_taken(headers: Seq<PwmHeaderDescriptor>, i: int)
    requires
        0 <= i < headers.len(),
    ensures
        forall|k: int|
            0 <= k < entries_for(headers).len() ==> !(#[trigger] entries_for(headers)[k]).taken
                && entries_for(headers)[k].original is None && !entries_for(
                headers,
            )[k].failure_logged,
        headers[i].supports_enable && headers[i].enable_path is Some ==> entry_of(
            entries_for(headers),
            headers[i].id@,
        ) is Some,
        forall|k: int|
            0 <= k < entries_for(headers).len() ==> exists|j: int|
                0 <= j < headers.len() && is_entry_for(
                    #[trigger] entries_for(headers)[k],
                    #[trigger] headers[j],
                ),
    decreases headers.len(),
{
    let front = headers.drop_last();
    let before = entries_for(front);
    let after = entries_for(headers);
    if front.len() > 0 {
        only_headers_with_a_mode_can_be_taken(
            front,
            if i < front.len() {
                i
            } else {
                0
            },
        );
    } else {
        assert(before.len() == 0);
    }
    let h = headers.last();
    match entry_for(h) {
        Some(e) => {
            lemma_entry_at(before, e.id, 0);
            let at = entry_at(before, e.id, 0);
            lemma_entry_at(after, headers[i].id@, 0);
            if at < before.len() {
                assert forall|k: int| 0 <= k < before.len() implies (#[trigger] after[k]).id
                    == before[k].id by {}
                lemma_same_position(before, after, headers[i].id@, 0);
                assert(after[at].id == e.id);
            } else {
                assert(after[before.len() as int] == e);
            }
            if i < front.len() && headers[i].supports_enable && headers[i].enable_path is Some {
                lemma_entry_at(before, headers[i].id@, 0);
                let p = entry_at(before, headers[i].id@, 0);
                assert(after[p].id == headers[i].id@);
            }
            assert forall|k: int| 0 <= k < after.len() implies exists|j: int|
                0 <= j < headers.len() && is_entry_for(
                    #[trigger] after[k],
                    #[trigger] headers[j],
                ) by {
                if after[k] == e {
                    assert(is_entry_for(after[k], headers[headers.len() - 1]));
                } else {
                    assert(after[k] == before[k]);
                    let j = choose|j: int|
                        0 <= j < front.len() && is_entry_for(before[k], #[trigger] front[j]);
                    assert(front[j] == headers[j]);
                    assert(is_entry_for(after[k], headers[j]));
                }
            }
        },
        None => {
            assert(after == before);
            assert forall|k: int| 0 <= k < after.len() implies exists|j: int|
                0 <= j < headers.len() && is_entry_for(
                    #[trigger] after[k],
                    #[trigger] headers[j],
                ) by {
                let j = choose|j: int|
                    0 <= j < front.len() && is_entry_for(before[k], #[trigger] front[j]);
                assert(front[j] == headers[j]);
                assert(is_entry_for(after[k], headers[j]));
            }
        },
    }
}

/// Whether an entry has the id and the paths of a header with a control mode.
pub open spec fn is_entry_for(e: EntryView, h: PwmHeaderDescriptor) -> bool {
    &&& h.supports_enable
    &&& h.enable_path is Some
    &&& e.id == h.id@
    &&& e.enable_path == h.enable_path->0@
    &&& e.pwm_path == h.pwm_path@
}

/// The headers that are told as held are the held ones, each once and with its own files,
/// in the order of their ids. One whose original is not known goes back to full speed.
pub proof fn the_held_headers_are_told_by_id(entries: Seq<EntryView>, i: int, j: int)
    ensures
        held_by_id(entries).to_multiset() == held(entries).to_multiset(),
        held_by_id(entries).len() == held(entries).len(),
        0 <= i < j < held_by_id(entries).len() ==> !text::precedes(
            held_by_id(entries)[j].id,
            held_by_id(entries)[i].id,
        ),
        held_by_path(entries).to_multiset() == held(entries).to_multiset(),
        0 <= i < j < held_by_path(entries).len() ==> !text::precedes(
            held_by_path(entries)[j].enable_path,
            held_by_path(entries)[i].enable_path,
        ),
{
    let some = held(entries);
    let ids = ids_of(some);
    text::order_of_sorts(ids);
    text::ordering_keeps_everything(some, ids);
    let o = text::order_of(ids);
    if 0 <= i < j < held_by_id(entries).len() {
        text::precedes_is_total(ids[o[i]], ids[o[j]]);
    }
    let paths = enable_paths_of(some);
    text::order_of_sorts(paths);
    text::ordering_keeps_everything(some, paths);
    let p = text::order_of(paths);
    if 0 <= i < j < held_by_path(entries).len() {
        text::precedes_is_total(paths[p[i]], paths[p[j]]);
    }
}

/// A header is told as held with its own id and files, and with what it was doing before it
/// was first taken; where that is not known, full speed stands in for it.
pub proof fn a_held_header_is_told_with_its_files(e: EntryView)
    ensures
        ({
            let t = e.as_taken();
            &&& t.id == e.id
            &&& t.enable_path == e.enable_path
            &&& t.pwm_path == e.pwm_path
            &&& e.original is Some ==> Some(t.action) == e.original
            &&& e.original is None ==> t.action == HandBack::FullSpeed
        }),
{
}

} // verus!
