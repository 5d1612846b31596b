//! The counts of fan headers, temperature channels and voltage rails that the firmware
//! of a Gigabyte board declares.
//!
//! The `it87` driver shows them as a hexadecimal word in a sysfs file.

use crate::text;
use crate::text::{parse_radix, strip_prefix, trim};
use vstd::prelude::*;
use vstd::utf8::*;

verus! {

/// Where the driver shows the word.
pub const GIGABYTE_SIV_PATH: &'static str = "/sys/class/gigabyte/id/gigabyte_siv";

/// What the firmware declares.
#[derive(Debug, Clone, Copy, PartialEq, Eq, Structural)]
pub struct GigabyteSiv {
    /// Platform number; never 0.
    pub platform: u8,
    /// A number of the vendor's, of unknown meaning.
    pub special: u8,
    /// Fan and pump headers.
    pub fan_count: u8,
    /// Temperature channels.
    pub temp_count: u8,
    /// Voltage rails.
    pub volt_count: u8,
}

/// The bits of a word from `low` on, `width` of them, as a number.
pub open spec fn field(word: u32, low: nat, width: nat) -> int {
    (word as int / vstd::arithmetic::power2::pow2(low) as int)
        % (vstd::arithmetic::power2::pow2(width) as int)
}

/// What a word declares; `None` where its platform is 0.
pub open spec fn declared(word: u32) -> Option<GigabyteSiv> {
    if field(word, 28, 4) == 0 {
        None
    } else {
        Some(
            GigabyteSiv {
                platform: field(word, 28, 4) as u8,
                special: field(word, 24, 4) as u8,
                fan_count: field(word, 16, 5) as u8,
                temp_count: field(word, 8, 5) as u8,
                volt_count: field(word, 0, 5) as u8,
            },
        )
    }
}

/// What a word declares. The driver does not act on a word whose platform is 0, so it
/// declares nothing.
pub fn parse_siv_word(mgid: u32) -> (r: Option<GigabyteSiv>)
    ensures
        r == declared(mgid),
{
    proof {
        vstd::arithmetic::power2::lemma2_to64();
        assert((mgid >> 28) & 0xF == (mgid / 0x1000_0000) % 16) by (bit_vector);
        assert((mgid >> 24) & 0xF == (mgid / 0x100_0000) % 16) by (bit_vector);
        assert((mgid >> 16) & 0x1F == (mgid / 0x1_0000) % 32) by (bit_vector);
        assert((mgid >> 8) & 0x1F == (mgid / 0x100) % 32) by (bit_vector);
        assert(mgid & 0x1F == mgid % 32) by (bit_vector);
    }
    if mgid == 0 {
        return None;
    }
    let platform: u8 = ((mgid >> 28) & 0xF) as u8;
    if platform == 0 {
        return None;
    }
    Some(
        GigabyteSiv {
            platform,
            special: ((mgid >> 24) & 0xF) as u8,
            fan_count: ((mgid >> 16) & 0x1F) as u8,
            temp_count: ((mgid >> 8) & 0x1F) as u8,
            volt_count: (mgid & 0x1F) as u8,
        },
    )
}

/// A text without a `0x` or `0X` before it.
pub open spec fn without_mark(s: Seq<char>) -> Seq<char> {
    if text::starts(s, "0x"@) {
        s.skip("0x"@.len() as int)
    } else if text::starts(s, "0X"@) {
        s.skip("0X"@.len() as int)
    } else {
        s
    }
}

/// What the text of the sysfs file declares: all of it, but for white space around it and
/// a mark before it, is one hexadecimal word.
pub open spec fn declared_by_text(raw: Seq<char>) -> Option<GigabyteSiv> {
    match text::parsed(without_mark(text::trimmed(raw)), 16, u32::MAX as int) {
        Some(word) => declared(word as u32),
        None => None,
    }
}

/// What the text of the sysfs file declares.
pub fn parse_siv(raw: &str) -> (r: Option<GigabyteSiv>)
    ensures
        r == declared_by_text(raw@),
{
    let trimmed: &str = trim(raw);
    let digits: &str = match strip_prefix(trimmed, "0x") {
        Some(rest) => rest,
        None => match strip_prefix(trimmed, "0X") {
            Some(rest) => rest,
            None => trimmed,
        },
    };
    match parse_radix(digits, 16, u32::MAX as u64) {
        Some(word) => parse_siv_word(word as u32),
        None => None,
    }
}

/// What the sysfs file declares; `content` is its text, where it could be read. Nothing
/// is declared where it could not: a count of 0 would say that the board has no headers.
pub fn read_siv(content: Option<&str>) -> (r: Option<GigabyteSiv>)
    ensures
        r == (match text::opt_str(content) {
            Some(raw) => declared_by_text(raw),
            None => None,
        }),
{
    match content {
        Some(raw) => parse_siv(raw),
        None => None,
    }
}

/// Counts fit their five bits, and what is declared has a platform.
pub proof fn counts_fit_their_bits(word: u32)
    ensures
        declared(word) is Some ==> {
            let d = declared(word)->0;
            &&& 1 <= d.platform < 16
            &&& d.special < 16
            &&& d.fan_count < 32
            &&& d.temp_count < 32
            &&& d.volt_count < 32
        },
{
    vstd::arithmetic::power2::lemma2_to64();
}

/// A word that is written in hexadecimal is read back as that word: in either case or
/// both, with enough digits for it, with or without a mark before them, and whatever
/// white space stands around them.
pub proof fn a_written_word_is_read_back(
    word: u32,
    width: nat,
    digits: Seq<char>,
    mark: Seq<char>,
    lead: Seq<char>,
    trail: Seq<char>,
)
    requires
        width > 0,
        (word as int) < vstd::arithmetic::power::pow(16, width),
        is_ascii_chars(digits),
        text::lower(digits) == text::hex_digits(word as nat, width),
        mark.len() == 0 || mark == "0x"@ || mark == "0X"@,
        text::is_blank(lead),
        text::is_blank(trail),
    ensures
        declared_by_text(lead + (mark + digits) + trail) == declared(word),
{
    reveal_strlit("0x");
    reveal_strlit("0X");
    text::hex_digits_stand_for_the_number(word as nat, width);
    text::digits_forget_case(digits, 16);
    let hex = text::lower(digits);
    assert(text::all_digits(hex, 16));
    assert(text::all_digits(digits, 16));
    assert forall|i: int| 0 <= i < digits.len() implies {
        let c = #[trigger] digits[i];
        !text::is_white(c) && c != '+' && c != 'x' && c != 'X'
    } by {
        assert(text::digit_value(digits[i]) < 16);
    }
    let body = mark + digits;
    assert(body.last() == digits.last());
    assert(digits.last() == digits[digits.len() - 1]);
    if mark.len() == 0 {
        assert(body =~= digits);
        if digits.len() > 1 {
            assert(digits[1] != 'x' && digits[1] != 'X');
        }
        if text::starts(digits, "0x"@) {
            assert(digits.subrange(0, 2)[1] == "0x"@[1]);
        }
        if text::starts(digits, "0X"@) {
            assert(digits.subrange(0, 2)[1] == "0X"@[1]);
        }
    } else {
        assert(body.subrange(0, 2) =~= mark);
        assert(body.skip(2) =~= digits);
        if mark == "0X"@ && text::starts(body, "0x"@) {
            assert(body.subrange(0, 2)[1] == "0x"@[1]);
        }
    }
    text::trimming_takes_the_padding(lead, body, trail);
}

/// There is no partial number: a text in which anything but a digit stands, save a sign in
/// front, declares nothing, and neither does one without digits.
pub proof fn a_broken_word_declares_nothing(raw: Seq<char>, i: int)
    requires
        ({
            let t = without_mark(text::trimmed(raw));
            ||| t.len() == 0
            ||| 0 <= i < t.len() && text::digit_value(t[i]) >= 16 && !(i == 0 && t[0] == '+')
        }),
    ensures
        declared_by_text(raw) is None,
{
    let t = without_mark(text::trimmed(raw));
    if t.len() > 0 && t[0] == '+' {
        assert(t.skip(1)[i - 1] == t[i]);
    }
}

/// The counts stand at fixed places of the word: from the top the platform and the number
/// of the vendor's, four bits each, then fans, temperatures and voltages, five bits at the
/// end of a byte each.
pub proof fn a_word_is_put_together_from_its_counts(
    platform: u8,
    special: u8,
    fans: u8,
    temps: u8,
    volts: u8,
    gaps: (u8, u8, u8),
)
    requires
        1 <= platform < 16,
        special < 16,
        fans < 32,
        temps < 32,
        volts < 32,
        gaps.0 < 8,
        gaps.1 < 8,
        gaps.2 < 8,
    ensures
        declared(
            (platform * 0x1000_0000 + special * 0x100_0000 + gaps.0 * 0x20_0000 + fans * 0x1_0000
                + gaps.1 * 0x2000 + temps * 0x100 + gaps.2 * 0x20 + volts) as u32,
        ) == Some(
            GigabyteSiv {
                platform,
                special,
                fan_count: fans,
                temp_count: temps,
                volt_count: volts,
            },
        ),
{
    vstd::arithmetic::power2::lemma2_to64();
    let w = platform * 0x1000_0000 + special * 0x100_0000 + gaps.0 * 0x20_0000 + fans * 0x1_0000
        + gaps.1 * 0x2000 + temps * 0x100 + gaps.2 * 0x20 + volts;
    assert(0 <= w < 0x1_0000_0000);
    assert(w / 0x1000_0000 == platform);
    assert(w / 0x100_0000 == platform * 16 + special);
    assert(w / 0x1_0000 == platform * 0x1000 + special * 0x100 + gaps.0 * 0x20 + fans);
    assert(w / 0x100 == platform * 0x10_0000 + special * 0x1_0000 + gaps.0 * 0x2000 + fans * 0x100
        + gaps.1 * 0x20 + temps);
}

/// A word without a platform declares nothing, whatever its counts.
pub proof fn a_word_without_a_platform_declares_nothing(word: u32)
    ensures
        declared(word) is None <==> word < 0x1000_0000,
{
    vstd::arithmetic::power2::lemma2_to64();
}

} // verus!
