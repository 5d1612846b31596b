//! PCI devices as sysfs shows them.

use crate::text;
use crate::text::{byte_count, chars_of, parse_radix, split, strip_prefix, trim};
use vstd::prelude::*;
use vstd::string::*;

verus! {

/// The class of a display controller that drives screens, without its lowest byte.
pub const PCI_CLASS_VGA: u32 = 0x030000;

/// The directory of a PCI device, as it was read. A text is that of the file of the same
/// name, where it could be read.
#[derive(Debug)]
pub struct PciDirectory {
    /// Its path, with every link followed.
    pub path: String,
    pub device: Option<String>,
    pub revision: Option<String>,
    pub class: Option<String>,
    /// Whether `gpu_od/fan_ctrl/fan_curve` is there.
    pub fan_curve: bool,
    /// Whether `gpu_od/fan_ctrl/fan_zero_rpm_enable` is there.
    pub fan_zero_rpm: bool,
}

/// A directory under the hwmon root that may be that of a graphics card, as it was read.
#[derive(Debug)]
pub struct GpuDirectory {
    /// The name of the directory.
    pub name: String,
    /// Its path.
    pub path: String,
    /// The text of its `name` file, where it could be read.
    pub chip: Option<String>,
    /// The PCI device that its `device` link leads to, where it leads to one.
    pub pci: Option<PciDirectory>,
    /// Whether `fan1_input` is there.
    pub fan1_input: bool,
    /// Whether `pwm1` is there.
    pub pwm1: bool,
    /// Whether `pwm1_enable` is there.
    pub pwm1_enable: bool,
}

/// Whether a text has the form of a PCI address: `DDDD:BB:DD.F`.
pub open spec fn is_address(s: Seq<char>) -> bool {
    &&& text::byte_len(s) >= 12
    &&& s.len() > 10
    &&& s[4] == ':'
    &&& s[7] == ':'
    &&& s[10] == '.'
}

/// Whether a text has the form of a PCI address.
pub fn is_pci_bdf(s: &str) -> (r: bool)
    ensures
        r == is_address(s@),
{
    let v: Vec<char> = chars_of(s);
    byte_count(s) >= 12 && v.len() > 10 && v[4] == ':' && v[7] == ':' && v[10] == '.'
}

/// The last of the parts that is a PCI address.
pub open spec fn last_address(parts: Seq<Seq<char>>) -> Option<Seq<char>>
    decreases parts.len(),
{
    if parts.len() == 0 {
        None
    } else if is_address(parts.last()) {
        Some(parts.last())
    } else {
        last_address(parts.drop_last())
    }
}

/// The last PCI address among the components of a path.
pub fn extract_pci_bdf(path: &str) -> (r: Option<String>)
    ensures
        text::opt_text(r) == last_address(text::pieces(path@, '/')),
{
    let parts: Vec<&str> = split(path, '/');
    let ghost all = text::texts(parts@);
    let mut n: usize = parts.len();
    assert(all.take(n as int) =~= all);
    while n > 0
        invariant
            n <= parts@.len(),
            all == text::texts(parts@),
            all == text::pieces(path@, '/'),
            last_address(all) == last_address(all.take(n as int)),
        decreases n,
    {
        let part: &str = parts[n - 1];
        proof {
            assert(all.take(n as int).last() == part@);
            assert(all.take(n as int).drop_last() =~= all.take(n - 1));
        }
        if is_pci_bdf(part) {
            return Some(part.to_owned());
        }
        n -= 1;
    }
    None
}

/// The digits of a hexadecimal attribute: without white space around them and `0x`
/// before them.
pub open spec fn hex_part(raw: Seq<char>) -> Seq<char> {
    let t = text::trimmed(raw);
    if text::starts(t, "0x"@) {
        t.skip("0x"@.len() as int)
    } else {
        t
    }
}

/// The number that a hexadecimal attribute states, where it is at most `max`.
pub open spec fn hex_of(raw: Option<Seq<char>>, max: int) -> Option<int> {
    match raw {
        Some(t) => text::parsed(hex_part(t), 16, max),
        None => None,
    }
}

/// The number that a hexadecimal attribute states, or 0.
pub open spec fn hex_or_zero(raw: Option<Seq<char>>, max: int) -> int {
    match hex_of(raw, max) {
        Some(n) => n,
        None => 0,
    }
}

/// The number that a hexadecimal attribute states, where it is at most `max`.
pub fn read_pci_hex(raw: &Option<String>, max: u64) -> (r: Option<u64>)
    ensures
        match r {
            Some(n) => n <= max && hex_of(text::opt_text(*raw), max as int) == Some(n as int),
            None => hex_of(text::opt_text(*raw), max as int) is None,
        },
{
    match raw {
        Some(t) => {
            let trimmed: &str = trim(t.as_str());
            let digits: &str = match strip_prefix(trimmed, "0x") {
                Some(rest) => rest,
                None => trimmed,
            };
            parse_radix(digits, 16, max)
        },
        None => None,
    }
}

/// The number that a hexadecimal attribute states, where it is at most `max`, or 0.
pub fn pci_hex_or_zero(raw: &Option<String>, max: u64) -> (r: u64)
    ensures
        r <= max,
        r == hex_or_zero(text::opt_text(*raw), max as int),
{
    match read_pci_hex(raw, max) {
        Some(n) => n,
        None => 0,
    }
}

/// Whether a class is that of a display controller that drives screens.
pub open spec fn is_vga(class: u32) -> bool {
    class & 0xFFFF00 == PCI_CLASS_VGA
}

/// Whether a class is that of a display controller that drives screens.
pub fn is_vga_class(class: u32) -> (r: bool)
    ensures
        r == is_vga(class),
{
    class & 0xFFFF00 == PCI_CLASS_VGA
}

/// The names of directories.
pub open spec fn directory_names(dirs: Seq<GpuDirectory>) -> Seq<Seq<char>> {
    dirs.map_values(|d: GpuDirectory| d.name@)
}

/// Directories in the order of their names.
pub open spec fn ordered_directories(dirs: Seq<GpuDirectory>) -> Seq<GpuDirectory> {
    text::order_of(directory_names(dirs)).map_values(|i: int| dirs[i])
}

/// The positions of directories in the order of their names.
pub fn directory_order(dirs: &Vec<GpuDirectory>) -> (r: Vec<usize>)
    ensures
        r@.len() == dirs@.len(),
        ordered_directories(dirs@).len() == dirs@.len(),
        forall|i: int| 0 <= i < r@.len() ==> #[trigger] r@[i] < dirs@.len(),
        forall|i: int|
            0 <= i < r@.len() ==> #[trigger] ordered_directories(dirs@)[i] == dirs@[r@[i] as int],
{
    let mut names: Vec<String> = Vec::new();
    let mut i: usize = 0;
    while i < dirs.len()
        invariant
            i <= dirs@.len(),
            names@.len() == i,
            forall|k: int| 0 <= k < i ==> (#[trigger] names@[k])@ == dirs@[k].name@,
        decreases dirs@.len() - i,
    {
        names.push(dirs[i].name.clone());
        i += 1;
    }
    assert(text::strings(names@) =~= directory_names(dirs@));
    let r: Vec<usize> = text::sorted_positions(&names);
    assert(text::positions(r@).len() == r@.len());
    assert forall|k: int| 0 <= k < r@.len() implies #[trigger] ordered_directories(dirs@)[k]
        == dirs@[r@[k] as int] by {
        assert(text::positions(r@)[k] == r@[k] as int);
    }
    r
}

/// What a graphics card is sorted by: whether it has a fan, whether it drives screens, and
/// its address, as one text.
pub open spec fn rank_key(has_fan: bool, drives: bool, address: Seq<char>) -> Seq<char> {
    seq![
        if has_fan {
            'a'
        } else {
            'b'
        },
        if drives {
            'a'
        } else {
            'b'
        },
    ] + address
}

/// What a graphics card is sorted by, as one text.
pub fn rank_text(has_fan: bool, drives: bool, address: &str) -> (r: String)
    ensures
        r@ == rank_key(has_fan, drives, address@),
{
    proof {
        reveal_strlit("aa");
        reveal_strlit("ab");
        reveal_strlit("ba");
        reveal_strlit("bb");
    }
    let mut s: String = if has_fan && drives {
        "aa".to_owned()
    } else if has_fan {
        "ab".to_owned()
    } else if drives {
        "ba".to_owned()
    } else {
        "bb".to_owned()
    };
    s.append(address);
    assert(s@ =~= rank_key(has_fan, drives, address@));
    s
}

/// One text for the rank orders as the parts do: a fan counts first, then whether the
/// card drives screens, then the address.
pub proof fn rank_orders_by_its_parts(
    a_fan: bool,
    a_drives: bool,
    a: Seq<char>,
    b_fan: bool,
    b_drives: bool,
    b: Seq<char>,
)
    ensures
        text::precedes(rank_key(a_fan, a_drives, a), rank_key(b_fan, b_drives, b)) <==> (if a_fan
            != b_fan {
            a_fan
        } else if a_drives != b_drives {
            a_drives
        } else {
            text::precedes(a, b)
        }),
{
    let x = rank_key(a_fan, a_drives, a);
    let y = rank_key(b_fan, b_drives, b);
    assert(x.skip(1).skip(1) =~= a);
    assert(y.skip(1).skip(1) =~= b);
    reveal_with_fuel(text::precedes, 3);
}

/// A text of twelve ASCII characters with the marks in their places is an address, and a
/// shorter one or one without them is not.
pub proof fn an_address_is_known_by_its_marks(s: Seq<char>)
    ensures
        is_address(s) ==> s.len() > 10 && s[4] == ':' && s[7] == ':' && s[10] == '.',
        s.len() >= 12 && s[4] == ':' && s[7] == ':' && s[10] == '.' ==> is_address(s),
        text::byte_len(s) < 12 ==> !is_address(s),
{
    lemma_bytes(s);
}

proof fn lemma_bytes(s: Seq<char>)
    ensures
        text::byte_len(s) >= s.len(),
    decreases s.len(),
{
    if s.len() > 0 {
        lemma_bytes(s.skip(1));
    }
}

/// Of the addresses in a path the last counts: what stands behind it is none.
pub proof fn the_last_address_counts(parts: Seq<Seq<char>>, i: int)
    ensures
        0 <= i < parts.len() && is_address(parts[i]) && (forall|k: int|
            i < k < parts.len() ==> !is_address(#[trigger] parts[k])) ==> last_address(parts)
            == Some(parts[i]),
        (forall|k: int| 0 <= k < parts.len() ==> !is_address(#[trigger] parts[k])) <==> last_address(
            parts,
        ) is None,
    decreases parts.len(),
{
    if parts.len() > 0 {
        let front = parts.drop_last();
        the_last_address_counts(front, i);
        assert forall|k: int| 0 <= k < front.len() implies #[trigger] front[k] == parts[k] by {}
        if is_address(parts.last()) {
            assert(is_address(parts[parts.len() - 1]));
        } else if last_address(parts) is None {
            assert forall|k: int| 0 <= k < parts.len() implies !is_address(#[trigger] parts[k]) by {
                if k < front.len() {
                    assert(!is_address(front[k]));
                }
            }
        } else {
            let k = choose|k: int| 0 <= k < front.len() && is_address(#[trigger] front[k]);
            assert(is_address(parts[k]));
        }
    }
}

/// A number that an attribute states in hexadecimal, with `0x` before it, is read as that
/// number, where it fits; an attribute that was not read or states none counts as 0.
pub proof fn a_stated_number_is_read(n: nat, width: nat, max: int)
    requires
        width > 0,
        n < vstd::arithmetic::power::pow(16, width),
    ensures
        hex_of(Some("0x"@ + text::hex_digits(n, width)), max) == (if n <= max {
            Some(n as int)
        } else {
            None
        }),
        hex_of(None, max) is None,
        hex_or_zero(None, max) == 0,
        n <= max ==> hex_or_zero(Some("0x"@ + text::hex_digits(n, width)), max) == n,
        n > max ==> hex_or_zero(Some("0x"@ + text::hex_digits(n, width)), max) == 0,
{
    reveal_strlit("0x");
    let d = text::hex_digits(n, width);
    let s = "0x"@ + d;
    text::hex_digits_stand_for_the_number(n, width);
    assert forall|i: int| 0 <= i < s.len() implies !text::is_white(#[trigger] s[i]) by {
        if i >= 2 {
            assert(text::digit_value(d[i - 2]) < 16);
            assert(s[i] == d[i - 2]);
        }
    }
    text::trimming_leaves_a_word(s);
    assert(s.subrange(0, 2) =~= "0x"@);
    assert(s.skip(2) =~= d);
    assert(text::digit_value(d[0]) < 16);
}

/// A display controller that drives screens has the class 0300, whatever its lowest byte.
pub proof fn the_lowest_byte_of_a_class_plays_no_part(class: u32)
    ensures
        is_vga(class) <==> class % 0x100_0000 / 0x100 == 0x0300,
{
    assert(class & 0xFFFF00 == (class % 0x100_0000 / 0x100) * 0x100) by (bit_vector);
}

/// Directories come in the order of their names, each as often as it is there.
pub proof fn directories_come_in_order(dirs: Seq<GpuDirectory>, i: int, j: int)
    ensures
        ordered_directories(dirs).len() == dirs.len(),
        ordered_directories(dirs).to_multiset() == dirs.to_multiset(),
        0 <= i < j < dirs.len() ==> !text::precedes(
            ordered_directories(dirs)[j].name@,
            ordered_directories(dirs)[i].name@,
        ),
{
    let names = directory_names(dirs);
    text::order_of_sorts(names);
    text::ordering_keeps_everything(dirs, names);
    let o = text::order_of(names);
    if 0 <= i < j < dirs.len() {
        text::precedes_is_total(names[o[i]], names[o[j]]);
    }
}

} // verus!
