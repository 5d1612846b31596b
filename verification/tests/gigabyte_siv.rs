//! The word of a Gigabyte board.

use control_ofc_daemon::hwmon::gigabyte_siv::{parse_siv, parse_siv_word, read_siv};

const X870E_AORUS_MASTER: &str = "A008090A\n";

#[test]
fn decodes_the_measured_x870e_descriptor() {
    let siv = parse_siv(X870E_AORUS_MASTER).expect("valid descriptor");
    assert_eq!(siv.fan_count, 8, "board declares 8 fan/pump headers");
    assert_eq!(siv.temp_count, 9);
    assert_eq!(siv.volt_count, 10);
    assert_eq!(siv.platform, 0xA);
    assert_eq!(siv.special, 0x0);
}

#[test]
fn fields_come_from_their_own_bits() {
    let siv = parse_siv_word(0x4001_0203).expect("valid");
    assert_eq!(siv.platform, 0x4);
    assert_eq!(siv.special, 0x0);
    assert_eq!(siv.fan_count, 1);
    assert_eq!(siv.temp_count, 2);
    assert_eq!(siv.volt_count, 3);
}

#[test]
fn counts_are_masked_to_five_bits() {
    let siv = parse_siv_word(0xFFFF_FFFF).expect("valid");
    assert_eq!(siv.fan_count, 0x1F);
    assert_eq!(siv.temp_count, 0x1F);
    assert_eq!(siv.volt_count, 0x1F);
}

#[test]
fn rejects_what_the_driver_rejects() {
    assert_eq!(parse_siv_word(0), None, "zero word is -ENODEV");
    assert_eq!(
        parse_siv_word(0x0008_090A),
        None,
        "zero platform nibble is -ENODEV, even with plausible counts"
    );
}

#[test]
fn tolerates_formatting_but_not_garbage() {
    assert_eq!(parse_siv("a008090a"), parse_siv(X870E_AORUS_MASTER));
    assert_eq!(parse_siv("0xA008090A\n"), parse_siv(X870E_AORUS_MASTER));
    assert_eq!(parse_siv("   A008090A   "), parse_siv(X870E_AORUS_MASTER));
    assert_eq!(parse_siv(""), None);
    assert_eq!(parse_siv("not-a-word"), None);
    assert_eq!(parse_siv("A00zzzzz"), None);
}

#[test]
fn missing_file_reads_as_no_answer() {
    assert_eq!(
        read_siv(None),
        None,
        "absence is the common case on every non-Gigabyte board"
    );
}

#[test]
fn reads_and_decodes_a_real_file() {
    let siv = read_siv(Some(X870E_AORUS_MASTER)).expect("decoded");
    assert_eq!(siv.fan_count, 8);
}

#[test]
fn a_written_word_is_read_back_in_any_form() {
    for w in [0xA008_090Au32, 0x1000_0000, 0x0FFF_FFFF, u32::MAX, 0] {
        let declared = parse_siv_word(w);
        for text in [
            format!("{w:08X}\n"),
            format!("{w:08x}"),
            format!("0x{w:08x}\n"),
            format!(" \t0X{w:X} \n"),
        ] {
            assert_eq!(parse_siv(&text), declared, "{text:?}");
        }
    }
    for text in ["", "not-a-word", "A00zzzzz", "0x"] {
        assert_eq!(parse_siv(text), None, "{text:?}");
    }
}
