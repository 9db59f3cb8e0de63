use rog_fan_curve::acpi_result;
use rog_fan_curve::make_command;
use rog_fan_curve::Board;
use rog_fan_curve::Curve;
use rog_fan_curve::CurveError;
use rog_fan_curve::Fan;

#[test]
fn test_make_command() {
    let curve = Curve::from_bytes([
        0x1e, 0x2d, 0x32, 0x3c,
        0x46, 0x50, 0x5a, 0x64,
        0x00, 0x01, 0x04, 0x04,
        0x13, 0x40, 0x64, 0x64,
    ]);

    let command = make_command(&curve, 0x40);

    assert_eq!(&command, "\\_SB.PCI0.SBRG.EC0.SUFC 0x3c322d1e 0x645a5046 0x04040100 0x64644013 0x40")
}

#[test]
fn command_pads_the_words_and_not_the_address() {
    let curve = Curve::from_bytes([0; 16]);
    assert_eq!(
        make_command(&curve, 0),
        "\\_SB.PCI0.SBRG.EC0.SUFC 0x00000000 0x00000000 0x00000000 0x00000000 0x0"
    );
    let curve = Curve::from_bytes([0xff; 16]);
    assert_eq!(
        make_command(&curve, 0xffff_ffff),
        "\\_SB.PCI0.SBRG.EC0.SUFC 0xffffffff 0xffffffff 0xffffffff 0xffffffff 0xffffffff"
    );
    let curve = Curve::from_bytes([
        0x01, 0x00, 0x00, 0x00,
        0x00, 0xab, 0x00, 0x00,
        0x00, 0x00, 0xcd, 0x00,
        0x00, 0x00, 0x00, 0xef,
    ]);
    assert_eq!(
        make_command(&curve, 0xa0b),
        "\\_SB.PCI0.SBRG.EC0.SUFC 0x00000001 0x0000ab00 0x00cd0000 0xef000000 0xa0b"
    );
}

#[test]
fn command_agrees_with_the_standard_formatting() {
    let mut bytes = [0u8; 16];
    for seed in 0..=255u8 {
        for i in 0..16 {
            bytes[i] = seed.wrapping_mul(29).wrapping_add((i as u8).wrapping_mul(83));
        }
        let fan = u32::from(seed).wrapping_mul(0x0101_0101) >> (seed % 32);
        let mut expected = String::from("\\_SB.PCI0.SBRG.EC0.SUFC ");
        for word in bytes.chunks_exact(4) {
            let value = u32::from_le_bytes([word[0], word[1], word[2], word[3]]);
            expected.push_str(&format!("{:0>#010x} ", value));
        }
        expected.push_str(&format!("{:#x}", fan));
        assert_eq!(make_command(&Curve::from_bytes(bytes), fan), expected);
    }
}

#[test]
fn apply_gives_the_command_for_each_fan() {
    let curve = Curve::from_bytes([
        0x1e, 0x2d, 0x32, 0x3c,
        0x46, 0x50, 0x5a, 0x64,
        0x00, 0x01, 0x04, 0x04,
        0x13, 0x40, 0x64, 0x64,
    ]);
    let board = Board::from_name("GA401IV").unwrap();
    assert_eq!(
        curve.apply(board, Fan::Cpu).unwrap(),
        "\\_SB.PCI0.SBRG.EC0.SUFC 0x3c322d1e 0x645a5046 0x04040100 0x64644013 0x40"
    );
    assert_eq!(
        curve.apply(board, Fan::Gpu).unwrap(),
        "\\_SB.PCI0.SBRG.EC0.SUFC 0x3c322d1e 0x645a5046 0x04040100 0x64644013 0x44"
    );
}

#[test]
fn reply_with_error_prefix_is_an_error() {
    match acpi_result(String::from("Error: AE_NOT_FOUND")) {
        Err(CurveError::Acpi(reply)) => assert_eq!(reply, "Error: AE_NOT_FOUND"),
        other => panic!("{:?}", other),
    }
    match acpi_result(String::from("Error:")) {
        Err(CurveError::Acpi(reply)) => assert_eq!(reply, "Error:"),
        other => panic!("{:?}", other),
    }
}

#[test]
fn any_other_reply_is_success() {
    assert!(acpi_result(String::new()).is_ok());
    assert!(acpi_result(String::from("0x0")).is_ok());
    assert!(acpi_result(String::from("Error")).is_ok());
    assert!(acpi_result(String::from("error: x")).is_ok());
    assert!(acpi_result(String::from(" Error: x")).is_ok());
    assert!(acpi_result(String::from("Erro\u{301}r:")).is_ok());
}

#[test]
fn error_messages() {
    assert_eq!(
        CurveError::Acpi(String::from("Error: AE_NOT_FOUND")).message(),
        "acpi_call returned an error `Error: AE_NOT_FOUND`"
    );
    assert_eq!(
        CurveError::InvalidFan(Fan::Cpu).message(),
        "Fan `Cpu` not supported on this board."
    );
    assert_eq!(
        CurveError::InvalidFan(Fan::Gpu).message(),
        "Fan `Gpu` not supported on this board."
    );
    assert_eq!(
        CurveError::Io(String::from("No such file or directory (os error 2)")).message(),
        "failed to write to file No such file or directory (os error 2)"
    );
}
