use rog_fan_curve::text::is_space_char;
use rog_fan_curve::Curve;

#[test]
fn test_parse() {
    let config_str = "30c:1%,49c:2%,59c:3%,69c:4%,79c:31%,89c:49%,99c:56%,109c:58%";

    let curve = Curve::from_config_str(config_str).unwrap();

    assert_eq!(&curve.bytes(), &[
        30, 49, 59, 69,
        79, 89, 99, 109,
        1, 2, 3, 4,
        31, 49, 56, 58,
    ]);
}

#[test]
fn as_config_str() {
    let config_str = "30c:1%,49c:2%,59c:3%,69c:4%,79c:31%,89c:49%,99c:56%,109c:58%";
    let curve = Curve::from_config_str(config_str).unwrap();

    let out_config_str = curve.as_config_string();

    assert_eq!(&out_config_str, "30c:1%,49c:2%,59c:3%,69c:4%,79c:31%,89c:49%,99c:56%,109c:58%");
}

#[test]
fn parse_the_documented_example() {
    let curve =
        Curve::from_config_str("30c:0%,40c:5%,50c:10%,60c:20%,70c:35%,80c:55%,90c:65%,100c:75%")
            .unwrap();
    assert_eq!(&curve.bytes(), &[
        30, 40, 50, 60,
        70, 80, 90, 100,
        0, 5, 10, 20,
        35, 55, 65, 75,
    ]);
    assert_eq!(
        curve.as_config_string(),
        "30c:0%,40c:5%,50c:10%,60c:20%,70c:35%,80c:55%,90c:65%,100c:75%"
    );
}

#[test]
fn config_string_of_the_vendor_curve() {
    assert_eq!(
        Curve::new().as_config_string(),
        "30c:18%,45c:18%,50c:18%,60c:32%,70c:48%,80c:64%,90c:100%,100c:100%"
    );
}

#[test]
fn config_string_has_no_padding() {
    let curve = Curve::from_bytes([0, 1, 9, 10, 99, 100, 199, 255, 0, 7, 10, 42, 100, 101, 200, 255]);
    assert_eq!(
        curve.as_config_string(),
        "0c:0%,1c:7%,9c:10%,10c:42%,99c:100%,100c:101%,199c:200%,255c:255%"
    );
}

#[test]
fn round_trip() {
    let mut bytes = [0u8; 16];
    for seed in 0..=255u8 {
        for i in 0..16 {
            bytes[i] = seed.wrapping_mul(31).wrapping_add((i as u8).wrapping_mul(57));
        }
        let curve = Curve::from_bytes(bytes);
        let text = curve.as_config_string();
        let back = Curve::from_config_str(&text).unwrap();
        assert_eq!(back.bytes(), bytes);
        assert_eq!(back, curve);
    }
}

#[test]
fn round_trip_of_a_decoded_curve() {
    let curve =
        Curve::from_config_str(" 030c:+1% , 49c:2%,59c:3%,69c:4%,79c:31%,89c:49%,99c:56%,109c:58%, ")
            .unwrap();
    let text = curve.as_config_string();
    assert_eq!(text, "30c:1%,49c:2%,59c:3%,69c:4%,79c:31%,89c:49%,99c:56%,109c:58%");
    assert_eq!(Curve::from_config_str(&text).unwrap().bytes(), curve.bytes());
}

const EIGHT: &str = "30c:1%,49c:2%,59c:3%,69c:4%,79c:31%,89c:49%,99c:56%,109c:58%";

const BYTES: [u8; 16] = [30, 49, 59, 69, 79, 89, 99, 109, 1, 2, 3, 4, 31, 49, 56, 58];

fn parsed(text: &str) -> [u8; 16] {
    Curve::from_config_str(text).unwrap().bytes()
}

fn fault(text: &str) -> String {
    Curve::from_config_str(text).unwrap_err()
}

#[test]
fn parse_ignores_one_trailing_comma() {
    assert_eq!(parsed("30c:1%,49c:2%,59c:3%,69c:4%,79c:31%,89c:49%,99c:56%,109c:58%,"), BYTES);
}

#[test]
fn parse_ignores_white_space_around_text_and_pairs() {
    assert_eq!(
        parsed("  30c:1% ,\t49c:2%,\n59c:3%,69c:4% ,79c:31%,89c:49%,99c:56%,109c:58% \r\n"),
        BYTES
    );
    assert_eq!(
        parsed("30c:1%,49c:2%,59c:3%,69c:4%,79c:31%,89c:49%,99c:56%,109c:58% , "),
        BYTES
    );
}

#[test]
fn parse_ignores_unicode_white_space() {
    assert_eq!(
        parsed("\u{a0}30c:1%\u{3000},\u{2003}49c:2%,\u{85}59c:3%\u{1680},69c:4%,\u{2028}79c:31%\u{2029},\u{202f}89c:49%\u{205f},\u{b}99c:56%\u{c},109c:58%\u{200a}"),
        BYTES
    );
}

#[test]
fn parse_does_not_take_other_characters_for_white_space() {
    // U+200B, the zero width space, is no white space.
    assert_eq!(
        fault("\u{200b}30c:1%,49c:2%,59c:3%,69c:4%,79c:31%,89c:49%,99c:56%,109c:58%"),
        "Invalid number: \u{200b}30"
    );
    assert_eq!(
        fault("30c:1%\u{feff},49c:2%,59c:3%,69c:4%,79c:31%,89c:49%,99c:56%,109c:58%"),
        "Speed must have a %"
    );
}

#[test]
fn faults_quote_the_text_by_characters() {
    assert_eq!(
        fault("\u{3000}\u{a0}30c:1%,\u{e9}49c:2%,59c:3%,69c:4%,79c:31%,89c:49%,99c:56%,109c:58%"),
        "Invalid number: \u{e9}49"
    );
    assert_eq!(
        fault("\u{3000}30c:1%, \u{1f600}\u{e9} ,59c:3%,69c:4%,79c:31%,89c:49%,99c:56%,109c:58%"),
        "Invalid format: \u{1f600}\u{e9}"
    );
}

#[test]
fn parse_takes_a_plus_sign_and_leading_zeros() {
    assert_eq!(
        parsed("+30c:+1%,049c:002%,59c:3%,69c:4%,79c:31%,89c:49%,99c:56%,0000000000000000000109c:58%"),
        BYTES
    );
}

#[test]
fn parse_takes_the_whole_range_of_a_byte() {
    let bytes = parsed("0c:255%,255c:0%,59c:3%,69c:4%,79c:31%,89c:49%,99c:56%,109c:58%");
    assert_eq!(bytes[0], 0);
    assert_eq!(bytes[8], 255);
    assert_eq!(bytes[1], 255);
    assert_eq!(bytes[9], 0);
}

#[test]
fn parse_too_many_pairs() {
    assert_eq!(
        fault("30c:1%,49c:2%,59c:3%,69c:4%,79c:31%,89c:49%,99c:56%,109c:58%,119c:60%"),
        "Too many pairs."
    );
    // The ninth pair is not read.
    assert_eq!(
        fault("30c:1%,49c:2%,59c:3%,69c:4%,79c:31%,89c:49%,99c:56%,109c:58%,junk"),
        "Too many pairs."
    );
    // Only one comma at the end is ignored.
    assert_eq!(
        fault("30c:1%,49c:2%,59c:3%,69c:4%,79c:31%,89c:49%,99c:56%,109c:58%,,"),
        "Too many pairs."
    );
}

#[test]
fn parse_too_few_pairs() {
    assert_eq!(fault("30c:1%,49c:2%,59c:3%,69c:4%,79c:31%,89c:49%,99c:56%"), "Too few pairs.");
    assert_eq!(fault("30c:1%,49c:2%,59c:3%,69c:4%,79c:31%,89c:49%,99c:56%,"), "Too few pairs.");
    assert_eq!(fault("30c:1%"), "Too few pairs.");
}

#[test]
fn parse_empty_text() {
    assert_eq!(fault(""), "Invalid format: ");
    assert_eq!(fault("   "), "Invalid format: ");
    assert_eq!(fault(","), "Invalid format: ");
}

#[test]
fn parse_missing_colon() {
    assert_eq!(
        fault("30c:1%, 49c2% ,59c:3%,69c:4%,79c:31%,89c:49%,99c:56%,109c:58%"),
        "Invalid format: 49c2%"
    );
    assert_eq!(
        fault("30c:1%,49c:2%,,69c:4%,79c:31%,89c:49%,99c:56%,109c:58%"),
        "Invalid format: "
    );
}

#[test]
fn parse_more_than_one_colon() {
    assert_eq!(
        fault("30c:1%:7%,49c:2%,59c:3%,69c:4%,79c:31%,89c:49%,99c:56%,109c:58%"),
        "Invalid format: 30c:1%:7%"
    );
    assert_eq!(
        fault("30c:1%,49c:2%:,59c:3%,69c:4%,79c:31%,89c:49%,99c:56%,109c:58%"),
        "Invalid format: 49c:2%:"
    );
}

#[test]
fn parse_missing_temperature_suffix() {
    assert_eq!(
        fault("30:1%,49c:2%,59c:3%,69c:4%,79c:31%,89c:49%,99c:56%,109c:58%"),
        "Tempruature must have a c"
    );
    assert_eq!(
        fault("30c:1%,49C:2%,59c:3%,69c:4%,79c:31%,89c:49%,99c:56%,109c:58%"),
        "Tempruature must have a c"
    );
    assert_eq!(
        fault("30c :1%,49c:2%,59c:3%,69c:4%,79c:31%,89c:49%,99c:56%,109c:58%"),
        "Tempruature must have a c"
    );
    assert_eq!(
        fault(":1%,49c:2%,59c:3%,69c:4%,79c:31%,89c:49%,99c:56%,109c:58%"),
        "Tempruature must have a c"
    );
}

#[test]
fn parse_missing_speed_suffix() {
    assert_eq!(
        fault("30c:1,49c:2%,59c:3%,69c:4%,79c:31%,89c:49%,99c:56%,109c:58%"),
        "Speed must have a %"
    );
    assert_eq!(
        fault("30c:1%,49c:2%,59c:3%,69c:4%,79c:31%,89c:49%,99c:56%,109c:"),
        "Speed must have a %"
    );
    // The suffix of the temperature is looked at first.
    assert_eq!(
        fault("30:1,49c:2%,59c:3%,69c:4%,79c:31%,89c:49%,99c:56%,109c:58%"),
        "Tempruature must have a c"
    );
}

#[test]
fn parse_invalid_number() {
    assert_eq!(
        fault("c:1%,49c:2%,59c:3%,69c:4%,79c:31%,89c:49%,99c:56%,109c:58%"),
        "Invalid number: "
    );
    assert_eq!(
        fault("30c:%,49c:2%,59c:3%,69c:4%,79c:31%,89c:49%,99c:56%,109c:58%"),
        "Invalid number: "
    );
    assert_eq!(
        fault("256c:1%,49c:2%,59c:3%,69c:4%,79c:31%,89c:49%,99c:56%,109c:58%"),
        "Invalid number: 256"
    );
    assert_eq!(
        fault("30c:1%,49c:1000%,59c:3%,69c:4%,79c:31%,89c:49%,99c:56%,109c:58%"),
        "Invalid number: 1000"
    );
    assert_eq!(
        fault("-3c:1%,49c:2%,59c:3%,69c:4%,79c:31%,89c:49%,99c:56%,109c:58%"),
        "Invalid number: -3"
    );
    assert_eq!(
        fault("30c:1%,49c:2%,59c:3%,69c:4%,79c:31%,89c:49%,99c:56%,109c: 58%"),
        "Invalid number:  58"
    );
    assert_eq!(
        fault("30c:1%,49c:2%,59c:3%,69c:4%,79c:31%,89c:49%,99c:56%,1x9c:58%"),
        "Invalid number: 1x9"
    );
    assert_eq!(
        fault("30c:1%,49c:2%,59c:3%,69c:4%,79c:31%,89c:49%,99c:56%,109c:+%"),
        "Invalid number: +"
    );
    assert_eq!(
        fault("30c:1%,49c:2%,59c:3%,69c:4%,79c:31%,89c:49%,99c:56%,109c:++5%"),
        "Invalid number: ++5"
    );
    assert_eq!(
        fault("3.0c:1%,49c:2%,59c:3%,69c:4%,79c:31%,89c:49%,99c:56%,109c:58%"),
        "Invalid number: 3.0"
    );
    // The temperature is read before the speed.
    assert_eq!(
        fault("xc:y%,49c:2%,59c:3%,69c:4%,79c:31%,89c:49%,99c:56%,109c:58%"),
        "Invalid number: x"
    );
}

#[test]
fn parse_agrees_with_the_standard_parser_on_numbers() {
    let samples = [
        "0", "7", "42", "255", "256", "260", "999", "00", "0255", "000300", "+0", "+255", "+256",
        "-0", "-1", "", "+", "-", "1 ", " 1", "1_0", "0x10", "１２", "٣", "12a", "a12",
        "4294967296", "18446744073709551616", "99999999999999999999999999",
    ];
    for sample in samples {
        let text = format!("{}c:1%,49c:2%,59c:3%,69c:4%,79c:31%,89c:49%,99c:56%,109c:58%", sample);
        let ours = Curve::from_config_str(&text).ok().map(|curve| curve.bytes()[0]);
        if sample.starts_with(' ') {
            // The pair is trimmed before it is read.
            assert_eq!(ours, sample.trim().parse::<u8>().ok());
        } else {
            assert_eq!(ours, sample.parse::<u8>().ok(), "{:?}", sample);
        }
    }
}

#[test]
fn white_space_is_what_the_standard_library_trims() {
    let mut count = 0;
    for code in 0..0x11_0000u32 {
        if let Some(c) = char::from_u32(code) {
            assert_eq!(is_space_char(c), c.is_whitespace(), "{:?}", c);
            if c.is_whitespace() {
                count += 1;
                let text = format!("{}{}{}", c, EIGHT, c);
                assert_eq!(parsed(&text), BYTES);
            }
        }
    }
    assert_eq!(count, 25);
}

#[test]
fn parse_reports_the_first_fault() {
    assert_eq!(
        fault("30c:1%,49:2%,59c:3,69c:4%,79c:31%,89c:49%,99c:56%,109c:58%,1,2,3"),
        "Tempruature must have a c"
    );
    assert_eq!(fault("30c:1%,oops"), "Invalid format: oops");
}
