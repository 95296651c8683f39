use european_mc::option_kind::OptionType;

#[test]
fn reads_lowercase_kinds() {
    assert_eq!(OptionType::from_str("call"), Ok(OptionType::Call));
    assert_eq!(OptionType::from_str("put"), Ok(OptionType::Put));
}

#[test]
fn reads_kinds_in_any_case() {
    assert_eq!(OptionType::from_str("CALL"), Ok(OptionType::Call));
    assert_eq!(OptionType::from_str("Put"), Ok(OptionType::Put));
    assert_eq!(OptionType::from_str("pUT"), Ok(OptionType::Put));
}

#[test]
fn refuses_unknown_kind_quoting_it_in_lower_case() {
    assert_eq!(
        OptionType::from_str("Straddle"),
        Err("Nepoznat tip opcije: straddle (dozvoljeno: call, put)".to_string())
    );
    assert_eq!(
        OptionType::from_str(""),
        Err("Nepoznat tip opcije:  (dozvoljeno: call, put)".to_string())
    );
}

#[test]
fn lowercase_reader_takes_only_lowercase() {
    assert_eq!(OptionType::from_lowercase("call"), Ok(OptionType::Call));
    assert_eq!(
        OptionType::from_lowercase("CALL"),
        Err("Nepoznat tip opcije: CALL (dozvoljeno: call, put)".to_string())
    );
}
