use european_mc::cli::{classify, parse_args, CliArg, Config, Flag};
use european_mc::option_kind::OptionType;

fn line(words: &[&str]) -> Vec<CliArg> {
    words
        .iter()
        .map(|w| CliArg { text: w.to_string(), reads_as_number: w.parse::<f64>().is_ok() })
        .collect()
}

fn err(words: &[&str]) -> String {
    match parse_args(&line(words)) {
        Ok(_) => panic!("expected an error"),
        Err(e) => e,
    }
}

fn ok(words: &[&str]) -> Config {
    match parse_args(&line(words)) {
        Ok(c) => c,
        Err(e) => panic!("unexpected error: {e}"),
    }
}

const FULL: [&str; 15] = [
    "prog", "--s0", "100", "--k", "110", "--r", "0.02", "--sigma", "0.3", "--t", "1.0", "--paths",
    "1000000", "--option", "call",
];

#[test]
fn program_name_alone_asks_for_arguments() {
    assert!(err(&["prog"]).starts_with("Očekuju se argumenti. Primer:\n  cargo run --release --"));
}

#[test]
fn empty_command_line_reports_first_missing_flag() {
    assert_eq!(err(&[]), "NO --s0");
}

#[test]
fn full_command_line_is_read() {
    let c = ok(&FULL);
    assert_eq!(c.s0, "100");
    assert_eq!(c.k, "110");
    assert_eq!(c.r, "0.02");
    assert_eq!(c.sigma, "0.3");
    assert_eq!(c.t, "1.0");
    assert_eq!(c.n_paths, 1000000);
    assert_eq!(c.option_type, OptionType::Call);
    assert_eq!(c.n_threads, None);
    assert_eq!(c.output, None);
}

#[test]
fn optional_flags_are_read() {
    let mut words = FULL.to_vec();
    words.extend_from_slice(&["--threads", "8", "--output", "out.csv"]);
    let c = ok(&words);
    assert_eq!(c.n_threads, Some(8));
    assert_eq!(c.output, Some("out.csv".to_string()));
}

#[test]
fn later_value_replaces_earlier_one() {
    let mut words = FULL.to_vec();
    words.extend_from_slice(&["--k", "95", "--option", "PUT"]);
    let c = ok(&words);
    assert_eq!(c.k, "95");
    assert_eq!(c.option_type, OptionType::Put);
}

#[test]
fn flag_without_value_is_refused() {
    assert_eq!(err(&["prog", "--s0"]), "--s0 zahteva vrednost");
    assert_eq!(err(&["prog", "--k", "1", "--threads"]), "--threads zahteva vrednost");
    assert_eq!(err(&["prog", "--option"]), "--option zahteva vrednost");
    assert_eq!(err(&["prog", "--output"]), "--output zahteva vrednost");
}

#[test]
fn non_numeric_market_parameter_is_refused() {
    assert_eq!(err(&["prog", "--sigma", "abc"]), "Neispravna vrednost za --sigma");
    assert_eq!(err(&["prog", "--r", "1,5"]), "Neispravna vrednost za --r");
}

#[test]
fn bad_counts_are_refused() {
    assert_eq!(err(&["prog", "--paths", "-3"]), "Neispravna vrednost za --paths");
    assert_eq!(err(&["prog", "--paths", "1.5"]), "Neispravna vrednost za --paths");
    assert_eq!(err(&["prog", "--paths", "99999999999999999999999"]), "Neispravna vrednost za --paths");
    assert_eq!(err(&["prog", "--threads", ""]), "Neispravna vrednost za --threads");
    assert_eq!(err(&["prog", "--threads", "+"]), "Neispravna vrednost za --threads");
}

#[test]
fn counts_may_carry_a_plus_sign() {
    let mut words = FULL.to_vec();
    words.extend_from_slice(&["--paths", "+007"]);
    assert_eq!(ok(&words).n_paths, 7);
}

#[test]
fn bad_option_kind_is_refused_with_its_message() {
    assert_eq!(
        err(&["prog", "--option", "Asian"]),
        "Nepoznat tip opcije: asian (dozvoljeno: call, put)"
    );
}

#[test]
fn unknown_word_is_refused() {
    assert_eq!(err(&["prog", "--s0", "1", "--bogus", "2"]), "arg unknown: --bogus");
    assert_eq!(err(&["prog", "100"]), "arg unknown: 100");
}

#[test]
fn first_error_in_the_line_wins() {
    assert_eq!(err(&["prog", "--s0", "x", "--bogus"]), "Neispravna vrednost za --s0");
}

#[test]
fn missing_required_flags_are_reported_in_order() {
    assert_eq!(err(&["prog", "--k", "1"]), "NO --s0");
    assert_eq!(err(&["prog", "--s0", "1"]), "No --k");
    assert_eq!(err(&["prog", "--s0", "1", "--k", "1"]), "NO --r");
    assert_eq!(err(&["prog", "--s0", "1", "--k", "1", "--r", "1"]), "NO --sigma");
    assert_eq!(err(&["prog", "--s0", "1", "--k", "1", "--r", "1", "--sigma", "1"]), "No --t");
    assert_eq!(
        err(&["prog", "--s0", "1", "--k", "1", "--r", "1", "--sigma", "1", "--t", "1"]),
        "No --paths"
    );
    assert_eq!(
        err(&["prog", "--s0", "1", "--k", "1", "--r", "1", "--sigma", "1", "--t", "1", "--paths", "5"]),
        "No --option (call/put)"
    );
}

#[test]
fn words_name_their_flags() {
    assert_eq!(classify("--s0"), Flag::S0);
    assert_eq!(classify("--paths"), Flag::Paths);
    assert_eq!(classify("--option"), Flag::OptionKind);
    assert_eq!(classify("--S0"), Flag::Unknown);
    assert_eq!(classify("s0"), Flag::Unknown);
}
