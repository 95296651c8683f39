use european_mc::chart::chart_plan;

fn words(w: &[&str]) -> Vec<String> {
    w.iter().map(|s| s.to_string()).collect()
}

#[test]
fn no_ticker_no_plan() {
    assert!(chart_plan(&words(&["visualize"])).is_none());
    assert!(chart_plan(&words(&[])).is_none());
}

#[test]
fn ticker_is_upper_cased_and_names_the_files() {
    let p = chart_plan(&words(&["visualize", "aapl"])).unwrap();
    assert_eq!(p.ticker, "AAPL");
    assert_eq!(p.csv_path, "../data/simulations_AAPL.csv");
    assert_eq!(p.price_chart, "rust_plot_AAPL_S_T.png");
    assert_eq!(p.payoff_chart, "rust_plot_AAPL_payoff.png");
    assert_eq!(p.price_title, "Distribucija završne cijene S_T (AAPL) [Rust]");
    assert_eq!(p.payoff_title, "Distribucija isplata opcije (AAPL) [Rust]");
}

#[test]
fn given_csv_path_is_kept() {
    let p = chart_plan(&words(&["visualize", "msft", "data/x.csv", "extra"])).unwrap();
    assert_eq!(p.ticker, "MSFT");
    assert_eq!(p.csv_path, "data/x.csv");
}
