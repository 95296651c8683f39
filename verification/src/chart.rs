use vstd::prelude::*;

verus! {

/// What `str::to_uppercase` gives for a string: the Unicode uppercase mapping of
/// its characters.
pub uninterp spec fn uppercase(s: Seq<char>) -> Seq<char>;

/// Calls `str::to_uppercase`. The contract claims only that the result is a fixed
/// function of the argument's characters, named `uppercase`; the Unicode case
/// tables behind it are not written out.
#[verifier::external_body]
fn to_uppercase(s: &str) -> (r: String)
    ensures
        r@ == uppercase(s@),
{
    s.to_uppercase()
}

/// Where the charts of one ticker's simulation come from and go to.
pub struct ChartPlan {
    /// The ticker, in upper case.
    pub ticker: String,
    /// The CSV file of simulated terminal prices and payoffs.
    pub csv_path: String,
    /// The file name of the terminal-price histogram.
    pub price_chart: String,
    /// The file name of the payoff histogram.
    pub payoff_chart: String,
    /// The caption of the terminal-price histogram.
    pub price_title: String,
    /// The caption of the payoff histogram.
    pub payoff_title: String,
}

/// A `ChartPlan` as plain values: ticker, CSV path, the two file names and the
/// two captions.
pub struct ChartPlanModel {
    pub ticker: Seq<char>,
    pub csv_path: Seq<char>,
    pub price_chart: Seq<char>,
    pub payoff_chart: Seq<char>,
    pub price_title: Seq<char>,
    pub payoff_title: Seq<char>,
}

impl ChartPlan {
    pub open spec fn model(&self) -> ChartPlanModel {
        ChartPlanModel {
            ticker: self.ticker@,
            csv_path: self.csv_path@,
            price_chart: self.price_chart@,
            payoff_chart: self.payoff_chart@,
            price_title: self.price_title@,
            payoff_title: self.payoff_title@,
        }
    }
}

/// The plan for an upper-case `ticker` and an optional CSV path.
pub open spec fn plan_model(ticker: Seq<char>, csv_path: Option<Seq<char>>) -> ChartPlanModel {
    ChartPlanModel {
        ticker,
        csv_path: match csv_path {
            Some(c) => c,
            None => default_csv_path(ticker),
        },
        price_chart: price_chart_name(ticker),
        payoff_chart: payoff_chart_name(ticker),
        price_title: price_chart_title(ticker),
        payoff_title: payoff_chart_title(ticker),
    }
}

/// The CSV file read for a ticker when the command line names none.
pub open spec fn default_csv_path(ticker: Seq<char>) -> Seq<char> {
    "../data/simulations_"@ + ticker + ".csv"@
}

/// The file name of a ticker's terminal-price histogram.
pub open spec fn price_chart_name(ticker: Seq<char>) -> Seq<char> {
    "rust_plot_"@ + ticker + "_S_T.png"@
}

/// The file name of a ticker's payoff histogram.
pub open spec fn payoff_chart_name(ticker: Seq<char>) -> Seq<char> {
    "rust_plot_"@ + ticker + "_payoff.png"@
}

/// The caption of a ticker's terminal-price histogram.
pub open spec fn price_chart_title(ticker: Seq<char>) -> Seq<char> {
    "Distribucija završne cijene S_T ("@ + ticker + ") [Rust]"@
}

/// The caption of a ticker's payoff histogram.
pub open spec fn payoff_chart_title(ticker: Seq<char>) -> Seq<char> {
    "Distribucija isplata opcije ("@ + ticker + ") [Rust]"@
}

/// Law: the two charts of a ticker go to different files, so neither overwrites
/// the other.
pub proof fn lemma_chart_names_differ(ticker: Seq<char>)
    ensures
        price_chart_name(ticker) != payoff_chart_name(ticker),
        "rust_plot_"@ + ticker + "_S_T.png"@ != "rust_plot_"@ + ticker + "_payoff.png"@,
{
    reveal_strlit("_S_T.png");
    reveal_strlit("_payoff.png");
    assert(("rust_plot_"@ + ticker + "_S_T.png"@).len() != ("rust_plot_"@ + ticker
        + "_payoff.png"@).len());
}

/// Reads what to chart from the command line `args`, whose first word is the
/// program's name: the ticker comes second, and an optional CSV path third.
/// `None` when no ticker is given.
pub fn chart_plan(args: &Vec<String>) -> (plan: Option<ChartPlan>)
    ensures
        args.len() < 2 <==> plan is None,
        plan matches Some(p) ==> {
            &&& p.ticker@ == uppercase(args[1]@)
            &&& p.price_chart@ == "rust_plot_"@ + uppercase(args[1]@) + "_S_T.png"@
            &&& p.payoff_chart@ == "rust_plot_"@ + uppercase(args[1]@) + "_payoff.png"@
            &&& p.price_chart@ != p.payoff_chart@
            &&& p.csv_path@ == if args.len() >= 3 {
                args[2]@
            } else {
                "../data/simulations_"@ + uppercase(args[1]@) + ".csv"@
            }
        },
        plan matches Some(p) ==> p.model() == plan_model(
            uppercase(args[1]@),
            if args.len() >= 3 {
                Some(args[2]@)
            } else {
                None
            },
        ),
{
    if args.len() < 2 {
        return None;
    }
    let ticker = to_uppercase(args[1].as_str());
    let csv_path = if args.len() >= 3 {
        Some(args[2].clone())
    } else {
        None
    };
    Some(plan_for_ticker(ticker, csv_path))
}

/// The charts of an upper-case `ticker`, read from `csv_path` or, without one,
/// from the ticker's default CSV file.
pub fn plan_for_ticker(ticker: String, csv_path: Option<String>) -> (p: ChartPlan)
    ensures
        p.ticker@ == ticker@,
        p.price_chart@ == "rust_plot_"@ + ticker@ + "_S_T.png"@,
        p.payoff_chart@ == "rust_plot_"@ + ticker@ + "_payoff.png"@,
        p.price_chart@ != p.payoff_chart@,
        p.price_title@ == "Distribucija završne cijene S_T ("@ + ticker@ + ") [Rust]"@,
        p.payoff_title@ == "Distribucija isplata opcije ("@ + ticker@ + ") [Rust]"@,
        match csv_path {
            Some(c) => p.csv_path@ == c@,
            None => p.csv_path@ == "../data/simulations_"@ + ticker@ + ".csv"@,
        },
        p.model() == plan_model(
            ticker@,
            match csv_path {
                Some(c) => Some(c@),
                None => None,
            },
        ),
{
    let csv_path = match csv_path {
        Some(c) => c,
        None => {
            let mut p = String::from_str("../data/simulations_");
            p.append(ticker.as_str());
            p.append(".csv");
            p
        },
    };
    let mut price_chart = String::from_str("rust_plot_");
    price_chart.append(ticker.as_str());
    price_chart.append("_S_T.png");
    let mut payoff_chart = String::from_str("rust_plot_");
    payoff_chart.append(ticker.as_str());
    payoff_chart.append("_payoff.png");
    let mut price_title = String::from_str("Distribucija završne cijene S_T (");
    price_title.append(ticker.as_str());
    price_title.append(") [Rust]");
    let mut payoff_title = String::from_str("Distribucija isplata opcije (");
    payoff_title.append(ticker.as_str());
    payoff_title.append(") [Rust]");
    proof {
        lemma_chart_names_differ(ticker@);
    }
    ChartPlan { ticker, csv_path, price_chart, payoff_chart, price_title, payoff_title }
}

} // verus!
