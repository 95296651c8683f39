use vstd::prelude::*;

use crate::option_kind::{OptionType, kind_result, lowercase};
use crate::text::{same_text, parse_usize, usize_from_text};

verus! {

/// One command-line word, together with whether it reads as a floating-point
/// number (the market parameters must).
pub struct CliArg {
    pub text: String,
    pub reads_as_number: bool,
}

/// The settings of one pricing run. The five market parameters keep the text the
/// user gave; parsing has checked that each reads as a number.
pub struct Config {
    pub s0: String,
    pub k: String,
    pub r: String,
    pub sigma: String,
    pub t: String,
    pub n_paths: usize,
    pub option_type: OptionType,
    pub n_threads: Option<usize>,
    pub output: Option<String>,
}

/// A `Config` as plain values.
pub struct ConfigModel {
    pub s0: Seq<char>,
    pub k: Seq<char>,
    pub r: Seq<char>,
    pub sigma: Seq<char>,
    pub t: Seq<char>,
    pub n_paths: nat,
    pub option_type: OptionType,
    pub n_threads: Option<nat>,
    pub output: Option<Seq<char>>,
}

/// What has been read so far while scanning the command line.
pub struct Scanned {
    pub s0: Option<Seq<char>>,
    pub k: Option<Seq<char>>,
    pub r: Option<Seq<char>>,
    pub sigma: Option<Seq<char>>,
    pub t: Option<Seq<char>>,
    pub n_paths: Option<nat>,
    pub option_type: Option<OptionType>,
    pub n_threads: Option<nat>,
    pub output: Option<Seq<char>>,
}

/// The flags the command line knows, and everything else.
#[derive(Debug, Clone, Copy, PartialEq, Eq, Structural)]
pub enum Flag {
    S0,
    K,
    R,
    Sigma,
    T,
    Paths,
    OptionKind,
    Output,
    Threads,
    Unknown,
}

pub open spec fn text_of(o: Option<String>) -> Option<Seq<char>> {
    match o {
        Some(s) => Some(s@),
        None => None,
    }
}

pub open spec fn nat_of(o: Option<usize>) -> Option<nat> {
    match o {
        Some(n) => Some(n as nat),
        None => None,
    }
}

impl Config {
    pub open spec fn model(&self) -> ConfigModel {
        ConfigModel {
            s0: self.s0@,
            k: self.k@,
            r: self.r@,
            sigma: self.sigma@,
            t: self.t@,
            n_paths: self.n_paths as nat,
            option_type: self.option_type,
            n_threads: nat_of(self.n_threads),
            output: text_of(self.output),
        }
    }
}

/// The flag that a command-line word names.
pub open spec fn flag_of(a: Seq<char>) -> Flag {
    if a == "--s0"@ {
        Flag::S0
    } else if a == "--k"@ {
        Flag::K
    } else if a == "--r"@ {
        Flag::R
    } else if a == "--sigma"@ {
        Flag::Sigma
    } else if a == "--t"@ {
        Flag::T
    } else if a == "--paths"@ {
        Flag::Paths
    } else if a == "--option"@ {
        Flag::OptionKind
    } else if a == "--output"@ {
        Flag::Output
    } else if a == "--threads"@ {
        Flag::Threads
    } else {
        Flag::Unknown
    }
}

/// The message for a flag given as the last word, with no value after it.
pub open spec fn missing_value_message(f: Flag) -> Seq<char> {
    match f {
        Flag::S0 => "--s0 zahteva vrednost"@,
        Flag::K => "--k zahteva vrednost"@,
        Flag::R => "--r zahteva vrednost"@,
        Flag::Sigma => "--sigma zahteva vrednost"@,
        Flag::T => "--t zahteva vrednost"@,
        Flag::Paths => "--paths zahteva vrednost"@,
        Flag::OptionKind => "--option zahteva vrednost"@,
        Flag::Output => "--output zahteva vrednost"@,
        Flag::Threads => "--threads zahteva vrednost"@,
        Flag::Unknown => Seq::empty(),
    }
}

/// The message for a flag whose value does not read as what the flag needs.
pub open spec fn bad_value_message(f: Flag) -> Seq<char> {
    match f {
        Flag::S0 => "Neispravna vrednost za --s0"@,
        Flag::K => "Neispravna vrednost za --k"@,
        Flag::R => "Neispravna vrednost za --r"@,
        Flag::Sigma => "Neispravna vrednost za --sigma"@,
        Flag::T => "Neispravna vrednost za --t"@,
        Flag::Paths => "Neispravna vrednost za --paths"@,
        Flag::Threads => "Neispravna vrednost za --threads"@,
        _ => Seq::empty(),
    }
}

/// The message for a word that names no flag.
pub open spec fn unknown_arg_message(a: Seq<char>) -> Seq<char> {
    "arg unknown: "@ + a
}

/// The message for a command line with no arguments at all.
pub open spec fn usage_message() -> Seq<char> {
    "Očekuju se argumenti. Primer:\n  cargo run --release -- --s0 100 --k 110 --r 0.02 --sigma 0.3 --t 1.0 --paths 1000000 --option call --output ../data/rust_simulations.csv"@
}

pub open spec fn nothing_scanned() -> Scanned {
    Scanned {
        s0: None,
        k: None,
        r: None,
        sigma: None,
        t: None,
        n_paths: None,
        option_type: None,
        n_threads: None,
        output: None,
    }
}

/// Reading the value `v` of flag `f` into `st`: the new state, or the message
/// that refuses the value. (A word that names no flag takes no value.)
#[verifier::opaque]
pub open spec fn take_value(f: Flag, v: Seq<char>, v_is_number: bool, st: Scanned) -> Result<
    Scanned,
    Seq<char>,
> {
    match f {
        Flag::S0 => if v_is_number { Ok(Scanned { s0: Some(v), ..st }) } else { Err(bad_value_message(f)) },
        Flag::K => if v_is_number { Ok(Scanned { k: Some(v), ..st }) } else { Err(bad_value_message(f)) },
        Flag::R => if v_is_number { Ok(Scanned { r: Some(v), ..st }) } else { Err(bad_value_message(f)) },
        Flag::Sigma => if v_is_number { Ok(Scanned { sigma: Some(v), ..st }) } else { Err(bad_value_message(f)) },
        Flag::T => if v_is_number { Ok(Scanned { t: Some(v), ..st }) } else { Err(bad_value_message(f)) },
        Flag::Paths => match usize_from_text(v) {
            Some(n) => Ok(Scanned { n_paths: Some(n), ..st }),
            None => Err(bad_value_message(f)),
        },
        Flag::Threads => match usize_from_text(v) {
            Some(n) => Ok(Scanned { n_threads: Some(n), ..st }),
            None => Err(bad_value_message(f)),
        },
        Flag::OptionKind => match kind_result(lowercase(v)) {
            Ok(kind) => Ok(Scanned { option_type: Some(kind), ..st }),
            Err(msg) => Err(msg),
        },
        Flag::Output => Ok(Scanned { output: Some(v), ..st }),
        Flag::Unknown => Ok(st),
    }
}

/// Scanning the words from position `i` on, each flag followed by its value;
/// a later value of a flag replaces an earlier one.
pub open spec fn scan(texts: Seq<Seq<char>>, numbers: Seq<bool>, i: int, st: Scanned) -> Result<
    Scanned,
    Seq<char>,
>
    decreases texts.len() - i,
{
    if i < 0 || i >= texts.len() {
        Ok(st)
    } else {
        let f = flag_of(texts[i]);
        if f == Flag::Unknown {
            Err(unknown_arg_message(texts[i]))
        } else if i + 1 >= texts.len() {
            Err(missing_value_message(f))
        } else {
            match take_value(f, texts[i + 1], numbers[i + 1], st) {
                Ok(next) => scan(texts, numbers, i + 2, next),
                Err(msg) => Err(msg),
            }
        }
    }
}

/// Law: when a flag is given twice in a row and its first value is accepted, the
/// first value has no effect: the scan goes on as if only the second were given.
pub proof fn lemma_repeated_flag_keeps_last_value(
    texts: Seq<Seq<char>>,
    numbers: Seq<bool>,
    i: int,
    st: Scanned,
)
    requires
        0 <= i,
        i + 2 < texts.len(),
        texts.len() == numbers.len(),
        flag_of(texts[i]) != Flag::Unknown,
        flag_of(texts[i + 2]) == flag_of(texts[i]),
        take_value(flag_of(texts[i]), texts[i + 1], numbers[i + 1], st) is Ok,
    ensures
        scan(texts, numbers, i, st) == scan(texts, numbers, i + 2, st),
{
    let f = flag_of(texts[i]);
    reveal(take_value);
    let first = take_value(f, texts[i + 1], numbers[i + 1], st)->Ok_0;
    assert(scan(texts, numbers, i, st) == scan(texts, numbers, i + 2, first));
    if i + 3 < texts.len() {
        assert(take_value(f, texts[i + 3], numbers[i + 3], first) == take_value(
            f,
            texts[i + 3],
            numbers[i + 3],
            st,
        ));
    }
}

/// The settings once scanning is over: each required flag must have been given,
/// checked in this order.
pub open spec fn finish(st: Scanned) -> Result<ConfigModel, Seq<char>> {
    if st.s0 is None {
        Err("NO --s0"@)
    } else if st.k is None {
        Err("No --k"@)
    } else if st.r is None {
        Err("NO --r"@)
    } else if st.sigma is None {
        Err("NO --sigma"@)
    } else if st.t is None {
        Err("No --t"@)
    } else if st.n_paths is None {
        Err("No --paths"@)
    } else if st.option_type is None {
        Err("No --option (call/put)"@)
    } else {
        Ok(
            ConfigModel {
                s0: st.s0->0,
                k: st.k->0,
                r: st.r->0,
                sigma: st.sigma->0,
                t: st.t->0,
                n_paths: st.n_paths->0,
                option_type: st.option_type->0,
                n_threads: st.n_threads,
                output: st.output,
            },
        )
    }
}

pub open spec fn arg_texts(args: Seq<CliArg>) -> Seq<Seq<char>> {
    args.map_values(|a: CliArg| a.text@)
}

pub open spec fn arg_numbers(args: Seq<CliArg>) -> Seq<bool> {
    args.map_values(|a: CliArg| a.reads_as_number)
}

/// What the command line `args` (the program's name first) sets up, or the
/// message that refuses it.
pub open spec fn parse_result(args: Seq<CliArg>) -> Result<ConfigModel, Seq<char>> {
    if args.len() == 1 {
        Err(usage_message())
    } else {
        match scan(arg_texts(args), arg_numbers(args), 1, nothing_scanned()) {
            Ok(st) => finish(st),
            Err(msg) => Err(msg),
        }
    }
}

/// The values read so far, as the scan holds them.
struct Pending {
    s0: Option<String>,
    k: Option<String>,
    r: Option<String>,
    sigma: Option<String>,
    t: Option<String>,
    n_paths: Option<usize>,
    option_type: Option<OptionType>,
    n_threads: Option<usize>,
    output: Option<String>,
}

impl Pending {
    spec fn model(&self) -> Scanned {
        Scanned {
            s0: text_of(self.s0),
            k: text_of(self.k),
            r: text_of(self.r),
            sigma: text_of(self.sigma),
            t: text_of(self.t),
            n_paths: nat_of(self.n_paths),
            option_type: self.option_type,
            n_threads: nat_of(self.n_threads),
            output: text_of(self.output),
        }
    }
}

/// The flag that a command-line word names.
pub fn classify(a: &str) -> (f: Flag)
    ensures
        f == flag_of(a@),
{
    if same_text(a, "--s0") {
        Flag::S0
    } else if same_text(a, "--k") {
        Flag::K
    } else if same_text(a, "--r") {
        Flag::R
    } else if same_text(a, "--sigma") {
        Flag::Sigma
    } else if same_text(a, "--t") {
        Flag::T
    } else if same_text(a, "--paths") {
        Flag::Paths
    } else if same_text(a, "--option") {
        Flag::OptionKind
    } else if same_text(a, "--output") {
        Flag::Output
    } else if same_text(a, "--threads") {
        Flag::Threads
    } else {
        Flag::Unknown
    }
}

fn missing_value(f: Flag) -> (m: String)
    ensures
        m@ == missing_value_message(f),
{
    match f {
        Flag::S0 => String::from_str("--s0 zahteva vrednost"),
        Flag::K => String::from_str("--k zahteva vrednost"),
        Flag::R => String::from_str("--r zahteva vrednost"),
        Flag::Sigma => String::from_str("--sigma zahteva vrednost"),
        Flag::T => String::from_str("--t zahteva vrednost"),
        Flag::Paths => String::from_str("--paths zahteva vrednost"),
        Flag::OptionKind => String::from_str("--option zahteva vrednost"),
        Flag::Output => String::from_str("--output zahteva vrednost"),
        Flag::Threads => String::from_str("--threads zahteva vrednost"),
        Flag::Unknown => String::new(),
    }
}

fn bad_value(f: Flag) -> (m: String)
    ensures
        m@ == bad_value_message(f),
{
    match f {
        Flag::S0 => String::from_str("Neispravna vrednost za --s0"),
        Flag::K => String::from_str("Neispravna vrednost za --k"),
        Flag::R => String::from_str("Neispravna vrednost za --r"),
        Flag::Sigma => String::from_str("Neispravna vrednost za --sigma"),
        Flag::T => String::from_str("Neispravna vrednost za --t"),
        Flag::Paths => String::from_str("Neispravna vrednost za --paths"),
        Flag::Threads => String::from_str("Neispravna vrednost za --threads"),
        _ => String::new(),
    }
}

/// Reads the value `v` of flag `f` into `st`, or refuses it.
fn take(f: Flag, v: &CliArg, st: &mut Pending) -> (r: Result<(), String>)
    requires
        f != Flag::Unknown,
    ensures
        match r {
            Ok(_) => take_value(f, v.text@, v.reads_as_number, old(st).model()) == Ok::<
                Scanned,
                Seq<char>,
            >(final(st).model()),
            Err(e) => take_value(f, v.text@, v.reads_as_number, old(st).model()) == Err::<
                Scanned,
                Seq<char>,
            >(e@) && final(st).model() == old(st).model(),
        },
{
    reveal(take_value);
    match f {
        Flag::S0 | Flag::K | Flag::R | Flag::Sigma | Flag::T => {
            if !v.reads_as_number {
                return Err(bad_value(f));
            }
            let text = v.text.clone();
            match f {
                Flag::S0 => st.s0 = Some(text),
                Flag::K => st.k = Some(text),
                Flag::R => st.r = Some(text),
                Flag::Sigma => st.sigma = Some(text),
                _ => st.t = Some(text),
            }
            Ok(())
        },
        Flag::Paths => match parse_usize(v.text.as_str()) {
            Some(n) => {
                st.n_paths = Some(n);
                Ok(())
            },
            None => Err(bad_value(f)),
        },
        Flag::Threads => match parse_usize(v.text.as_str()) {
            Some(n) => {
                st.n_threads = Some(n);
                Ok(())
            },
            None => Err(bad_value(f)),
        },
        Flag::OptionKind => match OptionType::from_str(v.text.as_str()) {
            Ok(kind) => {
                st.option_type = Some(kind);
                Ok(())
            },
            Err(e) => Err(e),
        },
        _ => {
            st.output = Some(v.text.clone());
            Ok(())
        },
    }
}

/// Reads the settings of a pricing run from the command line `args`, whose first
/// word is the program's name. Each flag takes the word after it as its value,
/// and a flag given twice keeps its last value. `--s0`, `--k`, `--r`, `--sigma`
/// and `--t` take numbers, `--paths` and `--threads` take counts, `--option` takes
/// `call` or `put` in any letter case, and `--output` takes a path; all but
/// `--threads` and `--output` must be given.
pub fn parse_args(args: &Vec<CliArg>) -> (r: Result<Config, String>)
    ensures
        match r {
            Ok(c) => parse_result(args@) == Ok::<ConfigModel, Seq<char>>(c.model()),
            Err(e) => parse_result(args@) == Err::<ConfigModel, Seq<char>>(e@),
        },
{
    if args.len() == 1 {
        return Err(String::from_str(
            "Očekuju se argumenti. Primer:\n  cargo run --release -- --s0 100 --k 110 --r 0.02 --sigma 0.3 --t 1.0 --paths 1000000 --option call --output ../data/rust_simulations.csv",
        ));
    }
    let ghost texts = arg_texts(args@);
    let ghost numbers = arg_numbers(args@);
    let mut st = Pending {
        s0: None,
        k: None,
        r: None,
        sigma: None,
        t: None,
        n_paths: None,
        option_type: None,
        n_threads: None,
        output: None,
    };
    let mut i: usize = 1;
    while i < args.len()
        invariant
            1 <= i <= args.len() + 1,
            texts == arg_texts(args@),
            numbers == arg_numbers(args@),
            scan(texts, numbers, 1, nothing_scanned()) == scan(texts, numbers, i as int, st.model()),
        decreases args.len() + 1 - i,
    {
        let f = classify(args[i].text.as_str());
        if matches!(f, Flag::Unknown) {
            let mut msg = String::from_str("arg unknown: ");
            msg.append(args[i].text.as_str());
            return Err(msg);
        }
        if i + 1 >= args.len() {
            return Err(missing_value(f));
        }
        match take(f, &args[i + 1], &mut st) {
            Ok(()) => {},
            Err(e) => {
                return Err(e);
            },
        }
        i = i + 2;
    }
    finish_config(st)
}

fn finish_config(st: Pending) -> (r: Result<Config, String>)
    ensures
        match r {
            Ok(c) => finish(st.model()) == Ok::<ConfigModel, Seq<char>>(c.model()),
            Err(e) => finish(st.model()) == Err::<ConfigModel, Seq<char>>(e@),
        },
{
    let Pending { s0, k, r, sigma, t, n_paths, option_type, n_threads, output } = st;
    let s0 = match s0 {
        Some(v) => v,
        None => return Err(String::from_str("NO --s0")),
    };
    let k = match k {
        Some(v) => v,
        None => return Err(String::from_str("No --k")),
    };
    let r = match r {
        Some(v) => v,
        None => return Err(String::from_str("NO --r")),
    };
    let sigma = match sigma {
        Some(v) => v,
        None => return Err(String::from_str("NO --sigma")),
    };
    let t = match t {
        Some(v) => v,
        None => return Err(String::from_str("No --t")),
    };
    let n_paths = match n_paths {
        Some(v) => v,
        None => return Err(String::from_str("No --paths")),
    };
    let option_type = match option_type {
        Some(v) => v,
        None => return Err(String::from_str("No --option (call/put)")),
    };
    Ok(Config { s0, k, r, sigma, t, n_paths, option_type, n_threads, output })
}

} // verus!
