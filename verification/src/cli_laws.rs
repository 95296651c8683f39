use vstd::prelude::*;

use crate::cli::{CliArg, ConfigModel, Flag, bad_value_message, missing_value_message, Scanned, arg_numbers, arg_texts, finish, flag_of, nothing_scanned, parse_result, scan, take_value};
use crate::option_kind::{OptionType, lowercase};
use crate::text::usize_from_text;

verus! {

/// Position `j` is one where the scan that starts at `i` reads a flag: every
/// second word from `i` on.
pub open spec fn read_from(texts: Seq<Seq<char>>, i: int, j: int) -> bool {
    i <= j < texts.len() && (j - i) % 2 == 0
}

/// Position `j` of a command line holds a flag: the words after the program's
/// name go flag, value, flag, value, ...
pub open spec fn flag_position(texts: Seq<Seq<char>>, j: int) -> bool {
    read_from(texts, 1, j)
}

/// Flag `w` is given at position `j` and at no later flag position.
pub open spec fn given_last(texts: Seq<Seq<char>>, w: Seq<char>, j: int) -> bool {
    &&& flag_position(texts, j)
    &&& texts[j] == w
    &&& forall|k: int| #![trigger texts[k]] flag_position(texts, k) && j < k ==> texts[k] != w
}

/// Flag `w` is given at no flag position.
pub open spec fn never_given(texts: Seq<Seq<char>>, w: Seq<char>) -> bool {
    forall|j: int| #![trigger texts[j]] flag_position(texts, j) ==> texts[j] != w
}

/// The words that take a number.
pub open spec fn is_number_flag(w: Seq<char>) -> bool {
    w == "--s0"@ || w == "--k"@ || w == "--r"@ || w == "--sigma"@ || w == "--t"@
}

/// The words that take a count.
pub open spec fn is_count_flag(w: Seq<char>) -> bool {
    w == "--paths"@ || w == "--threads"@
}

/// The nine words that name flags.
pub open spec fn is_flag_word(w: Seq<char>) -> bool {
    is_number_flag(w) || is_count_flag(w) || w == "--option"@ || w == "--output"@
}

/// What an accepted value of flag `x` satisfies.
pub open spec fn acceptable(x: Seq<char>, v: Seq<char>, n: bool) -> bool {
    &&& is_flag_word(x)
    &&& is_number_flag(x) ==> n
    &&& is_count_flag(x) ==> usize_from_text(v) is Some
    &&& x == "--option"@ ==> (lowercase(v) == "call"@ || lowercase(v) == "put"@)
}

/// Each flag word names its own flag, and no other word names a flag.
proof fn lemma_flag_words()
    ensures
        forall|x: Seq<char>| #[trigger] flag_of(x) == Flag::S0 <==> x == "--s0"@,
        forall|x: Seq<char>| #[trigger] flag_of(x) == Flag::K <==> x == "--k"@,
        forall|x: Seq<char>| #[trigger] flag_of(x) == Flag::R <==> x == "--r"@,
        forall|x: Seq<char>| #[trigger] flag_of(x) == Flag::Sigma <==> x == "--sigma"@,
        forall|x: Seq<char>| #[trigger] flag_of(x) == Flag::T <==> x == "--t"@,
        forall|x: Seq<char>| #[trigger] flag_of(x) == Flag::Paths <==> x == "--paths"@,
        forall|x: Seq<char>| #[trigger] flag_of(x) == Flag::OptionKind <==> x == "--option"@,
        forall|x: Seq<char>| #[trigger] flag_of(x) == Flag::Output <==> x == "--output"@,
        forall|x: Seq<char>| #[trigger] flag_of(x) == Flag::Threads <==> x == "--threads"@,
        forall|x: Seq<char>| #[trigger] flag_of(x) == Flag::Unknown <==> !is_flag_word(x),
{
    reveal_strlit("--s0");
    reveal_strlit("--k");
    reveal_strlit("--r");
    reveal_strlit("--sigma");
    reveal_strlit("--t");
    reveal_strlit("--paths");
    reveal_strlit("--option");
    reveal_strlit("--output");
    reveal_strlit("--threads");
    assert("--k"@[2] != "--r"@[2]);
    assert("--k"@[2] != "--t"@[2]);
    assert("--r"@[2] != "--t"@[2]);
    assert("--sigma"@[2] != "--paths"@[2]);
    assert("--option"@[3] != "--output"@[3]);
    assert("--s0"@.len() == 4 && "--k"@.len() == 3 && "--r"@.len() == 3 && "--t"@.len() == 3);
    assert("--sigma"@.len() == 7 && "--paths"@.len() == 7);
    assert("--option"@.len() == 8 && "--output"@.len() == 8 && "--threads"@.len() == 9);
}

/// The flag positions of a scan from `i` are `i` and those of the scan from `i + 2`.
proof fn lemma_read_from_next(texts: Seq<Seq<char>>, i: int, j: int)
    ensures
        read_from(texts, i, j) && j != i ==> read_from(texts, i + 2, j),
        read_from(texts, i + 2, j) ==> read_from(texts, i, j) && i < j,
{
    if read_from(texts, i, j) && j != i {
        assert((j - (i + 2)) % 2 == 0) by (nonlinear_arith)
            requires
                (j - i) % 2 == 0,
                j > i,
        ;
    }
    if read_from(texts, i + 2, j) {
        assert((j - i) % 2 == 0) by (nonlinear_arith)
            requires
                (j - (i + 2)) % 2 == 0,
        ;
    }
}

/// One step of a scan that succeeds: the word at `i` names a flag, a value
/// follows it, the value is accepted, and the scan goes on from `i + 2`.
proof fn lemma_scan_step(texts: Seq<Seq<char>>, numbers: Seq<bool>, i: int, st: Scanned, fin: Scanned)
    requires
        0 <= i < texts.len(),
        scan(texts, numbers, i, st) == Ok::<Scanned, Seq<char>>(fin),
    ensures
        flag_of(texts[i]) != Flag::Unknown,
        i + 1 < texts.len(),
        take_value(flag_of(texts[i]), texts[i + 1], numbers[i + 1], st) is Ok,
        scan(
            texts,
            numbers,
            i + 2,
            take_value(flag_of(texts[i]), texts[i + 1], numbers[i + 1], st)->Ok_0,
        ) == Ok::<Scanned, Seq<char>>(fin),
{
}

/// Along a scan that succeeds, a part of the state that only flag `w` sets ends
/// up as what the last `w` read gives, or unchanged when no `w` is read.
proof fn lemma_scan_tracks<A>(
    texts: Seq<Seq<char>>,
    numbers: Seq<bool>,
    i: int,
    st: Scanned,
    fin: Scanned,
    w: Seq<char>,
    proj: spec_fn(Scanned) -> A,
    val: spec_fn(Seq<char>, bool) -> A,
)
    requires
        0 <= i,
        scan(texts, numbers, i, st) == Ok::<Scanned, Seq<char>>(fin),
        forall|x: Seq<char>, v: Seq<char>, n: bool, s: Scanned|
            #[trigger] take_value(flag_of(x), v, n, s) is Ok ==> proj(
                take_value(flag_of(x), v, n, s)->Ok_0,
            ) == if x == w {
                val(v, n)
            } else {
                proj(s)
            },
    ensures
        forall|j: int|
            #![trigger texts[j]]
            read_from(texts, i, j) && texts[j] == w && (forall|k: int|
                #![trigger texts[k]]
                read_from(texts, i, k) && j < k ==> texts[k] != w) ==> proj(fin) == val(
                texts[j + 1],
                numbers[j + 1],
            ),
        (forall|j: int| #![trigger texts[j]] read_from(texts, i, j) ==> texts[j] != w) ==> proj(fin)
            == proj(st),
    decreases texts.len() - i,
{
    if i < texts.len() {
        lemma_scan_step(texts, numbers, i, st, fin);
        let next = take_value(flag_of(texts[i]), texts[i + 1], numbers[i + 1], st)->Ok_0;
        lemma_scan_tracks(texts, numbers, i + 2, next, fin, w, proj, val);
        assert forall|j: int|
            #![trigger texts[j]]
            read_from(texts, i, j) && texts[j] == w && (forall|k: int|
                #![trigger texts[k]]
                read_from(texts, i, k) && j < k ==> texts[k] != w) implies proj(fin) == val(
            texts[j + 1],
            numbers[j + 1],
        ) by {
            lemma_read_from_next(texts, i, j);
            if j == i {
                assert forall|k: int| #![trigger texts[k]] read_from(texts, i + 2, k) implies texts[k]
                    != w by {
                    lemma_read_from_next(texts, i, k);
                }
            } else {
                assert forall|k: int|
                    #![trigger texts[k]]
                    read_from(texts, i + 2, k) && j < k implies texts[k] != w by {
                    lemma_read_from_next(texts, i, k);
                }
            }
        }
        if forall|j: int| #![trigger texts[j]] read_from(texts, i, j) ==> texts[j] != w {
            assert(read_from(texts, i, i));
            assert forall|j: int| #![trigger texts[j]] read_from(texts, i + 2, j) implies texts[j]
                != w by {
                lemma_read_from_next(texts, i, j);
            }
        }
    }
}

/// A word that occurs at some flag position from `i` on has a last such occurrence.
proof fn lemma_last_occurrence(texts: Seq<Seq<char>>, i: int, w: Seq<char>, j: int)
    requires
        0 <= i,
        read_from(texts, i, j),
        texts[j] == w,
    ensures
        exists|l: int|
            #![trigger texts[l]]
            read_from(texts, i, l) && texts[l] == w && (forall|k: int|
                #![trigger texts[k]]
                read_from(texts, i, k) && l < k ==> texts[k] != w),
    decreases texts.len() - j,
{
    if exists|k: int| #![trigger texts[k]] read_from(texts, i, k) && j < k && texts[k] == w {
        let k = choose|k: int| #![trigger texts[k]] read_from(texts, i, k) && j < k && texts[k] == w;
        lemma_last_occurrence(texts, i, w, k);
    } else {
        assert(read_from(texts, i, j) && texts[j] == w && (forall|k: int|
            #![trigger texts[k]]
            read_from(texts, i, k) && j < k ==> texts[k] != w));
    }
}

/// Along a scan that succeeds, every flag read is followed by a value, and the
/// pair satisfies `ok` whenever every accepted pair does.
proof fn lemma_scan_accepts(
    texts: Seq<Seq<char>>,
    numbers: Seq<bool>,
    i: int,
    st: Scanned,
    fin: Scanned,
    ok: spec_fn(Seq<char>, Seq<char>, bool) -> bool,
)
    requires
        0 <= i,
        scan(texts, numbers, i, st) == Ok::<Scanned, Seq<char>>(fin),
        forall|x: Seq<char>, v: Seq<char>, n: bool, s: Scanned|
            flag_of(x) != Flag::Unknown && #[trigger] take_value(flag_of(x), v, n, s) is Ok ==> ok(
                x,
                v,
                n,
            ),
    ensures
        forall|j: int|
            #![trigger read_from(texts, i, j)]
            read_from(texts, i, j) ==> j + 1 < texts.len() && ok(texts[j], texts[j + 1], numbers[j + 1]),
    decreases texts.len() - i,
{
    if i < texts.len() {
        lemma_scan_step(texts, numbers, i, st, fin);
        let next = take_value(flag_of(texts[i]), texts[i + 1], numbers[i + 1], st)->Ok_0;
        lemma_scan_accepts(texts, numbers, i + 2, next, fin, ok);
        assert(flag_of(texts[i]) != Flag::Unknown && take_value(flag_of(texts[i]), texts[i + 1], numbers[i + 1], st) is Ok);
        assert(ok(texts[i], texts[i + 1], numbers[i + 1]));
        assert forall|j: int|
            #![trigger read_from(texts, i, j)]
            read_from(texts, i, j) implies j + 1 < texts.len() && ok(
            texts[j],
            texts[j + 1],
            numbers[j + 1],
        ) by {
            lemma_read_from_next(texts, i, j);
            if j != i {
                assert(read_from(texts, i + 2, j) && texts[j] == texts[j]);
            }
        }
    }
}

/// The state a command line that is accepted ends its scan in.
spec fn scanned_state(args: Seq<CliArg>) -> Scanned {
    scan(arg_texts(args), arg_numbers(args), 1, nothing_scanned())->Ok_0
}

proof fn lemma_accepted_scan(args: Seq<CliArg>, m: ConfigModel)
    requires
        parse_result(args) == Ok::<ConfigModel, Seq<char>>(m),
    ensures
        scan(arg_texts(args), arg_numbers(args), 1, nothing_scanned()) == Ok::<Scanned, Seq<char>>(
            scanned_state(args),
        ),
        finish(scanned_state(args)) == Ok::<ConfigModel, Seq<char>>(m),
{
}

/// Law: in an accepted command line every flag is one of the nine flag words and
/// is followed by a value; the values of `--s0`, `--k`, `--r`, `--sigma` and `--t`
/// read as numbers, those of `--paths` and `--threads` as counts, and that of
/// `--option` lower-cases to `call` or `put`. Any other command line is refused.
pub proof fn lemma_accepted_words_are_valid(args: Seq<CliArg>, m: ConfigModel)
    requires
        parse_result(args) == Ok::<ConfigModel, Seq<char>>(m),
    ensures
        forall|j: int|
            #![trigger arg_texts(args)[j]]
            flag_position(arg_texts(args), j) ==> j + 1 < args.len() && acceptable(
                arg_texts(args)[j],
                arg_texts(args)[j + 1],
                arg_numbers(args)[j + 1],
            ),
{
    lemma_accepted_scan(args, m);
    lemma_flag_words();
    let ok = |x: Seq<char>, v: Seq<char>, n: bool| acceptable(x, v, n);
    assert forall|x: Seq<char>, v: Seq<char>, n: bool, s: Scanned|
        flag_of(x) != Flag::Unknown && #[trigger] take_value(flag_of(x), v, n, s) is Ok implies ok(
        x,
        v,
        n,
    ) by {
        reveal(take_value);
    }
    lemma_scan_accepts(arg_texts(args), arg_numbers(args), 1, nothing_scanned(), scanned_state(args), ok);
}

/// Law: a command line is refused when a flag position holds a word that names no
/// flag, a flag with no value after it, a number flag whose value does not read as
/// a number, a count flag whose value is not a count, or an `--option` whose value
/// names no option kind.
pub proof fn lemma_refuses_invalid_words(args: Seq<CliArg>, j: int)
    requires
        flag_position(arg_texts(args), j),
        j + 1 >= args.len() || !acceptable(
            arg_texts(args)[j],
            arg_texts(args)[j + 1],
            arg_numbers(args)[j + 1],
        ),
    ensures
        parse_result(args) is Err,
{
    if parse_result(args) is Ok {
        lemma_accepted_words_are_valid(args, parse_result(args)->Ok_0);
        assert(arg_texts(args)[j] == arg_texts(args)[j]);
    }
}

/// What the scan of an accepted command line keeps of flag `w`: the value read
/// after its last occurrence, or the starting value when `w` is never given.
proof fn lemma_accepted_tracks<A>(
    args: Seq<CliArg>,
    m: ConfigModel,
    w: Seq<char>,
    proj: spec_fn(Scanned) -> A,
    val: spec_fn(Seq<char>, bool) -> A,
)
    requires
        parse_result(args) == Ok::<ConfigModel, Seq<char>>(m),
        forall|x: Seq<char>, v: Seq<char>, n: bool, s: Scanned|
            #[trigger] take_value(flag_of(x), v, n, s) is Ok ==> proj(
                take_value(flag_of(x), v, n, s)->Ok_0,
            ) == if x == w {
                val(v, n)
            } else {
                proj(s)
            },
    ensures
        forall|j: int|
            #![trigger arg_texts(args)[j]]
            given_last(arg_texts(args), w, j) ==> proj(scanned_state(args)) == val(
                arg_texts(args)[j + 1],
                arg_numbers(args)[j + 1],
            ),
        never_given(arg_texts(args), w) ==> proj(scanned_state(args)) == proj(nothing_scanned()),
        finish(scanned_state(args)) == Ok::<ConfigModel, Seq<char>>(m),
{
    lemma_accepted_scan(args, m);
    let texts = arg_texts(args);
    lemma_scan_tracks(texts, arg_numbers(args), 1, nothing_scanned(), scanned_state(args), w, proj, val);
    assert forall|j: int|
        #![trigger texts[j]]
        given_last(texts, w, j) implies proj(scanned_state(args)) == val(
        texts[j + 1],
        arg_numbers(args)[j + 1],
    ) by {
        assert(read_from(texts, 1, j) && texts[j] == w);
        assert(forall|k: int| #![trigger texts[k]] read_from(texts, 1, k) && j < k ==> texts[k] != w);
    }
    if never_given(texts, w) {
        assert(forall|j: int| #![trigger texts[j]] read_from(texts, 1, j) ==> texts[j] != w);
    }
}

/// Law: an accepted command line gives each of `--s0`, `--k`, `--r`, `--sigma`
/// and `--t`, and each market parameter is the word after the last occurrence of
/// its flag.
pub proof fn lemma_accepted_market_parameters(args: Seq<CliArg>, m: ConfigModel)
    requires
        parse_result(args) == Ok::<ConfigModel, Seq<char>>(m),
    ensures
        !never_given(arg_texts(args), "--s0"@),
        !never_given(arg_texts(args), "--k"@),
        !never_given(arg_texts(args), "--r"@),
        !never_given(arg_texts(args), "--sigma"@),
        !never_given(arg_texts(args), "--t"@),
        forall|j: int|
            #![trigger arg_texts(args)[j]]
            given_last(arg_texts(args), "--s0"@, j) ==> m.s0 == arg_texts(args)[j + 1],
        forall|j: int|
            #![trigger arg_texts(args)[j]]
            given_last(arg_texts(args), "--k"@, j) ==> m.k == arg_texts(args)[j + 1],
        forall|j: int|
            #![trigger arg_texts(args)[j]]
            given_last(arg_texts(args), "--r"@, j) ==> m.r == arg_texts(args)[j + 1],
        forall|j: int|
            #![trigger arg_texts(args)[j]]
            given_last(arg_texts(args), "--sigma"@, j) ==> m.sigma == arg_texts(args)[j + 1],
        forall|j: int|
            #![trigger arg_texts(args)[j]]
            given_last(arg_texts(args), "--t"@, j) ==> m.t == arg_texts(args)[j + 1],
{
    lemma_flag_words();
    reveal(take_value);
    let val = |v: Seq<char>, n: bool| Some(v);
    lemma_accepted_tracks(args, m, "--s0"@, |s: Scanned| s.s0, val);
    lemma_accepted_tracks(args, m, "--k"@, |s: Scanned| s.k, val);
    lemma_accepted_tracks(args, m, "--r"@, |s: Scanned| s.r, val);
    lemma_accepted_tracks(args, m, "--sigma"@, |s: Scanned| s.sigma, val);
    lemma_accepted_tracks(args, m, "--t"@, |s: Scanned| s.t, val);
}

/// Law: an accepted command line gives `--paths`, and the number of paths is the
/// count written after its last occurrence.
pub proof fn lemma_accepted_paths(args: Seq<CliArg>, m: ConfigModel)
    requires
        parse_result(args) == Ok::<ConfigModel, Seq<char>>(m),
    ensures
        !never_given(arg_texts(args), "--paths"@),
        forall|j: int|
            #![trigger arg_texts(args)[j]]
            given_last(arg_texts(args), "--paths"@, j) ==> usize_from_text(arg_texts(args)[j + 1])
                == Some(m.n_paths),
{
    lemma_flag_words();
    reveal(take_value);
    lemma_accepted_tracks(
        args,
        m,
        "--paths"@,
        |s: Scanned| s.n_paths,
        |v: Seq<char>, n: bool| usize_from_text(v),
    );
}

/// Law: the thread count of an accepted command line is the count written after
/// the last `--threads`, and absent when `--threads` is not given.
pub proof fn lemma_accepted_threads(args: Seq<CliArg>, m: ConfigModel)
    requires
        parse_result(args) == Ok::<ConfigModel, Seq<char>>(m),
    ensures
        forall|j: int|
            #![trigger arg_texts(args)[j]]
            given_last(arg_texts(args), "--threads"@, j) ==> m.n_threads == usize_from_text(
                arg_texts(args)[j + 1],
            ),
        never_given(arg_texts(args), "--threads"@) ==> m.n_threads is None,
{
    lemma_flag_words();
    reveal(take_value);
    lemma_accepted_tracks(
        args,
        m,
        "--threads"@,
        |s: Scanned| s.n_threads,
        |v: Seq<char>, n: bool| usize_from_text(v),
    );
}

/// Law: the output path of an accepted command line is the word after the last
/// `--output`, and absent when `--output` is not given, whatever else is given.
pub proof fn lemma_accepted_output(args: Seq<CliArg>, m: ConfigModel)
    requires
        parse_result(args) == Ok::<ConfigModel, Seq<char>>(m),
    ensures
        forall|j: int|
            #![trigger arg_texts(args)[j]]
            given_last(arg_texts(args), "--output"@, j) ==> m.output == Some(arg_texts(args)[j + 1]),
        never_given(arg_texts(args), "--output"@) ==> m.output is None,
{
    lemma_flag_words();
    reveal(take_value);
    lemma_accepted_tracks(
        args,
        m,
        "--output"@,
        |s: Scanned| s.output,
        |v: Seq<char>, n: bool| Some(v),
    );
}

/// Law: an accepted command line gives `--option`, and the option kind is `Put`
/// when the value after its last occurrence lower-cases to `put`, `Call` when it
/// lower-cases to `call`.
pub proof fn lemma_accepted_option_kind(args: Seq<CliArg>, m: ConfigModel)
    requires
        parse_result(args) == Ok::<ConfigModel, Seq<char>>(m),
    ensures
        !never_given(arg_texts(args), "--option"@),
        forall|j: int|
            #![trigger arg_texts(args)[j]]
            given_last(arg_texts(args), "--option"@, j) ==> {
                ||| lowercase(arg_texts(args)[j + 1]) == "put"@ && m.option_type == OptionType::Put
                ||| lowercase(arg_texts(args)[j + 1]) == "call"@ && m.option_type
                    == OptionType::Call
            },
{
    let named = |v: Seq<char>, n: bool|
        if lowercase(v) == "put"@ {
            Some(OptionType::Put)
        } else if lowercase(v) == "call"@ {
            Some(OptionType::Call)
        } else {
            None
        };
    let proj = |s: Scanned| s.option_type;
    assert forall|x: Seq<char>, v: Seq<char>, n: bool, s: Scanned|
        #[trigger] take_value(flag_of(x), v, n, s) is Ok implies proj(
        take_value(flag_of(x), v, n, s)->Ok_0,
    ) == if x == "--option"@ {
        named(v, n)
    } else {
        proj(s)
    } by {
        lemma_flag_words();
        reveal(take_value);
        reveal_strlit("put");
        reveal_strlit("call");
        assert("put"@.len() != "call"@.len());
    }
    lemma_accepted_tracks(args, m, "--option"@, proj, named);
}

/// Each refusal message names the flag it refuses.
proof fn lemma_messages_name_their_flag()
    ensures
        missing_value_message(Flag::S0) == "--s0"@ + " zahteva vrednost"@,
        missing_value_message(Flag::K) == "--k"@ + " zahteva vrednost"@,
        missing_value_message(Flag::R) == "--r"@ + " zahteva vrednost"@,
        missing_value_message(Flag::Sigma) == "--sigma"@ + " zahteva vrednost"@,
        missing_value_message(Flag::T) == "--t"@ + " zahteva vrednost"@,
        missing_value_message(Flag::Paths) == "--paths"@ + " zahteva vrednost"@,
        missing_value_message(Flag::OptionKind) == "--option"@ + " zahteva vrednost"@,
        missing_value_message(Flag::Output) == "--output"@ + " zahteva vrednost"@,
        missing_value_message(Flag::Threads) == "--threads"@ + " zahteva vrednost"@,
        bad_value_message(Flag::S0) == "Neispravna vrednost za "@ + "--s0"@,
        bad_value_message(Flag::K) == "Neispravna vrednost za "@ + "--k"@,
        bad_value_message(Flag::R) == "Neispravna vrednost za "@ + "--r"@,
        bad_value_message(Flag::Sigma) == "Neispravna vrednost za "@ + "--sigma"@,
        bad_value_message(Flag::T) == "Neispravna vrednost za "@ + "--t"@,
        bad_value_message(Flag::Paths) == "Neispravna vrednost za "@ + "--paths"@,
        bad_value_message(Flag::Threads) == "Neispravna vrednost za "@ + "--threads"@,
{
    reveal_strlit(" zahteva vrednost");
    reveal_strlit("Neispravna vrednost za ");
    reveal_strlit("--s0");
    reveal_strlit("--s0 zahteva vrednost");
    assert(missing_value_message(Flag::S0) =~= "--s0"@ + " zahteva vrednost"@);
    reveal_strlit("--k");
    reveal_strlit("--k zahteva vrednost");
    assert(missing_value_message(Flag::K) =~= "--k"@ + " zahteva vrednost"@);
    reveal_strlit("--r");
    reveal_strlit("--r zahteva vrednost");
    assert(missing_value_message(Flag::R) =~= "--r"@ + " zahteva vrednost"@);
    reveal_strlit("--sigma");
    reveal_strlit("--sigma zahteva vrednost");
    assert(missing_value_message(Flag::Sigma) =~= "--sigma"@ + " zahteva vrednost"@);
    reveal_strlit("--t");
    reveal_strlit("--t zahteva vrednost");
    assert(missing_value_message(Flag::T) =~= "--t"@ + " zahteva vrednost"@);
    reveal_strlit("--paths");
    reveal_strlit("--paths zahteva vrednost");
    assert(missing_value_message(Flag::Paths) =~= "--paths"@ + " zahteva vrednost"@);
    reveal_strlit("--option");
    reveal_strlit("--option zahteva vrednost");
    assert(missing_value_message(Flag::OptionKind) =~= "--option"@ + " zahteva vrednost"@);
    reveal_strlit("--output");
    reveal_strlit("--output zahteva vrednost");
    assert(missing_value_message(Flag::Output) =~= "--output"@ + " zahteva vrednost"@);
    reveal_strlit("--threads");
    reveal_strlit("--threads zahteva vrednost");
    assert(missing_value_message(Flag::Threads) =~= "--threads"@ + " zahteva vrednost"@);
    reveal_strlit("Neispravna vrednost za --s0");
    assert(bad_value_message(Flag::S0) =~= "Neispravna vrednost za "@ + "--s0"@);
    reveal_strlit("Neispravna vrednost za --k");
    assert(bad_value_message(Flag::K) =~= "Neispravna vrednost za "@ + "--k"@);
    reveal_strlit("Neispravna vrednost za --r");
    assert(bad_value_message(Flag::R) =~= "Neispravna vrednost za "@ + "--r"@);
    reveal_strlit("Neispravna vrednost za --sigma");
    assert(bad_value_message(Flag::Sigma) =~= "Neispravna vrednost za "@ + "--sigma"@);
    reveal_strlit("Neispravna vrednost za --t");
    assert(bad_value_message(Flag::T) =~= "Neispravna vrednost za "@ + "--t"@);
    reveal_strlit("Neispravna vrednost za --paths");
    assert(bad_value_message(Flag::Paths) =~= "Neispravna vrednost za "@ + "--paths"@);
    reveal_strlit("Neispravna vrednost za --threads");
    assert(bad_value_message(Flag::Threads) =~= "Neispravna vrednost za "@ + "--threads"@);
}

/// The message that refuses the pair at flag position `j`: a word that names no
/// flag is quoted; a flag with nothing after it asks for a value; an option kind
/// is quoted in lower case; any other value is named by its flag.
pub open spec fn refusal_message(texts: Seq<Seq<char>>, j: int) -> Seq<char> {
    let w = texts[j];
    if !is_flag_word(w) {
        "arg unknown: "@ + w
    } else if j + 1 >= texts.len() {
        w + " zahteva vrednost"@
    } else if w == "--option"@ {
        "Nepoznat tip opcije: "@ + lowercase(texts[j + 1]) + " (dozvoljeno: call, put)"@
    } else {
        "Neispravna vrednost za "@ + w
    }
}

/// An acceptable pair is taken: its flag is known and its value accepted.
proof fn lemma_acceptable_is_taken(x: Seq<char>, v: Seq<char>, n: bool, st: Scanned)
    requires
        acceptable(x, v, n),
    ensures
        flag_of(x) != Flag::Unknown,
        take_value(flag_of(x), v, n, st) is Ok,
{
    lemma_flag_words();
    reveal(take_value);
    reveal_strlit("call");
    reveal_strlit("put");
}

/// A pair that is not acceptable is refused with its message.
proof fn lemma_unacceptable_is_refused(texts: Seq<Seq<char>>, numbers: Seq<bool>, j: int, st: Scanned)
    requires
        0 <= j < texts.len(),
        j + 1 >= texts.len() || !acceptable(texts[j], texts[j + 1], numbers[j + 1]),
    ensures
        scan(texts, numbers, j, st) == Err::<Scanned, Seq<char>>(refusal_message(texts, j)),
{
    lemma_flag_words();
    lemma_messages_name_their_flag();
    let w = texts[j];
    if is_flag_word(w) && j + 1 < texts.len() {
        reveal(take_value);
        reveal_strlit("call");
        reveal_strlit("put");
        assert("call"@.len() != "put"@.len());
    }
}

/// A scan along which every pair is acceptable succeeds.
proof fn lemma_scan_succeeds(texts: Seq<Seq<char>>, numbers: Seq<bool>, i: int, st: Scanned)
    requires
        0 <= i,
        forall|k: int|
            #![trigger read_from(texts, i, k)]
            read_from(texts, i, k) ==> k + 1 < texts.len() && acceptable(
                texts[k],
                texts[k + 1],
                numbers[k + 1],
            ),
    ensures
        scan(texts, numbers, i, st) is Ok,
    decreases texts.len() - i,
{
    if i < texts.len() {
        assert(read_from(texts, i, i));
        lemma_acceptable_is_taken(texts[i], texts[i + 1], numbers[i + 1], st);
        let next = take_value(flag_of(texts[i]), texts[i + 1], numbers[i + 1], st)->Ok_0;
        assert forall|k: int|
            #![trigger read_from(texts, i + 2, k)]
            read_from(texts, i + 2, k) implies k + 1 < texts.len() && acceptable(
            texts[k],
            texts[k + 1],
            numbers[k + 1],
        ) by {
            lemma_read_from_next(texts, i, k);
        }
        lemma_scan_succeeds(texts, numbers, i + 2, next);
    }
}

/// A scan is refused at the first pair that is not acceptable.
proof fn lemma_scan_refuses_first(
    texts: Seq<Seq<char>>,
    numbers: Seq<bool>,
    i: int,
    st: Scanned,
    j: int,
)
    requires
        0 <= i,
        read_from(texts, i, j),
        forall|k: int|
            #![trigger read_from(texts, i, k)]
            read_from(texts, i, k) && k < j ==> k + 1 < texts.len() && acceptable(
                texts[k],
                texts[k + 1],
                numbers[k + 1],
            ),
        j + 1 >= texts.len() || !acceptable(texts[j], texts[j + 1], numbers[j + 1]),
    ensures
        scan(texts, numbers, i, st) == Err::<Scanned, Seq<char>>(refusal_message(texts, j)),
    decreases j - i,
{
    if i < j {
        assert(read_from(texts, i, i));
        lemma_acceptable_is_taken(texts[i], texts[i + 1], numbers[i + 1], st);
        let next = take_value(flag_of(texts[i]), texts[i + 1], numbers[i + 1], st)->Ok_0;
        lemma_read_from_next(texts, i, j);
        assert forall|k: int|
            #![trigger read_from(texts, i + 2, k)]
            read_from(texts, i + 2, k) && k < j implies k + 1 < texts.len() && acceptable(
            texts[k],
            texts[k + 1],
            numbers[k + 1],
        ) by {
            lemma_read_from_next(texts, i, k);
        }
        lemma_scan_refuses_first(texts, numbers, i + 2, next, j);
    } else {
        lemma_unacceptable_is_refused(texts, numbers, j, st);
    }
}

/// Law: a command line is refused at its first flag position that holds a word
/// naming no flag, a flag with no value after it, or a value the flag does not
/// accept, with the message for that position.
pub proof fn lemma_first_refusal(args: Seq<CliArg>, j: int)
    requires
        args.len() != 1,
        flag_position(arg_texts(args), j),
        forall|k: int|
            #![trigger arg_texts(args)[k]]
            flag_position(arg_texts(args), k) && k < j ==> k + 1 < args.len() && acceptable(
                arg_texts(args)[k],
                arg_texts(args)[k + 1],
                arg_numbers(args)[k + 1],
            ),
        j + 1 >= args.len() || !acceptable(
            arg_texts(args)[j],
            arg_texts(args)[j + 1],
            arg_numbers(args)[j + 1],
        ),
    ensures
        parse_result(args) == Err::<ConfigModel, Seq<char>>(refusal_message(arg_texts(args), j)),
{
    let texts = arg_texts(args);
    assert forall|k: int|
        #![trigger read_from(texts, 1, k)]
        read_from(texts, 1, k) && k < j implies k + 1 < texts.len() && acceptable(
        texts[k],
        texts[k + 1],
        arg_numbers(args)[k + 1],
    ) by {
        assert(texts[k] == texts[k]);
    }
    lemma_scan_refuses_first(texts, arg_numbers(args), 1, nothing_scanned(), j);
}

/// In a command line whose pairs are all acceptable, a part of the scanned state
/// that only flag `w` sets keeps its starting value when `w` is never given, and
/// otherwise holds what the value of one of the `w`s gives.
proof fn lemma_valid_line_field<A>(
    args: Seq<CliArg>,
    w: Seq<char>,
    proj: spec_fn(Scanned) -> A,
    val: spec_fn(Seq<char>, bool) -> A,
)
    requires
        forall|k: int|
            #![trigger flag_position(arg_texts(args), k)]
            flag_position(arg_texts(args), k) ==> k + 1 < args.len() && acceptable(
                arg_texts(args)[k],
                arg_texts(args)[k + 1],
                arg_numbers(args)[k + 1],
            ),
        forall|x: Seq<char>, v: Seq<char>, n: bool, s: Scanned|
            #[trigger] take_value(flag_of(x), v, n, s) is Ok ==> proj(
                take_value(flag_of(x), v, n, s)->Ok_0,
            ) == if x == w {
                val(v, n)
            } else {
                proj(s)
            },
    ensures
        scan(arg_texts(args), arg_numbers(args), 1, nothing_scanned()) == Ok::<Scanned, Seq<char>>(
            scanned_state(args),
        ),
        never_given(arg_texts(args), w) ==> proj(scanned_state(args)) == proj(nothing_scanned()),
        !never_given(arg_texts(args), w) ==> exists|j: int|
            #![trigger arg_texts(args)[j]]
            flag_position(arg_texts(args), j) && arg_texts(args)[j] == w && proj(scanned_state(args))
                == val(arg_texts(args)[j + 1], arg_numbers(args)[j + 1]),
{
    let texts = arg_texts(args);
    let numbers = arg_numbers(args);
    assert forall|k: int|
        #![trigger read_from(texts, 1, k)]
        read_from(texts, 1, k) implies k + 1 < texts.len() && acceptable(
        texts[k],
        texts[k + 1],
        numbers[k + 1],
    ) by {
        assert(flag_position(texts, k));
    }
    lemma_scan_succeeds(texts, numbers, 1, nothing_scanned());
    let fin = scanned_state(args);
    lemma_scan_tracks(texts, numbers, 1, nothing_scanned(), fin, w, proj, val);
    if !never_given(texts, w) {
        let j = choose|j: int| #![trigger texts[j]] flag_position(texts, j) && texts[j] == w;
        lemma_last_occurrence(texts, 1, w, j);
        let l = choose|l: int|
            #![trigger texts[l]]
            read_from(texts, 1, l) && texts[l] == w && (forall|k: int|
                #![trigger texts[k]]
                read_from(texts, 1, k) && l < k ==> texts[k] != w);
        assert(flag_position(texts, l) && texts[l] == w && proj(fin) == val(texts[l + 1], numbers[l + 1]));
    }
}

/// Law: a command line whose words are all valid is refused for the first
/// required flag it does not give, in the order `--s0`, `--k`, `--r`, `--sigma`,
/// `--t`, `--paths`, `--option`, and is accepted when it gives them all.
pub proof fn lemma_missing_required_flag(args: Seq<CliArg>)
    requires
        args.len() != 1,
        forall|k: int|
            #![trigger arg_texts(args)[k]]
            flag_position(arg_texts(args), k) ==> k + 1 < args.len() && acceptable(
                arg_texts(args)[k],
                arg_texts(args)[k + 1],
                arg_numbers(args)[k + 1],
            ),
    ensures
        never_given(arg_texts(args), "--s0"@) ==> parse_result(args) == Err::<ConfigModel, Seq<char>>(
            "NO --s0"@,
        ),
        !never_given(arg_texts(args), "--s0"@) && never_given(arg_texts(args), "--k"@) ==> parse_result(
            args,
        ) == Err::<ConfigModel, Seq<char>>("No --k"@),
        !never_given(arg_texts(args), "--s0"@) && !never_given(arg_texts(args), "--k"@)
            && never_given(arg_texts(args), "--r"@) ==> parse_result(args) == Err::<
            ConfigModel,
            Seq<char>,
        >("NO --r"@),
        !never_given(arg_texts(args), "--s0"@) && !never_given(arg_texts(args), "--k"@)
            && !never_given(arg_texts(args), "--r"@) && never_given(arg_texts(args), "--sigma"@)
            ==> parse_result(args) == Err::<ConfigModel, Seq<char>>("NO --sigma"@),
        !never_given(arg_texts(args), "--s0"@) && !never_given(arg_texts(args), "--k"@)
            && !never_given(arg_texts(args), "--r"@) && !never_given(arg_texts(args), "--sigma"@)
            && never_given(arg_texts(args), "--t"@) ==> parse_result(args) == Err::<
            ConfigModel,
            Seq<char>,
        >("No --t"@),
        !never_given(arg_texts(args), "--s0"@) && !never_given(arg_texts(args), "--k"@)
            && !never_given(arg_texts(args), "--r"@) && !never_given(arg_texts(args), "--sigma"@)
            && !never_given(arg_texts(args), "--t"@) && never_given(arg_texts(args), "--paths"@)
            ==> parse_result(args) == Err::<ConfigModel, Seq<char>>("No --paths"@),
        !never_given(arg_texts(args), "--s0"@) && !never_given(arg_texts(args), "--k"@)
            && !never_given(arg_texts(args), "--r"@) && !never_given(arg_texts(args), "--sigma"@)
            && !never_given(arg_texts(args), "--t"@) && !never_given(arg_texts(args), "--paths"@)
            && never_given(arg_texts(args), "--option"@) ==> parse_result(args) == Err::<
            ConfigModel,
            Seq<char>,
        >("No --option (call/put)"@),
        !never_given(arg_texts(args), "--s0"@) && !never_given(arg_texts(args), "--k"@)
            && !never_given(arg_texts(args), "--r"@) && !never_given(arg_texts(args), "--sigma"@)
            && !never_given(arg_texts(args), "--t"@) && !never_given(arg_texts(args), "--paths"@)
            && !never_given(arg_texts(args), "--option"@) ==> parse_result(args) is Ok,
{
    let named = |v: Seq<char>, n: bool|
        if lowercase(v) == "put"@ {
            Some(OptionType::Put)
        } else if lowercase(v) == "call"@ {
            Some(OptionType::Call)
        } else {
            None
        };
    assert forall|k: int|
        #![trigger flag_position(arg_texts(args), k)]
        flag_position(arg_texts(args), k) implies k + 1 < args.len() && acceptable(
        arg_texts(args)[k],
        arg_texts(args)[k + 1],
        arg_numbers(args)[k + 1],
    ) by {
        assert(arg_texts(args)[k] == arg_texts(args)[k]);
    }
    assert forall|x: Seq<char>, v: Seq<char>, n: bool, s: Scanned|
        #[trigger] take_value(flag_of(x), v, n, s) is Ok implies (|s: Scanned| s.s0)(
        take_value(flag_of(x), v, n, s)->Ok_0,
    ) == if x == "--s0"@ {
        (|v: Seq<char>, n: bool| Some(v))(v, n)
    } else {
        (|s: Scanned| s.s0)(s)
    } by {
        lemma_flag_words();
        reveal(take_value);
    }
    lemma_valid_line_field(args, "--s0"@, |s: Scanned| s.s0, |v: Seq<char>, n: bool| Some(v));
    assert forall|x: Seq<char>, v: Seq<char>, n: bool, s: Scanned|
        #[trigger] take_value(flag_of(x), v, n, s) is Ok implies (|s: Scanned| s.k)(
        take_value(flag_of(x), v, n, s)->Ok_0,
    ) == if x == "--k"@ {
        (|v: Seq<char>, n: bool| Some(v))(v, n)
    } else {
        (|s: Scanned| s.k)(s)
    } by {
        lemma_flag_words();
        reveal(take_value);
    }
    lemma_valid_line_field(args, "--k"@, |s: Scanned| s.k, |v: Seq<char>, n: bool| Some(v));
    assert forall|x: Seq<char>, v: Seq<char>, n: bool, s: Scanned|
        #[trigger] take_value(flag_of(x), v, n, s) is Ok implies (|s: Scanned| s.r)(
        take_value(flag_of(x), v, n, s)->Ok_0,
    ) == if x == "--r"@ {
        (|v: Seq<char>, n: bool| Some(v))(v, n)
    } else {
        (|s: Scanned| s.r)(s)
    } by {
        lemma_flag_words();
        reveal(take_value);
    }
    lemma_valid_line_field(args, "--r"@, |s: Scanned| s.r, |v: Seq<char>, n: bool| Some(v));
    assert forall|x: Seq<char>, v: Seq<char>, n: bool, s: Scanned|
        #[trigger] take_value(flag_of(x), v, n, s) is Ok implies (|s: Scanned| s.sigma)(
        take_value(flag_of(x), v, n, s)->Ok_0,
    ) == if x == "--sigma"@ {
        (|v: Seq<char>, n: bool| Some(v))(v, n)
    } else {
        (|s: Scanned| s.sigma)(s)
    } by {
        lemma_flag_words();
        reveal(take_value);
    }
    lemma_valid_line_field(args, "--sigma"@, |s: Scanned| s.sigma, |v: Seq<char>, n: bool| Some(v));
    assert forall|x: Seq<char>, v: Seq<char>, n: bool, s: Scanned|
        #[trigger] take_value(flag_of(x), v, n, s) is Ok implies (|s: Scanned| s.t)(
        take_value(flag_of(x), v, n, s)->Ok_0,
    ) == if x == "--t"@ {
        (|v: Seq<char>, n: bool| Some(v))(v, n)
    } else {
        (|s: Scanned| s.t)(s)
    } by {
        lemma_flag_words();
        reveal(take_value);
    }
    lemma_valid_line_field(args, "--t"@, |s: Scanned| s.t, |v: Seq<char>, n: bool| Some(v));
    assert forall|x: Seq<char>, v: Seq<char>, n: bool, s: Scanned|
        #[trigger] take_value(flag_of(x), v, n, s) is Ok implies (|s: Scanned| s.n_paths)(
        take_value(flag_of(x), v, n, s)->Ok_0,
    ) == if x == "--paths"@ {
        (|v: Seq<char>, n: bool| usize_from_text(v))(v, n)
    } else {
        (|s: Scanned| s.n_paths)(s)
    } by {
        lemma_flag_words();
        reveal(take_value);
    }
    lemma_valid_line_field(args, "--paths"@, |s: Scanned| s.n_paths, |v: Seq<char>, n: bool| usize_from_text(v));
    assert forall|x: Seq<char>, v: Seq<char>, n: bool, s: Scanned|
        #[trigger] take_value(flag_of(x), v, n, s) is Ok implies (|s: Scanned| s.option_type)(
        take_value(flag_of(x), v, n, s)->Ok_0,
    ) == if x == "--option"@ {
        (named)(v, n)
    } else {
        (|s: Scanned| s.option_type)(s)
    } by {
        lemma_flag_words();
        reveal(take_value);
        reveal_strlit("put");
        reveal_strlit("call");
        assert("put"@.len() != "call"@.len());
    }
    lemma_valid_line_field(args, "--option"@, |s: Scanned| s.option_type, named);
}

} // verus!
