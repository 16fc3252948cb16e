use vstd::prelude::*;
use vstd::string::*;

verus! {

/// Number of trials per suite when `--trials` is not given.
pub const DEFAULT_TRIALS: u64 = 200;

/// Seed of a trace when `--seed` is not given.
pub const DEFAULT_TRACE_SEED: u64 = 3_007;

/// Whether two strings hold the same characters.
pub fn same_text(a: &str, b: &str) -> (r: bool)
    ensures
        r == (a@ == b@),
{
    let n: usize = a.unicode_len();
    let m: usize = b.unicode_len();
    if n != m {
        return false;
    }
    let mut i: usize = 0;
    while i < n
        invariant
            n == a@.len(),
            m == b@.len(),
            n == m,
            i <= n,
            forall|j: int| 0 <= j < i ==> a@[j] == b@[j],
        decreases n - i,
    {
        if a.get_char(i) != b.get_char(i) {
            return false;
        }
        i += 1;
    }
    proof {
        assert(a@ =~= b@);
    }
    true
}

/// An ASCII decimal digit.
pub open spec fn is_digit(c: char) -> bool {
    '0' <= c <= '9'
}

/// Every character of `d` is a decimal digit.
pub open spec fn all_digits(d: Seq<char>) -> bool {
    forall|i: int| 0 <= i < d.len() ==> is_digit(#[trigger] d[i])
}

/// The number that the decimal digits `d` spell.
pub open spec fn decimal_value(d: Seq<char>) -> int
    decreases d.len(),
{
    if d.len() == 0 {
        0
    } else {
        decimal_value(d.drop_last()) * 10 + (d.last() as int - '0' as int)
    }
}

/// The digits of an unsigned number: the text without one leading `+`.
pub open spec fn unsigned_digits(s: Seq<char>) -> Seq<char> {
    if s.len() > 0 && s[0] == '+' {
        s.drop_first()
    } else {
        s
    }
}

/// How std reads a `u64` from text: an optional `+` followed by at least one
/// decimal digit and nothing else, whose value fits in a `u64`.
pub open spec fn spec_parse_u64(s: Seq<char>) -> Option<u64> {
    let d = unsigned_digits(s);
    if d.len() > 0 && all_digits(d) && decimal_value(d) <= u64::MAX {
        Some(decimal_value(d) as u64)
    } else {
        None
    }
}

proof fn lemma_decimal_value_nonneg(d: Seq<char>)
    requires
        all_digits(d),
    ensures
        decimal_value(d) >= 0,
    decreases d.len(),
{
    if d.len() > 0 {
        assert(all_digits(d.drop_last()));
        lemma_decimal_value_nonneg(d.drop_last());
        assert(is_digit(d[d.len() - 1]));
    }
}

/// Reads a `u64` as `str::parse::<u64>` does: `None` for an empty text, a
/// lone `+`, any character other than a digit after the optional `+`, or a
/// value above `u64::MAX`.
pub fn parse_u64(s: &str) -> (r: Option<u64>)
    ensures
        r == spec_parse_u64(s@),
{
    let n: usize = s.unicode_len();
    let mut start: usize = 0;
    if n > 0 && s.get_char(0) == '+' {
        start = 1;
    }
    proof {
        assert(unsigned_digits(s@) =~= s@.subrange(start as int, n as int));
    }
    if start == n {
        return None;
    }
    let mut i: usize = start;
    let mut value: u64 = 0;
    let mut overflow = false;
    while i < n
        invariant
            n == s@.len(),
            start <= i <= n,
            unsigned_digits(s@) =~= s@.subrange(start as int, n as int),
            all_digits(s@.subrange(start as int, i as int)),
            overflow ==> decimal_value(s@.subrange(start as int, i as int)) > u64::MAX,
            !overflow ==> value == decimal_value(s@.subrange(start as int, i as int)),
        decreases n - i,
    {
        let c = s.get_char(i);
        if c < '0' || c > '9' {
            proof {
                assert(s@.subrange(start as int, n as int)[i - start] == c);
            }
            return None;
        }
        let digit: u64 = (c as u32 - '0' as u32) as u64;
        proof {
            let prev = s@.subrange(start as int, i as int);
            let next = s@.subrange(start as int, i + 1);
            assert(next.drop_last() =~= prev);
            assert(next.last() == c);
            assert(all_digits(next));
            lemma_decimal_value_nonneg(prev);
        }
        if !overflow {
            match value.checked_mul(10) {
                Some(tens) => match tens.checked_add(digit) {
                    Some(v) => {
                        value = v;
                    },
                    None => {
                        overflow = true;
                    },
                },
                None => {
                    overflow = true;
                },
            }
        }
        i += 1;
    }
    proof {
        assert(s@.subrange(start as int, i as int) =~= unsigned_digits(s@));
    }
    if overflow {
        None
    } else {
        Some(value)
    }
}

} // verus!

verus! {

/// The scenarios that the runner's `--scenario` option names.
#[derive(Clone, Copy, Debug, PartialEq, Eq, Structural)]
pub enum NamedScenario {
    HardBrakingLead,
    CutIn,
    ConstantLead,
    EmptyRoad,
}

/// The scenario that `name` names, if any.
pub open spec fn scenario_named(name: Seq<char>) -> Option<NamedScenario> {
    if name == "hard-braking"@ {
        Some(NamedScenario::HardBrakingLead)
    } else if name == "cut-in"@ {
        Some(NamedScenario::CutIn)
    } else if name == "constant-lead"@ {
        Some(NamedScenario::ConstantLead)
    } else if name == "empty-road"@ {
        Some(NamedScenario::EmptyRoad)
    } else {
        None
    }
}

/// `r` is the outcome `s`: the same value, or an error with the same message.
pub open spec fn same_outcome<T>(r: Result<T, String>, s: Result<T, Seq<char>>) -> bool {
    match r {
        Ok(a) => s == Ok::<T, Seq<char>>(a),
        Err(e) => s == Err::<T, Seq<char>>(e@),
    }
}

/// The message text `prefix` followed by `value`.
fn message_with(prefix: &str, value: &str) -> (r: String)
    ensures
        r@ == prefix@ + value@,
{
    let mut m = String::from_str(prefix);
    m.append(value);
    m
}

/// The message text `text`.
fn message(text: &str) -> (r: String)
    ensures
        r@ == text@,
{
    String::from_str(text)
}

/// The scenario named `value`: `hard-braking`, `cut-in`, `constant-lead` or
/// `empty-road`; any other name is an error `unknown scenario: <value>`.
pub fn parse_scenario(value: &str) -> (r: Result<NamedScenario, String>)
    ensures
        same_outcome(
            r,
            match scenario_named(value@) {
                Some(s) => Ok(s),
                None => Err("unknown scenario: "@ + value@),
            },
        ),
{
    if same_text(value, "hard-braking") {
        Ok(NamedScenario::HardBrakingLead)
    } else if same_text(value, "cut-in") {
        Ok(NamedScenario::CutIn)
    } else if same_text(value, "constant-lead") {
        Ok(NamedScenario::ConstantLead)
    } else if same_text(value, "empty-road") {
        Ok(NamedScenario::EmptyRoad)
    } else {
        Err(message_with("unknown scenario: ", value))
    }
}

/// What a trace runs: one scenario under one seed.
#[derive(Clone, Copy, Debug, PartialEq, Eq, Structural)]
pub struct TraceOptions {
    pub scenario: NamedScenario,
    pub seed: u64,
}

/// The texts of the arguments.
pub open spec fn arg_texts(args: Seq<String>) -> Seq<Seq<char>> {
    args.map_values(|a: String| a@)
}

/// Trace options read from `args`, starting from `opts`: `--scenario NAME`
/// and `--seed N` each set their option, a later one overriding an earlier
/// one; anything else, a missing value, or a value that does not parse is
/// an error.
pub open spec fn spec_trace_options(args: Seq<Seq<char>>, opts: TraceOptions) -> Result<
    TraceOptions,
    Seq<char>,
>
    decreases args.len(),
{
    if args.len() == 0 {
        Ok(opts)
    } else if args[0] == "--scenario"@ {
        if args.len() < 2 {
            Err("--scenario takes a name"@)
        } else {
            match scenario_named(args[1]) {
                Some(s) => spec_trace_options(args.skip(2), TraceOptions { scenario: s, ..opts }),
                None => Err("unknown scenario: "@ + args[1]),
            }
        }
    } else if args[0] == "--seed"@ {
        if args.len() < 2 {
            Err("--seed takes an integer"@)
        } else {
            match spec_parse_u64(args[1]) {
                Some(n) => spec_trace_options(args.skip(2), TraceOptions { seed: n, ..opts }),
                None => Err("--seed takes an integer"@),
            }
        }
    } else {
        Err("unknown trace argument: "@ + args[0])
    }
}

/// The options a trace starts from: the hard-braking lead under seed 3007.
pub open spec fn default_trace_options() -> TraceOptions {
    TraceOptions { scenario: NamedScenario::HardBrakingLead, seed: DEFAULT_TRACE_SEED }
}

/// Reads the `trace` subcommand's arguments (those after `trace`).
pub fn trace_options(args: &[String]) -> (r: Result<TraceOptions, String>)
    ensures
        same_outcome(r, spec_trace_options(arg_texts(args@), default_trace_options())),
{
    let ghost texts = arg_texts(args@);
    let mut opts = TraceOptions { scenario: NamedScenario::HardBrakingLead, seed: DEFAULT_TRACE_SEED };
    let mut i: usize = 0;
    assert(texts.skip(0) =~= texts);
    while i < args.len()
        invariant
            i <= args@.len(),
            texts == arg_texts(args@),
            spec_trace_options(texts.skip(i as int), opts) == spec_trace_options(
                texts,
                default_trace_options(),
            ),
        decreases args@.len() - i,
    {
        let ghost rest = texts.skip(i as int);
        assert(rest[0] == args@[i as int]@);
        let arg = args[i].as_str();
        if same_text(arg, "--scenario") {
            if i + 1 >= args.len() {
                return Err(message("--scenario takes a name"));
            }
            assert(rest[1] == args@[i + 1]@);
            let value = args[i + 1].as_str();
            match parse_scenario(value) {
                Ok(s) => {
                    opts = TraceOptions { scenario: s, ..opts };
                },
                Err(e) => {
                    return Err(e);
                },
            }
            assert(rest.skip(2) =~= texts.skip(i + 2));
            i += 2;
        } else if same_text(arg, "--seed") {
            if i + 1 >= args.len() {
                return Err(message("--seed takes an integer"));
            }
            assert(rest[1] == args@[i + 1]@);
            match parse_u64(args[i + 1].as_str()) {
                Some(n) => {
                    opts = TraceOptions { seed: n, ..opts };
                },
                None => {
                    return Err(message("--seed takes an integer"));
                },
            }
            assert(rest.skip(2) =~= texts.skip(i + 2));
            i += 2;
        } else {
            return Err(message_with("unknown trace argument: ", arg));
        }
    }
    proof {
        assert(texts.skip(i as int).len() == 0);
    }
    Ok(opts)
}

/// The number of trials read from `args`, starting from `trials`:
/// `--trials N` sets it, a later one overriding an earlier one; a zero is an
/// error at once; anything else, a missing value, or a value that does not
/// parse is an error.
pub open spec fn spec_measure(args: Seq<Seq<char>>, trials: u64) -> Result<u64, Seq<char>>
    decreases args.len(),
{
    if args.len() == 0 {
        Ok(trials)
    } else if args[0] == "--trials"@ {
        if args.len() < 2 {
            Err("--trials takes a positive integer"@)
        } else {
            match spec_parse_u64(args[1]) {
                Some(n) => if n == 0 {
                    Err("--trials must be greater than zero"@)
                } else {
                    spec_measure(args.skip(2), n)
                },
                None => Err("--trials takes a positive integer"@),
            }
        }
    } else {
        Err("unknown metrics argument: "@ + args[0])
    }
}

/// Reads the `metrics` subcommand's arguments (those after `metrics`): the
/// number of trials of each suite to measure, 200 unless `--trials` says
/// otherwise.
pub fn measure(args: &[String]) -> (r: Result<u64, String>)
    ensures
        same_outcome(r, spec_measure(arg_texts(args@), DEFAULT_TRIALS)),
{
    let ghost texts = arg_texts(args@);
    let mut trials: u64 = DEFAULT_TRIALS;
    let mut i: usize = 0;
    assert(texts.skip(0) =~= texts);
    while i < args.len()
        invariant
            i <= args@.len(),
            texts == arg_texts(args@),
            spec_measure(texts.skip(i as int), trials) == spec_measure(texts, DEFAULT_TRIALS),
        decreases args@.len() - i,
    {
        let ghost rest = texts.skip(i as int);
        assert(rest[0] == args@[i as int]@);
        let arg = args[i].as_str();
        if same_text(arg, "--trials") {
            if i + 1 >= args.len() {
                return Err(message("--trials takes a positive integer"));
            }
            assert(rest[1] == args@[i + 1]@);
            match parse_u64(args[i + 1].as_str()) {
                Some(n) => {
                    if n == 0 {
                        return Err(message("--trials must be greater than zero"));
                    }
                    trials = n;
                },
                None => {
                    return Err(message("--trials takes a positive integer"));
                },
            }
            assert(rest.skip(2) =~= texts.skip(i + 2));
            i += 2;
        } else {
            return Err(message_with("unknown metrics argument: ", arg));
        }
    }
    proof {
        assert(texts.skip(i as int).len() == 0);
    }
    Ok(trials)
}

/// The runner's subcommands.
#[derive(Clone, Copy, Debug, PartialEq, Eq, Structural)]
pub enum Command {
    Trace,
    Metrics,
}

/// The subcommand that the first argument names: `trace` or `metrics`;
/// `None` (print the usage) for anything else or no argument.
pub fn parse_command(first: Option<&String>) -> (r: Option<Command>)
    ensures
        r == match first {
            Some(a) => if a@ == "trace"@ {
                Some(Command::Trace)
            } else if a@ == "metrics"@ {
                Some(Command::Metrics)
            } else {
                None
            },
            None => None,
        },
{
    match first {
        Some(a) => {
            if same_text(a.as_str(), "trace") {
                Some(Command::Trace)
            } else if same_text(a.as_str(), "metrics") {
                Some(Command::Metrics)
            } else {
                None
            }
        },
        None => None,
    }
}

} // verus!

verus! {

/// A fresh value of `T` from its `Default`: how the runner builds a new
/// arbiter for every run.
pub fn make_default<T: Default>() -> (r: T)
    ensures
        call_ensures(T::default, (), r),
{
    T::default()
}

} // verus!

verus! {

/// Reading `--scenario NAME` changes only the scenario and reading
/// `--seed N` changes only the seed: whatever options were read before, the
/// rest of the arguments are read from those options with just that one
/// field replaced. So the order of the options does not matter, and
/// `--seed N --scenario NAME` replays `NAME` under seed `N`.
pub proof fn each_trace_option_sets_only_its_own_field(
    opts: TraceOptions,
    value: Seq<char>,
    rest: Seq<Seq<char>>,
)
    ensures
        scenario_named(value) matches Some(s) ==> spec_trace_options(
            seq!["--scenario"@, value] + rest,
            opts,
        ) == spec_trace_options(rest, TraceOptions { scenario: s, seed: opts.seed }),
        spec_parse_u64(value) matches Some(n) ==> spec_trace_options(
            seq!["--seed"@, value] + rest,
            opts,
        ) == spec_trace_options(rest, TraceOptions { scenario: opts.scenario, seed: n }),
        ({
            let args = seq!["--seed"@, value, "--scenario"@, rest.first()];
            rest.len() > 0 && spec_parse_u64(value) is Some && scenario_named(rest.first()) is Some
                ==> spec_trace_options(args, opts) == Ok::<TraceOptions, Seq<char>>(
                TraceOptions {
                    scenario: scenario_named(rest.first()).unwrap(),
                    seed: spec_parse_u64(value).unwrap(),
                },
            )
        }),
{
    reveal_strlit("--scenario");
    reveal_strlit("--seed");
    let a = seq!["--scenario"@, value] + rest;
    assert(a[0] == "--scenario"@);
    assert(a[1] == value);
    assert(a.skip(2) =~= rest);
    let b = seq!["--seed"@, value] + rest;
    assert(b[0] == "--seed"@);
    assert(b[1] == value);
    assert(b.skip(2) =~= rest);
    assert("--seed"@ != "--scenario"@);
    if rest.len() > 0 && spec_parse_u64(value) is Some && scenario_named(rest.first()) is Some {
        let args = seq!["--seed"@, value, "--scenario"@, rest.first()];
        let n = spec_parse_u64(value).unwrap();
        let s = scenario_named(rest.first()).unwrap();
        assert(args[0] == "--seed"@);
        let tail = args.skip(2);
        assert(tail =~= seq!["--scenario"@, rest.first()]);
        assert(tail[0] == "--scenario"@);
        assert(tail.skip(2).len() == 0);
        assert(spec_trace_options(tail, TraceOptions { scenario: opts.scenario, seed: n })
            == spec_trace_options(tail.skip(2), TraceOptions { scenario: s, seed: n }));
    }
}

} // verus!
