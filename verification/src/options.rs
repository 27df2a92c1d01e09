//! The options of a benchmark run and the parser that reads them from an
//! argument list.

use crate::decimal::{parse_u64, parse_unsigned, parse_usize};
use vstd::prelude::*;

verus! {

/// What one benchmark run is configured with.
#[derive(Clone, Copy, Debug, PartialEq, Eq, Structural)]
pub struct BenchmarkOptions {
    /// How many times each workload is repeated; at least one in a valid configuration.
    pub iterations: usize,
    /// The upper bound of the XOR-accumulation workload.
    pub sum_n: u64,
    /// The upper bound of the trial-division workload.
    pub prime_n: usize,
    /// The grid side of the affine-grid workload.
    pub matrix_n: usize,
}

/// An option that takes one numeric value.
#[derive(Clone, Copy, Debug, PartialEq, Eq, Structural)]
pub enum Flag {
    /// `--iterations`
    Iterations,
    /// `--sum-n`
    SumN,
    /// `--prime-n`, also spelled `--sieve-n`
    PrimeN,
    /// `--matrix-n`
    MatrixN,
}

/// Why an argument list was rejected.
#[derive(Clone, Copy, Debug, PartialEq, Eq, Structural)]
pub enum InvalidArgument {
    /// The argument at `position` is where a flag was expected and names none.
    UnknownOption { position: usize },
    /// The list ends right after `flag`.
    MissingValue { flag: Flag },
    /// What follows `flag` is not an unsigned decimal numeral in the range of its field.
    InvalidValue { flag: Flag },
    /// Every argument was accepted, and the iteration count is zero.
    ZeroIterations,
}

/// The configuration of a run that is given no arguments.
pub open spec fn default_options() -> BenchmarkOptions {
    BenchmarkOptions { iterations: 5, sum_n: 5_000_000, prime_n: 30_000, matrix_n: 48 }
}

/// The flag that the argument `arg` spells, if any.
pub open spec fn flag_of(arg: Seq<char>) -> Option<Flag> {
    if arg == "--iterations"@ {
        Some(Flag::Iterations)
    } else if arg == "--sum-n"@ {
        Some(Flag::SumN)
    } else if arg == "--prime-n"@ || arg == "--sieve-n"@ {
        Some(Flag::PrimeN)
    } else if arg == "--matrix-n"@ {
        Some(Flag::MatrixN)
    } else {
        None
    }
}

/// The largest value that the field behind `flag` can hold.
pub open spec fn flag_limit(flag: Flag) -> nat {
    match flag {
        Flag::SumN => u64::MAX as nat,
        _ => usize::MAX as nat,
    }
}

/// `options` with the field behind `flag` replaced by `value`.
pub open spec fn with_value(options: BenchmarkOptions, flag: Flag, value: nat) -> BenchmarkOptions {
    match flag {
        Flag::Iterations => BenchmarkOptions { iterations: value as usize, ..options },
        Flag::SumN => BenchmarkOptions { sum_n: value as u64, ..options },
        Flag::PrimeN => BenchmarkOptions { prime_n: value as usize, ..options },
        Flag::MatrixN => BenchmarkOptions { matrix_n: value as usize, ..options },
    }
}

/// The outcome of reading `args` from `position` on, with `options` as the
/// configuration read so far. Arguments come in pairs of a flag and its value;
/// the first pair that cannot be read decides the error; a later value for a
/// flag replaces an earlier one; the iteration count is checked last.
pub open spec fn parse_from(
    args: Seq<Seq<char>>,
    position: int,
    options: BenchmarkOptions,
) -> Result<BenchmarkOptions, InvalidArgument>
    decreases args.len() - position,
{
    if position < 0 || position >= args.len() {
        if options.iterations == 0 {
            Err(InvalidArgument::ZeroIterations)
        } else {
            Ok(options)
        }
    } else {
        match flag_of(args[position]) {
            None => Err(InvalidArgument::UnknownOption { position: position as usize }),
            Some(flag) => {
                if position + 1 >= args.len() {
                    Err(InvalidArgument::MissingValue { flag })
                } else {
                    match parse_unsigned(args[position + 1], flag_limit(flag)) {
                        None => Err(InvalidArgument::InvalidValue { flag }),
                        Some(value) => parse_from(
                            args,
                            position + 2,
                            with_value(options, flag, value),
                        ),
                    }
                }
            },
        }
    }
}

/// The outcome of reading the whole argument list `args` (the program name excluded).
pub open spec fn parse_arguments(args: Seq<Seq<char>>) -> Result<BenchmarkOptions, InvalidArgument> {
    parse_from(args, 0, default_options())
}

/// Whether `args` from `position` on consists of pairs of a recognized flag
/// and a numeral in the range of that flag's field.
pub open spec fn well_formed_from(args: Seq<Seq<char>>, position: int) -> bool {
    &&& (args.len() - position) % 2 == 0
    &&& forall|i: int|
        position <= i < args.len() && (i - position) % 2 == 0 ==> {
            &&& #[trigger] flag_of(args[i]) is Some
            &&& parse_unsigned(args[i + 1], flag_limit(flag_of(args[i])->Some_0)) is Some
        }
}

/// Whatever is accepted from `position` on consists of well-formed pairs
/// and asks for at least one iteration.
proof fn lemma_accepted_from(args: Seq<Seq<char>>, position: int, options: BenchmarkOptions)
    requires
        0 <= position <= args.len(),
        parse_from(args, position, options) is Ok,
    ensures
        well_formed_from(args, position),
        parse_from(args, position, options)->Ok_0.is_valid(),
    decreases args.len() - position,
{
    if position < args.len() {
        let flag = flag_of(args[position])->Some_0;
        let value = parse_unsigned(args[position + 1], flag_limit(flag))->Some_0;
        lemma_accepted_from(args, position + 2, with_value(options, flag, value));
        assert forall|i: int|
            position <= i < args.len() && (i - position) % 2 == 0 implies {
            &&& #[trigger] flag_of(args[i]) is Some
            &&& parse_unsigned(args[i + 1], flag_limit(flag_of(args[i])->Some_0)) is Some
        } by {
            if i != position {
                assert((i - (position + 2)) % 2 == 0);
            }
        }
    }
}

/// An argument list is accepted only if it consists of pairs of a recognized
/// flag and a numeral in the range of that flag's field, and the options it
/// yields ask for at least one iteration. So an unrecognized flag, a flag
/// without a value, a value that is no numeral, and an iteration count of
/// zero are each rejected.
pub proof fn lemma_accepted_arguments_are_well_formed(args: Seq<Seq<char>>)
    requires
        parse_arguments(args) is Ok,
    ensures
        well_formed_from(args, 0),
        parse_arguments(args)->Ok_0.is_valid(),
{
    lemma_accepted_from(args, 0, default_options());
}

/// The value that the pairs of `args` between `start` and `end` give to
/// `flag`: that of the last pair that names `flag`, if any does.
pub open spec fn last_setting(args: Seq<Seq<char>>, flag: Flag, start: int, end: int) -> Option<
    nat,
>
    decreases end - start,
{
    if end - start < 2 {
        None
    } else if flag_of(args[end - 2]) == Some(flag) {
        parse_unsigned(args[end - 1], flag_limit(flag))
    } else {
        last_setting(args, flag, start, end - 2)
    }
}

/// `options` with `flag` set to its last setting in `args` from `start` on, if it has one.
pub open spec fn with_last_setting(
    options: BenchmarkOptions,
    args: Seq<Seq<char>>,
    flag: Flag,
    start: int,
) -> BenchmarkOptions {
    match last_setting(args, flag, start, args.len() as int) {
        Some(value) => with_value(options, flag, value),
        None => options,
    }
}

/// `options` with every field set to its last setting in `args` from `start` on.
pub open spec fn with_last_settings(
    options: BenchmarkOptions,
    args: Seq<Seq<char>>,
    start: int,
) -> BenchmarkOptions {
    with_last_setting(
        with_last_setting(
            with_last_setting(
                with_last_setting(options, args, Flag::Iterations, start),
                args,
                Flag::SumN,
                start,
            ),
            args,
            Flag::PrimeN,
            start,
        ),
        args,
        Flag::MatrixN,
        start,
    )
}

/// The final check on a configuration: it must ask for at least one iteration.
pub open spec fn checked(options: BenchmarkOptions) -> Result<BenchmarkOptions, InvalidArgument> {
    if options.iterations == 0 {
        Err(InvalidArgument::ZeroIterations)
    } else {
        Ok(options)
    }
}

/// In a well-formed list, the last setting of a flag from `start` on is its
/// last setting after the first pair, or else what the first pair gives it.
proof fn lemma_last_setting_front(args: Seq<Seq<char>>, flag: Flag, start: int, end: int)
    requires
        0 <= start,
        start + 2 <= end <= args.len(),
        (end - start) % 2 == 0,
        well_formed_from(args, start),
    ensures
        last_setting(args, flag, start, end) == match last_setting(args, flag, start + 2, end) {
            Some(value) => Some(value),
            None => if flag_of(args[start]) == Some(flag) {
                parse_unsigned(args[start + 1], flag_limit(flag))
            } else {
                None
            },
        },
    decreases end - start,
{
    if end > start + 2 {
        assert((end - 2 - start) % 2 == 0);
        assert(flag_of(args[end - 2]) is Some);
        if flag_of(args[end - 2]) != Some(flag) {
            lemma_last_setting_front(args, flag, start, end - 2);
        }
    } else {
        assert(last_setting(args, flag, start, start) is None);
        assert(last_setting(args, flag, start + 2, end) is None);
    }
}

/// Reading a well-formed list from `position` on sets every field to its last setting.
proof fn lemma_last_settings_from(args: Seq<Seq<char>>, position: int, options: BenchmarkOptions)
    requires
        0 <= position <= args.len(),
        well_formed_from(args, position),
    ensures
        parse_from(args, position, options) == checked(
            with_last_settings(options, args, position),
        ),
    decreases args.len() - position,
{
    let end = args.len() as int;
    if position < end {
        assert(flag_of(args[position]) is Some);
        let first = flag_of(args[position])->Some_0;
        let value = parse_unsigned(args[position + 1], flag_limit(first))->Some_0;
        assert forall|i: int|
            position + 2 <= i < args.len() && (i - (position + 2)) % 2 == 0 implies {
            &&& #[trigger] flag_of(args[i]) is Some
            &&& parse_unsigned(args[i + 1], flag_limit(flag_of(args[i])->Some_0)) is Some
        } by {
            assert((i - position) % 2 == 0);
        }
        lemma_last_settings_from(args, position + 2, with_value(options, first, value));
        lemma_last_setting_front(args, Flag::Iterations, position, end);
        lemma_last_setting_front(args, Flag::SumN, position, end);
        lemma_last_setting_front(args, Flag::PrimeN, position, end);
        lemma_last_setting_front(args, Flag::MatrixN, position, end);
    }
}

/// In an argument list that consists of pairs of a recognized flag and a
/// numeral in range, the last value given for a flag decides its field, a
/// flag that is not given keeps its default, and the list is accepted
/// exactly if the resulting iteration count is not zero.
pub proof fn lemma_last_setting_wins(args: Seq<Seq<char>>)
    requires
        well_formed_from(args, 0),
    ensures
        parse_arguments(args) == checked(with_last_settings(default_options(), args, 0)),
{
    lemma_last_settings_from(args, 0, default_options());
}

impl BenchmarkOptions {
    /// A configuration is valid when it asks for at least one iteration.
    pub open spec fn is_valid(self) -> bool {
        self.iterations > 0
    }
}

impl Default for BenchmarkOptions {
    fn default() -> (options: Self)
        ensures
            options == default_options(),
            options.is_valid(),
    {
        BenchmarkOptions { iterations: 5, sum_n: 5_000_000, prime_n: 30_000, matrix_n: 48 }
    }
}

impl Flag {
    /// The primary spelling of the flag on the command line.
    pub fn name(self) -> (name: &'static str)
        ensures
            flag_of(name@) == Some(self),
            name@ == match self {
                Flag::Iterations => "--iterations"@,
                Flag::SumN => "--sum-n"@,
                Flag::PrimeN => "--prime-n"@,
                Flag::MatrixN => "--matrix-n"@,
            },
    {
        proof {
            lemma_flag_spellings_differ();
        }
        match self {
            Flag::Iterations => "--iterations",
            Flag::SumN => "--sum-n",
            Flag::PrimeN => "--prime-n",
            Flag::MatrixN => "--matrix-n",
        }
    }
}

/// The five spellings are pairwise different, so each names exactly one flag.
pub proof fn lemma_flag_spellings_differ()
    ensures
        flag_of("--iterations"@) == Some(Flag::Iterations),
        flag_of("--sum-n"@) == Some(Flag::SumN),
        flag_of("--prime-n"@) == Some(Flag::PrimeN),
        flag_of("--sieve-n"@) == Some(Flag::PrimeN),
        flag_of("--matrix-n"@) == Some(Flag::MatrixN),
{
    reveal_strlit("--iterations");
    reveal_strlit("--sum-n");
    reveal_strlit("--prime-n");
    reveal_strlit("--sieve-n");
    reveal_strlit("--matrix-n");
    assert("--iterations"@.len() == 12);
    assert("--sum-n"@.len() == 7);
    assert("--prime-n"@.len() == 9);
    assert("--sieve-n"@.len() == 9);
    assert("--matrix-n"@.len() == 10);
    assert("--prime-n"@[2] == 'p');
    assert("--sieve-n"@[2] == 's');
}

/// Whether the argument `arg` is spelled exactly `spelling`.
fn is_spelled(arg: &String, spelling: &str) -> (same: bool)
    ensures
        same == (arg@ == spelling@),
{
    let owned = spelling.to_owned();
    *arg == owned
}

/// Recognizes the flag that `arg` spells.
pub fn recognize_flag(arg: &String) -> (flag: Option<Flag>)
    ensures
        flag == flag_of(arg@),
{
    if is_spelled(arg, "--iterations") {
        Some(Flag::Iterations)
    } else if is_spelled(arg, "--sum-n") {
        Some(Flag::SumN)
    } else if is_spelled(arg, "--prime-n") || is_spelled(arg, "--sieve-n") {
        Some(Flag::PrimeN)
    } else if is_spelled(arg, "--matrix-n") {
        Some(Flag::MatrixN)
    } else {
        None
    }
}

/// Reads `text` as the value of `flag` and stores it in `options`.
pub fn set_value(options: BenchmarkOptions, flag: Flag, text: &String) -> (updated: Option<
    BenchmarkOptions,
>)
    ensures
        updated == match parse_unsigned(text@, flag_limit(flag)) {
            Some(value) => Some(with_value(options, flag, value)),
            None => None,
        },
{
    match flag {
        Flag::SumN => match parse_u64(text.as_str()) {
            Some(value) => Some(BenchmarkOptions { sum_n: value, ..options }),
            None => None,
        },
        Flag::Iterations => match parse_usize(text.as_str()) {
            Some(value) => Some(BenchmarkOptions { iterations: value, ..options }),
            None => None,
        },
        Flag::PrimeN => match parse_usize(text.as_str()) {
            Some(value) => Some(BenchmarkOptions { prime_n: value, ..options }),
            None => None,
        },
        Flag::MatrixN => match parse_usize(text.as_str()) {
            Some(value) => Some(BenchmarkOptions { matrix_n: value, ..options }),
            None => None,
        },
    }
}

/// Reads the options of a run from `args`, the argument list without the
/// program name. Fields that no argument sets keep their defaults.
pub fn parse_options(args: &Vec<String>) -> (parsed: Result<BenchmarkOptions, InvalidArgument>)
    ensures
        parsed == parse_arguments(args.deep_view()),
        parsed matches Ok(options) ==> options.is_valid(),
        parsed matches Err(InvalidArgument::UnknownOption { position }) ==> position < args.len()
            && flag_of(args[position as int]@) is None,
{
    let ghost texts = args.deep_view();
    let mut options = BenchmarkOptions::default();
    let mut position: usize = 0;
    while position < args.len()
        invariant
            position <= args.len(),
            texts == args.deep_view(),
            parse_arguments(texts) == parse_from(texts, position as int, options),
        decreases args.len() - position,
    {
        assert(texts[position as int] == args[position as int]@);
        let flag = match recognize_flag(&args[position]) {
            Some(flag) => flag,
            None => {
                return Err(InvalidArgument::UnknownOption { position });
            },
        };
        if position + 1 >= args.len() {
            return Err(InvalidArgument::MissingValue { flag });
        }
        assert(texts[position + 1] == args[position + 1]@);
        options = match set_value(options, flag, &args[position + 1]) {
            Some(updated) => updated,
            None => {
                return Err(InvalidArgument::InvalidValue { flag });
            },
        };
        position += 2;
    }
    if options.iterations == 0 {
        Err(InvalidArgument::ZeroIterations)
    } else {
        Ok(options)
    }
}

} // verus!
