use microbench::decimal::{parse_u64, parse_usize};
use microbench::options::{
    parse_options, recognize_flag, set_value, BenchmarkOptions, Flag, InvalidArgument,
};

fn args(words: &[&str]) -> Vec<String> {
    words.iter().map(|word| word.to_string()).collect()
}

fn defaults() -> BenchmarkOptions {
    BenchmarkOptions { iterations: 5, sum_n: 5_000_000, prime_n: 30_000, matrix_n: 48 }
}

#[test]
fn no_arguments_give_the_defaults() {
    assert_eq!(parse_options(&args(&[])), Ok(defaults()));
    assert_eq!(BenchmarkOptions::default(), defaults());
}

#[test]
fn each_flag_sets_its_field() {
    assert_eq!(
        parse_options(&args(&["--iterations", "9"])),
        Ok(BenchmarkOptions { iterations: 9, ..defaults() })
    );
    assert_eq!(
        parse_options(&args(&["--sum-n", "123456789012"])),
        Ok(BenchmarkOptions { sum_n: 123456789012, ..defaults() })
    );
    assert_eq!(
        parse_options(&args(&["--prime-n", "17"])),
        Ok(BenchmarkOptions { prime_n: 17, ..defaults() })
    );
    assert_eq!(
        parse_options(&args(&["--matrix-n", "0"])),
        Ok(BenchmarkOptions { matrix_n: 0, ..defaults() })
    );
}

#[test]
fn sieve_n_is_an_alias_of_prime_n() {
    assert_eq!(
        parse_options(&args(&["--sieve-n", "64"])),
        parse_options(&args(&["--prime-n", "64"]))
    );
    assert_eq!(parse_options(&args(&["--sieve-n", "64"])).unwrap().prime_n, 64);
}

#[test]
fn all_flags_together() {
    let parsed = parse_options(&args(&[
        "--matrix-n", "3", "--sum-n", "10", "--iterations", "2", "--prime-n", "100",
    ]));
    assert_eq!(
        parsed,
        Ok(BenchmarkOptions { iterations: 2, sum_n: 10, prime_n: 100, matrix_n: 3 })
    );
}

#[test]
fn a_later_value_replaces_an_earlier_one() {
    assert_eq!(
        parse_options(&args(&["--sum-n", "1", "--sum-n", "2"])).unwrap().sum_n,
        2
    );
    assert_eq!(
        parse_options(&args(&["--iterations", "0", "--iterations", "3"])).unwrap().iterations,
        3
    );
    assert_eq!(
        parse_options(&args(&["--prime-n", "5", "--sieve-n", "6"])).unwrap().prime_n,
        6
    );
}

#[test]
fn zero_iterations_are_rejected() {
    assert_eq!(
        parse_options(&args(&["--iterations", "0"])),
        Err(InvalidArgument::ZeroIterations)
    );
    assert_eq!(
        parse_options(&args(&["--iterations", "4", "--iterations", "000"])),
        Err(InvalidArgument::ZeroIterations)
    );
}

#[test]
fn an_unknown_flag_is_rejected() {
    assert_eq!(
        parse_options(&args(&["--bogus", "1"])),
        Err(InvalidArgument::UnknownOption { position: 0 })
    );
    assert_eq!(
        parse_options(&args(&["--sum-n", "1", "--Sum-N", "2"])),
        Err(InvalidArgument::UnknownOption { position: 2 })
    );
    assert_eq!(
        parse_options(&args(&["12"])),
        Err(InvalidArgument::UnknownOption { position: 0 })
    );
    assert_eq!(
        parse_options(&args(&["--iterations=3"])),
        Err(InvalidArgument::UnknownOption { position: 0 })
    );
    assert_eq!(parse_options(&args(&[""])), Err(InvalidArgument::UnknownOption { position: 0 }));
}

#[test]
fn a_flag_without_a_value_is_rejected() {
    assert_eq!(
        parse_options(&args(&["--iterations"])),
        Err(InvalidArgument::MissingValue { flag: Flag::Iterations })
    );
    assert_eq!(
        parse_options(&args(&["--sum-n", "4", "--sieve-n"])),
        Err(InvalidArgument::MissingValue { flag: Flag::PrimeN })
    );
    assert_eq!(
        parse_options(&args(&["--matrix-n"])),
        Err(InvalidArgument::MissingValue { flag: Flag::MatrixN })
    );
    assert_eq!(
        parse_options(&args(&["--sum-n"])),
        Err(InvalidArgument::MissingValue { flag: Flag::SumN })
    );
}

#[test]
fn a_value_that_is_no_number_is_rejected() {
    for bad in ["abc", "", "-1", "1.5", "0x10", " 7", "7 ", "1_000", "+", "++1", "٣", "1e3"] {
        assert_eq!(
            parse_options(&args(&["--sum-n", bad])),
            Err(InvalidArgument::InvalidValue { flag: Flag::SumN })
        );
        assert_eq!(
            parse_options(&args(&["--iterations", bad])),
            Err(InvalidArgument::InvalidValue { flag: Flag::Iterations })
        );
    }
    assert_eq!(
        parse_options(&args(&["--prime-n", "--matrix-n", "3"])),
        Err(InvalidArgument::InvalidValue { flag: Flag::PrimeN })
    );
}

#[test]
fn a_value_out_of_range_is_rejected() {
    assert_eq!(
        parse_options(&args(&["--sum-n", "18446744073709551616"])),
        Err(InvalidArgument::InvalidValue { flag: Flag::SumN })
    );
    assert_eq!(
        parse_options(&args(&["--matrix-n", "99999999999999999999999"])),
        Err(InvalidArgument::InvalidValue { flag: Flag::MatrixN })
    );
    assert_eq!(
        parse_options(&args(&["--sum-n", "18446744073709551615"])).unwrap().sum_n,
        u64::MAX
    );
    let largest = usize::MAX.to_string();
    assert_eq!(
        parse_options(&args(&["--prime-n", largest.as_str()])).unwrap().prime_n,
        usize::MAX
    );
}

#[test]
fn the_first_error_decides() {
    assert_eq!(
        parse_options(&args(&["--iterations", "0", "--bogus"])),
        Err(InvalidArgument::UnknownOption { position: 2 })
    );
    assert_eq!(
        parse_options(&args(&["--iterations", "x", "--bogus"])),
        Err(InvalidArgument::InvalidValue { flag: Flag::Iterations })
    );
    assert_eq!(
        parse_options(&args(&["--iterations", "0", "--sum-n"])),
        Err(InvalidArgument::MissingValue { flag: Flag::SumN })
    );
}

#[test]
fn accepted_options_are_valid() {
    for words in [vec![], vec!["--iterations", "1"], vec!["--sum-n", "0", "--matrix-n", "0"]] {
        let parsed = parse_options(&args(&words)).unwrap();
        assert!(parsed.iterations > 0);
    }
}

#[test]
fn flags_are_recognized_by_their_spelling() {
    assert_eq!(recognize_flag(&"--iterations".to_string()), Some(Flag::Iterations));
    assert_eq!(recognize_flag(&"--sum-n".to_string()), Some(Flag::SumN));
    assert_eq!(recognize_flag(&"--prime-n".to_string()), Some(Flag::PrimeN));
    assert_eq!(recognize_flag(&"--sieve-n".to_string()), Some(Flag::PrimeN));
    assert_eq!(recognize_flag(&"--matrix-n".to_string()), Some(Flag::MatrixN));
    for other in ["", "--", "-iterations", "--iterations ", "iterations", "--sum_n", "--prime"] {
        assert_eq!(recognize_flag(&other.to_string()), None);
    }
}

#[test]
fn flag_names_round_trip() {
    assert_eq!(Flag::Iterations.name(), "--iterations");
    assert_eq!(Flag::SumN.name(), "--sum-n");
    assert_eq!(Flag::PrimeN.name(), "--prime-n");
    assert_eq!(Flag::MatrixN.name(), "--matrix-n");
    for flag in [Flag::Iterations, Flag::SumN, Flag::PrimeN, Flag::MatrixN] {
        assert_eq!(recognize_flag(&flag.name().to_string()), Some(flag));
    }
}

#[test]
fn set_value_touches_one_field() {
    let base = BenchmarkOptions { iterations: 1, sum_n: 2, prime_n: 3, matrix_n: 4 };
    assert_eq!(
        set_value(base, Flag::Iterations, &"10".to_string()),
        Some(BenchmarkOptions { iterations: 10, ..base })
    );
    assert_eq!(
        set_value(base, Flag::SumN, &"10".to_string()),
        Some(BenchmarkOptions { sum_n: 10, ..base })
    );
    assert_eq!(
        set_value(base, Flag::PrimeN, &"10".to_string()),
        Some(BenchmarkOptions { prime_n: 10, ..base })
    );
    assert_eq!(
        set_value(base, Flag::MatrixN, &"10".to_string()),
        Some(BenchmarkOptions { matrix_n: 10, ..base })
    );
    assert_eq!(set_value(base, Flag::MatrixN, &"ten".to_string()), None);
}

#[test]
fn numerals_are_read_exactly() {
    assert_eq!(parse_u64("0"), Some(0));
    assert_eq!(parse_u64("7"), Some(7));
    assert_eq!(parse_u64("42"), Some(42));
    assert_eq!(parse_u64("007"), Some(7));
    assert_eq!(parse_u64("+5"), Some(5));
    assert_eq!(parse_u64("+0"), Some(0));
    assert_eq!(parse_u64("5000000"), Some(5_000_000));
    assert_eq!(parse_u64("18446744073709551615"), Some(u64::MAX));
    assert_eq!(parse_u64("+18446744073709551615"), Some(u64::MAX));
    assert_eq!(parse_u64("00000000000000000000000000000000000012"), Some(12));
    assert_eq!(parse_usize("30000"), Some(30_000));
    assert_eq!(parse_usize("+48"), Some(48));
}

#[test]
fn what_is_no_numeral_is_refused() {
    for bad in [
        "", "+", "-", "-0", "-5", "+-5", "++5", "5+", " 5", "5 ", "5a", "a5", "1,000", "1_000",
        "0x1f", "1.0", "١٢٣", "５", "1\u{0}", "\n1",
    ] {
        assert_eq!(parse_u64(bad), None);
        assert_eq!(parse_usize(bad), None);
    }
}

#[test]
fn numerals_beyond_the_range_are_refused() {
    assert_eq!(parse_u64("18446744073709551616"), None);
    assert_eq!(parse_u64("18446744073709551620"), None);
    assert_eq!(parse_u64("184467440737095516150"), None);
    assert_eq!(parse_u64("99999999999999999999"), None);
    assert_eq!(parse_u64("100000000000000000000000000000000"), None);
    assert_eq!(parse_usize("340282366920938463463374607431768211456"), None);
    let beyond = (usize::MAX as u128 + 1).to_string();
    assert_eq!(parse_usize(beyond.as_str()), None);
    assert_eq!(parse_usize(usize::MAX.to_string().as_str()), Some(usize::MAX));
}

#[test]
fn numerals_agree_with_the_standard_parser() {
    let samples = [
        "0", "1", "+1", "-1", "", "+", "10", "0010", "18446744073709551615",
        "18446744073709551616", "4294967295", "4294967296", "12a", "a12", " 12", "1 2", "+ 1",
        "９", "1e5", "0b1", "+007",
    ];
    for text in samples {
        assert_eq!(parse_u64(text), text.parse::<u64>().ok());
        assert_eq!(parse_usize(text), text.parse::<usize>().ok());
    }
    for n in (0..100_000u64).step_by(37) {
        assert_eq!(parse_u64(n.to_string().as_str()), Some(n));
    }
}
