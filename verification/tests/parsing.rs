use tokamak_rs::radix_tree::parsing::{first_nonequal_idx, take_until_unbalanced, ScanError};

#[test]
fn test_take_until_unmatched() {
    assert_eq!(take_until_unbalanced('(', ')', "abc"), Ok(("", "abc")));
    assert_eq!(take_until_unbalanced('(', ')', "url)abc"), Ok((")abc", "url")));
    assert_eq!(take_until_unbalanced('(', ')', "u()rl)abc"), Ok((")abc", "u()rl")));
    assert_eq!(take_until_unbalanced('(', ')', "u(())rl)abc"), Ok((")abc", "u(())rl")));
    assert_eq!(
        take_until_unbalanced('(', ')', "u(())r()l)abc"),
        Ok((")abc", "u(())r()l"))
    );
    assert_eq!(
        take_until_unbalanced('(', ')', "u(())r()labc"),
        Ok(("", "u(())r()labc"))
    );
    assert_eq!(
        take_until_unbalanced('(', ')', r#"u\((\))r()labc"#),
        Ok(("", r#"u\((\))r()labc"#))
    );
    assert_eq!(
        take_until_unbalanced('(', ')', "u(())r(labc"),
        Err(ScanError::UnterminatedBracketGroup {
            offending_input: "u(())r(labc",
        })
    );
    assert_eq!(
        take_until_unbalanced('€', 'ü', "€uü€€üürlüabc"),
        Ok(("üabc", "€uü€€üürl"))
    );
}

#[test]
fn divergence_of_identical_strings_is_full_length() {
    assert_eq!(first_nonequal_idx("abc", "abc"), 3);
    assert_eq!(first_nonequal_idx("€ü€", "€ü€"), 3);
}

#[test]
fn divergence_at_first_mismatch() {
    assert_eq!(first_nonequal_idx("abx", "aby"), 2);
    assert_eq!(first_nonequal_idx("xbc", "ybc"), 0);
    assert_eq!(first_nonequal_idx("€€a", "€€b"), 2);
}

#[test]
fn divergence_of_empty_inputs() {
    assert_eq!(first_nonequal_idx("", ""), 0);
    assert_eq!(first_nonequal_idx("", "x"), 0);
    assert_eq!(first_nonequal_idx("x", ""), 0);
}

#[test]
fn divergence_stops_at_shorter_input() {
    assert_eq!(first_nonequal_idx("abc", "abcdef"), 3);
    assert_eq!(first_nonequal_idx("abcdef", "abc"), 3);
}

#[test]
fn scan_empty_input_succeeds() {
    assert_eq!(take_until_unbalanced('(', ')', ""), Ok(("", "")));
}

#[test]
fn scan_round_trip_reconstructs_input() {
    let inputs = ["abc", "url)abc", "u(())r()l)abc", r#"u\((\))r()labc"#, "€uü€€üürlüabc"];
    for input in inputs {
        let (remainder, prefix) = take_until_unbalanced('(', ')', input).unwrap();
        let mut rebuilt = String::from(prefix);
        rebuilt.push_str(remainder);
        assert_eq!(rebuilt, input);
    }
    let (remainder, prefix) = take_until_unbalanced('€', 'ü', "€uü€€üürlüabc").unwrap();
    let mut rebuilt = String::from(prefix);
    rebuilt.push_str(remainder);
    assert_eq!(rebuilt, "€uü€€üürlüabc");
}

#[test]
fn rescanning_remainder_consumes_nothing() {
    let (remainder, _) = take_until_unbalanced('(', ')', "url)abc").unwrap();
    assert_eq!(take_until_unbalanced('(', ')', remainder), Ok((")abc", "")));
    assert_eq!(take_until_unbalanced('(', ')', remainder), Ok((")abc", "")));

    let (remainder, _) = take_until_unbalanced('(', ')', "abc").unwrap();
    assert_eq!(take_until_unbalanced('(', ')', remainder), Ok(("", "")));
}

#[test]
fn trailing_backslash_escapes_nothing() {
    assert_eq!(take_until_unbalanced('(', ')', "ab\\"), Ok(("", "ab\\")));
    assert_eq!(
        take_until_unbalanced('(', ')', "(\\"),
        Err(ScanError::UnterminatedBracketGroup {
            offending_input: "(\\",
        })
    );
}

#[test]
fn escaped_closing_bracket_is_consumed_verbatim() {
    assert_eq!(take_until_unbalanced('(', ')', "a\\)b"), Ok(("", "a\\)b")));
    assert_eq!(take_until_unbalanced('(', ')', "\\\\)b"), Ok((")b", "\\\\")));
}

#[test]
fn equal_bracket_pair_counts_every_occurrence_as_opening() {
    assert_eq!(take_until_unbalanced('|', '|', "ab"), Ok(("", "ab")));
    assert_eq!(
        take_until_unbalanced('|', '|', "a|b"),
        Err(ScanError::UnterminatedBracketGroup {
            offending_input: "a|b",
        })
    );
    assert_eq!(take_until_unbalanced('|', '|', "a\\|b"), Ok(("", "a\\|b")));
}

#[test]
fn unterminated_error_carries_original_input() {
    let err = take_until_unbalanced('(', ')', "((a)").unwrap_err();
    let ScanError::UnterminatedBracketGroup { offending_input } = err;
    assert_eq!(offending_input, "((a)");
}
