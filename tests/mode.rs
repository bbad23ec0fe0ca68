use fsutils::mode::{apply, new_mode, parse, Clause, ModeExpression, Op, ParseError};

fn applied(expr: &str, current: u32) -> u32 {
    match new_mode(expr, current) {
        Ok(m) => m,
        Err(e) => panic!("{:?} refused: {:?}", expr, e),
    }
}

#[test]
fn numeric_755_replaces_644() {
    assert_eq!(applied("755", 0o644), 0o755);
}

#[test]
fn group_other_remove_write_from_666() {
    assert_eq!(applied("go-w", 0o666), 0o644);
}

#[test]
fn numeric_ignores_current_mode() {
    for current in [0u32, 0o777, 0o4755, 0o123, 0o7777] {
        assert_eq!(applied("0", current), 0);
        assert_eq!(applied("7", current), 0o7);
        assert_eq!(applied("644", current), 0o644);
        assert_eq!(applied("4755", current), 0o4755);
        assert_eq!(applied("7777", current), 0o7777);
    }
}

#[test]
fn numeric_with_leading_zeros() {
    assert_eq!(applied("0755", 0), 0o755);
    assert_eq!(applied("00000644", 0o777), 0o644);
}

#[test]
fn numeric_out_of_range_or_not_octal() {
    assert_eq!(parse("8").unwrap_err(), ParseError::InvalidMode);
    assert_eq!(parse("759").unwrap_err(), ParseError::InvalidMode);
    assert_eq!(parse("10000").unwrap_err(), ParseError::InvalidMode);
    assert_eq!(parse("77777777777777777777").unwrap_err(), ParseError::InvalidMode);
    assert_eq!(parse("").unwrap_err(), ParseError::InvalidMode);
}

#[test]
fn user_add_execute_sets_only_that_bit() {
    for current in [0u32, 0o644, 0o100, 0o777, 0o4600, 0o7000] {
        let r = applied("u+x", current);
        assert_eq!(r, current | 0o100);
        assert_eq!(r & !0o100, current & !0o100);
    }
}

#[test]
fn all_remove_write_clears_only_write_bits() {
    for current in [0u32, 0o666, 0o777, 0o2775, 0o444] {
        let r = applied("a-w", current);
        assert_eq!(r, current & !0o222);
    }
    assert_eq!(applied("a-w", 0o777), 0o555);
}

#[test]
fn user_read_round_trip() {
    for current in [0u32, 0o044, 0o377, 0o1233] {
        let once = applied("u+r", current);
        assert_eq!(applied("u-r", once), current);
    }
    // With the owner read bit already on, the pair turns it off.
    assert_eq!(applied("u-r", applied("u+r", 0o400)), 0);
}

#[test]
fn clauses_close_at_each_operator() {
    // u+r then u-w: the classes carry over to the second clause.
    assert_eq!(applied("u+r-w", 0o200), 0o400);
    // A class letter after bits starts a new clause.
    assert_eq!(applied("u+xg-r", 0o644), 0o704);
    assert_eq!(applied("ug+rw", 0), 0o660);
    assert_eq!(applied("o+rwx", 0o700), 0o707);
}

#[test]
fn symbolic_keeps_special_bits() {
    assert_eq!(applied("a+rwx", 0o4000), 0o4777);
    assert_eq!(applied("a-rwx", 0o7777), 0o7000);
}

#[test]
fn symbolic_parse_result() {
    let e = parse("go-w").unwrap();
    let expected = Clause {
        user: false,
        group: true,
        other: true,
        op: Op::Remove,
        read: false,
        write: true,
        execute: false,
    };
    match e {
        ModeExpression::Symbolic(cs) => assert_eq!(cs, vec![expected]),
        ModeExpression::Numeric(_) => panic!("expected clauses"),
    }
    match parse("640").unwrap() {
        ModeExpression::Numeric(v) => assert_eq!(v, 0o640),
        ModeExpression::Symbolic(_) => panic!("expected a number"),
    }
}

#[test]
fn assign_clause_replaces_class_bits() {
    let c = Clause {
        user: true,
        group: false,
        other: false,
        op: Op::Assign,
        read: true,
        write: false,
        execute: false,
    };
    assert_eq!(c.apply_to(0o755), 0o455);
    assert_eq!(apply(0o4755, &ModeExpression::Symbolic(vec![c])), 0o4455);
}

#[test]
fn unknown_flag_is_refused() {
    assert_eq!(parse("u+q").unwrap_err(), ParseError::UnknownFlag);
    assert_eq!(parse("u=r").unwrap_err(), ParseError::UnknownFlag);
    assert_eq!(parse("7a").unwrap_err(), ParseError::UnknownFlag);
    assert_eq!(new_mode("-rw", 0o644).unwrap_err(), ParseError::MissingClass);
}

#[test]
fn malformed_symbolic_is_refused() {
    assert_eq!(parse("ugo").unwrap_err(), ParseError::MissingOperator);
    assert_eq!(parse("r").unwrap_err(), ParseError::MissingOperator);
    assert_eq!(parse("u+rg").unwrap_err(), ParseError::MissingOperator);
    assert_eq!(parse("+x").unwrap_err(), ParseError::MissingClass);
    assert_eq!(parse("u+").unwrap_err(), ParseError::MissingBits);
    assert_eq!(parse("u+-w").unwrap_err(), ParseError::MissingBits);
    assert_eq!(parse("u+g").unwrap_err(), ParseError::MissingBits);
}
