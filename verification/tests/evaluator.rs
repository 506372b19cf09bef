use stacklang::{checked_evaluate, evaluate, tokenize, Error, Instruction, Token};

fn print() -> Token {
    Token::Instruction(Instruction::Print)
}

fn add() -> Token {
    Token::Instruction(Instruction::Add)
}

fn concat() -> Token {
    Token::Instruction(Instruction::Concat)
}

fn integer(i: i64) -> Token {
    Token::Integer(i)
}

fn string(s: &str) -> Token {
    Token::String(s.to_string())
}

fn lines(items: &[&str]) -> Vec<String> {
    items.iter().map(|item| item.to_string()).collect()
}

fn run(tokens: Vec<Token>) -> (Vec<String>, Result<(), Error>) {
    let mut output = Vec::new();
    let result = evaluate(tokens, &mut output);
    (output, result)
}

fn checked_run(tokens: Vec<Token>) -> (Vec<String>, Option<Result<(), Error>>) {
    let mut output = Vec::new();
    let result = checked_evaluate(tokens, &mut output);
    (output, result)
}

#[test]
fn empty_program_prints_nothing() {
    assert_eq!(run(vec![]), (vec![], Ok(())));
}

#[test]
fn literals_alone_print_nothing() {
    assert_eq!(run(vec![integer(1), string("a"), integer(2)]), (vec![], Ok(())));
}

#[test]
fn leftover_values_are_no_error() {
    assert_eq!(run(vec![print(), integer(1), integer(2)]), (lines(&["1"]), Ok(())));
}

#[test]
fn parentheses_alone_print_nothing() {
    assert_eq!(
        run(vec![Token::LParen, Token::RParen, Token::RParen]),
        (vec![], Ok(()))
    );
}

#[test]
fn print_shows_an_integer_in_decimal() {
    assert_eq!(run(vec![print(), integer(5)]), (lines(&["5"]), Ok(())));
    assert_eq!(run(vec![print(), integer(0)]), (lines(&["0"]), Ok(())));
    assert_eq!(run(vec![print(), integer(1000)]), (lines(&["1000"]), Ok(())));
    assert_eq!(
        run(vec![print(), integer(i64::MAX)]),
        (lines(&["9223372036854775807"]), Ok(()))
    );
}

#[test]
fn print_shows_a_negative_integer_with_its_sign() {
    assert_eq!(run(vec![print(), integer(-5)]), (lines(&["-5"]), Ok(())));
    assert_eq!(
        run(vec![print(), integer(i64::MIN)]),
        (lines(&["-9223372036854775808"]), Ok(()))
    );
}

#[test]
fn print_shows_a_string_as_it_stands() {
    assert_eq!(
        run(vec![print(), string("a \"b\"\n")]),
        (lines(&["a \"b\"\n"]), Ok(()))
    );
    assert_eq!(run(vec![print(), string("")]), (lines(&[""]), Ok(())));
}

#[test]
fn print_takes_the_top_of_the_stack() {
    assert_eq!(run(vec![print(), integer(1), integer(2)]), (lines(&["1"]), Ok(())));
    assert_eq!(
        run(vec![print(), print(), integer(1), integer(2)]),
        (lines(&["1", "2"]), Ok(()))
    );
}

#[test]
fn print_on_an_empty_stack_is_an_error() {
    assert_eq!(run(vec![print()]), (vec![], Err(Error::EvaluationError)));
    assert_eq!(
        run(vec![print(), print(), integer(1)]),
        (lines(&["1"]), Err(Error::EvaluationError))
    );
}

#[test]
fn tokens_are_taken_from_the_last_to_the_first() {
    assert_eq!(
        run(vec![print(), integer(1), print(), integer(2)]),
        (lines(&["2", "1"]), Ok(()))
    );
}

#[test]
fn add_sums_two_integers() {
    assert_eq!(run(vec![print(), add(), integer(2), integer(3)]), (lines(&["5"]), Ok(())));
    assert_eq!(run(vec![print(), add(), integer(-7), integer(3)]), (lines(&["-4"]), Ok(())));
    assert_eq!(
        run(vec![print(), add(), integer(i64::MAX), integer(0)]),
        (lines(&["9223372036854775807"]), Ok(()))
    );
    assert_eq!(
        run(vec![print(), add(), integer(i64::MIN), integer(i64::MAX)]),
        (lines(&["-1"]), Ok(()))
    );
}

#[test]
fn nested_add() {
    assert_eq!(
        run(vec![print(), add(), integer(5), add(), integer(10), integer(10)]),
        (lines(&["25"]), Ok(()))
    );
    assert_eq!(
        run(vec![print(), add(), add(), integer(1), integer(2), integer(4)]),
        (lines(&["7"]), Ok(()))
    );
}

#[test]
fn add_leaves_the_values_below_in_place() {
    assert_eq!(
        run(vec![print(), print(), add(), integer(1), integer(2), string("below")]),
        (lines(&["3", "below"]), Ok(()))
    );
}

#[test]
fn add_of_a_string_is_mismatched() {
    assert_eq!(
        run(vec![add(), string("x"), integer(5)]),
        (vec![], Err(Error::MismatchedTypes))
    );
    assert_eq!(
        run(vec![add(), integer(5), string("x")]),
        (vec![], Err(Error::MismatchedTypes))
    );
    assert_eq!(
        run(vec![add(), string("x"), string("y")]),
        (vec![], Err(Error::MismatchedTypes))
    );
}

#[test]
fn add_of_a_lone_string_is_mismatched() {
    assert_eq!(run(vec![add(), string("x")]), (vec![], Err(Error::MismatchedTypes)));
}

#[test]
fn concat_joins_two_strings() {
    assert_eq!(
        run(vec![print(), concat(), string("Hello, "), string("world!")]),
        (lines(&["Hello, world!"]), Ok(()))
    );
    assert_eq!(
        run(vec![print(), concat(), string(""), string("b")]),
        (lines(&["b"]), Ok(()))
    );
}

#[test]
fn nested_concat() {
    assert_eq!(
        run(vec![
            print(),
            concat(),
            string("a"),
            concat(),
            string("b"),
            string("c"),
        ]),
        (lines(&["abc"]), Ok(()))
    );
}

#[test]
fn concat_of_an_integer_is_mismatched() {
    assert_eq!(
        run(vec![concat(), integer(5), string("x")]),
        (vec![], Err(Error::MismatchedTypes))
    );
    assert_eq!(
        run(vec![concat(), string("x"), integer(5)]),
        (vec![], Err(Error::MismatchedTypes))
    );
    assert_eq!(run(vec![concat(), integer(5)]), (vec![], Err(Error::MismatchedTypes)));
}

#[test]
fn lines_printed_before_an_error_stay() {
    assert_eq!(
        run(vec![add(), string("x"), integer(5), print(), integer(7)]),
        (lines(&["7"]), Err(Error::MismatchedTypes))
    );
}

#[test]
fn no_token_is_taken_after_an_error() {
    assert_eq!(
        run(vec![print(), integer(1), print(), print(), integer(2)]),
        (lines(&["2"]), Err(Error::EvaluationError))
    );
}

#[test]
fn output_is_appended() {
    let mut output = lines(&["before"]);
    let result = evaluate(vec![print(), integer(5)], &mut output);
    assert_eq!(result, Ok(()));
    assert_eq!(output, lines(&["before", "5"]));
}

#[test]
fn parentheses_change_nothing() {
    let plain = vec![print(), add(), integer(5), add(), integer(10), integer(10)];
    let grouped = vec![
        Token::LParen,
        print(),
        Token::LParen,
        add(),
        integer(5),
        Token::LParen,
        add(),
        integer(10),
        integer(10),
        Token::RParen,
        Token::RParen,
        Token::RParen,
    ];
    assert_eq!(run(grouped), run(plain));
    assert_eq!(
        run(vec![Token::RParen, add(), Token::LParen, string("x"), integer(1)]),
        run(vec![add(), string("x"), integer(1)])
    );
}

#[test]
fn add_without_operands_is_undefined() {
    assert_eq!(checked_run(vec![add()]), (vec![], None));
    assert_eq!(checked_run(vec![add(), integer(1)]), (vec![], None));
    assert_eq!(
        checked_run(vec![add(), integer(1), print(), integer(2)]),
        (lines(&["2"]), None)
    );
}

#[test]
fn concat_without_operands_is_undefined() {
    assert_eq!(checked_run(vec![concat()]), (vec![], None));
    assert_eq!(checked_run(vec![concat(), string("a")]), (vec![], None));
}

#[test]
fn sum_beyond_the_range_is_undefined() {
    assert_eq!(checked_run(vec![add(), integer(i64::MAX), integer(1)]), (vec![], None));
    assert_eq!(checked_run(vec![add(), integer(i64::MIN), integer(-1)]), (vec![], None));
    assert_eq!(
        checked_run(vec![print(), add(), integer(i64::MAX), integer(-1)]),
        (lines(&["9223372036854775806"]), Some(Ok(())))
    );
}

#[test]
fn checked_agrees_where_the_program_is_defined() {
    let programs = [
        "",
        "print 5",
        "print add 5 add 10 10",
        "print concat \"Hello, \" \"world!\"",
        "add \"x\" 5",
        "print",
        "print print 1",
    ];
    for code in programs {
        let (output, result) = run(tokenize(code).unwrap());
        assert_eq!(checked_run(tokenize(code).unwrap()), (output, Some(result)));
    }
}

#[test]
fn script_with_two_statements() {
    let code = "
        print
            add
                5
                add
                    10
                    10

        print
            concat
                \"Hello, \"
                \"world!\"
    ";
    assert_eq!(
        run(tokenize(code).unwrap()),
        (lines(&["Hello, world!", "25"]), Ok(()))
    );
}
