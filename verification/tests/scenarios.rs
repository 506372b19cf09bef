use stacklang::{checked_evaluate, checked_tokenize, evaluate, tokenize, Error, Instruction, Token};

fn run(code: &str) -> (Vec<String>, Result<(), Error>) {
    let tokens = tokenize(code).unwrap();
    let mut output = Vec::new();
    let result = evaluate(tokens, &mut output);
    (output, result)
}

#[test]
fn print_integer_literal() {
    let (output, result) = run("print 5");
    assert_eq!(result, Ok(()));
    assert_eq!(output, vec!["5".to_string()]);
}

#[test]
fn nested_add_is_summed_inside_out() {
    let (output, result) = run("print add 5 add 10 10");
    assert_eq!(result, Ok(()));
    assert_eq!(output, vec!["25".to_string()]);
}

#[test]
fn concat_joins_operands_in_source_order() {
    let (output, result) = run("print concat \"Hello, \" \"world!\"");
    assert_eq!(result, Ok(()));
    assert_eq!(output, vec!["Hello, world!".to_string()]);
}

#[test]
fn unknown_word_is_rejected() {
    assert_eq!(tokenize("foo"), Err(Error::UnknownToken));
}

#[test]
fn add_of_string_and_integer_is_mismatched() {
    let (output, result) = run("add \"x\" 5");
    assert_eq!(result, Err(Error::MismatchedTypes));
    assert!(output.is_empty());
}

#[test]
fn print_on_empty_stack_fails() {
    let (output, result) = run("print");
    assert_eq!(result, Err(Error::EvaluationError));
    assert!(output.is_empty());
}

#[test]
fn tokens_of_a_small_program() {
    assert_eq!(
        tokenize("(print (add 1 23))"),
        Ok(vec![
            Token::LParen,
            Token::Instruction(Instruction::Print),
            Token::LParen,
            Token::Instruction(Instruction::Add),
            Token::Integer(1),
            Token::Integer(23),
            Token::RParen,
            Token::RParen,
        ])
    );
}

#[test]
fn oversized_literal_has_no_tokens() {
    assert_eq!(checked_tokenize("9223372036854775808"), None);
    assert_eq!(
        checked_tokenize("9223372036854775807"),
        Some(Ok(vec![Token::Integer(i64::MAX)]))
    );
}

#[test]
fn add_without_operands_has_no_effect_defined() {
    let mut output = Vec::new();
    let tokens = vec![Token::Instruction(Instruction::Add), Token::Integer(1)];
    assert_eq!(checked_evaluate(tokens, &mut output), None);
}
