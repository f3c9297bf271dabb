use compiler::scanner::{
    checked_parse_i32, parse_char_literal, parse_i32, parse_str_literal, ArithmeticOperator,
    AssignmentOperator, BitwiseOperator, BoolLiteral, ControlFlow, LexicalError, LogicalOperator,
    Operator, Primitive, Program, RelationalOperator, ReservedWord, Separator, Token,
};
use compiler::state_machine::{StateMachine, StateMachineDescription, Transition};
use compiler::symbols::{Const, Symbol};

const DIGITS: &str = "0123456789";
const LETTERS: &str = "abcdefghijklmnopqrstuvwxyzABCDEFGHIJKLMNOPQRSTUVWXYZ";

fn transition(src_state: &str, symbol: char, dst_state: &str) -> Transition {
    Transition {
        src_state: src_state.to_string(),
        symbol: symbol.to_string(),
        dst_state: dst_state.to_string(),
    }
}

fn machine(description: StateMachineDescription) -> StateMachine {
    match StateMachine::try_from(description) {
        Ok(machine) => machine,
        Err(error) => panic!("{}", error.to_string()),
    }
}

/// Accepts `0` and the digit sequences that do not start with `0`.
fn numbers() -> StateMachine {
    let mut transitions = vec![transition("start", '0', "zero")];
    for digit in DIGITS.chars() {
        if digit != '0' {
            transitions.push(transition("start", digit, "number"));
        }
        transitions.push(transition("number", digit, "number"));
    }
    machine(StateMachineDescription {
        states: vec!["start".to_string(), "zero".to_string(), "number".to_string()],
        alphabet: DIGITS.chars().map(|digit| digit.to_string()).collect(),
        transitions,
        initial_state: "start".to_string(),
        final_states: vec!["zero".to_string(), "number".to_string()],
    })
}

/// Accepts a letter, or an underscore and one more character, followed by
/// letters, digits and underscores.
fn names() -> StateMachine {
    let mut transitions = vec![
        transition("start", '_', "underscore"),
        transition("underscore", '_', "name"),
        transition("name", '_', "name"),
    ];
    for letter in LETTERS.chars() {
        transitions.push(transition("start", letter, "name"));
        transitions.push(transition("underscore", letter, "name"));
        transitions.push(transition("name", letter, "name"));
    }
    for digit in DIGITS.chars() {
        transitions.push(transition("underscore", digit, "name"));
        transitions.push(transition("name", digit, "name"));
    }
    let mut alphabet: Vec<String> = LETTERS.chars().map(|letter| letter.to_string()).collect();
    alphabet.extend(DIGITS.chars().map(|digit| digit.to_string()));
    alphabet.push("_".to_string());
    machine(StateMachineDescription {
        states: vec!["start".to_string(), "underscore".to_string(), "name".to_string()],
        alphabet,
        transitions,
        initial_state: "start".to_string(),
        final_states: vec!["name".to_string()],
    })
}

fn scan(source: &str) -> Result<Program, LexicalError> {
    Program::from_source(source, &numbers(), &names())
}

fn scanned(source: &str) -> Program {
    match scan(source) {
        Ok(program) => program,
        Err(error) => panic!("{}", error.to_string()),
    }
}

fn failure(source: &str) -> LexicalError {
    match scan(source) {
        Ok(_) => panic!("the source was accepted"),
        Err(error) => error,
    }
}

fn tokens(source: &str) -> Vec<Token> {
    scanned(source).tokens().to_vec()
}

fn ident(name: &str) -> Symbol {
    Symbol::Ident(name.to_string())
}

fn number(value: i32) -> Symbol {
    Symbol::Const(Const::I32(value))
}

fn assignment() -> Token {
    Token::Operator(Operator::Assignment(AssignmentOperator))
}

fn relational(operator: RelationalOperator) -> Token {
    Token::Operator(Operator::Relational(operator))
}

fn arithmetic(operator: ArithmeticOperator) -> Token {
    Token::Operator(Operator::Arithmetic(operator))
}

fn logical(operator: LogicalOperator) -> Token {
    Token::Operator(Operator::Logical(operator))
}

fn bitwise(operator: BitwiseOperator) -> Token {
    Token::Operator(Operator::Bitwise(operator))
}

fn control_flow(word: ControlFlow) -> Token {
    Token::ReservedWord(ReservedWord::ControlFlow(word))
}

fn primitive(word: Primitive) -> Token {
    Token::ReservedWord(ReservedWord::Primitive(word))
}

#[test]
fn test_parse_i32() {
    assert_eq!(parse_i32("0"), 0);
    assert_eq!(parse_i32("123"), 123);
    assert_eq!(parse_i32("1000"), 1000);
}

#[test]
fn parse_i32_reads_every_number_of_32_bits() {
    assert_eq!(parse_i32(""), 0);
    assert_eq!(parse_i32("007"), 7);
    assert_eq!(parse_i32("2147483647"), i32::MAX);
    assert_eq!(parse_i32("0000000002147483647"), i32::MAX);
}

#[test]
fn checked_parse_i32_refuses_what_is_no_number_of_32_bits() {
    assert_eq!(checked_parse_i32("0"), Some(0));
    assert_eq!(checked_parse_i32(""), Some(0));
    assert_eq!(checked_parse_i32("42"), Some(42));
    assert_eq!(checked_parse_i32("2147483647"), Some(i32::MAX));
    assert_eq!(checked_parse_i32("2147483648"), None);
    assert_eq!(checked_parse_i32("2147483650"), None);
    assert_eq!(checked_parse_i32("99999999999999999999"), None);
    assert_eq!(checked_parse_i32("-1"), None);
    assert_eq!(checked_parse_i32("+1"), None);
    assert_eq!(checked_parse_i32("12a"), None);
    assert_eq!(checked_parse_i32("a12"), None);
    assert_eq!(checked_parse_i32("1 2"), None);
    assert_eq!(checked_parse_i32("\u{661}"), None);
    assert_eq!(checked_parse_i32("99999999999x"), None);
}

#[test]
fn an_assignment_is_scanned() {
    let program = scanned("x = 1;");
    assert_eq!(
        program.tokens(),
        &[Token::Ident(1), assignment(), Token::Literal(1), Token::Separator(Separator::Semicolon)]
    );

    let idents = program.idents().to_sorted_vec();
    assert_eq!(idents.len(), 1);
    assert_eq!(*idents[0].0, ident("x"));
    assert_eq!(idents[0].1, 1);
    assert_eq!(program.idents().get(&ident("x")), Some(1));

    let consts = program.consts().to_sorted_vec();
    assert_eq!(consts.len(), 1);
    assert_eq!(*consts[0].0, number(1));
    assert_eq!(consts[0].1, 1);
    assert_eq!(program.consts().get(&number(1)), Some(1));
}

#[test]
fn an_equality_is_one_operator() {
    let program = scanned("a == b");
    assert_eq!(
        program.tokens(),
        &[Token::Ident(1), relational(RelationalOperator::Equal), Token::Ident(2)]
    );
    assert_eq!(program.idents().get(&ident("a")), Some(1));
    assert_eq!(program.idents().get(&ident("b")), Some(2));
    assert_eq!(program.idents().len(), 2);
    assert!(program.consts().is_empty());
}

#[test]
fn a_word_that_is_nothing_fails_the_scan() {
    let error = failure("1a;");
    assert_eq!(error.line(), 1);
    assert!(error.message().contains("1a"));
    assert_eq!(error.message(), "Failed to parse \"1a\"");
    assert_eq!(error.to_string(), "Error on line 1: Failed to parse \"1a\"");
}

#[test]
fn the_error_names_the_line_of_the_word() {
    let error = failure("x = 1;\ny = 2;\n\nz = 3a;\n");
    assert_eq!(error.line(), 4);
    assert_eq!(error.message(), "Failed to parse \"3a\"");
    assert_eq!(error.to_string(), "Error on line 4: Failed to parse \"3a\"");

    let error = failure("a\nb\n$");
    assert_eq!(error.line(), 3);
    assert_eq!(error.message(), "Failed to parse \"$\"");

    // The line is that of the separator that ends the word.
    let error = failure("a\n1b\nc");
    assert_eq!(error.line(), 2);
}

#[test]
fn a_line_break_of_two_characters_counts_no_line() {
    // A carriage return with a line feed is one grapheme cluster: whitespace, and no line feed.
    let error = failure("a\r\nb\r\n$");
    assert_eq!(error.line(), 1);
    assert_eq!(tokens("a\r\nb"), vec![Token::Ident(1), Token::Ident(2)]);
}

#[test]
fn the_first_bad_word_is_reported() {
    let error = failure("ok 1x 2y");
    assert_eq!(error.message(), "Failed to parse \"1x\"");
}

#[test]
fn the_last_word_is_scanned_without_a_separator_behind_it() {
    assert_eq!(tokens("x"), vec![Token::Ident(1)]);
    assert_eq!(tokens("12"), vec![Token::Literal(1)]);
    assert_eq!(tokens("while"), vec![control_flow(ControlFlow::While)]);
    assert_eq!(failure("x 1a").message(), "Failed to parse \"1a\"");
}

#[test]
fn an_empty_source_has_no_tokens() {
    for source in ["", " ", "\n\n", " \t \r\n "] {
        let program = scanned(source);
        assert!(program.tokens().is_empty());
        assert!(program.idents().is_empty());
        assert!(program.consts().is_empty());
    }
}

#[test]
fn whitespace_only_ends_words() {
    assert_eq!(tokens("a b"), tokens("a   \t\n  b"));
    assert_eq!(tokens("a b"), tokens("  a b  "));
    assert_eq!(tokens("a\u{a0}b"), vec![Token::Ident(1), Token::Ident(2)]);
    assert_eq!(tokens("a\u{2003}b"), vec![Token::Ident(1), Token::Ident(2)]);
}

#[test]
fn separators_become_tokens() {
    assert_eq!(
        tokens(";:()[]{}"),
        vec![
            Token::Separator(Separator::Semicolon),
            Token::Separator(Separator::Colon),
            Token::Separator(Separator::OpenParanthesis),
            Token::Separator(Separator::ClosedParanthesis),
            Token::Separator(Separator::OpenSquareBracket),
            Token::Separator(Separator::ClosedSquareBracket),
            Token::Separator(Separator::OpenBracket),
            Token::Separator(Separator::ClosedBracket),
        ]
    );
    assert_eq!(
        tokens("f(x)"),
        vec![
            Token::Ident(1),
            Token::Separator(Separator::OpenParanthesis),
            Token::Ident(2),
            Token::Separator(Separator::ClosedParanthesis),
        ]
    );
}

#[test]
fn operators_of_two_characters_are_one_token() {
    assert_eq!(tokens("=="), vec![relational(RelationalOperator::Equal)]);
    assert_eq!(tokens("<="), vec![relational(RelationalOperator::LessOrEqual)]);
    assert_eq!(tokens(">="), vec![relational(RelationalOperator::GreaterOrEqual)]);
    assert_eq!(tokens("!="), vec![relational(RelationalOperator::NotEqual)]);
    assert_eq!(tokens("&&"), vec![logical(LogicalOperator::And)]);
    assert_eq!(tokens("||"), vec![logical(LogicalOperator::Or)]);
}

#[test]
fn operators_of_one_character_stay_alone() {
    assert_eq!(tokens("="), vec![assignment()]);
    assert_eq!(tokens("<"), vec![relational(RelationalOperator::Less)]);
    assert_eq!(tokens(">"), vec![relational(RelationalOperator::Greater)]);
    assert_eq!(tokens("!"), vec![logical(LogicalOperator::Not)]);
    assert_eq!(tokens("&"), vec![bitwise(BitwiseOperator::And)]);
    assert_eq!(tokens("|"), vec![bitwise(BitwiseOperator::Or)]);
    assert_eq!(tokens("^"), vec![bitwise(BitwiseOperator::Not)]);
    assert_eq!(tokens("+"), vec![arithmetic(ArithmeticOperator::Addition)]);
    assert_eq!(tokens("-"), vec![arithmetic(ArithmeticOperator::Subtraction)]);
    assert_eq!(tokens("*"), vec![arithmetic(ArithmeticOperator::Multiplication)]);
    assert_eq!(tokens("/"), vec![arithmetic(ArithmeticOperator::Division)]);
    assert_eq!(tokens("%"), vec![arithmetic(ArithmeticOperator::Remainder)]);
}

#[test]
fn the_cluster_behind_an_operator_is_read_again_where_the_two_are_no_operator() {
    assert_eq!(tokens("=a"), vec![assignment(), Token::Ident(1)]);
    assert_eq!(tokens("=;"), vec![assignment(), Token::Separator(Separator::Semicolon)]);
    assert_eq!(tokens("<1"), vec![relational(RelationalOperator::Less), Token::Literal(1)]);
    assert_eq!(
        tokens("=<"),
        vec![assignment(), relational(RelationalOperator::Less)]
    );
    assert_eq!(
        tokens("&|"),
        vec![bitwise(BitwiseOperator::And), bitwise(BitwiseOperator::Or)]
    );
    assert_eq!(
        tokens("+="),
        vec![arithmetic(ArithmeticOperator::Addition), assignment()]
    );
    assert_eq!(tokens("= ="), vec![assignment(), assignment()]);
}

#[test]
fn operators_pair_up_from_the_left() {
    assert_eq!(tokens("==="), vec![relational(RelationalOperator::Equal), assignment()]);
    assert_eq!(
        tokens("===="),
        vec![relational(RelationalOperator::Equal), relational(RelationalOperator::Equal)]
    );
    assert_eq!(
        tokens("!=="),
        vec![relational(RelationalOperator::NotEqual), assignment()]
    );
    assert_eq!(
        tokens("a<=b"),
        vec![Token::Ident(1), relational(RelationalOperator::LessOrEqual), Token::Ident(2)]
    );
    assert_eq!(
        tokens("&&&"),
        vec![logical(LogicalOperator::And), bitwise(BitwiseOperator::And)]
    );
}

#[test]
fn a_line_feed_behind_an_operator_is_counted() {
    let error = failure("a =\n1b");
    assert_eq!(error.line(), 2);
    let error = failure("a ==\n\n1b");
    assert_eq!(error.line(), 3);
}

#[test]
fn reserved_words_are_not_interned() {
    let program = scanned("i32 bool char str if else for in while true false");
    assert_eq!(
        program.tokens(),
        &[
            primitive(Primitive::I32),
            primitive(Primitive::Bool),
            primitive(Primitive::Char),
            primitive(Primitive::Str),
            control_flow(ControlFlow::If),
            control_flow(ControlFlow::Else),
            control_flow(ControlFlow::For),
            control_flow(ControlFlow::In),
            control_flow(ControlFlow::While),
            Token::ReservedWord(ReservedWord::BoolLiteral(BoolLiteral::True)),
            Token::ReservedWord(ReservedWord::BoolLiteral(BoolLiteral::False)),
        ]
    );
    assert!(program.idents().is_empty());
    assert!(program.consts().is_empty());
}

#[test]
fn words_that_begin_like_reserved_words_are_identifiers() {
    let program = scanned("iff whiles If i3 truth");
    assert_eq!(
        program.tokens(),
        &[Token::Ident(1), Token::Ident(2), Token::Ident(3), Token::Ident(4), Token::Ident(5)]
    );
    assert_eq!(program.idents().get(&ident("If")), Some(3));
}

#[test]
fn numbers_are_interned_by_their_value() {
    let program = scanned("1 20 1 0 20 2147483647");
    assert_eq!(
        program.tokens(),
        &[
            Token::Literal(1),
            Token::Literal(2),
            Token::Literal(1),
            Token::Literal(3),
            Token::Literal(2),
            Token::Literal(4),
        ]
    );
    assert_eq!(program.consts().get(&number(1)), Some(1));
    assert_eq!(program.consts().get(&number(20)), Some(2));
    assert_eq!(program.consts().get(&number(0)), Some(3));
    assert_eq!(program.consts().get(&number(i32::MAX)), Some(4));
    assert_eq!(program.consts().len(), 4);
}

#[test]
fn numbers_with_a_leading_zero_are_no_numbers() {
    assert_eq!(failure("01").message(), "Failed to parse \"01\"");
    assert_eq!(failure("00").message(), "Failed to parse \"00\"");
    assert_eq!(tokens("0"), vec![Token::Literal(1)]);
}

#[test]
fn a_number_that_32_bits_cannot_hold_fails_the_scan() {
    let error = failure("x = 2147483648;");
    assert_eq!(error.message(), "Failed to parse \"2147483648\"");
    assert_eq!(error.line(), 1);
    assert_eq!(failure("\n99999999999999999999").line(), 2);
}

#[test]
fn a_minus_sign_is_an_operator() {
    assert_eq!(
        tokens("-1"),
        vec![arithmetic(ArithmeticOperator::Subtraction), Token::Literal(1)]
    );
}

#[test]
fn string_literals_are_interned_by_what_they_hold() {
    let program = scanned("\"abc\" \"\" \"a_1\" \"abc\"");
    assert_eq!(
        program.tokens(),
        &[Token::Literal(1), Token::Literal(2), Token::Literal(3), Token::Literal(1)]
    );
    let consts = program.consts().to_sorted_vec();
    assert_eq!(consts.len(), 3);
    assert_eq!(*consts[0].0, Symbol::Const(Const::Str("abc".to_string())));
    assert_eq!(*consts[1].0, Symbol::Const(Const::Str(String::new())));
    assert_eq!(*consts[2].0, Symbol::Const(Const::Str("a_1".to_string())));
}

#[test]
fn character_literals_are_interned_by_what_they_hold() {
    let program = scanned("'a' '_' '7' 'a'");
    assert_eq!(
        program.tokens(),
        &[Token::Literal(1), Token::Literal(2), Token::Literal(3), Token::Literal(1)]
    );
    let consts = program.consts().to_sorted_vec();
    assert_eq!(*consts[0].0, Symbol::Const(Const::Char('a')));
    assert_eq!(*consts[1].0, Symbol::Const(Const::Char('_')));
    assert_eq!(*consts[2].0, Symbol::Const(Const::Char('7')));
}

#[test]
fn a_number_a_string_and_a_character_share_one_table() {
    let program = scanned("1 \"1\" '1' 1");
    assert_eq!(
        program.tokens(),
        &[Token::Literal(1), Token::Literal(2), Token::Literal(3), Token::Literal(1)]
    );
    assert_eq!(program.consts().get(&number(1)), Some(1));
    assert_eq!(program.consts().get(&Symbol::Const(Const::Str("1".to_string()))), Some(2));
    assert_eq!(program.consts().get(&Symbol::Const(Const::Char('1'))), Some(3));
    assert!(program.idents().is_empty());
}

#[test]
fn literals_that_are_not_closed_or_hold_other_characters_fail_the_scan() {
    assert_eq!(failure("\"abc").message(), "Failed to parse \"\"abc\"");
    assert_eq!(failure("abc\"").message(), "Failed to parse \"abc\"\"");
    assert_eq!(failure("\"").message(), "Failed to parse \"\"\"");
    assert_eq!(failure("'ab'").message(), "Failed to parse \"'ab'\"");
    assert_eq!(failure("''").message(), "Failed to parse \"''\"");
    assert_eq!(failure("'$'").message(), "Failed to parse \"'$'\"");
    assert_eq!(failure("\"a$\"").message(), "Failed to parse \"\"a$\"\"");
    assert_eq!(failure("\"é\"").message(), "Failed to parse \"\"é\"\"");
}

#[test]
fn a_string_literal_ends_at_a_separator() {
    // A space ends the word, so that a string cannot hold one.
    assert_eq!(failure("\"a b\"").message(), "Failed to parse \"\"a\"");
    assert_eq!(failure("\"a+b\"").message(), "Failed to parse \"\"a\"");
}

#[test]
fn identifiers_are_interned_by_their_name() {
    let program = scanned("alpha beta alpha _x gamma beta _1 a1_b2");
    assert_eq!(
        program.tokens(),
        &[
            Token::Ident(1),
            Token::Ident(2),
            Token::Ident(1),
            Token::Ident(3),
            Token::Ident(4),
            Token::Ident(2),
            Token::Ident(5),
            Token::Ident(6),
        ]
    );
    let idents = program.idents().to_sorted_vec();
    let expected = ["alpha", "beta", "_x", "gamma", "_1", "a1_b2"];
    assert_eq!(idents.len(), expected.len());
    for (k, (symbol, id)) in idents.iter().enumerate() {
        assert_eq!(**symbol, ident(expected[k]));
        assert_eq!(*id, k + 1);
    }
    assert!(program.consts().is_empty());
}

#[test]
fn an_underscore_alone_is_no_identifier() {
    assert_eq!(failure("_").message(), "Failed to parse \"_\"");
    assert_eq!(failure("x = _;").message(), "Failed to parse \"_\"");
}

#[test]
fn words_of_other_characters_fail_the_scan() {
    assert_eq!(failure("é").message(), "Failed to parse \"é\"");
    assert_eq!(failure("a.b").message(), "Failed to parse \"a.b\"");
    assert_eq!(failure("x = e\u{301};").message(), "Failed to parse \"e\u{301}\"");
    assert_eq!(failure("1,2").message(), "Failed to parse \"1,2\"");
}

#[test]
fn a_small_program_is_scanned() {
    let source = "i32 count = 0;\nwhile (count <= 10) {\n    count = count + 1;\n}\n";
    let program = scanned(source);
    assert_eq!(
        program.tokens(),
        &[
            primitive(Primitive::I32),
            Token::Ident(1),
            assignment(),
            Token::Literal(1),
            Token::Separator(Separator::Semicolon),
            control_flow(ControlFlow::While),
            Token::Separator(Separator::OpenParanthesis),
            Token::Ident(1),
            relational(RelationalOperator::LessOrEqual),
            Token::Literal(2),
            Token::Separator(Separator::ClosedParanthesis),
            Token::Separator(Separator::OpenBracket),
            Token::Ident(1),
            assignment(),
            Token::Ident(1),
            arithmetic(ArithmeticOperator::Addition),
            Token::Literal(3),
            Token::Separator(Separator::Semicolon),
            Token::Separator(Separator::ClosedBracket),
        ]
    );
    assert_eq!(program.idents().len(), 1);
    assert_eq!(program.consts().get(&number(0)), Some(1));
    assert_eq!(program.consts().get(&number(10)), Some(2));
    assert_eq!(program.consts().get(&number(1)), Some(3));
}

#[test]
fn many_symbols_keep_their_ids() {
    let mut source = String::new();
    for i in 0..300 {
        source.push_str(&format!("name{} = {};\n", i, i + 1000));
    }
    for i in 0..300 {
        source.push_str(&format!("name{} == {}\n", i, i + 1000));
    }
    let program = scanned(&source);
    assert_eq!(program.tokens().len(), 300 * 4 + 300 * 3);
    assert_eq!(program.idents().len(), 300);
    assert_eq!(program.consts().len(), 300);
    for i in 0..300 {
        assert_eq!(program.tokens()[4 * i], Token::Ident(i + 1));
        assert_eq!(program.tokens()[4 * i + 2], Token::Literal(i + 1));
        assert_eq!(program.tokens()[1200 + 3 * i], Token::Ident(i + 1));
        assert_eq!(program.tokens()[1200 + 3 * i + 2], Token::Literal(i + 1));
        assert_eq!(program.idents().get(&ident(&format!("name{}", i))), Some(i + 1));
        assert_eq!(program.consts().get(&number(i as i32 + 1000)), Some(i + 1));
    }
}

#[test]
fn the_same_source_gives_the_same_program() {
    let source = "a = 1; b = \"two\"; c = 'c'; a == b";
    let first = scanned(source);
    let second = scanned(source);
    assert_eq!(first.tokens(), second.tokens());
    assert_eq!(first.idents().to_sorted_vec(), second.idents().to_sorted_vec());
    assert_eq!(first.consts().to_sorted_vec(), second.consts().to_sorted_vec());
}

#[test]
fn the_state_machines_say_what_a_number_and_a_name_is() {
    // With the two machines exchanged, digits spell names and letters spell numbers.
    let program = match Program::from_source("12 7", &names(), &numbers()) {
        Ok(program) => program,
        Err(error) => panic!("{}", error.to_string()),
    };
    assert_eq!(program.tokens(), &[Token::Ident(1), Token::Ident(2)]);
    assert_eq!(program.idents().get(&ident("12")), Some(1));

    // A word that the machine for numbers accepts and that is no number fails the scan.
    let error = match Program::from_source("ab", &names(), &numbers()) {
        Ok(_) => panic!("the source was accepted"),
        Err(error) => error,
    };
    assert_eq!(error.message(), "Failed to parse \"ab\"");
}

#[test]
fn a_program_can_be_made_from_grapheme_clusters() {
    let program = match Program::from_graphemes(&["x", "=", "=", "1", "2", ";"], &numbers(), &names())
    {
        Ok(program) => program,
        Err(error) => panic!("{}", error.to_string()),
    };
    assert_eq!(
        program.tokens(),
        &[
            Token::Ident(1),
            relational(RelationalOperator::Equal),
            Token::Literal(1),
            Token::Separator(Separator::Semicolon),
        ]
    );
    assert_eq!(program.consts().get(&number(12)), Some(1));

    let program = match Program::from_graphemes(&[], &numbers(), &names()) {
        Ok(program) => program,
        Err(error) => panic!("{}", error.to_string()),
    };
    assert!(program.tokens().is_empty());
}

#[test]
fn a_default_program_is_empty() {
    let program = Program::default();
    assert!(program.tokens().is_empty());
    assert!(program.idents().is_empty());
    assert!(program.consts().is_empty());
}

#[test]
fn a_lexical_error_holds_its_message_and_line() {
    let error = LexicalError::new("Failed to parse \"$\"".to_string(), 12);
    assert_eq!(error.message(), "Failed to parse \"$\"");
    assert_eq!(error.line(), 12);
    assert_eq!(error.to_string(), "Error on line 12: Failed to parse \"$\"");
    assert_eq!(error.clone().to_string(), error.to_string());
    assert_eq!(LexicalError::new(String::new(), 0).to_string(), "Error on line 0: ");
    assert_eq!(
        LexicalError::new("m".to_string(), 1_000_000).to_string(),
        "Error on line 1000000: m"
    );
    assert_eq!(
        LexicalError::new("m".to_string(), usize::MAX).to_string(),
        format!("Error on line {}: m", usize::MAX)
    );
}

#[test]
fn string_literals_are_recognised() {
    assert_eq!(parse_str_literal("\"abc\""), Some("abc".to_string()));
    assert_eq!(parse_str_literal("\"\""), Some(String::new()));
    assert_eq!(parse_str_literal("\"_aZ09\""), Some("_aZ09".to_string()));
    assert_eq!(parse_str_literal("\""), None);
    assert_eq!(parse_str_literal(""), None);
    assert_eq!(parse_str_literal("abc"), None);
    assert_eq!(parse_str_literal("\"abc"), None);
    assert_eq!(parse_str_literal("abc\""), None);
    assert_eq!(parse_str_literal("\"a b\""), None);
    assert_eq!(parse_str_literal("\"a\"b\""), None);
    assert_eq!(parse_str_literal("\"é\""), None);
    assert_eq!(parse_str_literal("'abc'"), None);
    assert_eq!(parse_str_literal("\"abc\"\n"), None);
}

#[test]
fn character_literals_are_recognised() {
    assert_eq!(parse_char_literal("'a'"), Some('a'));
    assert_eq!(parse_char_literal("'_'"), Some('_'));
    assert_eq!(parse_char_literal("'0'"), Some('0'));
    assert_eq!(parse_char_literal("'Z'"), Some('Z'));
    assert_eq!(parse_char_literal("''"), None);
    assert_eq!(parse_char_literal("'ab'"), None);
    assert_eq!(parse_char_literal("'a"), None);
    assert_eq!(parse_char_literal("a'"), None);
    assert_eq!(parse_char_literal("\"a\""), None);
    assert_eq!(parse_char_literal("' '"), None);
    assert_eq!(parse_char_literal("'é'"), None);
    assert_eq!(parse_char_literal("'''"), None);
    assert_eq!(parse_char_literal(""), None);
}

#[test]
fn a_word_is_classified_by_its_grapheme_clusters() {
    let numbers = numbers();
    let names = names();
    let mut program = Program::default();
    assert!(program.consume_segmented_word("while", &["w", "h", "i", "l", "e"], 1, &numbers, &names).is_ok());
    assert!(program.consume_segmented_word("12", &["1", "2"], 1, &numbers, &names).is_ok());
    assert!(program.consume_segmented_word("ab", &["a", "b"], 1, &numbers, &names).is_ok());
    assert!(program.consume_segmented_word("ab", &["a", "b"], 1, &numbers, &names).is_ok());
    assert!(program.consume_segmented_word("", &[], 1, &numbers, &names).is_ok());
    assert!(program.consume_segmented_word("\"s\"", &["\"", "s", "\""], 1, &numbers, &names).is_ok());
    assert_eq!(
        program.tokens(),
        &[
            control_flow(ControlFlow::While),
            Token::Literal(1),
            Token::Ident(1),
            Token::Ident(1),
            Token::Literal(2),
        ]
    );

    // The clusters decide, not the word: these say that the word is a number.
    let error = match program.consume_segmented_word("ab", &["1"], 7, &numbers, &names) {
        Ok(()) => panic!("the word was accepted"),
        Err(error) => error,
    };
    assert_eq!(error.message(), "Failed to parse \"ab\"");
    assert_eq!(error.line(), 7);
    let error = match program.consume_segmented_word("1a", &["1", "a"], 2, &numbers, &names) {
        Ok(()) => panic!("the word was accepted"),
        Err(error) => error,
    };
    assert_eq!(error.message(), "Failed to parse \"1a\"");
}
