use nano::ast::Ast;
use nano::codegen::{opcode_char_map, Opcode};
use nano::grammar::{Expectation, ParseErrorKind};
use nano::lexer::{LexError, LexErrorKind, Lexer, Token, TOT};
use nano::parser::{ParseError, Parser};

fn tokenize(src: &str) -> Result<Vec<Token>, LexError> {
    Lexer::new(src.to_string()).tokenize()
}

fn pairs(tokens: &[Token]) -> Vec<(String, TOT)> {
    tokens.iter().map(|t| (t.value.clone(), t.tot)).collect()
}

fn parse_src(src: &str) -> Result<Vec<Ast>, ParseError> {
    let tokens = tokenize(src).expect("source should tokenize");
    Parser::new(tokens).parse()
}

/// A compact rendering of a tree, for comparisons.
fn show(a: &Ast) -> String {
    match a {
        Ast::Var(v) => format!("Var({}, {})", v.name, show(&v.value)),
        Ast::Number(n) => format!("Number({})", n.value),
        Ast::Str(s) => format!("Str({:?})", s.value),
        Ast::Identifier(i) => format!("Identifier({})", i.name),
        Ast::Binary(b) => format!("Binary('{}', {}, {})", b.op, show(&b.left), show(&b.right)),
        Ast::Call(c) => {
            let args: Vec<String> = c.args.iter().map(show).collect();
            format!("Call({}, [{}])", c.callee, args.join(", "))
        }
        Ast::Function(f) => {
            let body: Vec<String> = f.body.iter().map(show).collect();
            format!("Function({}, [{}], [{}])", f.name, f.params.join(", "), body.join(", "))
        }
        Ast::Return(r) => match &r.value {
            Some(v) => format!("Return({})", show(v)),
            None => "Return".to_string(),
        },
    }
}

fn show_all(src: &str) -> Vec<String> {
    parse_src(src).expect("source should parse").iter().map(show).collect()
}

fn tok(value: &str, tot: TOT) -> Token {
    Token::new(value.to_string(), tot)
}

#[test]
fn example_a_tokens_and_tree() {
    let tokens = tokenize("var x = 1 + 2").unwrap();
    assert_eq!(
        pairs(&tokens),
        vec![
            ("var".to_string(), TOT::KEYWORD),
            ("x".to_string(), TOT::IDENTIFIER),
            ("=".to_string(), TOT::OPERATOR),
            ("1".to_string(), TOT::NUMBER),
            ("+".to_string(), TOT::OPERATOR),
            ("2".to_string(), TOT::NUMBER),
        ]
    );
    assert_eq!(show_all("var x = 1 + 2"), vec!["Var(x, Binary('+', Number(1), Number(2)))"]);
}

#[test]
fn example_b_function() {
    assert_eq!(
        show_all("fn add(a, b) { return a + b }"),
        vec!["Function(add, [a, b], [Return(Binary('+', Identifier(a), Identifier(b)))])"]
    );
}

#[test]
fn example_c_unterminated_string() {
    let r = tokenize("var s = \"abc");
    assert_eq!(r.err(), Some(LexError { kind: LexErrorKind::UnterminatedString, line: 1, column: 13 }));
}

#[test]
fn example_d_call_statement() {
    assert_eq!(show_all("foo(1, 2)"), vec!["Call(foo, [Number(1), Number(2)])"]);
}

#[test]
fn subtraction_groups_to_the_left() {
    assert_eq!(
        show_all("1 - 2 - 3"),
        vec!["Binary('-', Binary('-', Number(1), Number(2)), Number(3))"]
    );
}

#[test]
fn multiplication_binds_tighter() {
    assert_eq!(
        show_all("1 + 2 * 3"),
        vec!["Binary('+', Number(1), Binary('*', Number(2), Number(3)))"]
    );
}

#[test]
fn parentheses_override_precedence() {
    assert_eq!(
        show_all("(1 + 2) * 3"),
        vec!["Binary('*', Binary('+', Number(1), Number(2)), Number(3))"]
    );
}

#[test]
fn empty_input_gives_nothing() {
    let tokens = tokenize("").unwrap();
    assert!(tokens.is_empty());
    let ast = Parser::new(tokens).parse().unwrap();
    assert!(ast.is_empty());
}

#[test]
fn comment_at_expression_position_is_skipped() {
    let tokens = vec![
        tok("var", TOT::KEYWORD),
        tok("x", TOT::IDENTIFIER),
        tok("=", TOT::OPERATOR),
        tok(" note", TOT::COMMENT),
        tok("1", TOT::NUMBER),
    ];
    let ast = Parser::new(tokens).parse().unwrap();
    let shown: Vec<String> = ast.iter().map(show).collect();
    assert_eq!(shown, vec!["Var(x, Number(1))"]);
}

#[test]
fn comment_at_statement_start_is_an_error() {
    let tokens = vec![
        tok(" note", TOT::COMMENT),
        tok("var", TOT::KEYWORD),
        tok("x", TOT::IDENTIFIER),
        tok("=", TOT::OPERATOR),
        tok("1", TOT::NUMBER),
    ];
    let r = Parser::new(tokens).parse();
    assert_eq!(r.err().map(|e| (e.kind, e.index)), Some((ParseErrorKind::UnexpectedToken, 0)));
}

#[test]
fn comment_before_identifier_at_statement_start_is_an_error() {
    let tokens = tokenize("// c\nx").unwrap();
    assert_eq!(
        pairs(&tokens),
        vec![
            (" c".to_string(), TOT::COMMENT),
            ("[newline]".to_string(), TOT::NEWLINE),
            ("x".to_string(), TOT::IDENTIFIER),
        ]
    );
    let r = Parser::new(tokens).parse();
    assert_eq!(r.err().map(|e| (e.kind, e.index)), Some((ParseErrorKind::UnexpectedToken, 0)));
}

#[test]
fn comment_after_newlines_at_statement_start_is_an_error() {
    assert_eq!(
        parse_src("var a = 1\n// note\nb").err().map(|e| (e.kind, e.index)),
        Some((ParseErrorKind::UnexpectedToken, 5))
    );
}

#[test]
fn lone_comment_is_an_error() {
    assert_eq!(
        parse_src("// only a comment").err().map(|e| (e.kind, e.index)),
        Some((ParseErrorKind::UnexpectedToken, 0))
    );
}

#[test]
fn tokenizing_twice_gives_the_same_tokens() {
    let src = "fn f(a) {\n  return a * 2 // twice\n}\n";
    let a = pairs(&tokenize(src).unwrap());
    let b = pairs(&tokenize(src).unwrap());
    assert_eq!(a, b);
    assert!(!a.is_empty());
}

#[test]
fn newlines_are_tokens() {
    let tokens = tokenize("a\n\nb").unwrap();
    assert_eq!(
        pairs(&tokens),
        vec![
            ("a".to_string(), TOT::IDENTIFIER),
            ("[newline]".to_string(), TOT::NEWLINE),
            ("[newline]".to_string(), TOT::NEWLINE),
            ("b".to_string(), TOT::IDENTIFIER),
        ]
    );
}

#[test]
fn whitespace_other_than_newline_is_skipped() {
    let tokens = tokenize(" \t x \r ").unwrap();
    assert_eq!(pairs(&tokens), vec![("x".to_string(), TOT::IDENTIFIER)]);
}

#[test]
fn digits_then_letters_split() {
    let tokens = tokenize("12ab x1 if iffy").unwrap();
    assert_eq!(
        pairs(&tokens),
        vec![
            ("12".to_string(), TOT::NUMBER),
            ("ab".to_string(), TOT::IDENTIFIER),
            ("x1".to_string(), TOT::IDENTIFIER),
            ("if".to_string(), TOT::KEYWORD),
            ("iffy".to_string(), TOT::IDENTIFIER),
        ]
    );
}

#[test]
fn every_keyword_is_recognised() {
    let src = "if else elseif var const fn return for in while once true false";
    let tokens = tokenize(src).unwrap();
    assert_eq!(tokens.len(), 13);
    assert!(tokens.iter().all(|t| t.tot == TOT::KEYWORD));
}

#[test]
fn two_character_operators_are_preferred() {
    let tokens = tokenize("+= -= *= == = + /=").unwrap();
    assert_eq!(
        pairs(&tokens),
        vec![
            ("+=".to_string(), TOT::OPERATOR),
            ("-=".to_string(), TOT::OPERATOR),
            ("*=".to_string(), TOT::OPERATOR),
            ("==".to_string(), TOT::OPERATOR),
            ("=".to_string(), TOT::OPERATOR),
            ("+".to_string(), TOT::OPERATOR),
            ("/".to_string(), TOT::OPERATOR),
            ("=".to_string(), TOT::OPERATOR),
        ]
    );
}

#[test]
fn delimiters_and_strings() {
    let tokens = tokenize("(){}.,; \"a b\\n\"").unwrap();
    assert_eq!(
        pairs(&tokens),
        vec![
            ("(".to_string(), TOT::DELIMITER),
            (")".to_string(), TOT::DELIMITER),
            ("{".to_string(), TOT::DELIMITER),
            ("}".to_string(), TOT::DELIMITER),
            (".".to_string(), TOT::DELIMITER),
            (",".to_string(), TOT::DELIMITER),
            (";".to_string(), TOT::DELIMITER),
            ("a b\\n".to_string(), TOT::STRING),
        ]
    );
}

#[test]
fn line_comment_stops_before_newline() {
    let tokens = tokenize("x // rest\ny").unwrap();
    assert_eq!(
        pairs(&tokens),
        vec![
            ("x".to_string(), TOT::IDENTIFIER),
            (" rest".to_string(), TOT::COMMENT),
            ("[newline]".to_string(), TOT::NEWLINE),
            ("y".to_string(), TOT::IDENTIFIER),
        ]
    );
}

#[test]
fn block_comment_leaves_its_terminator() {
    let tokens = tokenize("/* c */").unwrap();
    assert_eq!(
        pairs(&tokens),
        vec![
            (" c ".to_string(), TOT::COMMENT),
            ("*".to_string(), TOT::OPERATOR),
            ("/".to_string(), TOT::OPERATOR),
        ]
    );
}

#[test]
fn unknown_character_reports_its_place() {
    let r = tokenize("x = 1\n  @");
    assert_eq!(
        r.err(),
        Some(LexError { kind: LexErrorKind::UnknownCharacter('@'), line: 2, column: 3 })
    );
}

#[test]
fn newline_inside_expression_starts_a_statement() {
    assert_eq!(show_all("var x =\n5"), vec!["Var(x, Number(5))"]);
}

#[test]
fn statements_on_separate_lines() {
    assert_eq!(
        show_all("\nvar a = \"s\"\nprint(a)\n"),
        vec!["Var(a, Str(\"s\"))", "Call(print, [Identifier(a)])"]
    );
}

#[test]
fn function_with_newlines_and_empty_parameters() {
    assert_eq!(
        show_all("fn f()\n{\n  var y = 2\n  return y\n}\nf()"),
        vec!["Function(f, [], [Var(y, Number(2)), Return(Identifier(y))])", "Call(f, [])"]
    );
}

fn parse_error(src: &str) -> Option<(ParseErrorKind, usize)> {
    parse_src(src).err().map(|e| (e.kind, e.index))
}

fn expected(e: Expectation, index: usize) -> Option<(ParseErrorKind, usize)> {
    Some((ParseErrorKind::Expected(e), index))
}

#[test]
fn missing_identifier_after_var() {
    assert_eq!(parse_error("var = 1"), expected(Expectation::Identifier, 1));
}

#[test]
fn missing_assignment_in_var() {
    assert_eq!(parse_error("var x 1"), expected(Expectation::Assign, 2));
}

#[test]
fn missing_open_paren_in_fn() {
    assert_eq!(parse_error("fn f x"), expected(Expectation::OpenParen, 2));
}

#[test]
fn missing_close_paren_in_grouping() {
    assert_eq!(parse_error("(1 + 2"), expected(Expectation::CloseParen, 4));
}

#[test]
fn missing_open_brace_in_fn() {
    assert_eq!(parse_error("fn f() x"), expected(Expectation::OpenBrace, 4));
}

#[test]
fn input_ends_inside_expression() {
    assert_eq!(
        parse_error("var x ="),
        Some((ParseErrorKind::UnexpectedEnd, 3))
    );
}

#[test]
fn unknown_statement_keyword() {
    assert_eq!(
        parse_error("while x"),
        Some((ParseErrorKind::UnknownKeyword, 0))
    );
}

#[test]
fn token_that_starts_no_expression() {
    assert_eq!(
        parse_error(")"),
        Some((ParseErrorKind::UnexpectedToken, 0))
    );
}

#[test]
fn function_body_left_open() {
    assert_eq!(
        parse_error("fn f() { return 1"),
        Some((ParseErrorKind::UnclosedFunction, 7))
    );
}

#[test]
fn kind_names() {
    assert_eq!(TOT::IDENTIFIER.as_str(), "identifier");
    assert_eq!(TOT::KEYWORD.as_str(), "keyword");
    assert_eq!(TOT::NUMBER.as_str(), "number");
    assert_eq!(TOT::STRING.as_str(), "string");
    assert_eq!(TOT::OPERATOR.as_str(), "operator");
    assert_eq!(TOT::DELIMITER.as_str(), "delimiter");
    assert_eq!(TOT::COMMENT.as_str(), "comment");
    assert_eq!(TOT::NEWLINE.as_str(), "newline");
}

#[test]
fn opcode_bytes() {
    let map = opcode_char_map();
    assert_eq!(map.len(), 16);
    assert_eq!(map[0], (Opcode::Push, 0x01));
    assert_eq!(map[14], (Opcode::Readln, 0xA0));
    assert_eq!(map[15], (Opcode::SetValue, 0x0F));
    assert_eq!(Opcode::Div.byte(), 0x0A);
}

#[test]
fn render_function_tree() {
    let ast = parse_src("fn add(a, b) { return a + b }").unwrap();
    assert_eq!(
        ast[0].render(0),
        vec![
            "Function add",
            "  Parameters: a, b",
            "  Body:",
            "    Return",
            "      Binary '+'",
            "        Identifier a",
            "        Identifier b",
        ]
    );
}

#[test]
fn render_with_indent() {
    let ast = parse_src("var s = \"x\"\nf(1)").unwrap();
    assert_eq!(ast[0].render(1), vec!["  Var s", "    String \"x\""]);
    assert_eq!(ast[1].render(0), vec!["Call f", "  Number 1"]);
}

#[test]
fn indentation_is_two_spaces_per_level() {
    assert_eq!(nano::ast::indent_str(0), "");
    assert_eq!(nano::ast::indent_str(3), "      ");
}

#[test]
fn tokens_carry_their_source_position() {
    let tokens = tokenize("var x\n  = \"a\nb\" y").unwrap();
    let places: Vec<(String, usize, usize)> =
        tokens.iter().map(|t| (t.value.clone(), t.line, t.column)).collect();
    assert_eq!(
        places,
        vec![
            ("var".to_string(), 1, 1),
            ("x".to_string(), 1, 5),
            ("[newline]".to_string(), 1, 6),
            ("=".to_string(), 2, 3),
            ("a\nb".to_string(), 2, 5),
            ("y".to_string(), 3, 4),
        ]
    );
    let made = Token::new("z".to_string(), TOT::IDENTIFIER);
    assert_eq!((made.line, made.column), (0, 0));
}

#[test]
fn parse_error_reports_line_and_column() {
    let e = parse_src("var a = 1\n  var = 2").err().unwrap();
    assert_eq!(
        e,
        ParseError { kind: ParseErrorKind::Expected(Expectation::Identifier), index: 6, line: 2, column: 7 }
    );
}

#[test]
fn parse_error_after_a_multiline_string_counts_its_lines() {
    let e = parse_src("var s = \"a\nb\" )").err().unwrap();
    assert_eq!((e.kind, e.index, e.line, e.column), (ParseErrorKind::UnexpectedToken, 4, 2, 4));
}

#[test]
fn parse_error_at_end_of_input_uses_the_last_token() {
    let e = parse_src("var x =").err().unwrap();
    assert_eq!((e.kind, e.index, e.line, e.column), (ParseErrorKind::UnexpectedEnd, 3, 1, 7));
}

#[test]
fn parse_error_on_tokens_made_without_a_source() {
    let e = Parser::new(vec![tok("(", TOT::DELIMITER)]).parse().err().unwrap();
    assert_eq!((e.kind, e.index, e.line, e.column), (ParseErrorKind::UnexpectedEnd, 1, 0, 0));
}
