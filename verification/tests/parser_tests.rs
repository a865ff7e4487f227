use stackscript::parser::{parse, parse_ignore_comments, Token};

#[test]
fn hello_world_parse() {
    let hello = "(this is a comment, you can tell because it is enclosed in parens.
 the program below pushes hello world to stack, prints top of stack,
 and prints a line break)
~Hello, world!~ (this is an inline comment) .print .newline ";
    assert_eq!(
        parse_ignore_comments(hello).unwrap(),
        vec![Token::Str("Hello, world!".to_string()), Token::Print, Token::Newline],
    );
}

#[test]
fn loop_parse() {
    let loop_ = "(a \"simple\" loop that counts to 10)
1                           (start at 1)
  .dup .print .newline      (print the current number)  
  1 .+                      (add 1) 
  .dup  11 .swap .>?       (is 11 > n?) 
-10 .cjump                  (then jump 10 words back -- count carefully) 
~end of loop here~ .print .newline";
    assert_eq!(
        parse_ignore_comments(loop_).unwrap(),
        vec![
            Token::Int(1),
            Token::Dup,
            Token::Print,
            Token::Newline,
            Token::Int(1),
            Token::Add,
            Token::Dup,
            Token::Int(11),
            Token::Swap,
            Token::LargerThan,
            Token::Int(-10),
            Token::Cjump,
            Token::Str("end of loop here".to_string()),
            Token::Print,
            Token::Newline,
        ],
    );
}

#[test]
fn comments_only_scripts_filter_to_nothing() {
    assert_eq!(parse_ignore_comments("(one) (two) (three)").unwrap(), vec![]);
    assert_eq!(parse_ignore_comments("  (just this)  ").unwrap(), vec![]);
    assert_eq!(parse_ignore_comments("").unwrap(), vec![]);
}

#[test]
fn hello_world_tokens_round_trip() {
    assert_eq!(
        parse("~Hello, world!~ .print .newline").unwrap(),
        vec![Token::Str("Hello, world!".to_string()), Token::Print, Token::Newline],
    );
}

#[test]
fn comment_closes_at_first_paren() {
    // the unmatched '(' in the body does not open a nested comment
    assert_eq!(parse("(a(b)").unwrap(), vec![Token::Comment("a(b".to_string())]);
    assert_eq!(parse_ignore_comments("(a(b)").unwrap(), vec![]);
    // the first ')' always closes: what follows must parse on its own
    assert!(parse("(a(b) c)").is_err());
}

#[test]
fn adjacent_delimited_tokens_need_no_whitespace() {
    assert_eq!(
        parse("~a~~b~").unwrap(),
        vec![Token::Str("a".to_string()), Token::Str("b".to_string())],
    );
}

#[test]
fn all_operators_tokenize() {
    assert_eq!(
        parse(".+ .- .* ./ .mod .=? .>? .dup .swap .cjump .print .newline").unwrap(),
        vec![
            Token::Add,
            Token::Sub,
            Token::Mul,
            Token::Div,
            Token::Mod,
            Token::Equal,
            Token::LargerThan,
            Token::Dup,
            Token::Swap,
            Token::Cjump,
            Token::Print,
            Token::Newline,
        ],
    );
}

#[test]
fn integer_literals() {
    assert_eq!(parse("0 -1 42 -2147483648 2147483647").unwrap(), vec![
        Token::Int(0),
        Token::Int(-1),
        Token::Int(42),
        Token::Int(i32::MIN),
        Token::Int(i32::MAX),
    ]);
    // leading zeros are digits like any others
    assert_eq!(parse("007").unwrap(), vec![Token::Int(7)]);
    assert_eq!(parse("00000000000000000000001").unwrap(), vec![Token::Int(1)]);
}

#[test]
fn out_of_range_integers_are_syntax_errors() {
    assert!(parse("2147483648").is_err());
    assert!(parse("-2147483649").is_err());
    assert!(parse("99999999999999999999999").is_err());
}

#[test]
fn malformed_inputs_are_syntax_errors() {
    // unterminated string and comment
    assert!(parse("~abc").is_err());
    assert!(parse("(abc").is_err());
    // empty bodies: the delimiters need one-or-more body characters
    assert!(parse("~~").is_err());
    assert!(parse("()").is_err());
    // unknown operator, bare sign, plain word
    assert!(parse(".q").is_err());
    assert!(parse("-").is_err());
    assert!(parse("abc").is_err());
}

#[test]
fn syntax_error_reports_the_failing_position() {
    assert_eq!(parse("abc").unwrap_err().pos, 0);
    assert_eq!(parse(" 5 x").unwrap_err().pos, 3);
    // the whole input after a good prefix is still rejected
    assert!(parse("1 2 .+ }").is_err());
}
