use stackscript::codegen::ForthCodegen;
use stackscript::parser::Token;

#[test]
fn gen_emits_forth_for_strings_and_print() {
    let out = ForthCodegen::gen(vec![Token::Str("Hello".to_string()), Token::Print]);
    assert_eq!(out, "s\" Hello\" print");
}

#[test]
fn gen_drops_comments() {
    let out = ForthCodegen::gen(vec![
        Token::Comment("noise".to_string()),
        Token::Str("x".to_string()),
    ]);
    assert_eq!(out, "s\" x\" ");
}

#[test]
fn gen_of_nothing_is_empty() {
    let out = ForthCodegen::gen(vec![]);
    assert_eq!(out, "");
}
