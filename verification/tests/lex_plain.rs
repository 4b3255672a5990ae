//! Tests for the historic line-by-line lexer and MTL stub.

use obj::lex::lex;
use obj::mtl::{Mtl, load_mtl};

fn word(cs: &Vec<char>) -> String {
    cs.iter().collect()
}

fn words(args: &Vec<Vec<char>>) -> Vec<String> {
    args.iter().map(|a| a.iter().collect()).collect()
}

fn owned(parts: &[&str]) -> Vec<String> {
    parts.iter().map(|p| p.to_string()).collect()
}

#[test]
fn lex_test_lex() {
    let input = "
   statement0      arg0  arg1\targ2#argX   argX
statement1 arg0    arg1
# Comment
statement2 Hello, world!
";
    let stmts = lex(input);
    for st in &stmts {
        match word(&st.keyword).as_str() {
            "statement0" => assert_eq!(words(&st.args), owned(&["arg0", "arg1", "arg2"])),
            "statement1" => assert_eq!(words(&st.args), owned(&["arg0", "arg1"])),
            "statement2" => assert_eq!(words(&st.args), owned(&["Hello,", "world!"])),
            _ => panic!("Unexpected statement"),
        }
    }
    assert_eq!(stmts.len(), 3);
}

#[test]
fn plain_lexer_keeps_continuations_apart() {
    // The historic lexer does not join backslash-continued lines.
    let stmts = lex("a 1 \\\nb 2");
    assert_eq!(stmts.len(), 2);
    assert_eq!(word(&stmts[0].keyword), "a");
    assert_eq!(word(&stmts[1].keyword), "b");
}

#[test]
fn load_mtl_accepts_comment_only_sources() {
    let mtl = load_mtl("# a material library with nothing in it\n\n");
    assert_eq!(mtl, Mtl);
}
