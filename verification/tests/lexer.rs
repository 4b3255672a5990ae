//! Tests for the statement lexer.

use obj::ObjError;
use obj::error::LoadErrorKind;
use obj::raw::lexer::{Statement, lex, strip_comment};

fn word(cs: &Vec<char>) -> String {
    cs.iter().collect()
}

fn words(st: &Statement) -> Vec<String> {
    st.args.iter().map(|a| a.iter().collect()).collect()
}

fn owned(parts: &[&str]) -> Vec<String> {
    parts.iter().map(|p| p.to_string()).collect()
}

#[test]
fn test_strip_commect() {
    assert_eq!(
        strip_comment(String::from("Hello, world!")),
        String::from("Hello, world!")
    );
    assert_eq!(strip_comment(String::from("abc # def")), String::from("abc "));
    assert_eq!(strip_comment(String::from("한글 # 한글")), String::from("한글 "));
    assert_eq!(strip_comment(String::from("")), String::from(""));
}

#[test]
fn lexer_test_lex() {
    let input = "
   statement0      arg0  arg1\targ2#argX   argX
statement1 arg0    arg1
# Comment
statement2 Hello, world!
bmat u  1       -3      3       -1      \\
        0       3       -6      3       \\
        0       0       3       -3      \\
        0       0       0       1
bmat u  1       -3      3       -1      0       3       -6      3       \\
        0       0       3       -3      0       0       0       1
bmat u  1       -3      3       -1      0       3       -6      3       0       0       3       -3      0       0       0       1
";
    let stmts = lex(input).expect("lexing should succeed");
    for st in &stmts {
        match word(&st.keyword).as_str() {
            "statement0" => assert_eq!(words(st), owned(&["arg0", "arg1", "arg2"])),
            "statement1" => assert_eq!(words(st), owned(&["arg0", "arg1"])),
            "statement2" => assert_eq!(words(st), owned(&["Hello,", "world!"])),
            "bmat" => assert_eq!(
                words(st),
                owned(&[
                    "u", "1", "-3", "3", "-1", "0", "3", "-6", "3", "0", "0", "3", "-3", "0",
                    "0", "0", "1"
                ])
            ),
            _ => panic!("Unit test failed"),
        }
    }
    assert_eq!(stmts.len(), 6);
}

#[test]
fn continuation_matches_single_line() {
    // A statement split across three physical lines, the first two ending
    // in a backslash, lexes as its one-line form joined by spaces.
    let split = lex("f 1 2\\\n3 4\\\n5 6").expect("lexing should succeed");
    let joined = lex("f 1 2 3 4 5 6").expect("lexing should succeed");
    assert_eq!(split.len(), 1);
    assert_eq!(joined.len(), 1);
    assert_eq!(word(&split[0].keyword), word(&joined[0].keyword));
    assert_eq!(words(&split[0]), words(&joined[0]));
}

#[test]
fn pending_continuation_at_eof_fails() {
    match lex("v 1 2 3 \\") {
        Err(ObjError::Load(e)) => assert_eq!(*e.kind(), LoadErrorKind::BackslashAtEOF),
        _ => panic!("expected a dangling continuation failure"),
    }
}

#[test]
fn comment_only_and_blank_lines_yield_nothing() {
    let stmts = lex("# nothing here\n\n   \n# more nothing").expect("lexing should succeed");
    assert_eq!(stmts.len(), 0);
}
