//! The historic statement lexer: one statement per comment-stripped
//! physical line, without backslash continuations.

use crate::raw::lexer::{
    GStmt, Statement, lemma_lex_lines_cons, lex_lines, split_ws, stmts_model, stripped_lines,
    stripped_lines_spec, tokenize_line,
};
use crate::text::lines_model;
use vstd::prelude::*;

verus! {

/// Lexes a source text into statements, one physical line at a time:
/// comments are stripped, but no backslash continuation joins lines.
pub fn lex(input: &str) -> (r: Vec<Statement>)
    ensures
        stmts_model(r@) == lex_lines(stripped_lines_spec(input@)),
{
    let lines = stripped_lines(input);
    let ghost lm = lines_model(lines@);
    let mut out: Vec<Statement> = Vec::new();
    let mut i: usize = 0;
    proof {
        assert(lm.skip(0) =~= lm);
        assert(stmts_model(out@) =~= Seq::<GStmt>::empty());
        assert(Seq::<GStmt>::empty() + lex_lines(lm) =~= lex_lines(lm));
    }
    while i < lines.len()
        invariant
            i <= lines@.len(),
            lm == lines_model(lines@),
            lex_lines(lm) == stmts_model(out@) + lex_lines(lm.skip(i as int)),
        decreases lines@.len() - i,
    {
        proof {
            assert(lm.skip(i as int)[0] == lm[i as int]);
            assert(lm[i as int] == lines@[i as int]@);
            assert(lm.skip(i as int).skip(1) =~= lm.skip(i + 1));
            assert(seq![lm[i as int]] + lm.skip(i + 1) =~= lm.skip(i as int));
            lemma_lex_lines_cons(lm[i as int], lm.skip(i + 1));
        }
        let mut toks = tokenize_line(&lines[i]);
        if toks.len() > 0 {
            let keyword = toks.remove(0);
            proof {
                assert(keyword@ == split_ws(lines@[i as int]@)[0]);
                assert(lines_model(toks@) =~= split_ws(lines@[i as int]@).skip(1));
            }
            let st = Statement { keyword, args: toks };
            out.push(st);
            proof {
                assert(stmts_model(out@) =~= stmts_model(out@.drop_last()) + seq![st.model()]);
                assert(stmts_model(out@.drop_last()) + (seq![st.model()] + lex_lines(
                    lm.skip(i + 1),
                )) =~= stmts_model(out@) + lex_lines(lm.skip(i + 1)));
            }
        }
        i += 1;
    }
    proof {
        assert(lm.skip(lines@.len() as int) =~= Seq::<Seq<char>>::empty());
        assert(stmts_model(out@) + lex_lines(Seq::<Seq<char>>::empty()) =~= stmts_model(out@));
    }
    out
}

} // verus!
