//! The statement lexer: turns OBJ or MTL text into a sequence of
//! `(keyword, arguments)` statements.
//!
//! Each physical line loses everything from its first `#` on.  A line whose
//! last character is a backslash is joined with the following line, with a
//! single space in between, until a line without a trailing backslash is
//! found; a source that ends while such a continuation is pending is
//! rejected.  Each joined line is then split on blanks; its first word is the
//! statement keyword, the remaining words its arguments, and lines without
//! words are skipped.

use crate::error::{ErrModel, LoadError, LoadErrorKind, ObjError, err_model};
use crate::text::{
    append_range, copy_range, find_char, find_non_ws, find_ws, first_where, is_ws,
    lemma_first_where, lemma_first_where_unique, lines_model, to_chars,
};
use vstd::prelude::*;

verus! {

/// The line with everything from its first `#` on removed.
pub open spec fn strip_comment_spec(line: Seq<char>) -> Seq<char> {
    line.take(first_where(line, |c: char| c == '#'))
}

/// The line with a final carriage return removed.
pub open spec fn drop_final_cr(line: Seq<char>) -> Seq<char> {
    if line.len() > 0 && line[line.len() - 1] == '\r' {
        line.drop_last()
    } else {
        line
    }
}

/// The comment-stripped physical lines of a source text: the text is split
/// at every newline, and each piece loses a final carriage return and then
/// everything from its first `#` on.
pub open spec fn stripped_lines_spec(s: Seq<char>) -> Seq<Seq<char>>
    decreases s.len() via stripped_lines_spec_dec
{
    if s.len() == 0 {
        Seq::empty()
    } else {
        let i = first_where(s, |c: char| c == '\n');
        let line = strip_comment_spec(drop_final_cr(s.take(i)));
        if i == s.len() {
            seq![line]
        } else {
            seq![line] + stripped_lines_spec(s.skip(i + 1))
        }
    }
}

#[via_fn]
proof fn stripped_lines_spec_dec(s: Seq<char>) {
    if s.len() > 0 {
        lemma_first_where(s, |c: char| c == '\n');
    }
}

/// Whether the line's last character is a backslash.
pub open spec fn ends_with_backslash(line: Seq<char>) -> bool {
    line.len() > 0 && line[line.len() - 1] == '\\'
}

/// The first logical line of `lines` and the count of physical lines it
/// joins, or `Err` if the lines end while a continuation is pending.
pub open spec fn merge_logical(lines: Seq<Seq<char>>) -> Result<(Seq<char>, int), ()>
    decreases lines.len(),
{
    if lines.len() == 0 {
        Err(())
    } else if !ends_with_backslash(lines[0]) {
        Ok((lines[0], 1))
    } else {
        match merge_logical(lines.skip(1)) {
            Ok(r) => Ok((lines[0].drop_last() + seq![' '] + r.0, r.1 + 1)),
            Err(e) => Err(e),
        }
    }
}

/// A successful merge consumes between one and all of the lines.
pub proof fn lemma_merge_logical_consumed(lines: Seq<Seq<char>>)
    requires
        merge_logical(lines) is Ok,
    ensures
        1 <= merge_logical(lines)->Ok_0.1 <= lines.len(),
    decreases lines.len(),
{
    if lines.len() == 0 {
    } else if !ends_with_backslash(lines[0]) {
    } else {
        lemma_merge_logical_consumed(lines.skip(1));
    }
}

/// All logical lines of the given physical lines, or `Err` if they end
/// while a continuation is pending.
pub open spec fn logical_lines_spec(lines: Seq<Seq<char>>) -> Result<Seq<Seq<char>>, ()>
    decreases lines.len() via logical_lines_spec_dec
{
    if lines.len() == 0 {
        Ok(Seq::empty())
    } else {
        match merge_logical(lines) {
            Err(e) => Err(e),
            Ok(r) => match logical_lines_spec(lines.skip(r.1)) {
                Err(e) => Err(e),
                Ok(rest) => Ok(seq![r.0] + rest),
            },
        }
    }
}

#[via_fn]
proof fn logical_lines_spec_dec(lines: Seq<Seq<char>>) {
    if lines.len() > 0 && merge_logical(lines) is Ok {
        lemma_merge_logical_consumed(lines);
    }
}

/// The maximal blank-free words of a line, in order.
pub open spec fn split_ws(s: Seq<char>) -> Seq<Seq<char>>
    decreases s.len() via split_ws_dec
{
    if s.len() == 0 {
        Seq::empty()
    } else if is_ws(s[0]) {
        split_ws(s.skip(1))
    } else {
        let j = first_where(s, |c: char| is_ws(c));
        seq![s.take(j)] + split_ws(s.skip(j))
    }
}

#[via_fn]
proof fn split_ws_dec(s: Seq<char>) {
    if s.len() > 0 && !is_ws(s[0]) {
        lemma_first_where(s, |c: char| is_ws(c));
    }
}

/// The model of a statement: its keyword and its argument words.
pub struct GStmt {
    /// The statement's first word.
    pub keyword: Seq<char>,
    /// The statement's remaining words.
    pub args: Seq<Seq<char>>,
}

/// The statements of the given logical lines: each line's words form one
/// statement, and lines without words are skipped.
pub open spec fn lex_lines(logical: Seq<Seq<char>>) -> Seq<GStmt>
    decreases logical.len(),
{
    if logical.len() == 0 {
        Seq::empty()
    } else {
        let toks = split_ws(logical[0]);
        let rest = lex_lines(logical.skip(1));
        if toks.len() == 0 {
            rest
        } else {
            seq![GStmt { keyword: toks[0], args: toks.skip(1) }] + rest
        }
    }
}

/// What lexing a source text yields: its statements, or `Err` if the text
/// ends while a backslash continuation is pending.
pub open spec fn lex_spec(input: Seq<char>) -> Result<Seq<GStmt>, ()> {
    match logical_lines_spec(stripped_lines_spec(input)) {
        Ok(ls) => Ok(lex_lines(ls)),
        Err(e) => Err(e),
    }
}

/// Skipping blanks does not change the words of a line.
proof fn lemma_split_ws_skip_blanks(s: Seq<char>, i: int, a: int)
    requires
        0 <= i <= a <= s.len(),
        forall|j: int| i <= j < a ==> is_ws(s[j]),
    ensures
        split_ws(s.skip(i)) == split_ws(s.skip(a)),
    decreases a - i,
{
    if i < a {
        assert(s.skip(i)[0] == s[i]);
        assert(s.skip(i).skip(1) =~= s.skip(i + 1));
        lemma_split_ws_skip_blanks(s, i + 1, a);
    }
}

/// A maximal blank-free run starting at `a` is the first word of `s.skip(a)`.
proof fn lemma_split_ws_word(s: Seq<char>, a: int, b: int)
    requires
        0 <= a < b <= s.len(),
        forall|j: int| a <= j < b ==> !is_ws(s[j]),
        b < s.len() ==> is_ws(s[b]),
    ensures
        split_ws(s.skip(a)) == seq![s.subrange(a, b)] + split_ws(s.skip(b)),
{
    let t = s.skip(a);
    assert(t[0] == s[a]);
    assert forall|j: int| 0 <= j < b - a implies !is_ws(t[j]) by {
        assert(t[j] == s[a + j]);
    }
    if b - a < t.len() {
        assert(t[b - a] == s[b]);
    }
    lemma_first_where_unique(t, |c: char| is_ws(c), b - a);
    assert(t.take(b - a) =~= s.subrange(a, b));
    assert(t.skip(b - a) =~= s.skip(b));
}

/// The words of a line, each as its own character vector.
pub fn tokenize_line(line: &Vec<char>) -> (r: Vec<Vec<char>>)
    ensures
        lines_model(r@) == split_ws(line@),
{
    let mut r: Vec<Vec<char>> = Vec::new();
    let mut i: usize = 0;
    proof {
        assert(line@.skip(0) =~= line@);
        assert(lines_model(r@) + split_ws(line@) =~= split_ws(line@));
    }
    loop
        invariant
            i <= line@.len(),
            split_ws(line@) == lines_model(r@) + split_ws(line@.skip(i as int)),
        ensures
            lines_model(r@) == split_ws(line@),
        decreases line@.len() - i,
    {
        let a = find_non_ws(line, i);
        proof {
            lemma_split_ws_skip_blanks(line@, i as int, a as int);
        }
        if a == line.len() {
            proof {
                assert(split_ws(line@.skip(a as int)) =~= Seq::<Seq<char>>::empty());
                assert(lines_model(r@) + Seq::<Seq<char>>::empty() =~= lines_model(r@));
            }
            break;
        }
        let b = find_ws(line, a);
        let tok = copy_range(line, a, b);
        proof {
            lemma_split_ws_word(line@, a as int, b as int);
        }
        r.push(tok);
        proof {
            assert(lines_model(r@) =~= lines_model(r@.drop_last()) + seq![tok@]);
            assert(lines_model(r@.drop_last()) + (seq![tok@] + split_ws(line@.skip(b as int)))
                =~= lines_model(r@) + split_ws(line@.skip(b as int)));
        }
        i = b;
    }
    r
}

/// One lexed statement: its keyword and its argument words.
pub struct Statement {
    /// The statement's first word.
    pub keyword: Vec<char>,
    /// The statement's remaining words.
    pub args: Vec<Vec<char>>,
}

impl Statement {
    /// The statement's model.
    pub open spec fn model(&self) -> GStmt {
        GStmt { keyword: self.keyword@, args: lines_model(self.args@) }
    }
}

/// The models of a sequence of statements.
pub open spec fn stmts_model(v: Seq<Statement>) -> Seq<GStmt> {
    v.map(|i: int, s: Statement| s.model())
}

/// Prepending a line puts its statement (if it has words) in front.
pub(crate) proof fn lemma_lex_lines_cons(l: Seq<char>, rest: Seq<Seq<char>>)
    ensures
        split_ws(l).len() == 0 ==> lex_lines(seq![l] + rest) == lex_lines(rest),
        split_ws(l).len() > 0 ==> lex_lines(seq![l] + rest) == seq![
            GStmt { keyword: split_ws(l)[0], args: split_ws(l).skip(1) },
        ] + lex_lines(rest),
{
    let whole = seq![l] + rest;
    assert(whole[0] == l);
    assert(whole.skip(1) =~= rest);
}

/// Lexes a whole source text into its statements.
///
/// Fails exactly when the text ends while a backslash continuation is
/// pending.
pub fn lex(input: &str) -> (r: Result<Vec<Statement>, ObjError>)
    ensures
        match r {
            Ok(stmts) => lex_spec(input@) matches Ok(g) && stmts_model(stmts@) == g,
            Err(e) => lex_spec(input@) is Err && err_model(e) == ErrModel::Load(
                LoadErrorKind::BackslashAtEOF,
            ),
        },
{
    let mut lx = Lexer::new(input);
    let mut out: Vec<Statement> = Vec::new();
    let ghost stripped = stripped_lines_spec(input@);
    proof {
        assert(stmts_model(out@) =~= Seq::<GStmt>::empty());
        if logical_lines_spec(stripped) is Ok {
            assert(Seq::<GStmt>::empty() + lex_lines(logical_lines_spec(stripped)->Ok_0)
                =~= lex_lines(logical_lines_spec(stripped)->Ok_0));
        }
    }
    loop
        invariant
            lx.wf(),
            logical_lines_spec(stripped) is Ok <==> logical_lines_spec(lx.remaining_lines())
                is Ok,
            logical_lines_spec(stripped) matches Ok(full) ==> logical_lines_spec(
                lx.remaining_lines(),
            ) matches Ok(rem) && lex_lines(full) == stmts_model(out@) + lex_lines(rem),
            lex_spec(input@) == match logical_lines_spec(stripped) {
                Ok(ls) => Ok::<Seq<GStmt>, ()>(lex_lines(ls)),
                Err(e) => Err::<Seq<GStmt>, ()>(e),
            },
        decreases lx.remaining_lines().len(),
    {
        let ghost pre = lx.remaining_lines();
        match lx.next() {
            None => {
                proof {
                    assert(logical_lines_spec(pre) == Ok::<Seq<Seq<char>>, ()>(Seq::empty()));
                    assert(lex_lines(Seq::<Seq<char>>::empty()) =~= Seq::<GStmt>::empty());
                    assert(stmts_model(out@) + Seq::<GStmt>::empty() =~= stmts_model(out@));
                }
                return Ok(out);
            },
            Some(Err(e)) => {
                proof {
                    assert(merge_logical(pre) is Err);
                    assert(logical_lines_spec(pre) is Err);
                }
                return Err(ObjError::Load(e));
            },
            Some(Ok(line)) => {
                proof {
                    lemma_merge_logical_consumed(pre);
                }
                let ghost m = merge_logical(pre)->Ok_0;
                let mut toks = tokenize_line(&line);
                proof {
                    if logical_lines_spec(lx.remaining_lines()) is Ok {
                        let rest = logical_lines_spec(lx.remaining_lines())->Ok_0;
                        assert(logical_lines_spec(pre) == Ok::<Seq<Seq<char>>, ()>(
                            seq![m.0] + rest,
                        ));
                        lemma_lex_lines_cons(m.0, rest);
                    }
                }
                if toks.len() > 0 {
                    let keyword = toks.remove(0);
                    proof {
                        assert(keyword@ == split_ws(line@)[0]);
                        assert(lines_model(toks@) =~= split_ws(line@).skip(1));
                    }
                    let st = Statement { keyword, args: toks };
                    out.push(st);
                    proof {
                        assert(stmts_model(out@) =~= stmts_model(out@.drop_last()) + seq![
                            st.model(),
                        ]);
                        if logical_lines_spec(lx.remaining_lines()) is Ok {
                            let rest = logical_lines_spec(lx.remaining_lines())->Ok_0;
                            assert(stmts_model(out@.drop_last()) + (seq![st.model()] + lex_lines(
                                rest,
                            )) =~= stmts_model(out@) + lex_lines(rest));
                        }
                    }
                }
            },
        }
    }
}

/// Removes everything from the first `#` of the line on.
pub fn strip_comment(line: String) -> (r: String)
    ensures
        r@ == strip_comment_spec(line@),
{
    let cs = to_chars(line.as_str());
    let stripped = strip_comment_chars(&cs);
    crate::text::chars_to_string(&stripped)
}

/// [`strip_comment`] on a character vector.
fn strip_comment_chars(line: &Vec<char>) -> (r: Vec<char>)
    ensures
        r@ == strip_comment_spec(line@),
{
    let j = find_char(line, 0, '#');
    proof {
        lemma_first_where_unique(line@, |c: char| c == '#', j as int);
        assert(line@.subrange(0, j as int) =~= line@.take(j as int));
    }
    copy_range(line, 0, j)
}

/// A line without a `#` keeps all of its characters.
proof fn lemma_strip_comment_absent(s: Seq<char>)
    requires
        forall|j: int| 0 <= j < s.len() ==> s[j] != '#',
    ensures
        strip_comment_spec(s) == s,
{
    lemma_first_where_unique(s, |c: char| c == '#', s.len() as int);
    assert(s.take(s.len() as int) =~= s);
}

/// A nonempty text without newlines, comments and carriage returns is one
/// physical line, kept as it is.
proof fn lemma_stripped_lines_clean_single(s: Seq<char>)
    requires
        s.len() > 0,
        forall|j: int| 0 <= j < s.len() ==> s[j] != '\n' && s[j] != '#',
        s[s.len() - 1] != '\r',
    ensures
        stripped_lines_spec(s) == seq![s],
{
    lemma_first_where_unique(s, |c: char| c == '\n', s.len() as int);
    assert(s.take(s.len() as int) =~= s);
    lemma_strip_comment_absent(s);
}

/// A leading piece ending in `\<newline>` forms the first physical line,
/// with the backslash still attached.
proof fn lemma_stripped_lines_clean_cont(a: Seq<char>, rest: Seq<char>)
    requires
        forall|j: int| 0 <= j < a.len() ==> a[j] != '\n' && a[j] != '#',
    ensures
        stripped_lines_spec(a + seq!['\\', '\n'] + rest) == seq![a + seq!['\\']]
            + stripped_lines_spec(rest),
{
    let s = a + seq!['\\', '\n'] + rest;
    let i = a.len() as int + 1;
    assert forall|j: int| 0 <= j < i implies s[j] != '\n' by {
        if j < a.len() {
            assert(s[j] == a[j]);
        } else {
            assert(s[j] == '\\');
        }
    }
    assert(s[i] == '\n');
    lemma_first_where_unique(s, |c: char| c == '\n', i);
    let line = a + seq!['\\'];
    assert(s.take(i) =~= line);
    assert(line[line.len() - 1] == '\\');
    assert forall|j: int| 0 <= j < line.len() implies line[j] != '#' by {
        if j < a.len() {
            assert(line[j] == a[j]);
        }
    }
    lemma_strip_comment_absent(line);
    assert(s.skip(i + 1) =~= rest);
}

/// A statement body written across three backslash-continued physical lines
/// lexes exactly as its one-line form with the pieces joined by single
/// spaces.  The pieces must be free of newlines, comment signs and carriage
/// returns, and the last piece must be nonempty and must not itself announce
/// a further continuation.
pub proof fn lemma_continuation_joins(a: Seq<char>, b: Seq<char>, c: Seq<char>)
    requires
        forall|j: int| 0 <= j < a.len() ==> a[j] != '\n' && a[j] != '#' && a[j] != '\r',
        forall|j: int| 0 <= j < b.len() ==> b[j] != '\n' && b[j] != '#' && b[j] != '\r',
        forall|j: int| 0 <= j < c.len() ==> c[j] != '\n' && c[j] != '#' && c[j] != '\r',
        c.len() > 0,
        c[c.len() - 1] != '\\',
    ensures
        lex_spec(a + seq!['\\', '\n'] + b + seq!['\\', '\n'] + c) == lex_spec(
            a + seq![' '] + b + seq![' '] + c,
        ),
{
    let input1 = a + seq!['\\', '\n'] + b + seq!['\\', '\n'] + c;
    let rest1 = b + seq!['\\', '\n'] + c;
    assert(input1 =~= a + seq!['\\', '\n'] + rest1);
    lemma_stripped_lines_clean_cont(a, rest1);
    lemma_stripped_lines_clean_cont(b, c);
    lemma_stripped_lines_clean_single(c);
    let la = a + seq!['\\'];
    let lb = b + seq!['\\'];
    let lines3 = seq![la] + (seq![lb] + seq![c]);
    assert(stripped_lines_spec(input1) == lines3);

    // The three physical lines merge into one logical line.
    assert(lines3[0] == la);
    assert(lines3.skip(1) =~= seq![lb] + seq![c]);
    assert((seq![lb] + seq![c])[0] == lb);
    assert((seq![lb] + seq![c]).skip(1) =~= seq![c]);
    assert(seq![c][0] == c);
    assert(ends_with_backslash(la));
    assert(ends_with_backslash(lb));
    assert(!ends_with_backslash(c));
    assert(merge_logical(seq![c]) == Ok::<(Seq<char>, int), ()>((c, 1)));
    assert(lb.drop_last() =~= b);
    assert(merge_logical(seq![lb] + seq![c]) == Ok::<(Seq<char>, int), ()>(
        (b + seq![' '] + c, 2),
    ));
    assert(la.drop_last() =~= a);
    let joined = a + seq![' '] + (b + seq![' '] + c);
    assert(merge_logical(lines3) == Ok::<(Seq<char>, int), ()>((joined, 3)));
    assert(lines3.skip(3) =~= Seq::<Seq<char>>::empty());
    assert(logical_lines_spec(lines3.skip(3)) == Ok::<Seq<Seq<char>>, ()>(Seq::empty()));
    assert(logical_lines_spec(lines3) == Ok::<Seq<Seq<char>>, ()>(seq![joined] + Seq::empty()));

    // The one-line form is a single physical line merging into itself.
    let input2 = a + seq![' '] + b + seq![' '] + c;
    assert forall|j: int| 0 <= j < input2.len() implies input2[j] != '\n' && input2[j] != '#' by {
        let na = a.len() as int;
        let nb = b.len() as int;
        if j < na {
            assert(input2[j] == a[j]);
        } else if j == na {
            assert(input2[j] == ' ');
        } else if j < na + 1 + nb {
            assert(input2[j] == b[j - na - 1]);
        } else if j == na + 1 + nb {
            assert(input2[j] == ' ');
        } else {
            assert(input2[j] == c[j - na - nb - 2]);
        }
    }
    assert(input2[input2.len() - 1] == c[c.len() - 1]);
    lemma_stripped_lines_clean_single(input2);
    assert(seq![input2][0] == input2);
    assert(!ends_with_backslash(input2));
    assert(merge_logical(seq![input2]) == Ok::<(Seq<char>, int), ()>((input2, 1)));
    assert(seq![input2].skip(1) =~= Seq::<Seq<char>>::empty());
    assert(logical_lines_spec(seq![input2].skip(1)) == Ok::<Seq<Seq<char>>, ()>(Seq::empty()));
    assert(logical_lines_spec(seq![input2]) == Ok::<Seq<Seq<char>>, ()>(
        seq![input2] + Seq::empty(),
    ));

    // The joined logical lines coincide, so the statements do too.
    assert(joined =~= input2);
    assert(seq![joined] + Seq::<Seq<char>>::empty() =~= seq![input2] + Seq::<Seq<char>>::empty());
}

/// A cursor over the comment-stripped physical lines of a source text,
/// handing out one logical (continuation-joined) line at a time.
pub struct Lexer {
    lines: Vec<Vec<char>>,
    pos: usize,
}

impl Lexer {
    /// The cursor stands on a line boundary.
    pub closed spec fn wf(&self) -> bool {
        self.pos <= self.lines.len()
    }

    /// The comment-stripped physical lines not yet consumed.
    pub closed spec fn remaining_lines(&self) -> Seq<Seq<char>> {
        lines_model(self.lines@).skip(self.pos as int)
    }

    /// Builds a lexer over the whole source text.
    pub fn new(input: &str) -> (r: Lexer)
        ensures
            r.wf(),
            r.remaining_lines() == stripped_lines_spec(input@),
    {
        let lines = stripped_lines(input);
        let r = Lexer { lines, pos: 0 };
        proof {
            assert(r.remaining_lines() =~= lines_model(r.lines@));
        }
        r
    }
}

/// The comment-stripped physical lines of a source text.
pub(crate) fn stripped_lines(input: &str) -> (r: Vec<Vec<char>>)
    ensures
        lines_model(r@) == stripped_lines_spec(input@),
{
    let chars = to_chars(input);
    let mut lines: Vec<Vec<char>> = Vec::new();
    let mut i: usize = 0;
    proof {
        assert(input@.skip(0) =~= input@);
        assert(lines_model(lines@) + stripped_lines_spec(input@) =~= stripped_lines_spec(
            input@,
        ));
    }
    loop
        invariant
            i <= chars@.len(),
            chars@ == input@,
            stripped_lines_spec(input@) == lines_model(lines@) + stripped_lines_spec(
                input@.skip(i as int),
            ),
        ensures
            stripped_lines_spec(input@) == lines_model(lines@),
        decreases chars@.len() - i,
    {
        if i == chars.len() {
            proof {
                assert(stripped_lines_spec(input@.skip(i as int)) =~= Seq::<Seq<char>>::empty());
                assert(stripped_lines_spec(input@) =~= lines_model(lines@));
            }
            break;
        }
        let j = find_char(&chars, i, '\n');
        let mut line = copy_range(&chars, i, j);
        if line.len() > 0 && line[line.len() - 1] == '\r' {
            line.pop();
        }
        let stripped = strip_comment_chars(&line);
        proof {
            let rest = input@.skip(i as int);
            lemma_first_where_unique(rest, |c: char| c == '\n', j - i);
            assert(rest.take(j - i) =~= input@.subrange(i as int, j as int));
            assert(drop_final_cr(rest.take(j - i)) =~= line@);
            if j < chars.len() {
                assert(rest.skip(j - i + 1) =~= input@.skip(j + 1));
            }
        }
        lines.push(stripped);
        proof {
            let rest = input@.skip(i as int);
            if j == chars@.len() {
                assert(stripped_lines_spec(rest) =~= seq![stripped@]);
            } else {
                assert(stripped_lines_spec(rest) =~= seq![stripped@] + stripped_lines_spec(
                    input@.skip(j + 1),
                ));
            }
            assert(lines_model(lines@) =~= lines_model(lines@.drop_last()) + seq![stripped@]);
            if j == chars@.len() {
                assert(lines_model(lines@) + stripped_lines_spec(input@.skip(chars@.len() as int))
                    =~= stripped_lines_spec(input@));
            } else {
                assert(lines_model(lines@) + stripped_lines_spec(input@.skip(j + 1))
                    =~= stripped_lines_spec(input@));
            }
        }
        if j == chars.len() {
            i = j;
            proof {
                assert(stripped_lines_spec(input@.skip(i as int)) =~= Seq::<Seq<char>>::empty());
            }
            break;
        } else {
            i = j + 1;
        }
    }
    lines
}

impl Lexer {
    /// The next logical line: the following physical line, or the physical
    /// lines a pending backslash continuation joins.  `None` at the end of
    /// the source; an error if the source ends while a continuation is
    /// pending.
    pub fn next(&mut self) -> (r: Option<Result<Vec<char>, LoadError>>)
        requires
            old(self).wf(),
        ensures
            final(self).wf(),
            match r {
                None => {
                    &&& old(self).remaining_lines().len() == 0
                    &&& final(self).remaining_lines() == old(self).remaining_lines()
                },
                Some(Ok(line)) => {
                    merge_logical(old(self).remaining_lines()) matches Ok(m) && line@ == m.0
                        && final(self).remaining_lines() == old(self).remaining_lines().skip(m.1)
                },
                Some(Err(e)) => {
                    &&& old(self).remaining_lines().len() > 0
                    &&& merge_logical(old(self).remaining_lines()) is Err
                    &&& e.kind == LoadErrorKind::BackslashAtEOF
                },
            },
    {
        if self.pos == self.lines.len() {
            return None;
        }
        let ghost old_rem = old(self).remaining_lines();
        proof {
            assert(old_rem[0] == self.lines@[self.pos as int]@);
        }
        let line = &self.lines[self.pos];
        let n = line.len();
        if n == 0 || line[n - 1] != '\\' {
            let l = copy_range(line, 0, n);
            self.pos = self.pos + 1;
            proof {
                assert(!ends_with_backslash(old_rem[0]));
                assert(l@ =~= old_rem[0]);
                assert(self.remaining_lines() =~= old_rem.skip(1));
            }
            return Some(Ok(l));
        }
        let mut buffer = copy_range(line, 0, n - 1);
        buffer.push(' ');
        self.pos = self.pos + 1;
        proof {
            assert(ends_with_backslash(old_rem[0]));
            assert(buffer@ =~= old_rem[0].drop_last() + seq![' ']);
            assert(self.remaining_lines() =~= old_rem.skip(1));
        }
        loop
            invariant
                self.wf(),
                self.lines@ == old(self).lines@,
                old(self).pos < self.pos <= self.lines@.len(),
                old_rem == old(self).remaining_lines(),
                merge_logical(old_rem) is Ok <==> merge_logical(self.remaining_lines()) is Ok,
                merge_logical(self.remaining_lines()) matches Ok(m) ==> merge_logical(old_rem)
                    == Ok::<(Seq<char>, int), ()>(
                    (buffer@ + m.0, m.1 + self.pos - old(self).pos),
                ),
            decreases self.lines@.len() - self.pos,
        {
            if self.pos == self.lines.len() {
                proof {
                    assert(self.remaining_lines().len() == 0);
                    assert(merge_logical(self.remaining_lines()) is Err);
                }
                return Some(
                    Err(
                        LoadError::new(
                            LoadErrorKind::BackslashAtEOF,
                            "Expected a line, but met an EOF",
                        ),
                    ),
                );
            }
            let ghost cur_rem = self.remaining_lines();
            proof {
                assert(cur_rem[0] == self.lines@[self.pos as int]@);
            }
            let l2 = &self.lines[self.pos];
            let m = l2.len();
            if m > 0 && l2[m - 1] == '\\' {
                let ghost b0 = buffer@;
                append_range(&mut buffer, l2, 0, m - 1);
                buffer.push(' ');
                self.pos = self.pos + 1;
                proof {
                    assert(ends_with_backslash(cur_rem[0]));
                    assert(buffer@ =~= b0 + (cur_rem[0].drop_last() + seq![' ']));
                    assert(self.remaining_lines() =~= cur_rem.skip(1));
                    let rr = merge_logical(self.remaining_lines());
                    if rr is Ok {
                        let mm = rr->Ok_0;
                        assert(merge_logical(cur_rem) == Ok::<(Seq<char>, int), ()>(
                            (cur_rem[0].drop_last() + seq![' '] + mm.0, mm.1 + 1),
                        ));
                        assert(b0 + (cur_rem[0].drop_last() + seq![' '] + mm.0) =~= buffer@ + mm.0);
                    }
                }
            } else {
                let ghost b0 = buffer@;
                append_range(&mut buffer, l2, 0, m);
                self.pos = self.pos + 1;
                proof {
                    assert(!ends_with_backslash(cur_rem[0]));
                    assert(merge_logical(cur_rem) == Ok::<(Seq<char>, int), ()>((cur_rem[0], 1)));
                    assert(cur_rem[0] =~= l2@.subrange(0, m as int));
                    assert(buffer@ =~= b0 + cur_rem[0]);
                    assert(self.remaining_lines() =~= old_rem.skip(
                        self.pos - old(self).pos,
                    ));
                }
                return Some(Ok(buffer));
            }
        }
    }
}

} // verus!
