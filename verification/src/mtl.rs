//! The historic MTL loader: a stub that models no statement at all.

use crate::lex::lex;
use crate::raw::lexer::{lex_lines, stripped_lines_spec};
use vstd::prelude::*;

verus! {

/// Low-level binding for the MTL format, as the historic loader left it:
/// an empty placeholder.
#[derive(Clone, Copy, Debug, PartialEq, Eq, Structural)]
pub struct Mtl;

/// Loads an MTL source with the historic stub.
///
/// The stub models no statement, so the source may hold only blank and
/// comment lines.
pub fn load_mtl(input: &str) -> (r: Mtl)
    requires
        lex_lines(stripped_lines_spec(input@)).len() == 0,
{
    let _statements = lex(input);
    Mtl
}

} // verus!
