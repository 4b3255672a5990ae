//! Low-level API for the Wavefront OBJ and MTL text formats.

pub mod lexer;
pub mod material;
pub mod object;
pub mod util;

pub use self::material::{RawMtl, parse_mtl};
pub use self::object::{RawObj, parse_obj};
