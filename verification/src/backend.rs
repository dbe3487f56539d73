//! The backend for character streams and its catalog of primitive matchers.

use crate::model::{Backend, BuiltIn};
use vstd::prelude::*;

verus! {

/// The backend that matches grammars against streams of characters.
pub struct WinnowBackend;

/// The catalog of the character-stream backend: the name of each primitive
/// matcher with the type of what it yields.
pub open spec fn winnow_catalog() -> Seq<BuiltIn> {
    seq![
        BuiltIn { name: "ident", return_type: "String" },
        BuiltIn { name: "string", return_type: "String" },
        BuiltIn { name: "char", return_type: "char" },
        BuiltIn { name: "any", return_type: "char" },
        BuiltIn { name: "alpha1", return_type: "String" },
        BuiltIn { name: "digit1", return_type: "String" },
        BuiltIn { name: "hex_digit0", return_type: "String" },
        BuiltIn { name: "hex_digit1", return_type: "String" },
        BuiltIn { name: "oct_digit0", return_type: "String" },
        BuiltIn { name: "oct_digit1", return_type: "String" },
        BuiltIn { name: "binary_digit0", return_type: "String" },
        BuiltIn { name: "binary_digit1", return_type: "String" },
        BuiltIn { name: "multispace0", return_type: "String" },
        BuiltIn { name: "multispace1", return_type: "String" },
        BuiltIn { name: "space0", return_type: "String" },
        BuiltIn { name: "space1", return_type: "String" },
        BuiltIn { name: "line_ending", return_type: "String" },
        BuiltIn { name: "empty", return_type: "()" },
        BuiltIn { name: "u8", return_type: "u8" },
        BuiltIn { name: "u16", return_type: "u16" },
        BuiltIn { name: "u32", return_type: "u32" },
        BuiltIn { name: "u64", return_type: "u64" },
        BuiltIn { name: "u128", return_type: "u128" },
        BuiltIn { name: "usize", return_type: "usize" },
        BuiltIn { name: "i8", return_type: "i8" },
        BuiltIn { name: "i16", return_type: "i16" },
        BuiltIn { name: "i32", return_type: "i32" },
        BuiltIn { name: "i64", return_type: "i64" },
        BuiltIn { name: "i128", return_type: "i128" },
        BuiltIn { name: "isize", return_type: "isize" },
        BuiltIn { name: "f32", return_type: "f32" },
        BuiltIn { name: "f64", return_type: "f64" },
        BuiltIn { name: "bool", return_type: "bool" },
    ]
}

impl Backend for WinnowBackend {
    /// The catalog of the character-stream backend, in the order of
    /// [`winnow_catalog`].
    fn get_builtins() -> (r: Vec<BuiltIn>)
        ensures
            r@ == winnow_catalog(),
    {
        let mut r: Vec<BuiltIn> = Vec::new();
        r.push(BuiltIn { name: "ident", return_type: "String" });
        r.push(BuiltIn { name: "string", return_type: "String" });
        r.push(BuiltIn { name: "char", return_type: "char" });
        r.push(BuiltIn { name: "any", return_type: "char" });
        r.push(BuiltIn { name: "alpha1", return_type: "String" });
        r.push(BuiltIn { name: "digit1", return_type: "String" });
        r.push(BuiltIn { name: "hex_digit0", return_type: "String" });
        r.push(BuiltIn { name: "hex_digit1", return_type: "String" });
        r.push(BuiltIn { name: "oct_digit0", return_type: "String" });
        r.push(BuiltIn { name: "oct_digit1", return_type: "String" });
        r.push(BuiltIn { name: "binary_digit0", return_type: "String" });
        r.push(BuiltIn { name: "binary_digit1", return_type: "String" });
        r.push(BuiltIn { name: "multispace0", return_type: "String" });
        r.push(BuiltIn { name: "multispace1", return_type: "String" });
        r.push(BuiltIn { name: "space0", return_type: "String" });
        r.push(BuiltIn { name: "space1", return_type: "String" });
        r.push(BuiltIn { name: "line_ending", return_type: "String" });
        r.push(BuiltIn { name: "empty", return_type: "()" });
        r.push(BuiltIn { name: "u8", return_type: "u8" });
        r.push(BuiltIn { name: "u16", return_type: "u16" });
        r.push(BuiltIn { name: "u32", return_type: "u32" });
        r.push(BuiltIn { name: "u64", return_type: "u64" });
        r.push(BuiltIn { name: "u128", return_type: "u128" });
        r.push(BuiltIn { name: "usize", return_type: "usize" });
        r.push(BuiltIn { name: "i8", return_type: "i8" });
        r.push(BuiltIn { name: "i16", return_type: "i16" });
        r.push(BuiltIn { name: "i32", return_type: "i32" });
        r.push(BuiltIn { name: "i64", return_type: "i64" });
        r.push(BuiltIn { name: "i128", return_type: "i128" });
        r.push(BuiltIn { name: "isize", return_type: "isize" });
        r.push(BuiltIn { name: "f32", return_type: "f32" });
        r.push(BuiltIn { name: "f64", return_type: "f64" });
        r.push(BuiltIn { name: "bool", return_type: "bool" });
        assert(r@ =~= winnow_catalog());
        r
    }
}

} // verus!
