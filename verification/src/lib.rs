//! A compiler from a small `~command(args)` markup language to HTML bytes.
//!
//! The pipeline is strictly linear: bytes go through the [`Parser`] to an
//! arena-based [`Ast`], and the [`Generator`] walks that tree once to HTML
//! bytes — or either stage stops at the first fault with an [`Error`].
//! The grammar and the rendering table are stated as specification
//! functions ([`grammar`], [`render`]); the executable parser and generator
//! are verified to agree with them exactly, and [`laws`], [`balance`] and
//! [`prose`] prove the properties the compiler promises on top.

use vstd::prelude::*;
use vstd::string::StringSliceAdditionalSpecFns;

pub mod ast;
pub mod balance;
pub mod error;
pub mod generator;
pub mod grammar;
pub mod laws;
pub mod parser;
pub mod prose;
pub mod render;

pub use ast::Argument;
pub use ast::Ast;
pub use ast::Node;
pub use ast::NodeId;
pub use error::Error;
pub use error::Span;
pub use generator::Generator;
pub use parser::Parser;

verus! {

/// What compiling a source buffer yields: the document parsed by the
/// grammar, then rendered through the built-in table. The first fault found
/// aborts the whole compilation with no partial output.
pub open spec fn to_html_spec(s: Seq<u8>) -> Result<Seq<u8>, Error> {
    match crate::grammar::document(s) {
        Ok((ns, root)) => crate::render::render_node(s, ns, root.idx as int),
        Err(e) => Err(e),
    }
}

/// Compile markup source to HTML bytes, or report the first fault.
///
/// The result is a function of the source bytes alone: two runs on the same
/// input return the same value, byte for byte.
pub fn to_html(source: &str) -> (r: Result<Vec<u8>, Error>)
    requires
        source.spec_bytes().len() <= u32::MAX,
    ensures
        match to_html_spec(source.spec_bytes()) {
            Ok(h) => r matches Ok(v) && v@ == h,
            Err(e) => r matches Err(e2) && e2 == e,
        },
{
    let bytes = source.as_bytes();
    let parser = Parser::new(bytes);
    let ast = match parser.parse() {
        Ok(a) => a,
        Err(e) => {
            return Err(e);
        },
    };
    Generator::new(bytes, ast).generate()
}

} // verus!
