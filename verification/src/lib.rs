//! A compiler from a small constructive-solid-geometry (CSG) description
//! language to a geometry-editing script that defines primitive solids and
//! combines them into named boolean combinations.
//!
//! The pipeline has three stages: a recursive-descent parser that turns raw
//! source bytes into a concrete parse tree, a builder that turns the parse
//! tree into a typed abstract syntax tree, and a code generator that walks
//! the tree while threading two name counters and emits the script text.

use vstd::prelude::*;

pub mod ast;
pub mod builder;
pub mod decimal;
pub mod gen;
pub mod laws;
pub mod parse;

verus! {

/// Everything that can go wrong while compiling a source text.
#[derive(Clone, Copy, Debug, PartialEq, Eq, Structural)]
pub enum CsgError {
    /// The source does not conform to the grammar; `pos` is the first byte
    /// offset the grammar cannot match.
    SyntaxError { pos: usize },
    /// A recognized call's shape violates an assumed invariant: a transform
    /// without a matrix argument or child block, a matrix that is not 4x4, or
    /// a primitive argument without a name.
    StructuralError,
    /// An argument's value does not have the type its name calls for.
    LiteralParseError,
    /// The intersection combinator is not supported.
    UnsupportedOperation,
}

/// What compiling a source text yields: parse the program, build the AST,
/// then generate with both counters at zero and the union combinator for the
/// top-level scope — or the first error of the pipeline.
pub open spec fn spec_compile(src: Seq<u8>) -> Result<Seq<u8>, CsgError> {
    match parse::sp_program(src) {
        Ok(calls) => match builder::sp_build_calls(calls) {
            Ok(stmts) => Ok(gen::spec_gen_scope(0, 0, gen::CSGOperation::Union, stmts).text),
            Err(e) => Err(e),
        },
        Err(p) => Err(CsgError::SyntaxError { pos: p as usize }),
    }
}

/// Compiles one source text to the target script.
pub fn compile(src: &[u8]) -> (r: Result<Vec<u8>, CsgError>)
    ensures
        match r {
            Ok(code) => spec_compile(src@) == Ok::<Seq<u8>, CsgError>(code@),
            Err(e) => spec_compile(src@) == Err::<Seq<u8>, CsgError>(e),
        },
{
    // The source length bounds every name counter, so both fit in u64.
    let source_len: usize = src.len();
    proof {
        assert(source_len <= usize::MAX);
    }
    let calls = match parse::parse_program(src) {
        Ok(cs) => cs,
        Err(e) => {
            return Err(e);
        },
    };
    let block = match builder::generate_block(&calls) {
        Ok(n) => n,
        Err(e) => {
            return Err(e);
        },
    };
    let statements = match block {
        ast::ASTNode::Block { statements } => statements,
        _ => {
            proof {
                assert(false);
            }
            return Err(CsgError::StructuralError);
        },
    };
    let mut solid_number: u64 = 0;
    let mut combination_number: u64 = 0;
    match gen::generate_mged_code(
        &mut solid_number,
        &mut combination_number,
        gen::CSGOperation::Union,
        &statements,
    ) {
        Ok(code) => Ok(code),
        Err(e) => {
            proof {
                assert(false);
            }
            Err(e)
        },
    }
}

} // verus!
