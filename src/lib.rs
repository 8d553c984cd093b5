//! Script-assembly notation for Bitcoin scripts: a parser from classified
//! tokens to the items of a script, a generator from those items to a chain
//! of script builder calls, and an evaluator that runs such a chain against
//! the builder.
//!
//! The notation holds opcodes (`OP_CHECKSIG`), decimal integers (`1234`,
//! `-5`), hex byte strings (`0x0102`) and embedded expressions between angle
//! brackets (`<value>`), whose values are pushed where they stand.
use vstd::prelude::*;

pub mod generate;
pub mod literal;
pub mod opcodes;
pub mod parse;
pub mod script;
pub mod token;

use crate::generate::{chain_nodes, generate, Expression};
use crate::opcodes::OpcodeTable;
use crate::parse::{parse, parse_spec, Diagnostic};
use crate::token::Token;

verus! {

/// Turns a token sequence into the builder expression for its script.
///
/// Fails with every diagnostic found where the parse stopped or recovered
/// from any mistake; otherwise the expression pushes the parsed items in
/// order.
pub fn bitcoin_script(table: &OpcodeTable, tokens: &Vec<Token>) -> (r: Result<
    Expression,
    Vec<Diagnostic>,
>)
    requires
        table.wf(),
    ensures
        match parse_spec(tokens@) {
            Ok((items, diags)) => if diags.len() == 0 {
                r matches Ok(e) && chain_nodes(e.chain) == items
            } else {
                r matches Err(ds) && ds@ == diags
            },
            Err(diags) => r matches Err(ds) && ds@ == diags,
        },
{
    match parse(table, tokens) {
        Ok(parsed) => if parsed.diagnostics.len() == 0 {
            Ok(generate(parsed.program))
        } else {
            Err(parsed.diagnostics)
        },
        Err(diagnostics) => Err(diagnostics),
    }
}

} // verus!
