pub mod chars;
pub mod errors;
pub mod grammar;
pub mod lexing;
pub mod parser;
pub mod tokenizer;

use vstd::prelude::*;

use crate::lexing::tokenizable;
use crate::tokenizer::{can_tokenize, tokenize, TokenQueue};

verus! {

/// Evaluates a query; for now this means splitting it into tokens.
pub fn evaluate_query(query: &str)
    requires
        tokenizable(query@),
{
    let _seperated_strings: TokenQueue = tokenize(query).unwrap();
}

/// How the evaluation of a command went.
#[derive(Debug)]
pub enum CommandStatus {
    Success,
    Failure,
}

/// Evaluates `query` where the tokenizer can take it (`Success`), and leaves it
/// alone otherwise (`Failure`).
pub fn run_query(query: &str) -> (r: CommandStatus)
    ensures
        tokenizable(query@) ==> r == CommandStatus::Success,
        !tokenizable(query@) ==> r == CommandStatus::Failure,
{
    if can_tokenize(query) {
        evaluate_query(query);
        CommandStatus::Success
    } else {
        CommandStatus::Failure
    }
}

} // verus!
