//! One step of a session: a line goes in, the state changes, and what is
//! left for the caller to do comes out.

use crate::commands::{
    command_of, effect_of, mode_after, parse_command, vars_after_command, CommandEffect,
    RuntimeVariables,
};
use crate::error::{CalcError, CalcErrorView};
use crate::evaluator::{eval_assignment, eval_assignment_spec};
use crate::parser::{parse_assignment, parse_assignment_spec};
use crate::store::VariableStore;
use crate::tokenizer::{lex, tokenize};
use vstd::prelude::*;

verus! {

/// What a line that is no command does to the variables: the name that it
/// binds and the value that it binds it to, or the failure of the first of
/// lexing, parsing and evaluation that fails.
pub open spec fn interpret(line: Seq<char>, vars: Map<Seq<char>, int>) -> Result<
    (Seq<char>, int),
    CalcErrorView,
> {
    match lex(line) {
        Err(e) => Err(e),
        Ok(tokens) => match parse_assignment_spec(tokens) {
            Err(e) => Err(e),
            Ok(tree) => eval_assignment_spec(tree, vars),
        },
    }
}

/// Lexes, parses and evaluates a line, and binds its value. Returns the
/// name that was bound. Where any of the three fails, the variables stay as
/// they were.
pub fn evaluate_line(line: &str, variables: &mut VariableStore) -> (r: Result<String, CalcError>)
    ensures
        match interpret(line@, old(variables)@) {
            Ok((name, value)) => r matches Ok(bound) && bound@ == name
                && final(variables)@ == old(variables)@.insert(name, value),
            Err(e) => r matches Err(err) && err@ == e && final(variables)@ == old(variables)@,
        },
{
    let tokens = match tokenize(line) {
        Ok(tokens) => tokens,
        Err(e) => {
            return Err(e);
        },
    };
    let tree = match parse_assignment(tokens.as_slice()) {
        Ok(tree) => tree,
        Err(e) => {
            return Err(e);
        },
    };
    eval_assignment(tree, variables)
}

/// What became of a line.
#[derive(Debug)]
pub enum LineOutcome {
    /// The line was a command; this is left for the caller to do.
    Command(CommandEffect),
    /// The line was evaluated, and its value bound to this name.
    Bound(String),
    /// The line was refused.
    Failed(CalcError),
}

/// Takes one line of a session: a command where the line is exactly the
/// name of one, else an assignment or an expression.
pub fn run_line(state: &mut RuntimeVariables, line: &str) -> (outcome: LineOutcome)
    ensures
        match command_of(line@) {
            Some(command) => {
                &&& outcome matches LineOutcome::Command(effect)
                &&& effect == effect_of(command)
                &&& final(state).display_mode == mode_after(command, old(state).display_mode)
                &&& final(state).vars@ == vars_after_command(command, old(state).vars@)
            },
            None => {
                &&& final(state).display_mode == old(state).display_mode
                &&& match interpret(line@, old(state).vars@) {
                    Ok((name, value)) => outcome matches LineOutcome::Bound(bound) && bound@
                        == name && final(state).vars@ == old(state).vars@.insert(name, value),
                    Err(e) => outcome matches LineOutcome::Failed(err) && err@ == e
                        && final(state).vars@ == old(state).vars@,
                }
            },
        },
{
    match parse_command(line) {
        Some(command) => LineOutcome::Command(state.run_command(command)),
        None => match evaluate_line(line, &mut state.vars) {
            Ok(name) => LineOutcome::Bound(name),
            Err(e) => LineOutcome::Failed(e),
        },
    }
}

} // verus!
