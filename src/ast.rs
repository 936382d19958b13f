//! The shape of a parsed program.
use vstd::prelude::*;

verus! {

/// The value of a statement. Expressions are not parsed yet: this marks
/// where one stood.
#[derive(Debug, PartialEq, Eq)]
pub struct Expression;

/// One statement. The bound name has type `I`: an owned `String` in
/// executable code, its character sequence in specifications.
#[derive(Debug, PartialEq, Eq)]
pub enum Statement<I = String> {
    Let { identifier: I, value: Expression },
    Return(Expression),
}

/// A statement as specifications see it.
pub type StatementModel = Statement<Seq<char>>;

impl View for Statement<String> {
    type V = StatementModel;

    open spec fn view(&self) -> StatementModel {
        match self {
            Statement::Let { identifier, value: _ } => Statement::Let {
                identifier: identifier@,
                value: Expression,
            },
            Statement::Return(_) => Statement::Return(Expression),
        }
    }
}

/// The statements of a source text, in source order.
#[derive(Debug)]
pub struct Program {
    pub statements: Vec<Statement>,
}

impl View for Program {
    type V = Seq<StatementModel>;

    open spec fn view(&self) -> Seq<StatementModel> {
        self.statements@.map_values(|s: Statement| s@)
    }
}

} // verus!
