use vstd::prelude::*;

verus! {

/// A node of the expression tree that the parser produces and the code generator consumes.
#[derive(Debug)]
pub enum Expression {
    Integer(i64),
    Variable(String),
    /// Operator symbol and its two operands.
    BinaryOp(String, Box<Expression>, Box<Expression>),
    /// Call of a named function with its arguments.
    Function(String, Vec<Expression>),
    /// Name, parameter names, body.
    FunctionDefinition(String, Vec<String>, Vec<Expression>),
    /// A `let` block: bindings in order, then the body.
    VariableAssignment(Vec<(String, Expression)>, Vec<Expression>),
    /// Condition, expressions of the then-branch, expressions of the else-branch.
    Conditional(Box<Expression>, Vec<Expression>, Vec<Expression>),
}

} // verus!
