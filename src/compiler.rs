use vstd::prelude::*;
use crate::codegen::{CompileError, generate, generate_spec, module_is};
use crate::ast::Expression;
use crate::common::Module;
use crate::parser::{parse_expressions, program_spec, view_list};

verus! {

/// Compiles source text: parses it, then generates code for the expression trees.
pub fn compile(program: &str) -> (r: Result<Module, CompileError>)
    ensures
        match program_spec(program@) {
            Err(p) => r matches Err(CompileError::Parse(q)) && q == p,
            Ok(vs) => exists|es: Seq<Expression>| view_list(es) == vs && module_is(generate_spec(es), r),
        },
{
    let expressions = match parse_expressions(program) {
        Ok(es) => es,
        Err(e) => {
            return Err(e);
        },
    };
    generate(&expressions)
}

} // verus!
