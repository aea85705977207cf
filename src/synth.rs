use vstd::prelude::*;

use crate::codegen::{function_text, lemma_fresh_generator_runs, run, Codegen, GenState, JSCodegen};
use crate::ir::program;
use crate::schema::Schema;
use crate::searcher::{search, SchemaSearcher, SearchErr, Searcher};

verus! {

/// The state of a fresh generator.
pub open spec fn fresh_state() -> GenState {
    GenState { stack: Seq::empty(), uniq: 0, frags: Seq::empty() }
}

/// The JavaScript function, of parameter `arg` and result variable `retvar`,
/// that takes values of `lhs` to values of `rhs`; `NoPath` where the rules
/// relate no such pair.
pub fn synthesize(lhs: &Schema, rhs: &Schema, arg: &str, retvar: &str) -> (r: Result<
    String,
    SearchErr,
>)
    ensures
        match r {
            Ok(code) => search(lhs@, rhs@) is Some && code@ == function_text(
                arg@,
                retvar@,
                run(arg@, retvar@, fresh_state(), search(lhs@, rhs@)->0)->0.frags,
            ),
            Err(e) => search(lhs@, rhs@) is None && e == SearchErr::NoPath,
        },
{
    let mut searcher = SchemaSearcher::new();
    match searcher.find_path(lhs, rhs) {
        Ok(ir) => {
            let cg = JSCodegen::new(arg, retvar);
            let n = ir.len();
            proof {
                lemma_fresh_generator_runs(arg@, retvar@, lhs@, rhs@);
                assert(cg.start() == fresh_state());
                assert(program(ir@) == search(lhs@, rhs@)->0);
                assert(n == ir@.len());
                assert(cg.uniq + 2 * program(ir@).len() <= u128::MAX);
                assert(cg.accepts(program(ir@)));
            }
            Ok(cg.generate(ir))
        },
        Err(e) => Err(e),
    }
}

} // verus!
