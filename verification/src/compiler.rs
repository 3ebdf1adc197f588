//! The compiler: source text in, Hopscotch project out.
use vstd::prelude::*;
use crate::ast::{ParseError, ast, errors_view, parse_spec};
use crate::generator::{gen_project, generated_with, generates, try_gen_project};
use crate::types::{CompiledData, Project, ProjectView, scripts_view};
use crate::utils::GenError;

verus! {

/// What compiling a source text gives: the project (or why none could be
/// generated) and the stretches of source the parser skipped.
#[derive(Debug)]
pub struct CompileOutput {
    pub project: Result<Project, GenError>,
    pub errors: Vec<ParseError>,
}

/// Compiles `s` with the block data `bd`: parses it and generates its
/// project, or gives the reason why the project cannot be generated.
///
/// The skipped stretches are those of `parse_spec`; the project is what the
/// generator gives for the parsed statements, for the clock reading and the
/// random ids that were drawn.
pub fn try_compile(s: &str, bd: CompiledData) -> (r: CompileOutput)
    ensures
        errors_view(r.errors@) == parse_spec(s@, false).1,
        match r.project {
            Ok(p) => exists|millis: nat, ids: Seq<Seq<char>>|
                #[trigger] generated_with(
                    parse_spec(s@, false).0,
                    bd@,
                    millis,
                    ids,
                    Ok::<ProjectView, GenError>(p@),
                ),
            Err(e) => e == GenError::ClockOutOfRange || exists|millis: nat, ids: Seq<Seq<char>>|
                #[trigger] generated_with(
                    parse_spec(s@, false).0,
                    bd@,
                    millis,
                    ids,
                    Err::<ProjectView, GenError>(e),
                ),
        },
{
    let (scripts, errors) = ast(s);
    assert(scripts_view(scripts@) == parse_spec(s@, false).0);
    let project = try_gen_project(&scripts, bd);
    CompileOutput { project, errors }
}

/// The main compile fn: parses `s` and generates its project with the block
/// data `bd`, for a text whose statements can be generated.
///
/// The skipped stretches are those of `parse_spec`; the project is what the
/// generator gives for the parsed statements, for the clock reading and the
/// random ids that were drawn.
pub fn compile(s: &str, bd: CompiledData) -> (r: CompileOutput)
    requires
        generates(parse_spec(s@, false).0, bd@),
    ensures
        errors_view(r.errors@) == parse_spec(s@, false).1,
        match r.project {
            Ok(p) => exists|millis: nat, ids: Seq<Seq<char>>|
                #[trigger] generated_with(
                    parse_spec(s@, false).0,
                    bd@,
                    millis,
                    ids,
                    Ok::<ProjectView, GenError>(p@),
                ),
            Err(e) => e == GenError::ClockOutOfRange,
        },
{
    let (scripts, errors) = ast(s);
    assert(scripts_view(scripts@) == parse_spec(s@, false).0);
    let project = gen_project(&scripts, bd);
    CompileOutput { project, errors }
}

} // verus!
