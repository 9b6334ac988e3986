//! Rendering the text of a template file against the variables.

use crate::error::Failure;
use crate::variables::Variables;
use vstd::prelude::*;

verus! {

/// The error type of the template engine.
#[verifier::external_type_specification]
#[verifier::external_body]
pub struct ExTemplateError(minijinja::Error);

/// What the template engine makes of the template text `source` when the
/// variables are `vars`: the rendered text, or `None` where the engine
/// reports an error (the text is not a valid template, or its evaluation
/// fails). This is the result of `minijinja::Environment::render_str` in an
/// environment made by `minijinja::Environment::new`.
pub uninterp spec fn template_output(source: Seq<char>, vars: Map<Seq<char>, Seq<char>>) -> Option<
    Seq<char>,
>;

/// Calls `minijinja::Environment::render_str` on `source`, in a fresh
/// default environment, with the variables as the context, each under its
/// name. Nothing is proved of the result: the contract only gives it its
/// name, [`template_output`].
#[verifier::external_body]
pub(crate) fn render_str(source: &String, vars: &Variables) -> (out: Result<String, minijinja::Error>)
    ensures
        match out {
            Ok(text) => template_output(source@, vars@) == Some(text@),
            Err(_) => template_output(source@, vars@) is None,
        },
{
    let context: std::collections::BTreeMap<&str, &str> = vars.items.iter().map(
        |v| (v.name.as_str(), v.value.as_str()),
    ).collect();
    minijinja::Environment::new().render_str(source, context)
}

/// What a rendering comes to for the generation: its text, or the error
/// that a failed rendering stands for.
pub fn rendered(outcome: Result<String, minijinja::Error>) -> (result: Result<String, Failure>)
    ensures
        match outcome {
            Ok(text) => result == Ok::<String, Failure>(text),
            Err(_) => result == Err::<String, Failure>(Failure::RenderError),
        },
{
    match outcome {
        Ok(text) => Ok(text),
        Err(_) => Err(Failure::RenderError),
    }
}

/// Renders the template text `source` against the variables `vars`.
/// References to variables that are not among `vars` render as the engine
/// renders undefined values. Fails with `RenderError` exactly where the
/// engine reports an error.
pub fn render(source: &String, vars: &Variables) -> (result: Result<String, Failure>)
    ensures
        match result {
            Ok(text) => template_output(source@, vars@) == Some(text@),
            Err(e) => e == Failure::RenderError && template_output(source@, vars@) is None,
        },
{
    rendered(render_str(source, vars))
}

} // verus!
