use vstd::prelude::*;
use crate::dict::Dict;

verus! {

/// The HTML that the markdown converter produces for a given markdown text.
pub uninterp spec fn markdown_of(s: Seq<char>) -> Seq<char>;

/// Relies on pulldown_cmark::html::push_html over Parser::new_ext with
/// strikethrough enabled: the produced HTML depends on the markdown text
/// alone, so the result is named rather than spelled out.
#[verifier::external_body]
pub(crate) fn markdown_to_html(markdown_input: &str) -> (r: String)
    ensures
        r@ == markdown_of(markdown_input@),
{
    let mut options = pulldown_cmark::Options::empty();
    options.insert(pulldown_cmark::Options::ENABLE_STRIKETHROUGH);
    let parser = pulldown_cmark::Parser::new_ext(markdown_input, options);
    let mut html_output = String::new();
    pulldown_cmark::html::push_html(&mut html_output, parser);
    html_output
}

#[verifier::external_type_specification]
#[verifier::external_body]
pub struct ExTeraError(tera::Error);

/// Relies on tera::Tera::one_off without autoescape for one
/// template-substitution pass over the context's entries.  Nothing is stated
/// of the outcome: a template can build a map value of its own and observe
/// its iteration order, which the standard hash map randomizes per process,
/// so neither success nor the produced text is a function of the template
/// and the context alone.  Callers state what holds of every outcome.
#[verifier::external_body]
pub(crate) fn render_template(template: &str, ctx: &Dict) -> (r: Result<String, tera::Error>) {
    let mut context = tera::Context::new();
    for (k, v) in ctx.entries.iter() {
        context.insert(k.clone(), v);
    }
    match tera::Tera::one_off(template, &context, false) {
        Ok(s) => Ok(s),
        Err(e) => Err(e),
    }
}

/// The kebab-cased form of a string.
pub uninterp spec fn kebab_of(s: Seq<char>) -> Seq<char>;

/// Relies on heck::ToKebabCase for str: the result depends on the characters
/// alone.
#[verifier::external_body]
pub(crate) fn to_kebab_case(s: &str) -> (r: String)
    ensures
        r@ == kebab_of(s@),
{
    heck::ToKebabCase::to_kebab_case(s)
}

} // verus!
