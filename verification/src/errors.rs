use vstd::prelude::*;

verus! {

/// Spec-level image of a build error, with payloads as mathematical values.
pub enum ErrView {
    /// A layout name could not be resolved to a stored layout file.
    Io { path: Seq<char> },
    /// A header opened but never closed, or a header line had no key/value shape.
    MalformedHeader,
    /// A document that must carry a front-matter header had none.
    MissingFrontMatter,
    /// A required front-matter key was absent.
    MissingRequiredField { field: Seq<char> },
    /// Template substitution rejected the template or its variables.
    Template,
    /// Following `layout` parents revisited a layout; the chain ends with the repeat.
    LayoutCycle { chain: Seq<Seq<char>> },
}

/// An error local to one document's rendering; the builder records it and goes on.
#[derive(Debug, Clone, PartialEq, Eq)]
pub enum BuildError {
    Io { path: String },
    MalformedHeader,
    MissingFrontMatter,
    MissingRequiredField { field: String },
    Template,
    LayoutCycle { chain: Vec<String> },
}

impl View for BuildError {
    type V = ErrView;

    open spec fn view(&self) -> ErrView {
        match self {
            BuildError::Io { path } => ErrView::Io { path: path@ },
            BuildError::MalformedHeader => ErrView::MalformedHeader,
            BuildError::MissingFrontMatter => ErrView::MissingFrontMatter,
            BuildError::MissingRequiredField { field } => ErrView::MissingRequiredField {
                field: field@,
            },
            BuildError::Template => ErrView::Template,
            BuildError::LayoutCycle { chain } => ErrView::LayoutCycle {
                chain: chain.deep_view(),
            },
        }
    }
}

} // verus!
