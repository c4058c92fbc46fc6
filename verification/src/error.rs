//! Errors.

use vstd::prelude::*;

verus! {

/// What can go wrong while changes are attributed; each carries the text that explains it.
#[derive(Debug)]
pub enum GitAiError {
    IoError(String),
    JsonError(String),
    Generic(String),
}

/// An error by the text it carries.
pub enum ErrorView {
    Io(Seq<char>),
    Json(Seq<char>),
    Generic(Seq<char>),
}

impl View for GitAiError {
    type V = ErrorView;

    open spec fn view(&self) -> ErrorView {
        match self {
            GitAiError::IoError(text) => ErrorView::Io(text@),
            GitAiError::JsonError(text) => ErrorView::Json(text@),
            GitAiError::Generic(text) => ErrorView::Generic(text@),
        }
    }
}

/// An error shows its kind and the text that it carries.
pub proof fn errors_show_their_texts(error: GitAiError)
    ensures
        error matches GitAiError::IoError(text) ==> error@ == ErrorView::Io(text@),
        error matches GitAiError::JsonError(text) ==> error@ == ErrorView::Json(text@),
        error matches GitAiError::Generic(text) ==> error@ == ErrorView::Generic(text@),
{
}

} // verus!
