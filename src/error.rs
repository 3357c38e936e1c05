//! The ways interning can fail.
use vstd::prelude::*;

verus! {

/// Why a grammar could not be interned.
#[derive(Debug, PartialEq, Eq)]
pub enum Error {
    /// A name that no variable and no external token carries.
    UndefinedSymbol(String),
    /// The first variable is hidden.
    InvalidStartRule,
}

/// The model of an error: the undefined name seen as its characters.
pub enum ErrorView {
    UndefinedSymbol(Seq<char>),
    InvalidStartRule,
}

impl View for Error {
    type V = ErrorView;

    open spec fn view(&self) -> ErrorView {
        match self {
            Error::UndefinedSymbol(name) => ErrorView::UndefinedSymbol(name@),
            Error::InvalidStartRule => ErrorView::InvalidStartRule,
        }
    }
}

/// The text of an error's message.
pub open spec fn message_of(e: ErrorView) -> Seq<char> {
    match e {
        ErrorView::UndefinedSymbol(name) => "Undefined symbol `"@ + name + "`"@,
        ErrorView::InvalidStartRule => "A grammar's start rule must be visible."@,
    }
}

impl Error {
    /// The text shown to a user.
    pub fn message(&self) -> (r: String)
        ensures
            r@ == message_of(self@),
    {
        match self {
            Error::UndefinedSymbol(name) => {
                let mut r = String::from_str("Undefined symbol `");
                r.append(name.as_str());
                r.append("`");
                r
            },
            Error::InvalidStartRule => String::from_str("A grammar's start rule must be visible."),
        }
    }
}

} // verus!
