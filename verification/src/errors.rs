use vstd::prelude::*;

verus! {

/// Parse-time failures of the declaration language and of system building.
/// Every variant carries the offending text; all are fatal to the enclosing
/// build or load: no partial feature system is ever returned.
#[derive(Debug, Clone, PartialEq)]
pub enum PhlParseError {
    InvalidTokenError(String),
    InvalidFeatureValueError(String),
    InvalidFeatureNameError(String),
    SyntaxError(String),
    RedefinedSymbolError(String),
    FileReadError(String),
    MustHaveDefaultError,
    SymbolNotDefinedError(String),
    UnexpectedFeaturesError(String),
}

/// The mathematical shape of a [`PhlParseError`]: the same variants over
/// sequences of characters, for use in contracts.
pub enum PhlParseErrorView {
    InvalidToken(Seq<char>),
    InvalidFeatureValue(Seq<char>),
    InvalidFeatureName(Seq<char>),
    Syntax(Seq<char>),
    RedefinedSymbol(Seq<char>),
    FileRead(Seq<char>),
    MustHaveDefault,
    SymbolNotDefined(Seq<char>),
    UnexpectedFeatures(Seq<char>),
}

impl View for PhlParseError {
    type V = PhlParseErrorView;

    open spec fn view(&self) -> PhlParseErrorView {
        match self {
            PhlParseError::InvalidTokenError(s) => PhlParseErrorView::InvalidToken(s@),
            PhlParseError::InvalidFeatureValueError(s) => PhlParseErrorView::InvalidFeatureValue(
                s@,
            ),
            PhlParseError::InvalidFeatureNameError(s) => PhlParseErrorView::InvalidFeatureName(s@),
            PhlParseError::SyntaxError(s) => PhlParseErrorView::Syntax(s@),
            PhlParseError::RedefinedSymbolError(s) => PhlParseErrorView::RedefinedSymbol(s@),
            PhlParseError::FileReadError(s) => PhlParseErrorView::FileRead(s@),
            PhlParseError::MustHaveDefaultError => PhlParseErrorView::MustHaveDefault,
            PhlParseError::SymbolNotDefinedError(s) => PhlParseErrorView::SymbolNotDefined(s@),
            PhlParseError::UnexpectedFeaturesError(s) => PhlParseErrorView::UnexpectedFeatures(s@),
        }
    }
}

/// Distance-time failures: a symbol missing from the system's table during a
/// feature-policy cost lookup, or a usage error of the analysis layer.
#[derive(Debug, Clone, PartialEq)]
pub enum PhlDistanceError {
    PhonemeNotFoundError(String),
    InvalidInputError(String),
}

/// The mathematical shape of a [`PhlDistanceError`].
pub enum PhlDistanceErrorView {
    PhonemeNotFound(Seq<char>),
    InvalidInput(Seq<char>),
}

impl View for PhlDistanceError {
    type V = PhlDistanceErrorView;

    open spec fn view(&self) -> PhlDistanceErrorView {
        match self {
            PhlDistanceError::PhonemeNotFoundError(s) => PhlDistanceErrorView::PhonemeNotFound(s@),
            PhlDistanceError::InvalidInputError(s) => PhlDistanceErrorView::InvalidInput(s@),
        }
    }
}

} // verus!
