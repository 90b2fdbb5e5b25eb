//! The errors that end a resolution.

use vstd::prelude::*;
use vstd::string::StringExecFns;

verus! {

/// Why a resolution was given up.
#[derive(Debug)]
pub enum ResolveError {
    /// The solver found no assignment; the text is the chain of conflicts.
    NoSolution(String),
    /// The URL of an unnamed requirement has a scheme of no known kind.
    UnsupportedUrlScheme(String),
    /// The metadata of the source at the URL could not be built; the second
    /// text is the cause.
    MetadataBuildFailed(String, String),
    /// The selection cannot run in the environment it was made for.
    IncompatibleMarkers,
    /// The URL does not name an artifact.
    InvalidUrl(String),
    /// The file name or the metadata of an artifact is malformed.
    InvalidMetadata(String),
}

/// An error as a mathematical value.
pub enum ResolveErrorView {
    NoSolution(Seq<char>),
    UnsupportedUrlScheme(Seq<char>),
    MetadataBuildFailed(Seq<char>, Seq<char>),
    IncompatibleMarkers,
    InvalidUrl(Seq<char>),
    InvalidMetadata(Seq<char>),
}

impl View for ResolveError {
    type V = ResolveErrorView;

    open spec fn view(&self) -> ResolveErrorView {
        match self {
            ResolveError::NoSolution(s) => ResolveErrorView::NoSolution(s@),
            ResolveError::UnsupportedUrlScheme(s) => ResolveErrorView::UnsupportedUrlScheme(s@),
            ResolveError::MetadataBuildFailed(u, c) => ResolveErrorView::MetadataBuildFailed(
                u@,
                c@,
            ),
            ResolveError::IncompatibleMarkers => ResolveErrorView::IncompatibleMarkers,
            ResolveError::InvalidUrl(s) => ResolveErrorView::InvalidUrl(s@),
            ResolveError::InvalidMetadata(s) => ResolveErrorView::InvalidMetadata(s@),
        }
    }
}

impl DeepView for ResolveError {
    type V = ResolveErrorView;

    open spec fn deep_view(&self) -> ResolveErrorView {
        self@
    }
}

/// The text of an error.
pub open spec fn error_text(e: ResolveErrorView) -> Seq<char> {
    match e {
        ResolveErrorView::NoSolution(chain) => "No solution found: "@ + chain,
        ResolveErrorView::UnsupportedUrlScheme(url) => "Unsupported scheme for unnamed requirement: "@
            + url,
        ResolveErrorView::MetadataBuildFailed(url, cause) => "Failed to build metadata for "@ + url
            + ": "@ + cause,
        ResolveErrorView::IncompatibleMarkers => "The selected packages cannot run in this environment"@,
        ResolveErrorView::InvalidUrl(url) => "Invalid URL: "@ + url,
        ResolveErrorView::InvalidMetadata(text) => "Invalid metadata: "@ + text,
    }
}

impl ResolveError {
    /// The error as a message for the user.
    pub fn message(&self) -> (text: String)
        ensures
            text@ == error_text(self@),
    {
        let mut text = String::new();
        match self {
            ResolveError::NoSolution(chain) => {
                text.append("No solution found: ");
                text.append(chain.as_str());
            },
            ResolveError::UnsupportedUrlScheme(url) => {
                text.append("Unsupported scheme for unnamed requirement: ");
                text.append(url.as_str());
            },
            ResolveError::MetadataBuildFailed(url, cause) => {
                text.append("Failed to build metadata for ");
                text.append(url.as_str());
                text.append(": ");
                text.append(cause.as_str());
            },
            ResolveError::IncompatibleMarkers => {
                text.append("The selected packages cannot run in this environment");
            },
            ResolveError::InvalidUrl(url) => {
                text.append("Invalid URL: ");
                text.append(url.as_str());
            },
            ResolveError::InvalidMetadata(detail) => {
                text.append("Invalid metadata: ");
                text.append(detail.as_str());
            },
        }
        assert(text@ =~= error_text(self@));
        text
    }
}

} // verus!
