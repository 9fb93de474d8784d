//! The ways in which a query can fail.
use vstd::prelude::*;
use vstd::string::StringExecFns;

verus! {

/// Why no report was made. Every failure ends the query; none is retried.
#[derive(Clone, Debug, PartialEq, Eq)]
pub enum TopoError {
    /// The graph could not be built from the manifests. Carries the reason
    /// as it was given.
    ManifestResolutionFailure(String),
    /// No package of the graph carries the name that was asked for as root.
    PackageNotFound(String),
    /// Links that are not development-only form a cycle, so no build order
    /// exists.
    CycleDetected,
}

/// What a `TopoError` is in contracts.
pub enum ErrorView {
    ManifestResolutionFailure(Seq<char>),
    PackageNotFound(Seq<char>),
    CycleDetected,
}

impl View for TopoError {
    type V = ErrorView;

    open spec fn view(&self) -> ErrorView {
        match self {
            TopoError::ManifestResolutionFailure(reason) => ErrorView::ManifestResolutionFailure(
                reason@,
            ),
            TopoError::PackageNotFound(name) => ErrorView::PackageNotFound(name@),
            TopoError::CycleDetected => ErrorView::CycleDetected,
        }
    }
}

/// The text that describes an error.
pub open spec fn message_text(error: ErrorView) -> Seq<char> {
    match error {
        ErrorView::ManifestResolutionFailure(reason) => reason,
        ErrorView::PackageNotFound(name) => "Package '"@ + name + "' not found in workspace"@,
        ErrorView::CycleDetected => "Dependency cycle detected among non-dev dependencies"@,
    }
}

impl TopoError {
    /// The text that describes the error, for a person to read.
    pub fn message(&self) -> (text: String)
        ensures
            text@ == message_text(self@),
    {
        match self {
            TopoError::ManifestResolutionFailure(reason) => reason.clone(),
            TopoError::PackageNotFound(name) => {
                let mut text = String::from_str("Package '");
                text.append(name.as_str());
                text.append("' not found in workspace");
                text
            },
            TopoError::CycleDetected => String::from_str(
                "Dependency cycle detected among non-dev dependencies",
            ),
        }
    }
}

} // verus!
