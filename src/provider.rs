//! Errors of the registry enumerator, the scanners and the deleter.

use vstd::prelude::*;

verus! {

/// The kind of an [`ImageProviderError`].
#[derive(Debug, Clone, Copy, PartialEq, Eq, Structural)]
pub enum ImageProviderErrorKind {
    /// A call to the cloud platform failed.
    SdkError,
    /// A filter or exclusion pattern could not be compiled.
    Initialization,
}

/// An error of the registry enumerator or of a scanner.
#[derive(Debug)]
pub struct ImageProviderError {
    /// The kind of the error.
    pub kind: ImageProviderErrorKind,
    /// What went wrong, as text.
    pub source: String,
}

impl ImageProviderError {
    /// A failed call to the cloud platform.
    pub fn sdk_error(source: String) -> (r: ImageProviderError)
        ensures
            r.kind == ImageProviderErrorKind::SdkError,
            r.source@ == source@,
    {
        ImageProviderError { kind: ImageProviderErrorKind::SdkError, source }
    }

    /// A pattern that does not compile; `source` is its text.
    pub fn initialization_error(source: String) -> (r: ImageProviderError)
        ensures
            r.kind == ImageProviderErrorKind::Initialization,
            r.source@ == source@,
    {
        ImageProviderError { kind: ImageProviderErrorKind::Initialization, source }
    }
}

/// The kind of an [`ImageDeleterError`].
#[derive(Debug, Clone, Copy, PartialEq, Eq, Structural)]
pub enum ImageDeleterErrorKind {
    /// A call to the cloud platform failed.
    SdkError,
}

/// An error of the batched deleter.
#[derive(Debug)]
pub struct ImageDeleterError {
    /// The kind of the error.
    pub kind: ImageDeleterErrorKind,
    /// What went wrong, as text.
    pub source: String,
}

impl ImageDeleterError {
    /// A failed call to the cloud platform.
    pub fn sdk_error(source: String) -> (r: ImageDeleterError)
        ensures
            r.kind == ImageDeleterErrorKind::SdkError,
            r.source@ == source@,
    {
        ImageDeleterError { kind: ImageDeleterErrorKind::SdkError, source }
    }
}

} // verus!
