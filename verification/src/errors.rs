//! Error types of the library.  Fatal conditions (bad target strings, bad
//! manifests) carry enough detail for a caller to report them; per-item
//! conditions are surfaced by the phase logic as data, not as errors.

use vstd::prelude::*;

verus! {

/// Why a package URI was rejected.
#[derive(Debug, Clone, PartialEq, Eq)]
pub enum UriError {
    /// The string does not parse as an absolute URL.
    Malformed,
    /// The URL parses but its scheme is not http, https or ftp.
    BadScheme,
}

/// The checksum kind string named no known checksum tool.
#[derive(Debug, Clone, PartialEq, Eq)]
pub struct InvalidChecksumKind;

/// Why a persisted manifest failed to load.
#[derive(Debug, Clone, PartialEq, Eq)]
pub enum ManifestError {
    /// The text is not a manifest this library wrote.
    Malformed,
    /// A package's URI failed validation; the field names the package key.
    InvalidUri(String),
}

/// Why the remote package manager's output could not be resolved into a
/// manifest.  Each per-line variant names the line it came from.
#[derive(Debug, Clone, PartialEq, Eq)]
pub enum ResolveError {
    /// A line has fewer than the four expected fields; holds the line.
    MissingFields(String),
    /// A line's URI field has no final path segment to derive a filename from.
    NoFilename(String),
    /// A line's size field is not an unsigned decimal number.
    BadSize(String),
    /// A line's checksum field has no value after its kind.
    NoChecksumValue(String),
    /// A line's checksum kind is unknown; the field names the package file.
    BadChecksumKind(String),
    /// A source URI has no `//` authority separator to derive a key from.
    NoHostPath(String),
    /// The summed package sizes exceed the largest representable total.
    SizeOverflow,
}

/// Why an apply run could not start.
#[derive(Debug, Clone, PartialEq, Eq)]
pub enum ApplyError {
    /// The manifest was resolved for an index update, not an installation.
    UpdateMode,
}

/// Why a target string could not name a remote session.
#[derive(Debug, Clone, PartialEq, Eq)]
pub enum TargetError {
    /// The target holds no `@` separating user from host.
    MissingHost,
}

/// A failure reported by a remote session primitive.
#[derive(Debug, Clone, PartialEq, Eq)]
pub struct RemoteError {
    pub message: String,
}

} // verus!
