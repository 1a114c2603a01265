//! The package manifest data model: checksum kinds, package entries, and the
//! manifest that drives every phase; together with URI validation.
//!
//! A manifest records, for one named image, what the remote package manager
//! resolved: the operation mode, the remote architecture, the total download
//! size (absent for index updates), the order packages must be installed in,
//! and a map from package key to origin URI, size and optional checksum.

use vstd::prelude::*;
use crate::errors::{InvalidChecksumKind, UriError};
use crate::strutil::{no_char, str_eq};

verus! {

/// The checksum algorithm used to verify a transferred artifact.
#[derive(Debug, Clone, Copy, PartialEq, Eq, Structural)]
pub enum ChecksumKind {
    SHA256,
    MD5,
}

/// A checksum record for a package.
#[derive(Debug, Clone, PartialEq, Eq)]
pub struct Checksum {
    /// The checksum algorithm.
    pub kind: ChecksumKind,
    /// The hex-encoded checksum value.
    pub value: String,
}

/// One package entry of a manifest.
#[derive(Debug, Clone, PartialEq, Eq)]
pub struct PackageEntry {
    /// The origin download URL.
    pub uri: String,
    /// The size of the package file in bytes.
    pub size: u64,
    /// Optional checksum for verifying file integrity.
    pub checksum: Option<Checksum>,
}

/// The mode a manifest was resolved for.
#[derive(Debug, Clone, Copy, PartialEq, Eq, Structural)]
pub enum RemoteMode {
    /// Install named packages on the remote host.
    Install,
    /// Refresh the package index on the remote host.
    Update,
    /// Upgrade the packages already on the remote host.
    Upgrade,
}

/// The persisted manifest for one image.
#[derive(Debug, Clone, PartialEq, Eq)]
pub struct UriFile {
    /// The operation mode the manifest was resolved for.
    pub mode: RemoteMode,
    /// The architecture reported by the remote host at resolution time.
    pub arch: String,
    /// Total size of all packages; absent in update mode.
    pub total_size: Option<u64>,
    /// The order in which packages must be installed.
    pub install_order: Vec<String>,
    /// Package key to package entry, in resolution order with unique keys.
    pub packages: Vec<(String, PackageEntry)>,
}

/// Mathematical model of a checksum record.
#[verifier::ext_equal]
pub ghost struct ChecksumView {
    pub kind: ChecksumKind,
    pub value: Seq<char>,
}

/// Mathematical model of a package entry.
#[verifier::ext_equal]
pub ghost struct EntryView {
    pub uri: Seq<char>,
    pub size: u64,
    pub checksum: Option<ChecksumView>,
}

/// Mathematical model of a manifest.
#[verifier::ext_equal]
pub ghost struct ManifestView {
    pub mode: RemoteMode,
    pub arch: Seq<char>,
    pub total_size: Option<u64>,
    pub install_order: Seq<Seq<char>>,
    pub packages: Seq<(Seq<char>, EntryView)>,
}

impl View for Checksum {
    type V = ChecksumView;

    open spec fn view(&self) -> ChecksumView {
        ChecksumView { kind: self.kind, value: self.value@ }
    }
}

impl View for PackageEntry {
    type V = EntryView;

    open spec fn view(&self) -> EntryView {
        EntryView {
            uri: self.uri@,
            size: self.size,
            checksum: match self.checksum {
                Some(c) => Some(c@),
                None => None,
            },
        }
    }
}

/// The model of a sequence of keyed package entries.
pub open spec fn pairs_view(v: Seq<(String, PackageEntry)>) -> Seq<(Seq<char>, EntryView)> {
    Seq::new(v.len(), |i: int| (v[i].0@, v[i].1@))
}

impl View for UriFile {
    type V = ManifestView;

    open spec fn view(&self) -> ManifestView {
        ManifestView {
            mode: self.mode,
            arch: self.arch@,
            total_size: self.total_size,
            install_order: self.install_order.deep_view(),
            packages: pairs_view(self.packages@),
        }
    }
}

impl ManifestView {
    /// The package keys, in manifest order.
    pub open spec fn keys(self) -> Seq<Seq<char>> {
        Seq::new(self.packages.len(), |i: int| self.packages[i].0)
    }

    /// No two packages share a key.
    pub open spec fn keys_unique(self) -> bool {
        forall|i: int, j: int|
            0 <= i < j < self.packages.len() ==> self.packages[i].0 != self.packages[j].0
    }

    /// The string fields avoid the characters the on-disk rendering reserves:
    /// no line breaks anywhere, and no double quotes in install-order items.
    pub open spec fn codec_clean(self) -> bool {
        &&& no_char(self.arch, '\n')
        &&& forall|i: int| 0 <= i < self.install_order.len() ==> no_char(
            #[trigger] self.install_order[i],
            '\n',
        ) && no_char(self.install_order[i], '"')
        &&& forall|i: int| 0 <= i < self.packages.len() ==> {
            &&& no_char((#[trigger] self.packages[i]).0, '\n')
            &&& no_char(self.packages[i].1.uri, '\n')
            &&& match self.packages[i].1.checksum {
                Some(c) => no_char(c.value, '\n'),
                None => true,
            }
        }
    }

    /// Every package URI parses and uses an allowed scheme.
    pub open spec fn uris_valid(self) -> bool {
        forall|i: int| 0 <= i < self.packages.len() ==> scheme_ok(
            (#[trigger] self.packages[i]).1.uri,
        )
    }

    /// The structural invariants the resolution phase establishes: an update
    /// manifest has no install order and no total size; any other manifest
    /// has a total size and installs exactly its packages, in key order.
    pub open spec fn consistent(self) -> bool {
        if self.mode is Update {
            self.install_order.len() == 0 && self.total_size is None
        } else {
            self.total_size is Some && self.install_order == self.keys()
        }
    }
}

impl UriFile {
    /// Whether the manifest satisfies the structural invariants the
    /// resolution phase establishes: an update manifest records no install
    /// order and no total size; any other manifest records a total size and
    /// installs exactly its package keys, in order.
    pub fn check_consistent(&self) -> (r: bool)
        ensures
            r == self@.consistent(),
    {
        let ghost v = self@;
        match self.mode {
            RemoteMode::Update => self.install_order.len() == 0 && self.total_size.is_none(),
            _ => {
                if self.total_size.is_none() {
                    return false;
                }
                if self.install_order.len() != self.packages.len() {
                    proof {
                        assert(v.keys().len() == v.packages.len());
                    }
                    return false;
                }
                let mut i: usize = 0;
                while i < self.install_order.len()
                    invariant
                        i <= self.install_order.len(),
                        v == self@,
                        v.install_order.len() == v.keys().len(),
                        forall|j: int| 0 <= j < i ==> v.install_order[j] == v.keys()[j],
                    decreases self.install_order.len() - i,
                {
                    proof {
                        assert(v.install_order[i as int] == self.install_order@[i as int]@);
                        assert(v.keys()[i as int] == self.packages@[i as int].0@);
                    }
                    if !str_eq(self.install_order[i].as_str(), self.packages[i].0.as_str()) {
                        proof {
                            assert(v.install_order[i as int] != v.keys()[i as int]);
                        }
                        return false;
                    }
                    i += 1;
                }
                proof {
                    assert(v.install_order =~= v.keys());
                }
                true
            },
        }
    }
}

/// Whether `s` parses as an absolute URL, in the sense of `url::Url::parse`.
pub uninterp spec fn uri_parses(s: Seq<char>) -> bool;

/// The lower-cased scheme `url::Url::scheme` reports for a parsed URL.
pub uninterp spec fn uri_scheme(s: Seq<char>) -> Seq<char>;

/// The final path segment `url::Url::path_segments` reports, when the URL
/// parses and its path has segments.
pub uninterp spec fn uri_last_segment(s: Seq<char>) -> Option<Seq<char>>;

/// Relies on `url::Url::parse` and `url::Url::scheme`: `parse` is a
/// deterministic function of the input string that succeeds exactly on
/// absolute URLs, and `scheme` returns the parsed URL's lower-cased scheme.
#[verifier::external_body]
fn parse_scheme(uri: &str) -> (r: Option<String>)
    ensures
        r is Some <==> uri_parses(uri@),
        r matches Some(sch) ==> sch@ == uri_scheme(uri@),
{
    match url::Url::parse(uri) {
        Ok(u) => Some(u.scheme().to_string()),
        Err(_) => None,
    }
}

/// Relies on `url::Url::parse` and `url::Url::path_segments`: for a URL that
/// parses, `path_segments` is `Some` exactly when the URL can be a base, and
/// its final element is the last `/`-separated path segment.
#[verifier::external_body]
fn parse_last_segment(uri: &str) -> (r: Option<String>)
    ensures
        r is Some <==> uri_last_segment(uri@) is Some,
        r matches Some(t) ==> Some(t@) == uri_last_segment(uri@),
{
    match url::Url::parse(uri) {
        Ok(u) => match u.path_segments() {
            Some(segments) => segments.last().map(|s| s.to_string()),
            None => None,
        },
        Err(_) => None,
    }
}

/// The schemes a package URI may use.
pub open spec fn allowed_scheme(sch: Seq<char>) -> bool {
    sch == "http"@ || sch == "https"@ || sch == "ftp"@
}

/// A valid package URI: parses as an absolute URL with an allowed scheme.
pub open spec fn scheme_ok(uri: Seq<char>) -> bool {
    uri_parses(uri) && allowed_scheme(uri_scheme(uri))
}

/// Whether a scheme string is one of the allowed schemes.
pub fn scheme_allowed(sch: &str) -> (r: bool)
    ensures
        r == allowed_scheme(sch@),
{
    str_eq(sch, "http") || str_eq(sch, "https") || str_eq(sch, "ftp")
}

/// Validate that a URI is well-formed and uses a supported scheme
/// (`http`, `https` or `ftp`).
pub fn validate_uri(uri: &str) -> (r: Result<(), UriError>)
    ensures
        r is Ok <==> scheme_ok(uri@),
        r == Err::<(), UriError>(UriError::Malformed) <==> !uri_parses(uri@),
        r == Err::<(), UriError>(UriError::BadScheme) <==> uri_parses(uri@)
            && !allowed_scheme(uri_scheme(uri@)),
{
    match parse_scheme(uri) {
        Some(sch) => {
            if scheme_allowed(sch.as_str()) {
                Ok(())
            } else {
                Err(UriError::BadScheme)
            }
        },
        None => Err(UriError::Malformed),
    }
}

/// Whether a string parses as an absolute URL.
pub fn is_url(uri: &str) -> (r: bool)
    ensures
        r == uri_parses(uri@),
{
    parse_scheme(uri).is_some()
}

/// The filename a URI implies: its final path segment.
pub fn uri_filename(uri: &str) -> (r: Option<String>)
    ensures
        match r {
            Some(t) => uri_last_segment(uri@) == Some(t@),
            None => uri_last_segment(uri@) is None,
        },
{
    parse_last_segment(uri)
}

impl ChecksumKind {
    /// Create a [`ChecksumKind`] from a checksum tool name, `"sha256sum"`
    /// or `"md5sum"`; any other name is rejected.
    pub fn new(kind_str: &str) -> (r: Result<ChecksumKind, InvalidChecksumKind>)
        ensures
            r == Ok::<ChecksumKind, InvalidChecksumKind>(ChecksumKind::SHA256) <==> kind_str@
                == "sha256sum"@,
            r == Ok::<ChecksumKind, InvalidChecksumKind>(ChecksumKind::MD5) <==> kind_str@
                == "md5sum"@,
            r is Err <==> !(kind_str@ == "sha256sum"@ || kind_str@ == "md5sum"@),
    {
        proof {
            reveal_strlit("sha256sum");
            reveal_strlit("md5sum");
        }
        if str_eq(kind_str, "sha256sum") {
            proof {
                assert("sha256sum"@.len() == 9);
                assert("md5sum"@.len() == 6);
                assert(kind_str@ != "md5sum"@);
            }
            Ok(ChecksumKind::SHA256)
        } else if str_eq(kind_str, "md5sum") {
            Ok(ChecksumKind::MD5)
        } else {
            Err(InvalidChecksumKind)
        }
    }
}

} // verus!
