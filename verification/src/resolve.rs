//! The resolution phase: build a manifest from what the remote package
//! manager reports.
//!
//! The caller (outside this crate) runs two remote commands — the
//! architecture query and the print-URIs command built here — and hands
//! their outputs back.  Everything between those outputs and the finished
//! manifest is pure logic and is verified here: splitting the output into
//! lines, parsing each line's URI, size and checksum fields, deriving
//! package keys, keeping the emission order, and summing the total size.
//! Any line that fails to parse aborts the whole resolution.

use vstd::prelude::*;
use vstd::string::*;
use crate::errors::ResolveError;
use crate::strutil::{
    find_char_at, lemma_find_char_at, split_char_seq, split_char_str, join_with, join_spaces,
    remove_char, remove_quotes, replace_char, slashes_to_underscores, parse_u64_lenient,
    parse_u64_lenient_str, trimmed, trim_str, lines_of, lines_of_str, concat3, str_eq,
};
use crate::uri::{
    ChecksumKind, Checksum, PackageEntry, RemoteMode, UriFile, ChecksumView, EntryView,
    uri_last_segment, uri_filename, pairs_view,
};

verus! {

/// Arguments of the resolution command: the image name, the remote target,
/// the packages to install, and the flags that pick the operation mode.
pub struct SetArgs {
    /// Cache image name.
    pub name: String,
    /// Remote target, `user@host`.
    pub target: String,
    /// Packages to install.
    pub install: Vec<String>,
    /// Run the package manager with its fix-broken flag.
    pub fix: bool,
    /// Resolve a package-index update.
    pub update: bool,
    /// Resolve an upgrade of the installed packages.
    pub upgrade: bool,
}

/// The case folding `str::to_lowercase` performs.
pub uninterp spec fn lower_of(s: Seq<char>) -> Seq<char>;

/// Relies on `str::to_lowercase`: the result is a function of the input
/// characters alone.
#[verifier::external_body]
fn lowercase(s: &str) -> (r: String)
    ensures
        r@ == lower_of(s@),
{
    s.to_lowercase()
}

/// The operation mode the flags select; installing is the default.
pub fn mode_of_flags(update: bool, upgrade: bool) -> (m: RemoteMode)
    ensures
        m == (if update {
            RemoteMode::Update
        } else if upgrade {
            RemoteMode::Upgrade
        } else {
            RemoteMode::Install
        }),
{
    if update {
        RemoteMode::Update
    } else if upgrade {
        RemoteMode::Upgrade
    } else {
        RemoteMode::Install
    }
}

/// The fixed remote command that reports the target's architecture.
pub fn arch_query_command() -> (r: String)
    ensures
        r@ == "dpkg --print-architecture"@,
{
    String::from_str("dpkg --print-architecture")
}

pub open spec fn mode_word(m: RemoteMode) -> Seq<char> {
    match m {
        RemoteMode::Install => "install"@,
        RemoteMode::Update => "update"@,
        RemoteMode::Upgrade => "upgrade"@,
    }
}

pub open spec fn verbosity_word(m: RemoteMode) -> Seq<char> {
    match m {
        RemoteMode::Update => "-q"@,
        _ => "-qqq"@,
    }
}

fn mode_word_str(m: &RemoteMode) -> (r: String)
    ensures
        r@ == mode_word(*m),
{
    match m {
        RemoteMode::Install => String::from_str("install"),
        RemoteMode::Update => String::from_str("update"),
        RemoteMode::Upgrade => String::from_str("upgrade"),
    }
}

/// The remote command that prints, one line per package or source, the URIs
/// the chosen operation would download.
pub fn print_uris_command(mode: &RemoteMode, fix: bool, packages: &Vec<String>) -> (r: String)
    ensures
        r@ == "apt-get "@ + mode_word(*mode) + " --print-uris "@ + verbosity_word(*mode) + " "@
            + (if fix {
            "-f"@
        } else {
            ""@
        }) + " "@ + join_with(packages.deep_view(), ' '),
{
    let mw = mode_word_str(mode);
    let verbosity = if matches!(mode, RemoteMode::Update) {
        "-q"
    } else {
        "-qqq"
    };
    let fix_word = if fix {
        "-f"
    } else {
        ""
    };
    let pkgs = join_spaces(packages);
    let mut r = concat3("apt-get ", mw.as_str(), " --print-uris ");
    r.append(verbosity);
    r.append(" ");
    r.append(fix_word);
    r.append(" ");
    r.append(pkgs.as_str());
    proof {
        assert(r@ =~= "apt-get "@ + mode_word(*mode) + " --print-uris "@ + verbosity_word(*mode)
            + " "@ + (if fix {
            "-f"@
        } else {
            ""@
        }) + " "@ + join_with(packages.deep_view(), ' '));
    }
    r
}

// ---------------------------------------------------------------------------
// Source keys (update mode)
// ---------------------------------------------------------------------------

/// First index at or after `i` where `//` occurs, or -1.
pub open spec fn find_dslash_at(s: Seq<char>, i: int) -> int
    decreases s.len() - i,
{
    if i < 0 || i + 2 > s.len() {
        -1
    } else if s[i] == '/' && s[i + 1] == '/' {
        i
    } else {
        find_dslash_at(s, i + 1)
    }
}

proof fn lemma_find_dslash_at(s: Seq<char>, i: int)
    requires
        i >= 0,
    ensures
        find_dslash_at(s, i) == -1 || i <= find_dslash_at(s, i) <= s.len() - 2,
        find_dslash_at(s, i) >= 0 ==> s[find_dslash_at(s, i)] == '/' && s[find_dslash_at(s, i)
            + 1] == '/',
        forall|j: int| i <= j <= s.len() - 2 && #[trigger] s[j] == '/' && s[j + 1] == '/'
            ==> find_dslash_at(s, i) != -1 && find_dslash_at(s, i) <= j,
    decreases s.len() - i,
{
    if i + 2 > s.len() {
    } else if s[i] == '/' && s[i + 1] == '/' {
    } else {
        lemma_find_dslash_at(s, i + 1);
    }
}

proof fn lemma_find_dslash_at_is(s: Seq<char>, i: int, k: int)
    requires
        0 <= i <= k <= s.len() - 2,
        s[k] == '/' && s[k + 1] == '/',
        forall|j: int| i <= j < k ==> !(#[trigger] s[j] == '/' && s[j + 1] == '/'),
    ensures
        find_dslash_at(s, i) == k,
    decreases k - i,
{
    if i < k {
        lemma_find_dslash_at_is(s, i + 1, k);
    }
}

proof fn lemma_find_dslash_at_none(s: Seq<char>, i: int)
    requires
        i >= 0,
        forall|j: int| i <= j <= s.len() - 2 ==> !(#[trigger] s[j] == '/' && s[j + 1] == '/'),
    ensures
        find_dslash_at(s, i) == -1,
{
    lemma_find_dslash_at(s, i);
    if find_dslash_at(s, i) >= 0 {
        assert(s[find_dslash_at(s, i)] == '/' && s[find_dslash_at(s, i) + 1] == '/');
    }
}

/// First occurrence of `//` at or after `from`.
fn find_dslash_from(s: &str, from: usize) -> (r: Option<usize>)
    ensures
        match r {
            Some(k) => find_dslash_at(s@, from as int) == k,
            None => find_dslash_at(s@, from as int) == -1,
        },
{
    let slen = s.unicode_len();
    let mut i: usize = from;
    while slen >= 2 && i <= slen - 2
        invariant
            from <= i,
            slen == s@.len(),
            forall|j: int| from <= j < i ==> !(#[trigger] s@[j] == '/' && s@[j + 1] == '/'),
        decreases slen - i,
    {
        if s.get_char(i) == '/' && s.get_char(i + 1) == '/' {
            proof {
                lemma_find_dslash_at_is(s@, from as int, i as int);
            }
            return Some(i);
        }
        i += 1;
    }
    proof {
        lemma_find_dslash_at_none(s@, from as int);
    }
    None
}

/// The package key an update-mode URI implies: the text between the first
/// `//` and the next `//` (or the end), with every `/` flattened to `_`.
pub open spec fn spec_source_key(u: Seq<char>) -> Option<Seq<char>> {
    let o1 = find_dslash_at(u, 0);
    if o1 == -1 {
        None
    } else {
        let o2 = find_dslash_at(u, o1 + 2);
        let piece = u.subrange(o1 + 2, if o2 == -1 {
            u.len() as int
        } else {
            o2
        });
        Some(replace_char(piece, '/', '_'))
    }
}

/// Derive the package key of an update-mode source URI.  Fails exactly when
/// the URI holds no `//`.
pub fn source_key(uri: &str) -> (r: Result<String, ResolveError>)
    ensures
        r is Ok <==> spec_source_key(uri@) is Some,
        r matches Ok(k) ==> Some(k@) == spec_source_key(uri@),
        r matches Err(e) ==> e matches ResolveError::NoHostPath(s) && s@ == uri@,
{
    match find_dslash_from(uri, 0) {
        None => Err(ResolveError::NoHostPath(String::from_str(uri))),
        Some(o1) => {
            let ulen = uri.unicode_len();
            proof {
                lemma_find_dslash_at(uri@, 0);
                lemma_find_dslash_at(uri@, o1 + 2 as int);
            }
            let piece = match find_dslash_from(uri, o1 + 2) {
                None => uri.substring_char(o1 + 2, ulen),
                Some(o2) => uri.substring_char(o1 + 2, o2),
            };
            Ok(slashes_to_underscores(piece))
        },
    }
}

// ---------------------------------------------------------------------------
// Line parsing
// ---------------------------------------------------------------------------

/// Why one output line failed to parse.
pub ghost enum LineFault {
    /// Fewer than four space-separated fields.
    MissingFields,
    /// The URI has no final path segment.
    NoFilename,
    /// The size field is not an unsigned decimal number.
    BadSize,
    /// The checksum field has no `:` between kind and value.
    NoChecksumValue,
    /// The folded checksum kind names no known checksum tool.
    BadChecksumKind,
}

/// The URI field of a line: the first space-separated field with every
/// single quote removed.
pub open spec fn line_uri(l: Seq<char>) -> Seq<char> {
    remove_char(split_char_seq(l, ' ')[0], '\'')
}

/// What one line of print-URIs output resolves to: the filename derived
/// from the URI, and the package entry holding URI, size and checksum.
pub open spec fn spec_parse_line(l: Seq<char>) -> Result<(Seq<char>, EntryView), LineFault> {
    let toks = split_char_seq(l, ' ');
    if toks.len() < 4 {
        Err(LineFault::MissingFields)
    } else {
        let uri = remove_char(toks[0], '\'');
        match uri_last_segment(uri) {
            None => Err(LineFault::NoFilename),
            Some(fname) => match parse_u64_lenient(toks[2]) {
                None => Err(LineFault::BadSize),
                Some(size) => {
                    let ck = toks[3];
                    if ck.len() == 0 {
                        Ok((fname, EntryView { uri, size, checksum: None }))
                    } else {
                        let ci = find_char_at(ck, 0, ':');
                        if ci == -1 {
                            Err(LineFault::NoChecksumValue)
                        } else {
                            let kind_raw = ck.subrange(0, ci);
                            let cj = find_char_at(ck, ci + 1, ':');
                            let value = ck.subrange(ci + 1, if cj == -1 {
                                ck.len() as int
                            } else {
                                cj
                            });
                            let folded = lower_of(kind_raw);
                            if folded == "sha256sum"@ {
                                Ok(
                                    (
                                        fname,
                                        EntryView {
                                            uri,
                                            size,
                                            checksum: Some(
                                                ChecksumView {
                                                    kind: ChecksumKind::SHA256,
                                                    value,
                                                },
                                            ),
                                        },
                                    ),
                                )
                            } else if folded == "md5sum"@ {
                                Ok(
                                    (
                                        fname,
                                        EntryView {
                                            uri,
                                            size,
                                            checksum: Some(
                                                ChecksumView { kind: ChecksumKind::MD5, value },
                                            ),
                                        },
                                    ),
                                )
                            } else {
                                Err(LineFault::BadChecksumKind)
                            }
                        }
                    }
                },
            },
        }
    }
}

/// Parse one line of print-URIs output: `'uri' destination size kind:value`,
/// the checksum field possibly empty.  Returns the filename the URI implies
/// and the package entry, or the error naming what failed.
pub fn parse_uri_line(line: &str) -> (r: Result<(String, PackageEntry), ResolveError>)
    ensures
        r matches Ok(p) ==> spec_parse_line(line@) == Ok::<(Seq<char>, EntryView), LineFault>(
            (p.0@, p.1@),
        ),
        r is Ok <==> spec_parse_line(line@) is Ok,
        spec_parse_line(line@) == Err::<(Seq<char>, EntryView), LineFault>(
            LineFault::MissingFields,
        ) ==> (r matches Err(ResolveError::MissingFields(s)) && s@ == line@),
        spec_parse_line(line@) == Err::<(Seq<char>, EntryView), LineFault>(LineFault::NoFilename)
            ==> (r matches Err(ResolveError::NoFilename(s)) && s@ == line_uri(line@)),
        spec_parse_line(line@) == Err::<(Seq<char>, EntryView), LineFault>(LineFault::BadSize)
            ==> (r matches Err(ResolveError::BadSize(s)) && s@ == split_char_seq(line@, ' ')[2]),
        spec_parse_line(line@) == Err::<(Seq<char>, EntryView), LineFault>(
            LineFault::NoChecksumValue,
        ) ==> (r matches Err(ResolveError::NoChecksumValue(s)) && s@ == split_char_seq(
            line@,
            ' ',
        )[3]),
        spec_parse_line(line@) == Err::<(Seq<char>, EntryView), LineFault>(
            LineFault::BadChecksumKind,
        ) ==> (r matches Err(ResolveError::BadChecksumKind(s)) && Some(s@) == uri_last_segment(
            line_uri(line@),
        )),
{
    let toks = split_char_str(line, ' ');
    if toks.len() < 4 {
        return Err(ResolveError::MissingFields(String::from_str(line)));
    }
    let uri = remove_quotes(toks[0].as_str());
    let fname = match uri_filename(uri.as_str()) {
        Some(f) => f,
        None => {
            return Err(ResolveError::NoFilename(uri));
        },
    };
    let size = match parse_u64_lenient_str(toks[2].as_str()) {
        Some(n) => n,
        None => {
            return Err(ResolveError::BadSize(toks[2].clone()));
        },
    };
    let ck = &toks[3];
    let cklen = ck.as_str().unicode_len();
    if cklen == 0 {
        return Ok((fname, PackageEntry { uri, size, checksum: None }));
    }
    proof {
        lemma_find_char_at(ck@, 0, ':');
    }
    let ci = match crate::strutil::find_from(ck.as_str(), 0, ':') {
        Some(i) => i,
        None => {
            return Err(ResolveError::NoChecksumValue(ck.clone()));
        },
    };
    let kind_raw = ck.as_str().substring_char(0, ci);
    proof {
        lemma_find_char_at(ck@, ci + 1 as int, ':');
    }
    let value = match crate::strutil::find_from(ck.as_str(), ci + 1, ':') {
        None => ck.as_str().substring_char(ci + 1, cklen),
        Some(cj) => ck.as_str().substring_char(ci + 1, cj),
    };
    let folded = lowercase(kind_raw);
    match ChecksumKind::new(folded.as_str()) {
        Ok(kind) => Ok(
            (
                fname,
                PackageEntry {
                    uri,
                    size,
                    checksum: Some(Checksum { kind, value: String::from_str(value) }),
                },
            ),
        ),
        Err(_) => Err(ResolveError::BadChecksumKind(fname)),
    }
}

// ---------------------------------------------------------------------------
// Manifest assembly
// ---------------------------------------------------------------------------

/// Index of the first pair keyed `k` at or after `i`, or -1.
pub open spec fn key_index(ps: Seq<(Seq<char>, EntryView)>, k: Seq<char>, i: int) -> int
    decreases ps.len() - i,
{
    if i < 0 || i >= ps.len() {
        -1
    } else if ps[i].0 == k {
        i
    } else {
        key_index(ps, k, i + 1)
    }
}

/// Insertion with map semantics: an existing key's entry is replaced in
/// place, a new key is appended.
pub open spec fn insert_pair(
    ps: Seq<(Seq<char>, EntryView)>,
    k: Seq<char>,
    e: EntryView,
) -> Seq<(Seq<char>, EntryView)> {
    let i = key_index(ps, k, 0);
    if i == -1 {
        ps.push((k, e))
    } else {
        ps.update(i, (k, e))
    }
}

proof fn lemma_key_index(ps: Seq<(Seq<char>, EntryView)>, k: Seq<char>, i: int)
    requires
        i >= 0,
    ensures
        key_index(ps, k, i) == -1 || i <= key_index(ps, k, i) < ps.len(),
        key_index(ps, k, i) == -1 ==> forall|m: int| i <= m < ps.len() ==> (#[trigger] ps[m]).0
            != k,
        key_index(ps, k, i) >= 0 ==> i <= key_index(ps, k, i) < ps.len() && ps[key_index(
            ps,
            k,
            i,
        )].0 == k,
    decreases ps.len() - i,
{
    if 0 <= i < ps.len() && ps[i].0 != k {
        lemma_key_index(ps, k, i + 1);
    }
}

/// Map-style insertion keeps the keys unique.
pub proof fn lemma_insert_pair_keeps_unique(
    ps: Seq<(Seq<char>, EntryView)>,
    k: Seq<char>,
    e: EntryView,
)
    requires
        forall|i: int, j: int| 0 <= i < j < ps.len() ==> (#[trigger] ps[i]).0 != (
        #[trigger] ps[j]).0,
    ensures
        forall|i: int, j: int|
            0 <= i < j < insert_pair(ps, k, e).len() ==> (#[trigger] insert_pair(ps, k, e)[i]).0
                != (#[trigger] insert_pair(ps, k, e)[j]).0,
{
    lemma_key_index(ps, k, 0);
    let w = insert_pair(ps, k, e);
    let f = key_index(ps, k, 0);
    if f == -1 {
        assert forall|i: int, j: int| 0 <= i < j < w.len() implies (#[trigger] w[i]).0 != (
        #[trigger] w[j]).0 by {
            if j < ps.len() {
                assert(w[i] == ps[i] && w[j] == ps[j]);
            } else {
                assert(w[i] == ps[i] && w[j] == (k, e));
            }
        }
    } else {
        assert forall|i: int, j: int| 0 <= i < j < w.len() implies (#[trigger] w[i]).0 != (
        #[trigger] w[j]).0 by {
            assert(ps[f].0 == k);
            if i == f {
                assert(w[i].0 == k && w[j] == ps[j]);
                assert(ps[f].0 != ps[j].0);
            } else if j == f {
                assert(w[j].0 == k && w[i] == ps[i]);
                assert(ps[i].0 != ps[f].0);
            } else {
                assert(w[i] == ps[i] && w[j] == ps[j]);
            }
        }
    }
}

proof fn lemma_key_index_is(ps: Seq<(Seq<char>, EntryView)>, k: Seq<char>, i: int, j: int)
    requires
        0 <= i <= j < ps.len(),
        ps[j].0 == k,
        forall|m: int| i <= m < j ==> (#[trigger] ps[m]).0 != k,
    ensures
        key_index(ps, k, i) == j,
    decreases j - i,
{
    if i < j {
        lemma_key_index_is(ps, k, i + 1, j);
    }
}

proof fn lemma_key_index_none(ps: Seq<(Seq<char>, EntryView)>, k: Seq<char>, i: int)
    requires
        i >= 0,
        forall|m: int| i <= m < ps.len() ==> (#[trigger] ps[m]).0 != k,
    ensures
        key_index(ps, k, i) == -1,
    decreases ps.len() - i,
{
    if i < ps.len() {
        lemma_key_index_none(ps, k, i + 1);
    }
}

/// Insert an entry under a key: replace the entry of an existing key, else
/// append, as the remote manager's emission is folded into the package map.
pub fn map_insert(v: &mut Vec<(String, PackageEntry)>, key: String, entry: PackageEntry)
    ensures
        pairs_view(final(v)@) == insert_pair(pairs_view(old(v)@), key@, entry@),
{
    let ghost ps = pairs_view(v@);
    let mut i: usize = 0;
    while i < v.len()
        invariant
            i <= v.len(),
            v@ == old(v)@,
            ps == pairs_view(v@),
            forall|m: int| 0 <= m < i ==> (#[trigger] ps[m]).0 != key@,
        decreases v.len() - i,
    {
        if str_eq(v[i].0.as_str(), key.as_str()) {
            proof {
                assert(ps[i as int].0 == v@[i as int].0@);
                lemma_key_index_is(ps, key@, 0, i as int);
            }
            v.remove(i);
            v.insert(i, (key, entry));
            proof {
                assert(pairs_view(v@) =~= ps.update(i as int, (key@, entry@)));
            }
            return ;
        }
        proof {
            assert(ps[i as int].0 == v@[i as int].0@);
        }
        i += 1;
    }
    proof {
        lemma_key_index_none(ps, key@, 0);
    }
    v.push((key, entry));
    proof {
        assert(pairs_view(v@) =~= ps.push((key@, entry@)));
    }
}

/// Why resolution failed: a line that would not parse, a source URI without
/// an authority separator, or a total size beyond the representable range.
/// Line faults carry the index of the offending line.
pub ghost enum BuildFault {
    Line(int, LineFault),
    SourceKey(int),
    SizeOverflow,
}

/// The fold of the remaining output lines into the accumulated install
/// order, package map and total size.
pub open spec fn spec_build_at(
    mode: RemoteMode,
    ls: Seq<Seq<char>>,
    i: int,
    order: Seq<Seq<char>>,
    pkgs: Seq<(Seq<char>, EntryView)>,
    total: int,
) -> Result<(Seq<Seq<char>>, Seq<(Seq<char>, EntryView)>, int), BuildFault>
    decreases ls.len() - i,
{
    if i < 0 || i >= ls.len() {
        Ok((order, pkgs, total))
    } else {
        match spec_parse_line(ls[i]) {
            Err(f) => Err(BuildFault::Line(i, f)),
            Ok((fname, e)) => {
                if mode is Update {
                    match spec_source_key(e.uri) {
                        None => Err(BuildFault::SourceKey(i)),
                        Some(k) => spec_build_at(mode, ls, i + 1, order, insert_pair(pkgs, k, e), total),
                    }
                } else {
                    if total + e.size > u64::MAX {
                        Err(BuildFault::SizeOverflow)
                    } else {
                        spec_build_at(
                            mode,
                            ls,
                            i + 1,
                            order.push(fname),
                            insert_pair(pkgs, fname, e),
                            total + e.size,
                        )
                    }
                }
            },
        }
    }
}

/// The filename a parsed line resolves to.
pub open spec fn line_fname(l: Seq<char>) -> Seq<char> {
    (spec_parse_line(l)->Ok_0).0
}

/// The keys of a package sequence, in order.
pub open spec fn keys_of(ps: Seq<(Seq<char>, EntryView)>) -> Seq<Seq<char>> {
    Seq::new(ps.len(), |m: int| ps[m].0)
}

/// In install and upgrade mode, the fold keeps the install order equal to
/// the package keys as long as the upcoming filenames are fresh: distinct
/// from each other and from every key already present.
proof fn lemma_build_order_matches_keys(
    mode: RemoteMode,
    ls: Seq<Seq<char>>,
    i: int,
    order: Seq<Seq<char>>,
    pkgs: Seq<(Seq<char>, EntryView)>,
    total: int,
)
    requires
        !(mode is Update),
        order == keys_of(pkgs),
        forall|a: int, b: int|
            i <= a < b < ls.len() && spec_parse_line(#[trigger] ls[a]) is Ok && spec_parse_line(
                #[trigger] ls[b],
            ) is Ok ==> line_fname(ls[a]) != line_fname(ls[b]),
        forall|a: int, m: int|
            i <= a < ls.len() && 0 <= m < pkgs.len() && spec_parse_line(#[trigger] ls[a]) is Ok
                ==> (#[trigger] pkgs[m]).0 != line_fname(ls[a]),
    ensures
        spec_build_at(mode, ls, i, order, pkgs, total) matches Ok(res) ==> res.0 == keys_of(
            res.1,
        ),
    decreases ls.len() - i,
{
    if i < 0 || i >= ls.len() {
    } else {
        match spec_parse_line(ls[i]) {
            Err(_) => {},
            Ok((fname, e)) => {
                assert(fname == line_fname(ls[i]));
                if total + e.size > u64::MAX {
                } else {
                    lemma_key_index(pkgs, fname, 0);
                    if key_index(pkgs, fname, 0) >= 0 {
                        assert(pkgs[key_index(pkgs, fname, 0)].0 == fname);
                        assert(false);
                    }
                    let pkgs2 = insert_pair(pkgs, fname, e);
                    assert(pkgs2 == pkgs.push((fname, e)));
                    assert(order.push(fname) =~= keys_of(pkgs2));
                    assert forall|a: int, m: int|
                        i + 1 <= a < ls.len() && 0 <= m < pkgs2.len() && spec_parse_line(
                            #[trigger] ls[a],
                        ) is Ok implies (#[trigger] pkgs2[m]).0 != line_fname(ls[a]) by {
                        if m < pkgs.len() {
                            assert(pkgs2[m] == pkgs[m]);
                        } else {
                            assert(pkgs2[m].0 == fname);
                            assert(line_fname(ls[i]) != line_fname(ls[a]));
                        }
                    }
                    lemma_build_order_matches_keys(
                        mode,
                        ls,
                        i + 1,
                        order.push(fname),
                        pkgs2,
                        total + e.size,
                    );
                }
            },
        }
    }
}

/// The structural manifest invariant, proved for resolution: when the
/// remote package manager emits pairwise distinct filenames — as a
/// dependency-ordered emission does — an install or upgrade resolution
/// yields an install order that is exactly the package keys, in order.
/// With `resolve_manifest`'s contract this makes the resolved manifest
/// consistent; an output that repeats a filename is excluded, since the
/// order then keeps both emissions while the map keeps one.
pub proof fn lemma_resolve_order_matches_keys(mode: RemoteMode, output: Seq<char>)
    requires
        !(mode is Update),
        forall|a: int, b: int|
            0 <= a < b < lines_of(output).len() && spec_parse_line(
                #[trigger] lines_of(output)[a],
            ) is Ok && spec_parse_line(#[trigger] lines_of(output)[b]) is Ok ==> line_fname(
                lines_of(output)[a],
            ) != line_fname(lines_of(output)[b]),
    ensures
        spec_resolve(mode, output) matches Ok(res) ==> res.0 == keys_of(res.1),
{
    assert(Seq::<Seq<char>>::empty() =~= keys_of(Seq::<(Seq<char>, EntryView)>::empty()));
    lemma_build_order_matches_keys(
        mode,
        lines_of(output),
        0,
        Seq::empty(),
        Seq::empty(),
        0,
    );
}

/// What resolving this output yields.
pub open spec fn spec_resolve(mode: RemoteMode, output: Seq<char>) -> Result<
    (Seq<Seq<char>>, Seq<(Seq<char>, EntryView)>, int),
    BuildFault,
> {
    spec_build_at(mode, lines_of(output), 0, Seq::empty(), Seq::empty(), 0)
}

/// Build a manifest from the remote architecture output and the print-URIs
/// output.  Each output line becomes one package entry; install and upgrade
/// manifests key packages by the URI's filename, keep the emission order and
/// sum the sizes; update manifests key sources by flattened host and path
/// and record neither order nor total.  Any line that fails to parse aborts
/// the whole resolution with the error naming what failed.
pub fn resolve_manifest(mode: RemoteMode, arch_raw: &str, output: &str) -> (r: Result<
    UriFile,
    ResolveError,
>)
    ensures
        r is Ok <==> spec_resolve(mode, output@) is Ok,
        r matches Ok(m) ==> (spec_resolve(mode, output@) matches Ok(res) && {
            &&& m@.mode == mode
            &&& m@.arch == trimmed(arch_raw@)
            &&& m@.install_order == res.0
            &&& m@.packages == res.1
            &&& m@.total_size == (if mode is Update {
                Option::<u64>::None
            } else {
                Some(res.2 as u64)
            })
        }),
        r matches Ok(m) ==> m@.keys_unique(),
        r matches Ok(m) ==> (mode is Update ==> m@.install_order.len() == 0 && m@.total_size
            is None),
        spec_resolve(mode, output@) matches Err(BuildFault::Line(j, LineFault::MissingFields))
            ==> (r matches Err(ResolveError::MissingFields(s)) && s@ == lines_of(output@)[j]),
        spec_resolve(mode, output@) matches Err(BuildFault::Line(j, LineFault::NoFilename)) ==> (
        r matches Err(ResolveError::NoFilename(s)) && s@ == line_uri(lines_of(output@)[j])),
        spec_resolve(mode, output@) matches Err(BuildFault::Line(j, LineFault::BadSize)) ==> (
        r matches Err(ResolveError::BadSize(s)) && s@ == split_char_seq(
            lines_of(output@)[j],
            ' ',
        )[2]),
        spec_resolve(mode, output@) matches Err(BuildFault::Line(j, LineFault::NoChecksumValue))
            ==> (r matches Err(ResolveError::NoChecksumValue(s)) && s@ == split_char_seq(
            lines_of(output@)[j],
            ' ',
        )[3]),
        spec_resolve(mode, output@) matches Err(BuildFault::Line(j, LineFault::BadChecksumKind))
            ==> (r matches Err(ResolveError::BadChecksumKind(s)) && Some(s@) == uri_last_segment(
            line_uri(lines_of(output@)[j]),
        )),
        spec_resolve(mode, output@) matches Err(BuildFault::SourceKey(j)) ==> (r matches Err(
            ResolveError::NoHostPath(s),
        ) && spec_parse_line(lines_of(output@)[j]) matches Ok(p) && s@ == p.1.uri),
        spec_resolve(mode, output@) == Err::<(Seq<Seq<char>>, Seq<(Seq<char>, EntryView)>, int),
            BuildFault,
        >(BuildFault::SizeOverflow) ==> r == Err::<UriFile, ResolveError>(
            ResolveError::SizeOverflow,
        ),
{
    let arch = trim_str(arch_raw);
    let lines = lines_of_str(output);
    let ghost ls = lines.deep_view();
    let mut install_order: Vec<String> = Vec::new();
    let mut packages: Vec<(String, PackageEntry)> = Vec::new();
    let mut total: u64 = 0;
    let mut i: usize = 0;
    proof {
        assert(install_order.deep_view() =~= Seq::<Seq<char>>::empty());
        assert(pairs_view(packages@) =~= Seq::<(Seq<char>, EntryView)>::empty());
    }
    while i < lines.len()
        invariant
            i <= lines.len(),
            ls == lines.deep_view(),
            ls == lines_of(output@),
            spec_resolve(mode, output@) == spec_build_at(
                mode,
                ls,
                i as int,
                install_order.deep_view(),
                pairs_view(packages@),
                total as int,
            ),
            mode is Update ==> install_order.len() == 0 && total == 0,
            forall|a: int, b: int|
                0 <= a < b < pairs_view(packages@).len() ==> (#[trigger] pairs_view(
                    packages@,
                )[a]).0 != (#[trigger] pairs_view(packages@)[b]).0,
        decreases lines.len() - i,
    {
        let ghost order_now = install_order.deep_view();
        let ghost pkgs_now = pairs_view(packages@);
        proof {
            assert(ls[i as int] == lines@[i as int]@);
        }
        let (fname, entry) = match parse_uri_line(lines[i].as_str()) {
            Ok(p) => p,
            Err(e) => {
                proof {
                    match spec_parse_line(ls[i as int]) {
                        Err(f2) => {
                            assert(spec_build_at(
                                mode,
                                ls,
                                i as int,
                                order_now,
                                pkgs_now,
                                total as int,
                            ) == Err::<
                                (Seq<Seq<char>>, Seq<(Seq<char>, EntryView)>, int),
                                BuildFault,
                            >(BuildFault::Line(i as int, f2)));
                        },
                        Ok(_) => {
                            assert(false);
                        },
                    }
                }
                return Err(e);
            },
        };
        match mode {
            RemoteMode::Update => {
                let key = match source_key(entry.uri.as_str()) {
                    Ok(k) => k,
                    Err(e) => {
                        proof {
                            assert(spec_build_at(
                                mode,
                                ls,
                                i as int,
                                order_now,
                                pkgs_now,
                                total as int,
                            ) == Err::<
                                (Seq<Seq<char>>, Seq<(Seq<char>, EntryView)>, int),
                                BuildFault,
                            >(BuildFault::SourceKey(i as int)));
                        }
                        return Err(e);
                    },
                };
                let ghost kview = key@;
                map_insert(&mut packages, key, entry);
                proof {
                    lemma_insert_pair_keeps_unique(pkgs_now, kview, entry@);
                }
            },
            _ => {
                if entry.size > u64::MAX - total {
                    proof {
                        assert(spec_build_at(
                            mode,
                            ls,
                            i as int,
                            order_now,
                            pkgs_now,
                            total as int,
                        ) == Err::<
                            (Seq<Seq<char>>, Seq<(Seq<char>, EntryView)>, int),
                            BuildFault,
                        >(BuildFault::SizeOverflow));
                    }
                    return Err(ResolveError::SizeOverflow);
                }
                total = total + entry.size;
                install_order.push(fname.clone());
                proof {
                    assert(install_order.deep_view() =~= order_now.push(fname@));
                }
                let ghost kview = fname@;
                map_insert(&mut packages, fname, entry);
                proof {
                    lemma_insert_pair_keeps_unique(pkgs_now, kview, entry@);
                }
            },
        }
        i += 1;
    }
    let total_size = match mode {
        RemoteMode::Update => None,
        _ => Some(total),
    };
    let m = UriFile { mode, arch, total_size, install_order, packages };
    proof {
        assert(m@.install_order == m.install_order.deep_view());
    }
    Ok(m)
}

} // verus!
