//! The manifest's on-disk text format: a line-oriented rendering in TOML
//! style, written and read only by this library.
//!
//! The format is canonical: `save` emits exactly one rendering of a manifest,
//! and `load` accepts exactly that rendering.  `lemma_load_after_save` proves
//! the round trip: parsing a rendered manifest yields the manifest back, for
//! every manifest whose strings avoid the reserved characters.
//!
//! The shape, for a manifest with one checksummed package:
//!
//! ```text
//! mode = "Install"
//! arch = "amd64"
//! total_size = 100000
//! install_order = ["curl_1.0_amd64.deb"]
//!
//! [packages."curl_1.0_amd64.deb"]
//! uri = "https://example/curl_1.0_amd64.deb"
//! size = 100000
//! checksum = { kind = "SHA256", value = "abc" }
//! ```

use vstd::prelude::*;
use vstd::string::*;
use crate::errors::ManifestError;
use crate::strutil::{
    no_char, starts_with, ends_with, find_char_at, lemma_find_char_at, lemma_find_char_at_is,
    lemma_find_char_at_none, lemma_find_char_suffix, split_char_seq, join_with, lemma_split_join,
    lemma_join_snoc, dec_digits_of, lemma_dec_digits_of, parse_u64_strict, parse_u64_strict_str,
    str_eq, starts_with_str, ends_with_str, split_char_str, join_lines, u64_to_string,
    lemma_find_char_offset, find_from, contains_char,
};
use crate::uri::{
    ChecksumKind, Checksum, PackageEntry, RemoteMode, UriFile, ChecksumView, EntryView,
    ManifestView, scheme_ok, validate_uri, pairs_view,
};

verus! {

// ---------------------------------------------------------------------------
// Spec-level rendering
// ---------------------------------------------------------------------------

pub open spec fn mode_line(m: RemoteMode) -> Seq<char> {
    match m {
        RemoteMode::Install => "mode = \"Install\""@,
        RemoteMode::Update => "mode = \"Update\""@,
        RemoteMode::Upgrade => "mode = \"Upgrade\""@,
    }
}

pub open spec fn arch_line(a: Seq<char>) -> Seq<char> {
    "arch = \""@ + a + "\""@
}

pub open spec fn total_line(n: u64) -> Seq<char> {
    "total_size = "@ + dec_digits_of(n as int)
}

pub open spec fn quoted(x: Seq<char>) -> Seq<char> {
    "\""@ + x + "\""@
}

/// The comma-separated quoted items of an install-order list.
pub open spec fn items_list(items: Seq<Seq<char>>) -> Seq<char>
    decreases items.len(),
{
    if items.len() == 0 {
        Seq::empty()
    } else if items.len() == 1 {
        quoted(items[0])
    } else {
        quoted(items[0]) + ", "@ + items_list(items.drop_first())
    }
}

pub open spec fn order_line(items: Seq<Seq<char>>) -> Seq<char> {
    "install_order = ["@ + items_list(items) + "]"@
}

pub open spec fn header_line(key: Seq<char>) -> Seq<char> {
    "[packages.\""@ + key + "\"]"@
}

pub open spec fn uri_line(u: Seq<char>) -> Seq<char> {
    "uri = \""@ + u + "\""@
}

pub open spec fn size_line(n: u64) -> Seq<char> {
    "size = "@ + dec_digits_of(n as int)
}

pub open spec fn checksum_line(c: ChecksumView) -> Seq<char> {
    match c.kind {
        ChecksumKind::SHA256 => "checksum = { kind = \"SHA256\", value = \""@ + c.value
            + "\" }"@,
        ChecksumKind::MD5 => "checksum = { kind = \"MD5\", value = \""@ + c.value + "\" }"@,
    }
}

/// The lines of one package section: a blank separator, the section header,
/// the URI, the size, and the checksum when there is one.
pub open spec fn package_lines(key: Seq<char>, e: EntryView) -> Seq<Seq<char>> {
    let base = seq![Seq::<char>::empty(), header_line(key), uri_line(e.uri), size_line(e.size)];
    match e.checksum {
        Some(c) => base + seq![checksum_line(c)],
        None => base,
    }
}

pub open spec fn packages_lines(ps: Seq<(Seq<char>, EntryView)>) -> Seq<Seq<char>>
    decreases ps.len(),
{
    if ps.len() == 0 {
        Seq::empty()
    } else {
        package_lines(ps[0].0, ps[0].1) + packages_lines(ps.drop_first())
    }
}

pub open spec fn manifest_lines(v: ManifestView) -> Seq<Seq<char>> {
    seq![mode_line(v.mode), arch_line(v.arch)] + (match v.total_size {
        Some(n) => seq![total_line(n)],
        None => Seq::empty(),
    }) + seq![order_line(v.install_order)] + packages_lines(v.packages)
}

/// The full rendered manifest text.
pub open spec fn render_manifest(v: ManifestView) -> Seq<char> {
    join_with(manifest_lines(v), '\n')
}

// ---------------------------------------------------------------------------
// Spec-level parsing
// ---------------------------------------------------------------------------

pub open spec fn parse_mode_line(l: Seq<char>) -> Option<RemoteMode> {
    if l == mode_line(RemoteMode::Install) {
        Some(RemoteMode::Install)
    } else if l == mode_line(RemoteMode::Update) {
        Some(RemoteMode::Update)
    } else if l == mode_line(RemoteMode::Upgrade) {
        Some(RemoteMode::Upgrade)
    } else {
        None
    }
}

/// The text between a required prefix and a required suffix.
pub open spec fn parse_delimited(l: Seq<char>, p: Seq<char>, s: Seq<char>) -> Option<Seq<char>> {
    if p.len() + s.len() <= l.len() && starts_with(l, p) && ends_with(l, s) {
        Some(l.subrange(p.len() as int, l.len() - s.len()))
    } else {
        None
    }
}

/// The canonical decimal number after a required prefix.
pub open spec fn parse_u64_tail(l: Seq<char>, p: Seq<char>) -> Option<u64> {
    if starts_with(l, p) {
        parse_u64_strict(l.subrange(p.len() as int, l.len() as int))
    } else {
        None
    }
}

/// The quoted, comma-separated items of a non-empty install-order list body.
pub open spec fn parse_items(s: Seq<char>) -> Option<Seq<Seq<char>>>
    decreases s.len(),
    via parse_items_dec
{
    if s.len() < 2 || s[0] != '"' {
        None
    } else {
        let j = find_char_at(s, 1, '"');
        if j == -1 {
            None
        } else {
            let item = s.subrange(1, j);
            if j + 1 == s.len() {
                Some(seq![item])
            } else if j + 3 <= s.len() && s[j + 1] == ',' && s[j + 2] == ' ' {
                match parse_items(s.subrange(j + 3, s.len() as int)) {
                    Some(xs) => Some(seq![item] + xs),
                    None => None,
                }
            } else {
                None
            }
        }
    }
}

#[via_fn]
proof fn parse_items_dec(s: Seq<char>) {
    lemma_find_char_at(s, 1, '"');
}

pub open spec fn parse_order_line(l: Seq<char>) -> Option<Seq<Seq<char>>> {
    match parse_delimited(l, "install_order = ["@, "]"@) {
        None => None,
        Some(mid) => if mid.len() == 0 {
            Some(Seq::empty())
        } else {
            parse_items(mid)
        },
    }
}

pub open spec fn parse_checksum_line(l: Seq<char>) -> Option<ChecksumView> {
    match parse_delimited(l, "checksum = { kind = \"SHA256\", value = \""@, "\" }"@) {
        Some(v) => Some(ChecksumView { kind: ChecksumKind::SHA256, value: v }),
        None => match parse_delimited(l, "checksum = { kind = \"MD5\", value = \""@, "\" }"@) {
            Some(v) => Some(ChecksumView { kind: ChecksumKind::MD5, value: v }),
            None => None,
        },
    }
}

/// One package section starting at line `i`, then the rest.
pub open spec fn parse_packages(ls: Seq<Seq<char>>, i: int) -> Option<Seq<(Seq<char>, EntryView)>>
    decreases ls.len() - i,
{
    if i == ls.len() {
        Some(Seq::empty())
    } else if ls.len() - i < 4 || ls[i].len() != 0 {
        None
    } else {
        match parse_delimited(ls[i + 1], "[packages.\""@, "\"]"@) {
            None => None,
            Some(key) => match parse_delimited(ls[i + 2], "uri = \""@, "\""@) {
                None => None,
                Some(u) => match parse_u64_tail(ls[i + 3], "size = "@) {
                    None => None,
                    Some(size) => {
                        let has_ck = i + 4 < ls.len() && starts_with(
                            ls[i + 4],
                            "checksum = "@,
                        );
                        if has_ck {
                            match parse_checksum_line(ls[i + 4]) {
                                None => None,
                                Some(c) => match parse_packages(ls, i + 5) {
                                    None => None,
                                    Some(rest) => Some(
                                        seq![
                                            (
                                                key,
                                                EntryView {
                                                    uri: u,
                                                    size: size,
                                                    checksum: Some(c),
                                                },
                                            ),
                                        ] + rest,
                                    ),
                                },
                            }
                        } else {
                            match parse_packages(ls, i + 4) {
                                None => None,
                                Some(rest) => Some(
                                    seq![
                                        (
                                            key,
                                            EntryView { uri: u, size: size, checksum: None },
                                        ),
                                    ] + rest,
                                ),
                            }
                        }
                    },
                },
            },
        }
    }
}

pub open spec fn parse_lines(ls: Seq<Seq<char>>) -> Option<ManifestView> {
    if ls.len() < 3 {
        None
    } else {
        match parse_mode_line(ls[0]) {
            None => None,
            Some(mode) => match parse_delimited(ls[1], "arch = \""@, "\""@) {
                None => None,
                Some(arch) => {
                    let has_total = starts_with(ls[2], "total_size = "@);
                    let oi: int = if has_total {
                        3
                    } else {
                        2
                    };
                    if has_total && parse_u64_tail(ls[2], "total_size = "@) is None {
                        None
                    } else if ls.len() <= oi {
                        None
                    } else {
                        let total = if has_total {
                            parse_u64_tail(ls[2], "total_size = "@)
                        } else {
                            None
                        };
                        match parse_order_line(ls[oi]) {
                            None => None,
                            Some(order) => match parse_packages(ls, oi + 1) {
                                None => None,
                                Some(ps) => Some(
                                    ManifestView {
                                        mode: mode,
                                        arch: arch,
                                        total_size: total,
                                        install_order: order,
                                        packages: ps,
                                    },
                                ),
                            },
                        }
                    }
                },
            },
        }
    }
}

/// The manifest a text parses to, when it is a canonical rendering.
pub open spec fn parse_manifest(s: Seq<char>) -> Option<ManifestView> {
    parse_lines(split_char_seq(s, '\n'))
}

/// Index of the first package whose URI fails validation, or -1.
pub open spec fn first_invalid_uri(ps: Seq<(Seq<char>, EntryView)>, i: int) -> int
    decreases ps.len() - i,
{
    if i < 0 || i >= ps.len() {
        -1
    } else if !scheme_ok(ps[i].1.uri) {
        i
    } else {
        first_invalid_uri(ps, i + 1)
    }
}

// ---------------------------------------------------------------------------
// Executable parsing
// ---------------------------------------------------------------------------

/// Text between a required prefix and suffix, as `parse_delimited` defines it.
fn parse_delimited_str(l: &str, p: &str, s: &str) -> (r: Option<String>)
    ensures
        match r {
            Some(m) => parse_delimited(l@, p@, s@) == Some(m@),
            None => parse_delimited(l@, p@, s@) is None,
        },
{
    let llen = l.unicode_len();
    let plen = p.unicode_len();
    let slen = s.unicode_len();
    if llen < plen || llen - plen < slen {
        return None;
    }
    if !starts_with_str(l, p) || !ends_with_str(l, s) {
        return None;
    }
    Some(String::from_str(l.substring_char(plen, llen - slen)))
}

fn parse_mode_line_str(l: &str) -> (r: Option<RemoteMode>)
    ensures
        r == parse_mode_line(l@),
{
    if str_eq(l, "mode = \"Install\"") {
        Some(RemoteMode::Install)
    } else if str_eq(l, "mode = \"Update\"") {
        Some(RemoteMode::Update)
    } else if str_eq(l, "mode = \"Upgrade\"") {
        Some(RemoteMode::Upgrade)
    } else {
        None
    }
}

fn parse_u64_tail_str(l: &str, p: &str) -> (r: Option<u64>)
    ensures
        r == parse_u64_tail(l@, p@),
{
    if !starts_with_str(l, p) {
        return None;
    }
    let llen = l.unicode_len();
    let plen = p.unicode_len();
    parse_u64_strict_str(l.substring_char(plen, llen))
}

/// The quoted items of a list body, read from position `pos` on.
fn parse_items_rec(s: &str, pos: usize) -> (r: Option<Vec<String>>)
    requires
        pos <= s@.len(),
    ensures
        match r {
            Some(v) => parse_items(s@.subrange(pos as int, s@.len() as int)) == Some(
                v.deep_view(),
            ),
            None => parse_items(s@.subrange(pos as int, s@.len() as int)) is None,
        },
    decreases s@.len() - pos,
{
    let slen = s.unicode_len();
    let ghost sub = s@.subrange(pos as int, slen as int);
    if slen - pos < 2 || s.get_char(pos) != '"' {
        proof {
            assert(sub.len() >= 2 ==> sub[0] == s@[pos as int]);
        }
        return None;
    }
    proof {
        assert(sub[0] == s@[pos as int]);
        lemma_find_char_offset(s@, pos as int, 1, '"');
        lemma_find_char_at(s@, pos + 1 as int, '"');
    }
    match find_from(s, pos + 1, '"') {
        None => None,
        Some(j) => {
            let ghost sj = j - pos;
            proof {
                assert(find_char_at(sub, 1, '"') == sj);
                assert(sub.subrange(1, sj as int) =~= s@.subrange(pos + 1 as int, j as int));
            }
            let item = String::from_str(s.substring_char(pos + 1, j));
            if j + 1 == slen {
                let mut out: Vec<String> = Vec::new();
                out.push(item);
                proof {
                    assert(out.deep_view() =~= seq![sub.subrange(1, sj as int)]);
                }
                Some(out)
            } else if slen - j >= 3 && s.get_char(j + 1) == ',' && s.get_char(j + 2) == ' ' {
                proof {
                    assert(sub[sj + 1] == s@[j + 1 as int]);
                    assert(sub[sj + 2] == s@[j + 2 as int]);
                }
                match parse_items_rec(s, j + 3) {
                    None => {
                        proof {
                            assert(s@.subrange(j + 3 as int, slen as int) =~= sub.subrange(
                                sj + 3,
                                sub.len() as int,
                            ));
                        }
                        None
                    },
                    Some(mut rest) => {
                        proof {
                            assert(s@.subrange(j + 3 as int, slen as int) =~= sub.subrange(
                                sj + 3,
                                sub.len() as int,
                            ));
                        }
                        let ghost restview = rest.deep_view();
                        let mut out: Vec<String> = Vec::new();
                        out.push(item);
                        out.append(&mut rest);
                        proof {
                            assert(out.deep_view() =~= seq![sub.subrange(1, sj as int)]
                                + restview);
                        }
                        Some(out)
                    },
                }
            } else {
                proof {
                    if sj + 3 <= sub.len() {
                        assert(sub[sj + 1] == s@[j + 1 as int]);
                        assert(sub[sj + 2] == s@[j + 2 as int]);
                    }
                }
                None
            }
        },
    }
}

fn parse_order_line_str(l: &str) -> (r: Option<Vec<String>>)
    ensures
        match r {
            Some(v) => parse_order_line(l@) == Some(v.deep_view()),
            None => parse_order_line(l@) is None,
        },
{
    match parse_delimited_str(l, "install_order = [", "]") {
        None => None,
        Some(mid) => {
            if mid.as_str().unicode_len() == 0 {
                let out: Vec<String> = Vec::new();
                proof {
                    assert(out.deep_view() =~= Seq::<Seq<char>>::empty());
                }
                Some(out)
            } else {
                proof {
                    assert(mid@.subrange(0, mid@.len() as int) =~= mid@);
                }
                parse_items_rec(mid.as_str(), 0)
            }
        },
    }
}

fn parse_checksum_line_str(l: &str) -> (r: Option<Checksum>)
    ensures
        match r {
            Some(c) => parse_checksum_line(l@) == Some(c@),
            None => parse_checksum_line(l@) is None,
        },
{
    match parse_delimited_str(l, "checksum = { kind = \"SHA256\", value = \"", "\" }") {
        Some(v) => Some(Checksum { kind: ChecksumKind::SHA256, value: v }),
        None => match parse_delimited_str(l, "checksum = { kind = \"MD5\", value = \"", "\" }") {
            Some(v) => Some(Checksum { kind: ChecksumKind::MD5, value: v }),
            None => None,
        },
    }
}

/// The package sections from line `i` on.
fn parse_packages_rec(lines: &Vec<String>, i: usize) -> (r: Option<Vec<(String, PackageEntry)>>)
    requires
        i <= lines.len(),
    ensures
        match r {
            Some(v) => parse_packages(lines.deep_view(), i as int) == Some(pairs_view(v@)),
            None => parse_packages(lines.deep_view(), i as int) is None,
        },
    decreases lines.len() - i,
{
    let ghost ls = lines.deep_view();
    if i == lines.len() {
        let out: Vec<(String, PackageEntry)> = Vec::new();
        proof {
            assert(pairs_view(out@) =~= Seq::<(Seq<char>, EntryView)>::empty());
        }
        return Some(out);
    }
    if lines.len() - i < 4 || lines[i].as_str().unicode_len() != 0 {
        return None;
    }
    let key = match parse_delimited_str(lines[i + 1].as_str(), "[packages.\"", "\"]") {
        Some(k) => k,
        None => {
            return None;
        },
    };
    let uri = match parse_delimited_str(lines[i + 2].as_str(), "uri = \"", "\"") {
        Some(u) => u,
        None => {
            return None;
        },
    };
    let size = match parse_u64_tail_str(lines[i + 3].as_str(), "size = ") {
        Some(n) => n,
        None => {
            return None;
        },
    };
    let has_ck = i + 4 < lines.len() && starts_with_str(lines[i + 4].as_str(), "checksum = ");
    if has_ck {
        let ck = match parse_checksum_line_str(lines[i + 4].as_str()) {
            Some(c) => c,
            None => {
                return None;
            },
        };
        match parse_packages_rec(lines, i + 5) {
            None => None,
            Some(mut rest) => {
                let ghost restview = pairs_view(rest@);
                let entry = PackageEntry { uri, size, checksum: Some(ck) };
                let ghost ev = entry@;
                let mut out: Vec<(String, PackageEntry)> = Vec::new();
                out.push((key, entry));
                out.append(&mut rest);
                proof {
                    assert(pairs_view(out@) =~= seq![(out@[0].0@, ev)] + restview);
                }
                Some(out)
            },
        }
    } else {
        match parse_packages_rec(lines, i + 4) {
            None => None,
            Some(mut rest) => {
                let ghost restview = pairs_view(rest@);
                let entry = PackageEntry { uri, size, checksum: None };
                let ghost ev = entry@;
                let mut out: Vec<(String, PackageEntry)> = Vec::new();
                out.push((key, entry));
                out.append(&mut rest);
                proof {
                    assert(pairs_view(out@) =~= seq![(out@[0].0@, ev)] + restview);
                }
                Some(out)
            },
        }
    }
}

/// When a bad URI exists, its first index pins `first_invalid_uri` down.
proof fn lemma_first_invalid_is(ps: Seq<(Seq<char>, EntryView)>, i: int, k: int)
    requires
        0 <= i <= k < ps.len(),
        !scheme_ok(ps[k].1.uri),
        forall|j: int| i <= j < k ==> scheme_ok((#[trigger] ps[j]).1.uri),
    ensures
        first_invalid_uri(ps, i) == k,
    decreases k - i,
{
    if i < k {
        lemma_first_invalid_is(ps, i + 1, k);
    }
}

proof fn lemma_first_invalid_none(ps: Seq<(Seq<char>, EntryView)>, i: int)
    requires
        i >= 0,
        forall|j: int| i <= j < ps.len() ==> scheme_ok((#[trigger] ps[j]).1.uri),
    ensures
        first_invalid_uri(ps, i) == -1,
    decreases ps.len() - i,
{
    if i < ps.len() {
        lemma_first_invalid_none(ps, i + 1);
    }
}

impl UriFile {
    /// Read a manifest back from its persisted text, validating every
    /// package URI as the manifest is parsed.  Returns the manifest exactly
    /// when the text is a canonical rendering and every URI is well-formed
    /// with an allowed scheme; a bad URI is reported by package key,
    /// rejecting the whole manifest.
    pub fn load(content: &str) -> (r: Result<UriFile, ManifestError>)
        ensures
            r matches Ok(m) ==> parse_manifest(content@) == Some(m@) && m@.uris_valid(),
            r is Ok <==> (parse_manifest(content@) matches Some(v) && v.uris_valid()),
            r == Err::<UriFile, ManifestError>(ManifestError::Malformed) <==> parse_manifest(
                content@,
            ) is None,
            r matches Err(ManifestError::InvalidUri(k))
                ==> (parse_manifest(content@) matches Some(v) && {
                let i = first_invalid_uri(v.packages, 0);
                &&& 0 <= i < v.packages.len()
                &&& k@ == v.packages[i].0
                &&& !scheme_ok(v.packages[i].1.uri)
            }),
    {
        let lines = split_char_str(content, '\n');
        let ghost ls = lines.deep_view();
        if lines.len() < 3 {
            return Err(ManifestError::Malformed);
        }
        let mode = match parse_mode_line_str(lines[0].as_str()) {
            Some(m) => m,
            None => {
                return Err(ManifestError::Malformed);
            },
        };
        let arch = match parse_delimited_str(lines[1].as_str(), "arch = \"", "\"") {
            Some(a) => a,
            None => {
                return Err(ManifestError::Malformed);
            },
        };
        let has_total = starts_with_str(lines[2].as_str(), "total_size = ");
        let mut total: Option<u64> = None;
        let oi: usize;
        if has_total {
            match parse_u64_tail_str(lines[2].as_str(), "total_size = ") {
                Some(n) => {
                    total = Some(n);
                },
                None => {
                    return Err(ManifestError::Malformed);
                },
            }
            oi = 3;
        } else {
            oi = 2;
        }
        if lines.len() <= oi {
            return Err(ManifestError::Malformed);
        }
        let order = match parse_order_line_str(lines[oi].as_str()) {
            Some(o) => o,
            None => {
                return Err(ManifestError::Malformed);
            },
        };
        let packages = match parse_packages_rec(&lines, oi + 1) {
            Some(p) => p,
            None => {
                return Err(ManifestError::Malformed);
            },
        };
        let m = UriFile { mode, arch, total_size: total, install_order: order, packages };
        proof {
            assert(parse_lines(ls) matches Some(v) && v =~= m@);
        }
        let mut i: usize = 0;
        while i < m.packages.len()
            invariant
                i <= m.packages.len(),
                parse_manifest(content@) == Some(m@),
                forall|j: int| 0 <= j < i ==> scheme_ok((#[trigger] m@.packages[j]).1.uri),
            decreases m.packages.len() - i,
        {
            match validate_uri(m.packages[i].1.uri.as_str()) {
                Ok(_) => {
                    proof {
                        assert(m@.packages[i as int].1.uri == m.packages[i as int].1.uri@);
                    }
                },
                Err(_) => {
                    let k = m.packages[i].0.clone();
                    proof {
                        lemma_first_invalid_is(m@.packages, 0, i as int);
                    }
                    return Err(ManifestError::InvalidUri(k));
                },
            }
            i += 1;
        }
        proof {
            lemma_first_invalid_none(m@.packages, 0);
        }
        Ok(m)
    }
}

// ---------------------------------------------------------------------------
// Executable rendering
// ---------------------------------------------------------------------------

/// Concatenation of a prefix, a middle and a suffix.
fn wrap_str(p: &str, mid: &str, s: &str) -> (r: String)
    ensures
        r@ == p@ + mid@ + s@,
{
    let r = String::from_str(p).concat(mid).concat(s);
    proof {
        assert(r@ =~= p@ + mid@ + s@);
    }
    r
}

fn mode_line_str(m: &RemoteMode) -> (r: String)
    ensures
        r@ == mode_line(*m),
{
    match m {
        RemoteMode::Install => String::from_str("mode = \"Install\""),
        RemoteMode::Update => String::from_str("mode = \"Update\""),
        RemoteMode::Upgrade => String::from_str("mode = \"Upgrade\""),
    }
}

fn u64_line_str(p: &str, n: u64) -> (r: String)
    ensures
        r@ == p@ + dec_digits_of(n as int),
{
    let digits = u64_to_string(n);
    String::from_str(p).concat(digits.as_str())
}

fn order_line_str(items: &Vec<String>) -> (r: String)
    ensures
        r@ == order_line(items.deep_view()),
{
    let mut acc = String::from_str("install_order = [");
    let mut i: usize = 0;
    while i < items.len()
        invariant
            i <= items.len(),
            acc@ == "install_order = ["@ + items_list(items.deep_view().take(i as int)),
        decreases items.len() - i,
    {
        if i > 0 {
            acc.append(", ");
        }
        let q = wrap_str("\"", items[i].as_str(), "\"");
        acc.append(q.as_str());
        proof {
            let dv = items.deep_view();
            assert(dv.take(i + 1 as int) =~= dv.take(i as int).push(dv[i as int]));
            lemma_items_list_snoc(dv.take(i as int), dv[i as int]);
            assert(q@ == quoted(dv[i as int]));
            if i == 0 {
                assert(acc@ =~= "install_order = ["@ + items_list(dv.take(i + 1 as int)));
            } else {
                assert(acc@ =~= "install_order = ["@ + items_list(dv.take(i + 1 as int)));
            }
        }
        i += 1;
    }
    acc.append("]");
    proof {
        assert(items.deep_view().take(items.len() as int) =~= items.deep_view());
        assert(acc@ =~= order_line(items.deep_view()));
    }
    acc
}

fn checksum_line_str(c: &Checksum) -> (r: String)
    ensures
        r@ == checksum_line(c@),
{
    match c.kind {
        ChecksumKind::SHA256 => wrap_str(
            "checksum = { kind = \"SHA256\", value = \"",
            c.value.as_str(),
            "\" }",
        ),
        ChecksumKind::MD5 => wrap_str(
            "checksum = { kind = \"MD5\", value = \"",
            c.value.as_str(),
            "\" }",
        ),
    }
}

/// Appending one more item to a list extends its rendering by a separator
/// and the quoted item.
pub proof fn lemma_items_list_snoc(xs: Seq<Seq<char>>, x: Seq<char>)
    ensures
        items_list(xs.push(x)) == if xs.len() == 0 {
            quoted(x)
        } else {
            items_list(xs) + ", "@ + quoted(x)
        },
    decreases xs.len(),
{
    if xs.len() == 0 {
        assert(xs.push(x) =~= seq![x]);
        assert(items_list(seq![x]) == quoted(x));
    } else if xs.len() == 1 {
        assert(xs.push(x).drop_first() =~= seq![x]);
        assert(items_list(xs.push(x)) == quoted(xs.push(x)[0]) + ", "@ + items_list(seq![x]));
        assert(items_list(seq![x]) == quoted(seq![x][0]));
        assert(xs.push(x)[0] == xs[0]);
        assert(items_list(xs.push(x)) == quoted(xs[0]) + ", "@ + quoted(x));
    } else {
        assert(xs.push(x).drop_first() =~= xs.drop_first().push(x));
        lemma_items_list_snoc(xs.drop_first(), x);
        assert(items_list(xs.push(x)) =~= items_list(xs) + ", "@ + quoted(x));
    }
}

/// Appending one more package extends the line sequence by that package's
/// lines.
pub proof fn lemma_packages_lines_snoc(ps: Seq<(Seq<char>, EntryView)>, p: (Seq<char>, EntryView))
    ensures
        packages_lines(ps.push(p)) == packages_lines(ps) + package_lines(p.0, p.1),
    decreases ps.len(),
{
    if ps.len() == 0 {
        assert(ps.push(p) =~= seq![p]);
        assert(ps.push(p).drop_first() =~= Seq::<(Seq<char>, EntryView)>::empty());
        assert(packages_lines(ps.push(p)) == package_lines(ps.push(p)[0].0, ps.push(p)[0].1)
            + packages_lines(ps.push(p).drop_first()));
        assert(packages_lines(Seq::<(Seq<char>, EntryView)>::empty())
            == Seq::<Seq<char>>::empty());
        assert(ps.push(p)[0] == p);
        assert(ps =~= Seq::<(Seq<char>, EntryView)>::empty());
        assert(packages_lines(ps.push(p)) =~= packages_lines(ps) + package_lines(p.0, p.1));
    } else {
        assert(ps.push(p).drop_first() =~= ps.drop_first().push(p));
        lemma_packages_lines_snoc(ps.drop_first(), p);
        assert(packages_lines(ps.push(p)) == package_lines(ps.push(p)[0].0, ps.push(p)[0].1)
            + packages_lines(ps.drop_first().push(p)));
        assert(ps.push(p)[0] == ps[0]);
        let a = package_lines(ps[0].0, ps[0].1);
        let b = packages_lines(ps.drop_first());
        let c = package_lines(p.0, p.1);
        assert(packages_lines(ps) == a + b);
        assert(packages_lines(ps.push(p)) == a + (b + c));
        assert(a + (b + c) =~= (a + b) + c);
    }
}

impl UriFile {
    /// Render the manifest as its persisted text.  The caller writes the
    /// returned string to disk in a single atomic write.
    pub fn save(&self) -> (r: String)
        ensures
            r@ == render_manifest(self@),
    {
        let ghost v = self@;
        let mut lines: Vec<String> = Vec::new();
        lines.push(mode_line_str(&self.mode));
        lines.push(wrap_str("arch = \"", self.arch.as_str(), "\""));
        match self.total_size {
            Some(n) => {
                lines.push(u64_line_str("total_size = ", n));
            },
            None => {},
        }
        lines.push(order_line_str(&self.install_order));
        let ghost base = lines.deep_view();
        proof {
            assert(base =~= seq![mode_line(v.mode), arch_line(v.arch)] + (match v.total_size {
                Some(n) => seq![total_line(n)],
                None => Seq::<Seq<char>>::empty(),
            }) + seq![order_line(v.install_order)]);
        }
        let mut i: usize = 0;
        while i < self.packages.len()
            invariant
                i <= self.packages.len(),
                v == self@,
                base =~= seq![mode_line(v.mode), arch_line(v.arch)] + (match v.total_size {
                    Some(n) => seq![total_line(n)],
                    None => Seq::<Seq<char>>::empty(),
                }) + seq![order_line(v.install_order)],
                lines.deep_view() == base + packages_lines(v.packages.take(i as int)),
            decreases self.packages.len() - i,
        {
            let ghost before = lines.deep_view();
            let (key, entry) = &self.packages[i];
            lines.push(String::new());
            lines.push(wrap_str("[packages.\"", key.as_str(), "\"]"));
            lines.push(wrap_str("uri = \"", entry.uri.as_str(), "\""));
            lines.push(u64_line_str("size = ", entry.size));
            match &entry.checksum {
                Some(c) => {
                    lines.push(checksum_line_str(c));
                },
                None => {},
            }
            proof {
                let pv = v.packages;
                assert(pv[i as int] == (self.packages[i as int].0@, self.packages[i as int].1@));
                assert(pv.take(i + 1 as int) =~= pv.take(i as int).push(pv[i as int]));
                lemma_packages_lines_snoc(pv.take(i as int), pv[i as int]);
                assert(lines.deep_view() =~= before + package_lines(
                    pv[i as int].0,
                    pv[i as int].1,
                ));
                assert(lines.deep_view() =~= base + packages_lines(pv.take(i + 1 as int)));
            }
            i += 1;
        }
        proof {
            assert(v.packages.take(v.packages.len() as int) =~= v.packages);
            assert(lines.deep_view() =~= manifest_lines(v));
        }
        join_lines(&lines)
    }

    /// Whether the manifest's strings avoid the characters the rendering
    /// reserves, so that saving and loading round-trips: no line breaks in
    /// any string field, and no double quotes in install-order items.
    pub fn is_clean(&self) -> (r: bool)
        ensures
            r == self@.codec_clean(),
    {
        let ghost v = self@;
        if contains_char(self.arch.as_str(), '\n') {
            return false;
        }
        let mut i: usize = 0;
        while i < self.install_order.len()
            invariant
                i <= self.install_order.len(),
                v == self@,
                forall|j: int| 0 <= j < i ==> no_char(#[trigger] v.install_order[j], '\n')
                    && no_char(v.install_order[j], '"'),
            decreases self.install_order.len() - i,
        {
            proof {
                assert(v.install_order[i as int] == self.install_order@[i as int]@);
            }
            if contains_char(self.install_order[i].as_str(), '\n') || contains_char(
                self.install_order[i].as_str(),
                '"',
            ) {
                return false;
            }
            i += 1;
        }
        let mut k: usize = 0;
        while k < self.packages.len()
            invariant
                k <= self.packages.len(),
                v == self@,
                forall|j: int| 0 <= j < k ==> {
                    &&& no_char((#[trigger] v.packages[j]).0, '\n')
                    &&& no_char(v.packages[j].1.uri, '\n')
                    &&& match v.packages[j].1.checksum {
                        Some(c) => no_char(c.value, '\n'),
                        None => true,
                    }
                },
            decreases self.packages.len() - k,
        {
            let p = &self.packages[k];
            proof {
                assert(v.packages[k as int] == (p.0@, p.1@));
            }
            if contains_char(p.0.as_str(), '\n') || contains_char(p.1.uri.as_str(), '\n') {
                return false;
            }
            match &p.1.checksum {
                Some(c) => {
                    if contains_char(c.value.as_str(), '\n') {
                        return false;
                    }
                },
                None => {},
            }
            k += 1;
        }
        true
    }
}

// ---------------------------------------------------------------------------
// The round trip: loading what was saved gives the manifest back
// ---------------------------------------------------------------------------

/// Separator-freedom distributes over concatenation.
proof fn lemma_no_char_concat(a: Seq<char>, b: Seq<char>, c: char)
    ensures
        no_char(a + b, c) == (no_char(a, c) && no_char(b, c)),
{
    if no_char(a, c) && no_char(b, c) {
        assert forall|i: int| 0 <= i < (a + b).len() implies (a + b)[i] != c by {
            if i < a.len() {
                assert((a + b)[i] == a[i]);
            } else {
                assert((a + b)[i] == b[i - a.len()]);
            }
        }
    }
    if no_char(a + b, c) {
        assert forall|i: int| 0 <= i < a.len() implies a[i] != c by {
            assert((a + b)[i] == a[i]);
        }
        assert forall|i: int| 0 <= i < b.len() implies b[i] != c by {
            assert((a + b)[a.len() + i] == b[i]);
        }
    }
}

/// Decimal digit runs contain no line break.
proof fn lemma_digits_no_nl(n: int)
    requires
        n >= 0,
    ensures
        no_char(dec_digits_of(n), '\n'),
{
    lemma_dec_digits_of(n);
}

/// A non-empty item list renders to at least two characters.
proof fn lemma_items_list_len(items: Seq<Seq<char>>)
    requires
        items.len() >= 1,
    ensures
        items_list(items).len() >= 2,
{
    reveal_strlit("\"");
}

/// An item list built from break-free items is break-free.
proof fn lemma_items_list_no_nl(items: Seq<Seq<char>>)
    requires
        forall|i: int| 0 <= i < items.len() ==> no_char(#[trigger] items[i], '\n'),
    ensures
        no_char(items_list(items), '\n'),
    decreases items.len(),
{
    reveal_strlit("\"");
    reveal_strlit(", ");
    if items.len() == 0 {
    } else if items.len() == 1 {
        lemma_no_char_concat("\""@, items[0], '\n');
        lemma_no_char_concat("\""@ + items[0], "\""@, '\n');
        assert(quoted(items[0]) =~= ("\""@ + items[0]) + "\""@);
    } else {
        lemma_no_char_concat("\""@, items[0], '\n');
        lemma_no_char_concat("\""@ + items[0], "\""@, '\n');
        assert(quoted(items[0]) =~= ("\""@ + items[0]) + "\""@);
        lemma_items_list_no_nl(items.drop_first());
        lemma_no_char_concat(quoted(items[0]), ", "@, '\n');
        lemma_no_char_concat(quoted(items[0]) + ", "@, items_list(items.drop_first()), '\n');
        assert(items_list(items) =~= (quoted(items[0]) + ", "@) + items_list(
            items.drop_first(),
        ));
    }
}

/// A prefix, middle and suffix that are break-free concatenate break-free.
proof fn lemma_wrap_no_nl(p: Seq<char>, mid: Seq<char>, s: Seq<char>)
    requires
        no_char(p, '\n'),
        no_char(mid, '\n'),
        no_char(s, '\n'),
    ensures
        no_char(p + mid + s, '\n'),
{
    lemma_no_char_concat(p, mid, '\n');
    lemma_no_char_concat(p + mid, s, '\n');
}

/// The lines of break-free package entries are break-free.
proof fn lemma_packages_lines_clean(ps: Seq<(Seq<char>, EntryView)>)
    requires
        forall|i: int| 0 <= i < ps.len() ==> {
            &&& no_char((#[trigger] ps[i]).0, '\n')
            &&& no_char(ps[i].1.uri, '\n')
            &&& match ps[i].1.checksum {
                Some(c) => no_char(c.value, '\n'),
                None => true,
            }
        },
    ensures
        forall|j: int| 0 <= j < packages_lines(ps).len() ==> no_char(
            #[trigger] packages_lines(ps)[j],
            '\n',
        ),
    decreases ps.len(),
{
    reveal_strlit("[packages.\"");
    reveal_strlit("\"]");
    reveal_strlit("uri = \"");
    reveal_strlit("\"");
    reveal_strlit("size = ");
    reveal_strlit("checksum = { kind = \"SHA256\", value = \"");
    reveal_strlit("checksum = { kind = \"MD5\", value = \"");
    reveal_strlit("\" }");
    if ps.len() > 0 {
        let key = ps[0].0;
        let e = ps[0].1;
        lemma_wrap_no_nl("[packages.\""@, key, "\"]"@);
        lemma_wrap_no_nl("uri = \""@, e.uri, "\""@);
        lemma_digits_no_nl(e.size as int);
        lemma_no_char_concat("size = "@, dec_digits_of(e.size as int), '\n');
        match e.checksum {
            Some(c) => {
                lemma_wrap_no_nl("checksum = { kind = \"SHA256\", value = \""@, c.value, "\" }"@);
                lemma_wrap_no_nl("checksum = { kind = \"MD5\", value = \""@, c.value, "\" }"@);
            },
            None => {},
        }
        lemma_packages_lines_clean(ps.drop_first());
        let pl = package_lines(key, e);
        assert(forall|j: int| 0 <= j < pl.len() ==> no_char(#[trigger] pl[j], '\n'));
        assert forall|j: int| 0 <= j < packages_lines(ps).len() implies no_char(
            #[trigger] packages_lines(ps)[j],
            '\n',
        ) by {
            if j < pl.len() {
                assert(packages_lines(ps)[j] == pl[j]);
            } else {
                assert(packages_lines(ps)[j] == packages_lines(ps.drop_first())[j - pl.len()]);
            }
        }
    }
}

/// Every line of a rendered clean manifest is break-free.
proof fn lemma_manifest_lines_clean(v: ManifestView)
    requires
        v.codec_clean(),
    ensures
        forall|j: int| 0 <= j < manifest_lines(v).len() ==> no_char(
            #[trigger] manifest_lines(v)[j],
            '\n',
        ),
{
    reveal_strlit("mode = \"Install\"");
    reveal_strlit("mode = \"Update\"");
    reveal_strlit("mode = \"Upgrade\"");
    reveal_strlit("arch = \"");
    reveal_strlit("\"");
    reveal_strlit("total_size = ");
    reveal_strlit("install_order = [");
    reveal_strlit("]");
    lemma_wrap_no_nl("arch = \""@, v.arch, "\""@);
    match v.total_size {
        Some(n) => {
            lemma_digits_no_nl(n as int);
            lemma_no_char_concat("total_size = "@, dec_digits_of(n as int), '\n');
        },
        None => {},
    }
    lemma_items_list_no_nl(v.install_order);
    lemma_wrap_no_nl("install_order = ["@, items_list(v.install_order), "]"@);
    lemma_packages_lines_clean(v.packages);
    let base = seq![mode_line(v.mode), arch_line(v.arch)] + (match v.total_size {
        Some(n) => seq![total_line(n)],
        None => Seq::<Seq<char>>::empty(),
    }) + seq![order_line(v.install_order)];
    assert(no_char(mode_line(v.mode), '\n'));
    assert(forall|j: int| 0 <= j < base.len() ==> no_char(#[trigger] base[j], '\n'));
    assert forall|j: int| 0 <= j < manifest_lines(v).len() implies no_char(
        #[trigger] manifest_lines(v)[j],
        '\n',
    ) by {
        if j < base.len() {
            assert(manifest_lines(v)[j] == base[j]);
        } else {
            assert(manifest_lines(v)[j] == packages_lines(v.packages)[j - base.len()]);
        }
    }
}

/// Parsing a delimited rendering recovers the middle.
proof fn lemma_parse_delimited_of(p: Seq<char>, mid: Seq<char>, s: Seq<char>)
    ensures
        parse_delimited(p + mid + s, p, s) == Some(mid),
{
    let l = p + mid + s;
    assert(l.subrange(0, p.len() as int) =~= p);
    assert(l.subrange(l.len() - s.len(), l.len() as int) =~= s);
    assert(l.subrange(p.len() as int, l.len() - s.len()) =~= mid);
}

/// Parsing a rendered non-empty item list recovers the items.
proof fn lemma_parse_items_of(items: Seq<Seq<char>>)
    requires
        items.len() >= 1,
        forall|i: int| 0 <= i < items.len() ==> no_char(#[trigger] items[i], '"'),
    ensures
        parse_items(items_list(items)) == Some(items),
    decreases items.len(),
{
    reveal_strlit("\"");
    reveal_strlit(", ");
    let s = items_list(items);
    let x = items[0];
    let k: int = x.len() as int + 1;
    if items.len() == 1 {
        assert(s =~= "\""@ + x + "\""@);
        assert(s[0] == '"');
        assert(s[k as int] == '"');
        assert(forall|j: int| 1 <= j < k ==> s[j] == x[j - 1]);
        lemma_find_char_at_is(s, 1, '"', k as int);
        assert(s.subrange(1, k as int) =~= x);
        assert(parse_items(s) == Some(seq![x]));
        assert(seq![x] =~= items);
    } else {
        let rest = items.drop_first();
        lemma_items_list_len(rest);
        assert(s =~= ("\""@ + x + "\""@) + ", "@ + items_list(rest));
        assert(s[0] == '"');
        assert(s[k as int] == '"');
        assert(forall|j: int| 1 <= j < k ==> s[j] == x[j - 1]);
        lemma_find_char_at_is(s, 1, '"', k as int);
        assert(s.subrange(1, k as int) =~= x);
        assert(k + 1 < s.len());
        assert(s[k + 1] == ',');
        assert(s[k + 2] == ' ');
        assert(s.subrange(k + 3, s.len() as int) =~= items_list(rest));
        lemma_parse_items_of(rest);
        assert(parse_items(s) == Some(seq![x] + rest));
        assert(seq![x] + rest =~= items);
    }
}

/// Parsing a rendered checksum line recovers the checksum.
proof fn lemma_parse_checksum_of(c: ChecksumView)
    ensures
        parse_checksum_line(checksum_line(c)) == Some(c),
{
    reveal_strlit("checksum = { kind = \"SHA256\", value = \"");
    reveal_strlit("checksum = { kind = \"MD5\", value = \"");
    reveal_strlit("\" }");
    let l = checksum_line(c);
    match c.kind {
        ChecksumKind::SHA256 => {
            lemma_parse_delimited_of(
                "checksum = { kind = \"SHA256\", value = \""@,
                c.value,
                "\" }"@,
            );
            assert(ChecksumView { kind: ChecksumKind::SHA256, value: c.value } =~= c);
        },
        ChecksumKind::MD5 => {
            let sha_p = "checksum = { kind = \"SHA256\", value = \""@;
            let md5_p = "checksum = { kind = \"MD5\", value = \""@;
            if parse_delimited(l, sha_p, "\" }"@) is Some {
                assert(starts_with(l, sha_p));
                assert(l.subrange(0, sha_p.len() as int)[21] == l[21]);
                assert(l[21] == md5_p[21]);
                assert(false);
            }
            lemma_parse_delimited_of(md5_p, c.value, "\" }"@);
            assert(ChecksumView { kind: ChecksumKind::MD5, value: c.value } =~= c);
        },
    }
}

/// Parsing rendered package sections recovers the packages.
proof fn lemma_parse_packages_of(ls: Seq<Seq<char>>, i: int, ps: Seq<(Seq<char>, EntryView)>)
    requires
        0 <= i <= ls.len(),
        ls.subrange(i, ls.len() as int) == packages_lines(ps),
    ensures
        parse_packages(ls, i) == Some(ps),
    decreases ps.len(),
{
    reveal_strlit("[packages.\"");
    reveal_strlit("\"]");
    reveal_strlit("uri = \"");
    reveal_strlit("\"");
    reveal_strlit("size = ");
    reveal_strlit("checksum = ");
    reveal_strlit("checksum = { kind = \"SHA256\", value = \"");
    reveal_strlit("checksum = { kind = \"MD5\", value = \"");
    let tail = ls.subrange(i, ls.len() as int);
    if ps.len() == 0 {
        assert(tail.len() == 0);
        assert(i == ls.len());
    } else {
        let key = ps[0].0;
        let e = ps[0].1;
        let rest = ps.drop_first();
        let pl = package_lines(key, e);
        assert(packages_lines(ps) == pl + packages_lines(rest));
        assert(ls.len() - i == pl.len() + packages_lines(rest).len());
        assert(tail[0] == pl[0] && tail[0] == ls[i + 0]);
        assert(tail[1] == pl[1] && tail[1] == ls[i + 1]);
        assert(tail[2] == pl[2] && tail[2] == ls[i + 2]);
        assert(tail[3] == pl[3] && tail[3] == ls[i + 3]);
        assert(ls[i] == pl[0] && pl[0].len() == 0);
        assert(ls[i + 1] == pl[1] && pl[1] == header_line(key));
        assert(ls[i + 2] == pl[2] && pl[2] == uri_line(e.uri));
        assert(ls[i + 3] == pl[3] && pl[3] == size_line(e.size));
        lemma_parse_delimited_of("[packages.\""@, key, "\"]"@);
        lemma_parse_delimited_of("uri = \""@, e.uri, "\""@);
        assert(starts_with(size_line(e.size), "size = "@)) by {
            assert(size_line(e.size).subrange(0, 7) =~= "size = "@);
        }
        assert(size_line(e.size).subrange(7, size_line(e.size).len() as int) =~= dec_digits_of(
            e.size as int,
        ));
        lemma_dec_digits_of(e.size as int);
        assert(parse_u64_tail(ls[i + 3], "size = "@) == Some(e.size));
        match e.checksum {
            Some(c) => {
                assert(pl.len() == 5);
                assert(tail[4] == pl[4] && tail[4] == ls[i + 4]);
                assert(ls[i + 4] == pl[4] && pl[4] == checksum_line(c));
                assert(starts_with(checksum_line(c), "checksum = "@)) by {
                    assert(checksum_line(c).subrange(0, 11) =~= "checksum = "@);
                }
                assert(i + 4 < ls.len());
                lemma_parse_checksum_of(c);
                assert forall|j: int| 0 <= j < ls.len() - (i + 5) implies ls.subrange(
                    i + 5,
                    ls.len() as int,
                )[j] == packages_lines(rest)[j] by {
                    assert(tail[5 + j] == ls[i + (5 + j)]);
                    assert(tail[5 + j] == (pl + packages_lines(rest))[5 + j]);
                }
                assert(ls.subrange(i + 5, ls.len() as int) =~= packages_lines(rest));
                lemma_parse_packages_of(ls, i + 5, rest);
                assert(EntryView { uri: e.uri, size: e.size, checksum: Some(c) } =~= e);
                assert(parse_packages(ls, i) == Some(seq![(key, e)] + rest));
                assert(seq![(key, e)] + rest =~= ps);
            },
            None => {
                assert(pl.len() == 4);
                if i + 4 < ls.len() {
                    assert(packages_lines(rest).len() > 0);
                    assert(rest.len() > 0);
                    assert(packages_lines(rest) == package_lines(rest[0].0, rest[0].1)
                        + packages_lines(rest.drop_first()));
                    assert(packages_lines(rest)[0] == package_lines(rest[0].0, rest[0].1)[0]);
                    assert(tail[4] == packages_lines(rest)[0] && tail[4] == ls[i + 4]);
                    assert(ls[i + 4].len() == 0);
                    assert(!starts_with(ls[i + 4], "checksum = "@));
                }
                assert forall|j: int| 0 <= j < ls.len() - (i + 4) implies ls.subrange(
                    i + 4,
                    ls.len() as int,
                )[j] == packages_lines(rest)[j] by {
                    assert(tail[4 + j] == ls[i + (4 + j)]);
                    assert(tail[4 + j] == (pl + packages_lines(rest))[4 + j]);
                }
                assert(ls.subrange(i + 4, ls.len() as int) =~= packages_lines(rest));
                lemma_parse_packages_of(ls, i + 4, rest);
                assert(EntryView { uri: e.uri, size: e.size, checksum: None } =~= e);
                assert(parse_packages(ls, i) == Some(seq![(key, e)] + rest));
                assert(seq![(key, e)] + rest =~= ps);
            },
        }
    }
}

/// The round trip of the persisted manifest format: parsing the rendering of
/// any manifest whose strings avoid the reserved characters (no line breaks;
/// no double quotes in install-order items) yields that manifest exactly.
/// Together with the contracts of `save` and `load`, saving a manifest to
/// disk and loading it back returns an equal structure whenever its URIs
/// validate.
pub proof fn lemma_load_after_save(v: ManifestView)
    requires
        v.codec_clean(),
    ensures
        parse_manifest(render_manifest(v)) == Some(v),
{
    reveal_strlit("mode = \"Install\"");
    reveal_strlit("mode = \"Update\"");
    reveal_strlit("mode = \"Upgrade\"");
    reveal_strlit("arch = \"");
    reveal_strlit("\"");
    reveal_strlit("total_size = ");
    reveal_strlit("install_order = [");
    reveal_strlit("]");
    let lines = manifest_lines(v);
    let base = seq![mode_line(v.mode), arch_line(v.arch)] + (match v.total_size {
        Some(n) => seq![total_line(n)],
        None => Seq::<Seq<char>>::empty(),
    }) + seq![order_line(v.install_order)];
    assert(lines == base + packages_lines(v.packages));
    lemma_manifest_lines_clean(v);
    lemma_split_join(lines, '\n');
    assert(split_char_seq(render_manifest(v), '\n') == lines);
    assert(lines[0] == mode_line(v.mode));
    assert(lines[1] == arch_line(v.arch));
    match v.mode {
        RemoteMode::Install => {},
        RemoteMode::Update => {
            assert(mode_line(RemoteMode::Update).len() == 15);
            assert(mode_line(RemoteMode::Install).len() == 16);
        },
        RemoteMode::Upgrade => {
            assert(mode_line(RemoteMode::Upgrade)[8] == 'U');
            assert(mode_line(RemoteMode::Install)[8] == 'I');
            assert(mode_line(RemoteMode::Upgrade).len() == 16);
            assert(mode_line(RemoteMode::Update).len() == 15);
        },
    }
    assert(parse_mode_line(lines[0]) == Some(v.mode));
    lemma_parse_delimited_of("arch = \""@, v.arch, "\""@);
    let oi: int = match v.total_size {
        Some(n) => 3,
        None => 2,
    };
    match v.total_size {
        Some(n) => {
            assert(lines[2] == total_line(n));
            assert(starts_with(total_line(n), "total_size = "@)) by {
                assert(total_line(n).subrange(0, 13) =~= "total_size = "@);
            }
            assert(total_line(n).subrange(13, total_line(n).len() as int) =~= dec_digits_of(
                n as int,
            ));
            lemma_dec_digits_of(n as int);
            assert(parse_u64_tail(lines[2], "total_size = "@) == Some(n));
        },
        None => {
            assert(lines[2] == order_line(v.install_order));
            if starts_with(lines[2], "total_size = "@) {
                assert(lines[2].subrange(0, 13)[0] == lines[2][0]);
                assert(lines[2][0] == 'i');
                assert(false);
            }
        },
    }
    assert(lines[oi] == order_line(v.install_order));
    lemma_parse_delimited_of("install_order = ["@, items_list(v.install_order), "]"@);
    if v.install_order.len() == 0 {
        assert(items_list(v.install_order).len() == 0);
        assert(parse_order_line(lines[oi]) == Some(Seq::<Seq<char>>::empty()));
        assert(Seq::<Seq<char>>::empty() =~= v.install_order);
    } else {
        lemma_items_list_len(v.install_order);
        lemma_parse_items_of(v.install_order);
        assert(parse_order_line(lines[oi]) == Some(v.install_order));
    }
    assert(lines.subrange(oi + 1, lines.len() as int) =~= packages_lines(v.packages));
    lemma_parse_packages_of(lines, oi + 1, v.packages);
    assert(parse_lines(lines) matches Some(w) && w =~= v);
}

} // verus!
