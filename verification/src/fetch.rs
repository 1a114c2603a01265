//! The local fetch phase: decide what to download into the cache.
//!
//! Downloads themselves happen outside this crate; this module fixes the
//! decisions.  The plan lists exactly the artifacts whose destination file
//! is not already present — so a second run over a fully populated cache
//! plans nothing, which `lemma_fetch_idempotent` proves.  The module also
//! decides which fetched metadata files are decompressed, how repository
//! base URLs are read out of source-list files, and where a repository's
//! package index lives.

use vstd::prelude::*;
use vstd::string::StrSliceExecFns;
use crate::strutil::{
    starts_with, starts_with_str, ends_with, ends_with_str, skip_spaces, skip_token,
    lemma_skip_spaces_is, lemma_skip_token_is, is_space, is_space_exec, lines_of, lines_of_str,
    concat2,
};
use crate::uri::{EntryView, RemoteMode, UriFile, pairs_view, uri_parses};

verus! {

/// Arguments of the fetch command: the image name.
pub struct GetArgs {
    /// Cache image name.
    pub name: String,
}

/// The cache subdirectory a mode's artifacts are downloaded into.
pub fn fetch_subdir(mode: &RemoteMode) -> (r: String)
    ensures
        r@ == (if mode is Update {
            "sources"@
        } else {
            "debs"@
        }),
{
    match mode {
        RemoteMode::Update => String::from_str("sources"),
        _ => String::from_str("debs"),
    }
}

/// The downloads a manifest still needs: one `(filename, uri)` pair per
/// package whose destination is absent, in manifest order.
pub open spec fn fetch_plan_at(
    ps: Seq<(Seq<char>, EntryView)>,
    present: Seq<bool>,
    i: int,
) -> Seq<(Seq<char>, Seq<char>)>
    decreases ps.len() - i,
{
    if i < 0 || i >= ps.len() {
        Seq::empty()
    } else if present[i] {
        fetch_plan_at(ps, present, i + 1)
    } else {
        seq![(ps[i].0, ps[i].1.uri)] + fetch_plan_at(ps, present, i + 1)
    }
}

/// Plan the downloads: for each package whose destination file is absent
/// (`present[i]` is false), one job holding the filename and the origin
/// URI; packages already present are skipped, so fetching is idempotent.
pub fn fetch_plan(m: &UriFile, present: &Vec<bool>) -> (r: Vec<(String, String)>)
    requires
        present@.len() == m@.packages.len(),
    ensures
        r.deep_view() == fetch_plan_at(m@.packages, present@, 0),
{
    let ghost ps = m@.packages;
    let mut r: Vec<(String, String)> = Vec::new();
    let mut i: usize = 0;
    proof {
        assert(r.deep_view() =~= Seq::<(Seq<char>, Seq<char>)>::empty());
        assert(r.deep_view() + fetch_plan_at(ps, present@, 0) =~= fetch_plan_at(
            ps,
            present@,
            0,
        ));
    }
    while i < m.packages.len()
        invariant
            i <= m.packages.len(),
            ps == m@.packages,
            present@.len() == ps.len(),
            fetch_plan_at(ps, present@, 0) == r.deep_view() + fetch_plan_at(
                ps,
                present@,
                i as int,
            ),
        decreases m.packages.len() - i,
    {
        proof {
            assert(ps[i as int] == (m.packages[i as int].0@, m.packages[i as int].1@));
        }
        if !present[i] {
            let p = &m.packages[i];
            r.push((p.0.clone(), p.1.uri.clone()));
            proof {
                assert(r.deep_view() =~= r.deep_view().subrange(0, r.deep_view().len() - 1)
                    + seq![(ps[i as int].0, ps[i as int].1.uri)]);
                assert(fetch_plan_at(ps, present@, 0) =~= r.deep_view() + fetch_plan_at(
                    ps,
                    present@,
                    i + 1 as int,
                ));
            }
        }
        i += 1;
    }
    r
}

/// A cache with every destination already present needs no downloads: the
/// plan of a second fetch run over the same manifest and cache is empty, so
/// that run performs no network request.
pub proof fn lemma_fetch_idempotent(
    ps: Seq<(Seq<char>, EntryView)>,
    present: Seq<bool>,
    i: int,
)
    requires
        i >= 0,
        present.len() == ps.len(),
        forall|j: int| 0 <= j < present.len() ==> present[j],
    ensures
        fetch_plan_at(ps, present, i) == Seq::<(Seq<char>, Seq<char>)>::empty(),
    decreases ps.len() - i,
{
    if i < ps.len() {
        lemma_fetch_idempotent(ps, present, i + 1);
    }
}

/// Whether a failed download is surfaced to the user.  In install mode a
/// failed download is silently skipped — the apply phase will simply not
/// find that file; the other modes surface the failure.
pub fn surface_fetch_failure(mode: &RemoteMode) -> (r: bool)
    ensures
        r == !(mode is Install),
{
    !matches!(mode, RemoteMode::Install)
}

/// A compressed metadata file: a name that is more than the `.xz` suffix.
pub open spec fn xz_file(f: Seq<char>) -> bool {
    f.len() > 3 && ends_with(f, ".xz"@)
}

/// Whether a fetched file is decompressed in place after download: only
/// update-mode metadata with a recognised compressed extension.
pub fn should_decompress(mode: &RemoteMode, filename: &str) -> (r: bool)
    ensures
        r == (mode is Update && xz_file(filename@)),
{
    matches!(mode, RemoteMode::Update) && filename.unicode_len() > 3 && ends_with_str(
        filename,
        ".xz",
    )
}

/// The name a decompressed file keeps: the original without its `.xz`
/// suffix.
pub fn decompressed_name(filename: &str) -> (r: String)
    requires
        xz_file(filename@),
    ensures
        r@ == filename@.subrange(0, filename@.len() - 3),
{
    let flen = filename.unicode_len();
    String::from_str(filename.substring_char(0, flen - 3))
}

/// The second whitespace-separated token of a line, if any.
pub open spec fn second_token(l: Seq<char>) -> Option<Seq<char>> {
    let a = skip_spaces(l, 0);
    let b = skip_token(l, a);
    let c = skip_spaces(l, b);
    if c < l.len() {
        Some(l.subrange(c, skip_token(l, c)))
    } else {
        None
    }
}

fn skip_spaces_from(s: &str, from: usize) -> (r: usize)
    requires
        from <= s@.len(),
    ensures
        r == skip_spaces(s@, from as int),
        from <= r <= s@.len(),
        r < s@.len() ==> !is_space(s@[r as int]),
{
    let slen = s.unicode_len();
    let mut i: usize = from;
    while i < slen && is_space_exec(s.get_char(i))
        invariant
            from <= i <= slen,
            slen == s@.len(),
            forall|j: int| from <= j < i ==> is_space(#[trigger] s@[j]),
        decreases slen - i,
    {
        i += 1;
    }
    proof {
        lemma_skip_spaces_is(s@, from as int, i as int);
    }
    i
}

fn skip_token_from(s: &str, from: usize) -> (r: usize)
    requires
        from <= s@.len(),
    ensures
        r == skip_token(s@, from as int),
        from <= r <= s@.len(),
{
    let slen = s.unicode_len();
    let mut i: usize = from;
    while i < slen && !is_space_exec(s.get_char(i))
        invariant
            from <= i <= slen,
            slen == s@.len(),
            forall|j: int| from <= j < i ==> !is_space(#[trigger] s@[j]),
        decreases slen - i,
    {
        i += 1;
    }
    proof {
        lemma_skip_token_is(s@, from as int, i as int);
    }
    i
}

/// The second whitespace-separated token of a line.
pub fn second_token_str(l: &str) -> (r: Option<String>)
    ensures
        match r {
            Some(t) => second_token(l@) == Some(t@),
            None => second_token(l@) is None,
        },
{
    let llen = l.unicode_len();
    let a = skip_spaces_from(l, 0);
    let b = skip_token_from(l, a);
    let c = skip_spaces_from(l, b);
    if c < llen {
        let d = skip_token_from(l, c);
        Some(String::from_str(l.substring_char(c, d)))
    } else {
        None
    }
}

/// Append a URL to the collection unless it is already there.
pub open spec fn add_url(acc: Seq<Seq<char>>, u: Seq<char>) -> Seq<Seq<char>> {
    if acc.contains(u) {
        acc
    } else {
        acc.push(u)
    }
}

/// The repository base URLs of one source-list file's lines, folded into an
/// accumulated collection: the second field of every `deb ` line that
/// parses as a URL, each kept once.
pub open spec fn urls_of_lines(acc: Seq<Seq<char>>, ls: Seq<Seq<char>>, i: int) -> Seq<Seq<char>>
    decreases ls.len() - i,
{
    if i < 0 || i >= ls.len() {
        acc
    } else {
        let next = if starts_with(ls[i], "deb "@) {
            match second_token(ls[i]) {
                Some(u) => if uri_parses(u) {
                    add_url(acc, u)
                } else {
                    acc
                },
                None => acc,
            }
        } else {
            acc
        };
        urls_of_lines(next, ls, i + 1)
    }
}

/// The repository base URLs of all source-list files, in first-seen order.
pub open spec fn urls_of_files(acc: Seq<Seq<char>>, files: Seq<Seq<char>>, k: int) -> Seq<
    Seq<char>,
>
    decreases files.len() - k,
{
    if k < 0 || k >= files.len() {
        acc
    } else {
        urls_of_files(urls_of_lines(acc, lines_of(files[k]), 0), files, k + 1)
    }
}

/// Whether the collection already holds this URL.
fn vec_contains_str(v: &Vec<String>, s: &str) -> (r: bool)
    ensures
        r == v.deep_view().contains(s@),
{
    let mut i: usize = 0;
    while i < v.len()
        invariant
            i <= v.len(),
            forall|j: int| 0 <= j < i ==> v.deep_view()[j] != s@,
        decreases v.len() - i,
    {
        if crate::strutil::str_eq(v[i].as_str(), s) {
            proof {
                assert(v.deep_view()[i as int] == s@);
            }
            return true;
        }
        i += 1;
    }
    proof {
        if v.deep_view().contains(s@) {
            let j = choose|j: int| 0 <= j < v.deep_view().len() && v.deep_view()[j] == s@;
            assert(v.deep_view()[j] != s@);
        }
    }
    false
}

/// Collect the repository base URLs referenced by the fetched source-list
/// files: the second field of every `deb ` line that parses as a URL, each
/// URL once, in first-seen order.
pub fn source_urls(contents: &Vec<String>) -> (r: Vec<String>)
    ensures
        r.deep_view() == urls_of_files(Seq::empty(), contents.deep_view(), 0),
{
    let ghost files = contents.deep_view();
    let mut r: Vec<String> = Vec::new();
    proof {
        assert(r.deep_view() =~= Seq::<Seq<char>>::empty());
    }
    let mut k: usize = 0;
    while k < contents.len()
        invariant
            k <= contents.len(),
            files == contents.deep_view(),
            urls_of_files(Seq::empty(), files, 0) == urls_of_files(
                r.deep_view(),
                files,
                k as int,
            ),
        decreases contents.len() - k,
    {
        let lines = lines_of_str(contents[k].as_str());
        let ghost ls = lines.deep_view();
        proof {
            assert(files[k as int] == contents@[k as int]@);
            assert(ls == lines_of(files[k as int]));
        }
        let mut i: usize = 0;
        while i < lines.len()
            invariant
                i <= lines.len(),
                ls == lines.deep_view(),
                urls_of_files(Seq::empty(), files, 0) == urls_of_files(
                    urls_of_lines(r.deep_view(), ls, i as int),
                    files,
                    k as int + 1,
                ),
            decreases lines.len() - i,
        {
            proof {
                assert(ls[i as int] == lines@[i as int]@);
            }
            let ghost before = r.deep_view();
            let line = &lines[i];
            if starts_with_str(line.as_str(), "deb ") {
                match second_token_str(line.as_str()) {
                    Some(u) => {
                        if crate::uri::is_url(u.as_str()) {
                            if !vec_contains_str(&r, u.as_str()) {
                                r.push(u);
                                proof {
                                    assert(r.deep_view() =~= before.push(u@));
                                }
                            }
                        }
                    },
                    None => {},
                }
            }
            proof {
                assert(urls_of_lines(before, ls, i as int) == urls_of_lines(
                    r.deep_view(),
                    ls,
                    i + 1 as int,
                ));
            }
            i += 1;
        }
        k += 1;
    }
    r
}

/// The package-index URL of a repository base URL: the base, given a
/// trailing slash if it lacks one, with `Packages.gz` appended.
pub fn packages_index_url(base: &str) -> (r: String)
    ensures
        r@ == (if ends_with(base@, "/"@) {
            base@ + "Packages.gz"@
        } else {
            base@ + "/"@ + "Packages.gz"@
        }),
{
    if ends_with_str(base, "/") {
        concat2(base, "Packages.gz")
    } else {
        let with_slash = concat2(base, "/");
        let r = concat2(with_slash.as_str(), "Packages.gz");
        proof {
            assert(r@ =~= base@ + "/"@ + "Packages.gz"@);
        }
        r
    }
}

} // verus!
