//! Verified string helpers shared by the manifest codec and the phase logic:
//! prefix/suffix tests, character search, splitting and joining, decimal
//! rendering and parsing, trimming and tokenizing.

use vstd::prelude::*;
use vstd::string::*;

verus! {

/// No occurrence of `c` anywhere in `s`.
pub open spec fn no_char(s: Seq<char>, c: char) -> bool {
    forall|i: int| 0 <= i < s.len() ==> s[i] != c
}

pub open spec fn starts_with(s: Seq<char>, p: Seq<char>) -> bool {
    p.len() <= s.len() && s.subrange(0, p.len() as int) == p
}

pub open spec fn ends_with(s: Seq<char>, p: Seq<char>) -> bool {
    p.len() <= s.len() && s.subrange(s.len() - p.len(), s.len() as int) == p
}

/// Index of the first occurrence of `c` in `s` at or after `i`, or -1.
pub open spec fn find_char_at(s: Seq<char>, i: int, c: char) -> int
    decreases s.len() - i,
{
    if i < 0 || i >= s.len() {
        -1
    } else if s[i] == c {
        i
    } else {
        find_char_at(s, i + 1, c)
    }
}

/// The result of `find_char_at` is -1 or a position of `c` in `s`, with no
/// earlier occurrence at or after `i`.
pub proof fn lemma_find_char_at(s: Seq<char>, i: int, c: char)
    requires
        i >= 0,
    ensures
        find_char_at(s, i, c) == -1 || i <= find_char_at(s, i, c) < s.len(),
        find_char_at(s, i, c) >= 0 ==> s[find_char_at(s, i, c)] == c,
        forall|j: int| i <= j < s.len() && s[j] == c ==> find_char_at(s, i, c) != -1
            && find_char_at(s, i, c) <= j,
    decreases s.len() - i,
{
    if i < 0 || i >= s.len() {
    } else if s[i] == c {
    } else {
        lemma_find_char_at(s, i + 1, c);
    }
}

/// An exact occurrence pins the result of `find_char_at` down.
pub proof fn lemma_find_char_at_is(s: Seq<char>, i: int, c: char, k: int)
    requires
        0 <= i <= k < s.len(),
        s[k] == c,
        forall|j: int| i <= j < k ==> s[j] != c,
    ensures
        find_char_at(s, i, c) == k,
    decreases k - i,
{
    if i < k {
        lemma_find_char_at_is(s, i + 1, c, k);
    }
}

/// When `c` does not occur at or after `i`, the search fails.
pub proof fn lemma_find_char_at_none(s: Seq<char>, i: int, c: char)
    requires
        i >= 0,
        forall|j: int| i <= j < s.len() ==> s[j] != c,
    ensures
        find_char_at(s, i, c) == -1,
{
    lemma_find_char_at(s, i, c);
    if find_char_at(s, i, c) >= 0 {
        assert(s[find_char_at(s, i, c)] == c);
    }
}

/// Exact equality of two string slices.
pub fn str_eq(a: &str, b: &str) -> (r: bool)
    ensures
        r == (a@ == b@),
{
    let alen = a.unicode_len();
    let blen = b.unicode_len();
    if alen != blen {
        return false;
    }
    let mut i: usize = 0;
    while i < alen
        invariant
            i <= alen,
            alen == a@.len(),
            alen == b@.len(),
            forall|j: int| 0 <= j < i ==> a@[j] == b@[j],
        decreases alen - i,
    {
        if a.get_char(i) != b.get_char(i) {
            return false;
        }
        i += 1;
    }
    proof {
        assert(a@ =~= b@);
    }
    true
}

/// Whether `s` begins with `p`.
pub fn starts_with_str(s: &str, p: &str) -> (r: bool)
    ensures
        r == starts_with(s@, p@),
{
    let slen = s.unicode_len();
    let plen = p.unicode_len();
    if plen > slen {
        return false;
    }
    let mut i: usize = 0;
    while i < plen
        invariant
            i <= plen,
            plen <= slen,
            slen == s@.len(),
            plen == p@.len(),
            forall|j: int| 0 <= j < i ==> s@[j] == p@[j],
        decreases plen - i,
    {
        if s.get_char(i) != p.get_char(i) {
            proof {
                assert(s@.subrange(0, p@.len() as int)[i as int] == s@[i as int]);
            }
            return false;
        }
        i += 1;
    }
    proof {
        assert(s@.subrange(0, p@.len() as int) =~= p@);
    }
    true
}

/// Whether `s` ends with `p`.
pub fn ends_with_str(s: &str, p: &str) -> (r: bool)
    ensures
        r == ends_with(s@, p@),
{
    let slen = s.unicode_len();
    let plen = p.unicode_len();
    if plen > slen {
        return false;
    }
    let off = slen - plen;
    let mut i: usize = 0;
    while i < plen
        invariant
            i <= plen,
            plen <= slen,
            off == slen - plen,
            slen == s@.len(),
            plen == p@.len(),
            forall|j: int| 0 <= j < i ==> s@[off + j] == p@[j],
        decreases plen - i,
    {
        if s.get_char(off + i) != p.get_char(i) {
            proof {
                assert(s@.subrange(s@.len() - p@.len(), s@.len() as int)[i as int]
                    == s@[off + i]);
            }
            return false;
        }
        i += 1;
    }
    proof {
        assert(s@.subrange(s@.len() - p@.len(), s@.len() as int) =~= p@);
    }
    true
}

/// First occurrence of `c` in `s` at or after `from`.
pub fn find_from(s: &str, from: usize, c: char) -> (r: Option<usize>)
    ensures
        match r {
            Some(k) => find_char_at(s@, from as int, c) == k,
            None => find_char_at(s@, from as int, c) == -1,
        },
{
    let slen = s.unicode_len();
    if from >= slen {
        return None;
    }
    let mut i: usize = from;
    while i < slen
        invariant
            from <= i <= slen,
            slen == s@.len(),
            forall|j: int| from <= j < i ==> s@[j] != c,
        decreases slen - i,
    {
        if s.get_char(i) == c {
            proof {
                lemma_find_char_at_is(s@, from as int, c, i as int);
            }
            return Some(i);
        }
        i += 1;
    }
    proof {
        lemma_find_char_at_none(s@, from as int, c);
    }
    None
}

/// Whether `c` occurs anywhere in `s`.
pub fn contains_char(s: &str, c: char) -> (r: bool)
    ensures
        r == !no_char(s@, c),
{
    proof {
        lemma_find_char_at(s@, 0, c);
    }
    match find_from(s, 0, c) {
        Some(_) => true,
        None => false,
    }
}

/// Pieces of `s` between occurrences of the separator `c`.  Splitting never
/// yields an empty sequence: a string without the separator is one piece.
pub open spec fn split_char_seq(s: Seq<char>, c: char) -> Seq<Seq<char>>
    decreases s.len(),
    via split_char_seq_dec
{
    let i = find_char_at(s, 0, c);
    if i == -1 {
        seq![s]
    } else {
        seq![s.subrange(0, i)] + split_char_seq(s.subrange(i + 1, s.len() as int), c)
    }
}

#[via_fn]
proof fn split_char_seq_dec(s: Seq<char>, c: char) {
    lemma_find_char_at(s, 0, c);
}

/// The pieces joined back together with `c` between them.
pub open spec fn join_with(ls: Seq<Seq<char>>, c: char) -> Seq<char>
    decreases ls.len(),
{
    if ls.len() == 0 {
        Seq::empty()
    } else if ls.len() == 1 {
        ls[0]
    } else {
        ls[0] + seq![c] + join_with(ls.drop_first(), c)
    }
}

/// Searching a suffix finds the same occurrence as searching from its offset.
pub proof fn lemma_find_char_suffix(s: Seq<char>, p: int, c: char)
    requires
        0 <= p <= s.len(),
    ensures
        find_char_at(s.subrange(p, s.len() as int), 0, c) == if find_char_at(s, p, c) == -1 {
            -1
        } else {
            find_char_at(s, p, c) - p
        },
{
    let t = s.subrange(p, s.len() as int);
    let f = find_char_at(s, p, c);
    lemma_find_char_at(s, p, c);
    if f == -1 {
        assert(forall|j: int| 0 <= j < t.len() ==> t[j] == s[p + j] && s[p + j] != c);
        lemma_find_char_at_none(t, 0, c);
    } else {
        assert(t[f - p] == c);
        assert(forall|j: int| 0 <= j < f - p ==> t[j] == s[p + j] && s[p + j] != c);
        lemma_find_char_at_is(t, 0, c, f - p);
    }
}

/// Searching a suffix from any start mirrors searching the whole string from
/// the shifted start.
pub proof fn lemma_find_char_offset(s: Seq<char>, p: int, i: int, c: char)
    requires
        0 <= p,
        0 <= i,
        p + i <= s.len(),
    ensures
        find_char_at(s.subrange(p, s.len() as int), i, c) == if find_char_at(s, p + i, c) == -1 {
            -1
        } else {
            find_char_at(s, p + i, c) - p
        },
{
    let t = s.subrange(p, s.len() as int);
    let f = find_char_at(s, p + i, c);
    lemma_find_char_at(s, p + i, c);
    if f == -1 {
        assert(forall|j: int| i <= j < t.len() ==> t[j] == s[p + j] && s[p + j] != c);
        lemma_find_char_at_none(t, i, c);
    } else {
        assert(t[f - p] == c);
        assert(forall|j: int| i <= j < f - p ==> t[j] == s[p + j] && s[p + j] != c);
        lemma_find_char_at_is(t, i, c, f - p);
    }
}

/// Joining pieces that are free of the separator and splitting again gives
/// the pieces back.
pub proof fn lemma_split_join(ls: Seq<Seq<char>>, c: char)
    requires
        ls.len() >= 1,
        forall|i: int| 0 <= i < ls.len() ==> no_char(#[trigger] ls[i], c),
    ensures
        split_char_seq(join_with(ls, c), c) == ls,
    decreases ls.len(),
{
    let s = join_with(ls, c);
    if ls.len() == 1 {
        assert(no_char(ls[0], c));
        lemma_find_char_at_none(s, 0, c);
        assert(split_char_seq(s, c) =~= ls);
    } else {
        let rest = join_with(ls.drop_first(), c);
        let k = ls[0].len() as int;
        assert(s =~= ls[0] + seq![c] + rest);
        assert(s[k] == c);
        assert(forall|j: int| 0 <= j < k ==> s[j] == ls[0][j] && s[j] != c);
        lemma_find_char_at_is(s, 0, c, k);
        assert(s.subrange(0, k) =~= ls[0]);
        assert(s.subrange(k + 1, s.len() as int) =~= rest);
        assert(forall|i: int| 0 <= i < ls.drop_first().len()
            ==> no_char(#[trigger] ls.drop_first()[i], c));
        lemma_split_join(ls.drop_first(), c);
        assert(split_char_seq(s, c) =~= seq![ls[0]] + ls.drop_first());
        assert(seq![ls[0]] + ls.drop_first() =~= ls);
    }
}

/// Appending one more piece extends the joined string by a separator and the
/// piece.
pub proof fn lemma_join_snoc(ls: Seq<Seq<char>>, l: Seq<char>, c: char)
    requires
        ls.len() >= 1,
    ensures
        join_with(ls.push(l), c) == join_with(ls, c) + seq![c] + l,
    decreases ls.len(),
{
    if ls.len() == 1 {
        assert(ls.push(l).drop_first() =~= seq![l]);
        assert(join_with(seq![l], c) == l);
        assert(join_with(ls.push(l), c) =~= ls[0] + seq![c] + l);
        assert(join_with(ls, c) == ls[0]);
    } else {
        assert(ls.push(l).drop_first() =~= ls.drop_first().push(l));
        lemma_join_snoc(ls.drop_first(), l, c);
        assert(join_with(ls.push(l), c) =~= join_with(ls, c) + seq![c] + l);
    }
}

/// Split `s` on the character `c`, as the spec-level `split_char_seq` does.
pub fn split_char_str(s: &str, c: char) -> (r: Vec<String>)
    ensures
        r.deep_view() == split_char_seq(s@, c),
{
    let slen = s.unicode_len();
    let mut r: Vec<String> = Vec::new();
    let mut pos: usize = 0;
    proof {
        assert(s@.subrange(0, slen as int) =~= s@);
        assert(r.deep_view() =~= Seq::<Seq<char>>::empty());
        assert(r.deep_view() + split_char_seq(s@, c) =~= split_char_seq(s@, c));
    }
    loop
        invariant
            pos <= slen,
            slen == s@.len(),
            split_char_seq(s@, c) == r.deep_view() + split_char_seq(
                s@.subrange(pos as int, slen as int),
                c,
            ),
        decreases slen - pos,
    {
        proof {
            lemma_find_char_suffix(s@, pos as int, c);
            lemma_find_char_at(s@, pos as int, c);
        }
        match find_from(s, pos, c) {
            Some(k) => {
                let piece = s.substring_char(pos, k);
                r.push(String::from_str(piece));
                proof {
                    let suf = s@.subrange(pos as int, slen as int);
                    let i = k - pos;
                    assert(suf.subrange(0, i as int) =~= s@.subrange(pos as int, k as int));
                    assert(suf.subrange(i + 1, suf.len() as int) =~= s@.subrange(
                        k + 1,
                        slen as int,
                    ));
                    assert(r.deep_view() =~= r.deep_view().subrange(
                        0,
                        r.deep_view().len() - 1,
                    ).push(piece@));
                    assert(split_char_seq(s@, c) =~= r.deep_view() + split_char_seq(
                        s@.subrange(k + 1 as int, slen as int),
                        c,
                    ));
                }
                pos = k + 1;
            },
            None => {
                let piece = s.substring_char(pos, slen);
                r.push(String::from_str(piece));
                proof {
                    let suf = s@.subrange(pos as int, slen as int);
                    assert(split_char_seq(suf, c) =~= seq![suf]);
                    assert(r.deep_view() =~= r.deep_view().subrange(
                        0,
                        r.deep_view().len() - 1,
                    ) + seq![suf]);
                }
                return r;
            },
        }
    }
}

/// Join the lines with `'\n'`, as the spec-level `join_with` does.
pub fn join_lines(v: &Vec<String>) -> (r: String)
    ensures
        r@ == join_with(v.deep_view(), '\n'),
{
    proof {
        reveal_strlit("\n");
    }
    if v.len() == 0 {
        return String::new();
    }
    let mut r = v[0].clone();
    let mut i: usize = 1;
    while i < v.len()
        invariant
            1 <= i <= v.len(),
            r@ == join_with(v.deep_view().take(i as int), '\n'),
        decreases v.len() - i,
    {
        r.append("\n");
        r.append(v[i].as_str());
        proof {
            reveal_strlit("\n");
            lemma_join_snoc(v.deep_view().take(i as int), v[i as int]@, '\n');
            assert(v.deep_view().take(i as int).push(v[i as int]@) =~= v.deep_view().take(
                i + 1 as int,
            ));
            assert("\n"@ =~= seq!['\n']);
        }
        i += 1;
    }
    proof {
        assert(v.deep_view().take(v.len() as int) =~= v.deep_view());
    }
    r
}

/// Concatenation of two string slices.
pub fn concat2(a: &str, b: &str) -> (r: String)
    ensures
        r@ == a@ + b@,
{
    String::from_str(a).concat(b)
}

/// Concatenation of three string slices.
pub fn concat3(a: &str, b: &str, c: &str) -> (r: String)
    ensures
        r@ == a@ + b@ + c@,
{
    let r = String::from_str(a).concat(b).concat(c);
    proof {
        assert(r@ =~= a@ + b@ + c@);
    }
    r
}

/// Join the pieces with a single space, as the spec-level `join_with` does.
pub fn join_spaces(v: &Vec<String>) -> (r: String)
    ensures
        r@ == join_with(v.deep_view(), ' '),
{
    proof {
        reveal_strlit(" ");
    }
    if v.len() == 0 {
        return String::new();
    }
    let mut r = v[0].clone();
    let mut i: usize = 1;
    while i < v.len()
        invariant
            1 <= i <= v.len(),
            r@ == join_with(v.deep_view().take(i as int), ' '),
        decreases v.len() - i,
    {
        r.append(" ");
        r.append(v[i].as_str());
        proof {
            reveal_strlit(" ");
            lemma_join_snoc(v.deep_view().take(i as int), v[i as int]@, ' ');
            assert(v.deep_view().take(i as int).push(v[i as int]@) =~= v.deep_view().take(
                i + 1 as int,
            ));
            assert(" "@ =~= seq![' ']);
        }
        i += 1;
    }
    proof {
        assert(v.deep_view().take(v.len() as int) =~= v.deep_view());
    }
    r
}

/// A line with a trailing carriage return loses it, as `str::lines` does.
pub open spec fn strip_cr(p: Seq<char>) -> Seq<char> {
    if p.len() > 0 && p.last() == '\r' {
        p.drop_last()
    } else {
        p
    }
}

/// The lines of `s`, as `str::lines` yields them: split on `'\n'`, a final
/// empty piece dropped, and a trailing `'\r'` stripped from each line.
pub open spec fn lines_of(s: Seq<char>) -> Seq<Seq<char>> {
    let ps = split_char_seq(s, '\n');
    let kept = if ps.len() > 0 && ps.last().len() == 0 {
        ps.drop_last()
    } else {
        ps
    };
    kept.map_values(|p: Seq<char>| strip_cr(p))
}

/// Split `s` into lines, as `str::lines` does.
pub fn lines_of_str(s: &str) -> (r: Vec<String>)
    ensures
        r.deep_view() == lines_of(s@),
{
    let mut pieces = split_char_str(s, '\n');
    let ghost ps = pieces.deep_view();
    if pieces.len() > 0 && pieces[pieces.len() - 1].as_str().unicode_len() == 0 {
        pieces.pop();
        proof {
            assert(pieces.deep_view() =~= ps.drop_last());
        }
    }
    let ghost kept = pieces.deep_view();
    let mut out: Vec<String> = Vec::new();
    let mut i: usize = 0;
    while i < pieces.len()
        invariant
            i <= pieces.len(),
            kept == pieces.deep_view(),
            out.deep_view() =~= kept.take(i as int).map_values(|p: Seq<char>| strip_cr(p)),
        decreases pieces.len() - i,
    {
        let ghost prev = out.deep_view();
        let p = &pieces[i];
        proof {
            assert(kept[i as int] == p@);
        }
        let plen = p.as_str().unicode_len();
        if plen > 0 && p.as_str().get_char(plen - 1) == '\r' {
            out.push(String::from_str(p.as_str().substring_char(0, plen - 1)));
            proof {
                assert(p@.subrange(0, p@.len() - 1) =~= p@.drop_last());
            }
        } else {
            out.push(p.clone());
        }
        proof {
            let f = |q: Seq<char>| strip_cr(q);
            assert(out.deep_view() =~= prev.push(strip_cr(kept[i as int])));
            assert(kept.take(i + 1 as int) =~= kept.take(i as int).push(kept[i as int]));
            assert forall|j: int| 0 <= j < i + 1 implies out.deep_view()[j] == kept.take(
                i + 1 as int,
            ).map_values(f)[j] by {
                assert(kept.take(i + 1 as int).map_values(f)[j] == f(kept.take(i + 1 as int)[j]));
                if j < i {
                    assert(prev[j] == kept.take(i as int).map_values(f)[j]);
                    assert(kept.take(i as int).map_values(f)[j] == f(kept.take(i as int)[j]));
                    assert(out.deep_view()[j] == prev[j]);
                } else {
                    assert(out.deep_view()[j] == strip_cr(kept[i as int]));
                }
            }
            assert(out.deep_view() =~= kept.take(i + 1 as int).map_values(f));
        }
        i += 1;
    }
    proof {
        assert(kept.take(pieces.len() as int) =~= kept);
    }
    out
}

pub open spec fn is_digit(c: char) -> bool {
    c == '0' || c == '1' || c == '2' || c == '3' || c == '4' || c == '5' || c == '6' || c == '7'
        || c == '8' || c == '9'
}

/// Value of a decimal digit, -1 for any other character.
pub open spec fn digit_val(c: char) -> int {
    if c == '0' {
        0
    } else if c == '1' {
        1
    } else if c == '2' {
        2
    } else if c == '3' {
        3
    } else if c == '4' {
        4
    } else if c == '5' {
        5
    } else if c == '6' {
        6
    } else if c == '7' {
        7
    } else if c == '8' {
        8
    } else if c == '9' {
        9
    } else {
        -1
    }
}

pub open spec fn digit_char(d: int) -> char {
    if d == 0 {
        '0'
    } else if d == 1 {
        '1'
    } else if d == 2 {
        '2'
    } else if d == 3 {
        '3'
    } else if d == 4 {
        '4'
    } else if d == 5 {
        '5'
    } else if d == 6 {
        '6'
    } else if d == 7 {
        '7'
    } else if d == 8 {
        '8'
    } else {
        '9'
    }
}

pub open spec fn all_digits(s: Seq<char>) -> bool {
    forall|i: int| 0 <= i < s.len() ==> is_digit(#[trigger] s[i])
}

/// Value of a digit string read in base ten.
pub open spec fn digits_val(s: Seq<char>) -> int
    decreases s.len(),
{
    if s.len() == 0 {
        0
    } else {
        digits_val(s.drop_last()) * 10 + digit_val(s.last())
    }
}

/// Canonical decimal rendering of a non-negative integer.
pub open spec fn dec_digits_of(n: int) -> Seq<char>
    decreases n,
{
    if n < 10 {
        seq![digit_char(n)]
    } else {
        dec_digits_of(n / 10).push(digit_char(n % 10))
    }
}

/// The canonical rendering consists of digits, has no leading zero, and reads
/// back to the value it came from.
pub proof fn lemma_dec_digits_of(n: int)
    requires
        n >= 0,
    ensures
        dec_digits_of(n).len() >= 1,
        all_digits(dec_digits_of(n)),
        n >= 1 ==> dec_digits_of(n)[0] != '0',
        n == 0 ==> dec_digits_of(n) == seq![digit_char(0)],
        digits_val(dec_digits_of(n)) == n,
    decreases n,
{
    if n < 10 {
        assert(dec_digits_of(n) =~= seq![digit_char(n)]);
        assert(dec_digits_of(n).drop_last() =~= Seq::<char>::empty());
        assert(digit_val(digit_char(n)) == n);
        assert(digits_val(dec_digits_of(n)) == digits_val(Seq::<char>::empty()) * 10
            + digit_val(digit_char(n)));
    } else {
        lemma_dec_digits_of(n / 10);
        let pre = dec_digits_of(n / 10);
        let whole = pre.push(digit_char(n % 10));
        assert(whole.drop_last() =~= pre);
        assert(whole.last() == digit_char(n % 10));
        assert(0 <= n % 10 < 10);
        assert(digit_val(digit_char(n % 10)) == n % 10);
        assert(digits_val(whole) == (n / 10) * 10 + n % 10);
        assert((n / 10) * 10 + n % 10 == n) by (nonlinear_arith)
            requires n >= 0;
        assert(n / 10 >= 1);
    }
}

/// A digit string's value only grows as more digits are appended.
pub proof fn lemma_digits_val_grows(s: Seq<char>, j: int)
    requires
        0 <= j <= s.len(),
        digits_val(s.take(j)) >= 0,
        forall|k: int| j <= k < s.len() ==> is_digit(#[trigger] s[k]),
    ensures
        digits_val(s) >= digits_val(s.take(j)),
        digits_val(s) >= 0,
    decreases s.len() - j,
{
    if j == s.len() {
        assert(s.take(j) =~= s);
    } else {
        assert(s.take(j + 1).drop_last() =~= s.take(j));
        assert(s.take(j + 1).last() == s[j]);
        assert(is_digit(s[j]));
        assert(digit_val(s[j]) >= 0);
        assert(digits_val(s.take(j + 1)) == digits_val(s.take(j)) * 10 + digit_val(s[j]));
        assert(digits_val(s.take(j)) * 10 >= digits_val(s.take(j)));
        lemma_digits_val_grows(s, j + 1);
    }
}

/// Value of the digit run `s[from..]`, when it is non-empty, all digits, and
/// fits a `u64`.
pub open spec fn digits_to_u64(t: Seq<char>) -> Option<u64> {
    if t.len() >= 1 && all_digits(t) && digits_val(t) <= u64::MAX {
        Some(digits_val(t) as u64)
    } else {
        None
    }
}

/// Parse the digit run `s[from..]` as an unsigned 64-bit value.
pub fn parse_digit_run(s: &str, from: usize) -> (r: Option<u64>)
    requires
        from <= s@.len(),
    ensures
        r == digits_to_u64(s@.subrange(from as int, s@.len() as int)),
{
    let slen = s.unicode_len();
    let ghost t = s@.subrange(from as int, slen as int);
    if from >= slen {
        return None;
    }
    let mut acc: u64 = 0;
    let mut i: usize = from;
    while i < slen
        invariant
            from <= i <= slen,
            slen == s@.len(),
            t == s@.subrange(from as int, slen as int),
            acc == digits_val(t.take(i - from)),
            forall|k: int| 0 <= k < i - from ==> is_digit(#[trigger] t[k]),
        decreases slen - i,
    {
        let c = s.get_char(i);
        let d: u64 = if c == '0' {
            0
        } else if c == '1' {
            1
        } else if c == '2' {
            2
        } else if c == '3' {
            3
        } else if c == '4' {
            4
        } else if c == '5' {
            5
        } else if c == '6' {
            6
        } else if c == '7' {
            7
        } else if c == '8' {
            8
        } else if c == '9' {
            9
        } else {
            proof {
                assert(t[i - from] == c);
                assert(!is_digit(c));
            }
            return None;
        };
        proof {
            assert(t[i - from] == c);
            assert(is_digit(c) && digit_val(c) == d);
            assert(t.take(i - from + 1).drop_last() =~= t.take(i - from));
            assert(t.take(i - from + 1).last() == c);
        }
        if acc > (u64::MAX - d) / 10 {
            proof {
                let v = digits_val(t.take(i - from + 1));
                assert(v == acc * 10 + d);
                assert(acc * 10 + d > u64::MAX) by (nonlinear_arith)
                    requires acc > (u64::MAX - d) / 10, 0 <= d <= 9, acc >= 0;
                if all_digits(t) {
                    lemma_digits_val_grows(t, i - from + 1);
                    assert(digits_val(t) >= v);
                }
            }
            return None;
        }
        proof {
            assert(acc * 10 + d <= u64::MAX) by (nonlinear_arith)
                requires acc <= (u64::MAX - d) / 10, 0 <= d <= 9, acc >= 0;
        }
        acc = acc * 10 + d;
        i += 1;
    }
    proof {
        assert(t.take(slen - from) =~= t);
    }
    Some(acc)
}

/// Render `n` in decimal.
pub fn u64_to_string(n: u64) -> (r: String)
    ensures
        r@ == dec_digits_of(n as int),
    decreases n,
{
    if n < 10 {
        digit_to_string(n)
    } else {
        let mut r = u64_to_string(n / 10);
        let d = digit_to_string(n % 10);
        r.append(d.as_str());
        proof {
            assert(r@ =~= dec_digits_of((n / 10) as int).push(digit_char((n % 10) as int)));
        }
        r
    }
}

fn digit_to_string(d: u64) -> (r: String)
    requires
        d < 10,
    ensures
        r@ == seq![digit_char(d as int)],
{
    let r = if d == 0 {
        proof { reveal_strlit("0"); }
        String::from_str("0")
    } else if d == 1 {
        proof { reveal_strlit("1"); }
        String::from_str("1")
    } else if d == 2 {
        proof { reveal_strlit("2"); }
        String::from_str("2")
    } else if d == 3 {
        proof { reveal_strlit("3"); }
        String::from_str("3")
    } else if d == 4 {
        proof { reveal_strlit("4"); }
        String::from_str("4")
    } else if d == 5 {
        proof { reveal_strlit("5"); }
        String::from_str("5")
    } else if d == 6 {
        proof { reveal_strlit("6"); }
        String::from_str("6")
    } else if d == 7 {
        proof { reveal_strlit("7"); }
        String::from_str("7")
    } else if d == 8 {
        proof { reveal_strlit("8"); }
        String::from_str("8")
    } else {
        proof { reveal_strlit("9"); }
        String::from_str("9")
    };
    proof {
        assert(r@ =~= seq![digit_char(d as int)]);
    }
    r
}

/// A canonical decimal `u64`: digits only, no leading zero, value in range.
pub open spec fn parse_u64_strict(t: Seq<char>) -> Option<u64> {
    if t.len() >= 1 && (t[0] != '0' || t.len() == 1) {
        digits_to_u64(t)
    } else {
        None
    }
}

/// Parse a whole string as a canonical decimal `u64`.
pub fn parse_u64_strict_str(s: &str) -> (r: Option<u64>)
    ensures
        r == parse_u64_strict(s@),
{
    let slen = s.unicode_len();
    if slen == 0 {
        return None;
    }
    if slen > 1 && s.get_char(0) == '0' {
        return None;
    }
    proof {
        assert(s@.subrange(0, slen as int) =~= s@);
    }
    parse_digit_run(s, 0)
}

/// A decimal `u64` as `str::parse` accepts it: an optional leading `+`,
/// then digits, value in range.
pub open spec fn parse_u64_lenient(t: Seq<char>) -> Option<u64> {
    if t.len() >= 1 && t[0] == '+' {
        digits_to_u64(t.subrange(1, t.len() as int))
    } else {
        digits_to_u64(t)
    }
}

/// Parse a whole string as `str::parse::<u64>` would.
pub fn parse_u64_lenient_str(s: &str) -> (r: Option<u64>)
    ensures
        r == parse_u64_lenient(s@),
{
    let slen = s.unicode_len();
    if slen >= 1 && s.get_char(0) == '+' {
        parse_digit_run(s, 1)
    } else {
        proof {
            assert(s@.subrange(0, slen as int) =~= s@);
        }
        parse_digit_run(s, 0)
    }
}

/// The whitespace characters that trimming and tokenizing recognise.
pub open spec fn is_space(c: char) -> bool {
    c == ' ' || c == '\t' || c == '\n' || c == '\r'
}

/// First index at or after `i` holding a non-space character, or the length.
pub open spec fn skip_spaces(s: Seq<char>, i: int) -> int
    decreases s.len() - i,
{
    if i < 0 || i >= s.len() {
        s.len() as int
    } else if is_space(s[i]) {
        skip_spaces(s, i + 1)
    } else {
        i
    }
}

/// First index at or after `i` holding a space, or the length.
pub open spec fn skip_token(s: Seq<char>, i: int) -> int
    decreases s.len() - i,
{
    if i < 0 || i >= s.len() {
        s.len() as int
    } else if is_space(s[i]) {
        i
    } else {
        skip_token(s, i + 1)
    }
}

/// One past the last non-space character strictly before `i`, or 0.
pub open spec fn rskip_spaces(s: Seq<char>, i: int) -> int
    decreases i,
{
    if i <= 0 || i > s.len() {
        0
    } else if is_space(s[i - 1]) {
        rskip_spaces(s, i - 1)
    } else {
        i
    }
}

/// `s` with leading and trailing whitespace removed.
pub open spec fn trimmed(s: Seq<char>) -> Seq<char> {
    let a = skip_spaces(s, 0);
    let b = rskip_spaces(s, s.len() as int);
    if a < b {
        s.subrange(a, b)
    } else {
        Seq::empty()
    }
}

pub proof fn lemma_skip_spaces_is(s: Seq<char>, i: int, k: int)
    requires
        0 <= i <= k <= s.len(),
        forall|j: int| i <= j < k ==> is_space(#[trigger] s[j]),
        k < s.len() ==> !is_space(s[k]),
    ensures
        skip_spaces(s, i) == k,
    decreases k - i,
{
    if i < k {
        lemma_skip_spaces_is(s, i + 1, k);
    }
}

pub proof fn lemma_skip_token_is(s: Seq<char>, i: int, k: int)
    requires
        0 <= i <= k <= s.len(),
        forall|j: int| i <= j < k ==> !is_space(#[trigger] s[j]),
        k < s.len() ==> is_space(s[k]),
    ensures
        skip_token(s, i) == k,
    decreases k - i,
{
    if i < k {
        lemma_skip_token_is(s, i + 1, k);
    }
}

pub proof fn lemma_rskip_spaces_is(s: Seq<char>, i: int, k: int)
    requires
        0 <= k <= i <= s.len(),
        forall|j: int| k <= j < i ==> is_space(#[trigger] s[j]),
        k > 0 ==> !is_space(s[k - 1]),
    ensures
        rskip_spaces(s, i) == k,
    decreases i - k,
{
    if k < i {
        lemma_rskip_spaces_is(s, i - 1, k);
    }
}

/// Remove leading and trailing whitespace, as the spec-level `trimmed` does.
pub fn trim_str(s: &str) -> (r: String)
    ensures
        r@ == trimmed(s@),
{
    let slen = s.unicode_len();
    let mut a: usize = 0;
    while a < slen && is_space_exec(s.get_char(a))
        invariant
            a <= slen,
            slen == s@.len(),
            forall|j: int| 0 <= j < a ==> is_space(#[trigger] s@[j]),
        decreases slen - a,
    {
        a += 1;
    }
    proof {
        lemma_skip_spaces_is(s@, 0, a as int);
    }
    let mut b: usize = slen;
    while b > 0 && is_space_exec(s.get_char(b - 1))
        invariant
            b <= slen,
            slen == s@.len(),
            forall|j: int| b <= j < slen ==> is_space(#[trigger] s@[j]),
        decreases b,
    {
        b -= 1;
    }
    proof {
        lemma_rskip_spaces_is(s@, slen as int, b as int);
    }
    if a < b {
        String::from_str(s.substring_char(a, b))
    } else {
        String::new()
    }
}

/// Executable test for the whitespace characters of `is_space`.
pub fn is_space_exec(c: char) -> (r: bool)
    ensures
        r == is_space(c),
{
    c == ' ' || c == '\t' || c == '\n' || c == '\r'
}

/// Whether `s` holds any non-space character.
pub open spec fn has_token(s: Seq<char>) -> bool {
    skip_spaces(s, 0) < s.len()
}

/// The first whitespace-separated token of `s`, empty when there is none.
pub open spec fn first_token(s: Seq<char>) -> Seq<char> {
    let a = skip_spaces(s, 0);
    s.subrange(a, skip_token(s, a))
}

/// First whitespace-separated token, if any.
pub fn first_token_str(s: &str) -> (r: Option<String>)
    ensures
        match r {
            Some(t) => has_token(s@) && t@ == first_token(s@),
            None => !has_token(s@),
        },
{
    let slen = s.unicode_len();
    let mut a: usize = 0;
    while a < slen && is_space_exec(s.get_char(a))
        invariant
            a <= slen,
            slen == s@.len(),
            forall|j: int| 0 <= j < a ==> is_space(#[trigger] s@[j]),
        decreases slen - a,
    {
        a += 1;
    }
    proof {
        lemma_skip_spaces_is(s@, 0, a as int);
    }
    if a >= slen {
        return None;
    }
    let mut b: usize = a;
    while b < slen && !is_space_exec(s.get_char(b))
        invariant
            a <= b <= slen,
            slen == s@.len(),
            forall|j: int| a <= j < b ==> !is_space(#[trigger] s@[j]),
        decreases slen - b,
    {
        b += 1;
    }
    proof {
        lemma_skip_token_is(s@, a as int, b as int);
    }
    Some(String::from_str(s.substring_char(a, b)))
}

/// `s` with every occurrence of `c` removed.
pub open spec fn remove_char(s: Seq<char>, c: char) -> Seq<char>
    decreases s.len(),
{
    if s.len() == 0 {
        s
    } else if s.last() == c {
        remove_char(s.drop_last(), c)
    } else {
        remove_char(s.drop_last(), c).push(s.last())
    }
}

/// `s` with every occurrence of `from` replaced by `to`.
pub open spec fn replace_char(s: Seq<char>, from: char, to: char) -> Seq<char>
    decreases s.len(),
{
    if s.len() == 0 {
        s
    } else {
        replace_char(s.drop_last(), from, to).push(
            if s.last() == from {
                to
            } else {
                s.last()
            },
        )
    }
}

/// Remove every single-quote character, as `str::replace("'", "")` does.
pub fn remove_quotes(s: &str) -> (r: String)
    ensures
        r@ == remove_char(s@, '\''),
{
    let slen = s.unicode_len();
    let mut r = String::new();
    let mut i: usize = 0;
    while i < slen
        invariant
            i <= slen,
            slen == s@.len(),
            r@ == remove_char(s@.take(i as int), '\''),
        decreases slen - i,
    {
        let c = s.get_char(i);
        proof {
            assert(s@.take(i + 1 as int).drop_last() =~= s@.take(i as int));
            assert(s@.take(i + 1 as int).last() == s@[i as int]);
        }
        if c != '\'' {
            let piece = s.substring_char(i, i + 1);
            r.append(piece);
            proof {
                assert(piece@ =~= seq![s@[i as int]]);
                assert(r@ =~= remove_char(s@.take(i as int), '\'').push(s@[i as int]));
            }
        }
        i += 1;
    }
    proof {
        assert(s@.take(slen as int) =~= s@);
    }
    r
}

/// Replace every `/` with `_`, as `str::replace("/", "_")` does.
pub fn slashes_to_underscores(s: &str) -> (r: String)
    ensures
        r@ == replace_char(s@, '/', '_'),
{
    let slen = s.unicode_len();
    let mut r = String::new();
    let mut i: usize = 0;
    while i < slen
        invariant
            i <= slen,
            slen == s@.len(),
            r@ == replace_char(s@.take(i as int), '/', '_'),
        decreases slen - i,
    {
        let c = s.get_char(i);
        proof {
            assert(s@.take(i + 1 as int).drop_last() =~= s@.take(i as int));
            assert(s@.take(i + 1 as int).last() == s@[i as int]);
        }
        if c == '/' {
            proof {
                reveal_strlit("_");
            }
            r.append("_");
            proof {
                assert("_"@ =~= seq!['_']);
                assert(r@ =~= replace_char(s@.take(i as int), '/', '_').push('_'));
            }
        } else {
            let piece = s.substring_char(i, i + 1);
            r.append(piece);
            proof {
                assert(piece@ =~= seq![s@[i as int]]);
                assert(r@ =~= replace_char(s@.take(i as int), '/', '_').push(s@[i as int]));
            }
        }
        i += 1;
    }
    proof {
        assert(s@.take(slen as int) =~= s@);
    }
    r
}

} // verus!
