//! Symmetry classification of a Matrix Market header line.

use vstd::prelude::*;

verus! {

/// Symmetry classification extracted from a Matrix Market header.
#[derive(Debug, Clone, Copy, PartialEq, Eq, Structural)]
pub enum Symmetry {
    General,
    Symmetric,
    Skew,
}

/// `s` begins with `prefix`.
pub open spec fn has_prefix(s: Seq<char>, prefix: Seq<char>) -> bool {
    prefix.len() <= s.len() && s.subrange(0, prefix.len() as int) == prefix
}

/// `s` holds `pat` as a contiguous piece starting at some position.
pub open spec fn has_infix(s: Seq<char>, pat: Seq<char>) -> bool {
    exists|i: int|
        0 <= i && i + pat.len() <= s.len() && #[trigger] s.subrange(i, i + pat.len()) == pat
}

/// Does `s` hold `pat` starting at position `at`? Compares char by char.
fn matches_at(s: &str, pat: &str, at: usize) -> (res: bool)
    requires
        at + pat@.len() <= s@.len(),
        s@.len() <= usize::MAX,
    ensures
        res == (s@.subrange(at as int, at + pat@.len()) == pat@),
{
    let n = pat.unicode_len();
    let mut j: usize = 0;
    while j < n
        invariant
            n == pat@.len(),
            at + n <= s@.len(),
            s@.len() <= usize::MAX,
            j <= n,
            forall|q: int| 0 <= q < j ==> s@[at + q] == pat@[q],
        decreases n - j,
    {
        if s.get_char(at + j) != pat.get_char(j) {
            assert(s@.subrange(at as int, at + pat@.len())[j as int] != pat@[j as int]);
            return false;
        }
        j = j + 1;
    }
    assert(s@.subrange(at as int, at + pat@.len()) =~= pat@);
    true
}

/// `pat` occurs in `s`. Scans every start position.
fn contains_str(s: &str, pat: &str) -> (res: bool)
    ensures
        res == has_infix(s@, pat@),
{
    let n = s.unicode_len();
    let m = pat.unicode_len();
    if m > n {
        assert(!has_infix(s@, pat@));
        return false;
    }
    let mut i: usize = 0;
    loop
        invariant
            n == s@.len(),
            m == pat@.len(),
            m <= n,
            i <= n - m,
            forall|q: int| 0 <= q < i ==> #[trigger] s@.subrange(q, q + m) != pat@,
        ensures
            forall|q: int| 0 <= q <= n - m ==> #[trigger] s@.subrange(q, q + m) != pat@,
        decreases n - m - i,
    {
        if matches_at(s, pat, i) {
            return true;
        }
        if i == n - m {
            break;
        }
        i = i + 1;
    }
    assert forall|q: int| 0 <= q && q + pat@.len() <= s@.len() implies #[trigger] s@.subrange(
        q,
        q + pat@.len(),
    ) != pat@ by {}
    false
}

/// `s` begins with `pat`.
fn starts_with_str(s: &str, pat: &str) -> (res: bool)
    ensures
        res == has_prefix(s@, pat@),
{
    let n = s.unicode_len();
    let m = pat.unicode_len();
    if m > n {
        return false;
    }
    matches_at(s, pat, 0)
}

/// The symmetry that a header line, already lowercased, declares: a line
/// that is not a Matrix Market banner declares nothing and counts as
/// general; a banner naming `skew-symmetric` is skew; one naming
/// `symmetric` or `hermitian` is symmetric; any other is general.
pub open spec fn header_symmetry(lower: Seq<char>) -> Symmetry {
    if has_prefix(lower, "%%matrixmarket"@) {
        if has_infix(lower, "skew-symmetric"@) {
            Symmetry::Skew
        } else if has_infix(lower, "symmetric"@) || has_infix(lower, "hermitian"@) {
            Symmetry::Symmetric
        } else {
            Symmetry::General
        }
    } else {
        Symmetry::General
    }
}

/// Classifies a lowercased header line.
pub fn classify_header(lower: &str) -> (res: Symmetry)
    ensures
        res == header_symmetry(lower@),
        banner_rules(lower@, res),
{
    proof {
        law_banner_classification(lower@);
    }
    if starts_with_str(lower, "%%matrixmarket") {
        if contains_str(lower, "skew-symmetric") {
            return Symmetry::Skew;
        }
        if contains_str(lower, "symmetric") || contains_str(lower, "hermitian") {
            return Symmetry::Symmetric;
        }
        return Symmetry::General;
    }
    Symmetry::General
}

/// What `str::to_lowercase` returns for a string: its Unicode lowercase
/// mapping, as the standard library defines it.
pub uninterp spec fn lowercase(s: Seq<char>) -> Seq<char>;

/// Calls `str::to_lowercase`. Its result is named `lowercase` of the
/// argument; nothing more of the Unicode mapping is stated.
#[verifier::external_body]
fn to_lowercase(s: &str) -> (res: String)
    ensures
        res@ == lowercase(s@),
{
    s.to_lowercase()
}

/// The symmetry that the first line of a Matrix Market file declares,
/// matched without regard to letter case.
pub fn symmetry_from_header(line: &str) -> (res: Symmetry)
    ensures
        res == header_symmetry(lowercase(line@)),
        banner_rules(lowercase(line@), res),
{
    let lower = to_lowercase(line);
    classify_header(lower.as_str())
}

/// What a classification `res` of the lowercased line `lower` must
/// satisfy, word by word: a line that is no banner is general; a banner
/// naming `skew-symmetric` is skew; otherwise one naming `symmetric` or
/// `hermitian` is symmetric; and a banner naming none of the three is
/// general, whatever else it says (its field word `real`, `integer`,
/// `pattern` or `complex` included). In particular only a banner naming
/// `symmetric` or `hermitian` is ever classified other than general.
pub open spec fn banner_rules(lower: Seq<char>, res: Symmetry) -> bool {
    let banner = has_prefix(lower, "%%matrixmarket"@);
    let skew = has_infix(lower, "skew-symmetric"@);
    let sym = has_infix(lower, "symmetric"@);
    let herm = has_infix(lower, "hermitian"@);
    &&& !banner ==> res == Symmetry::General
    &&& banner && skew ==> res == Symmetry::Skew
    &&& banner && !skew && (sym || herm) ==> res == Symmetry::Symmetric
    &&& banner && !skew && !sym && !herm ==> res == Symmetry::General
    &&& res != Symmetry::General ==> banner && (sym || herm)
}

/// A line holding `skew-symmetric` holds `symmetric`.
proof fn lemma_skew_names_symmetric(lower: Seq<char>)
    requires
        has_infix(lower, "skew-symmetric"@),
    ensures
        has_infix(lower, "symmetric"@),
{
    reveal_strlit("skew-symmetric");
    reveal_strlit("symmetric");
    let i = choose|i: int|
        0 <= i && i + "skew-symmetric"@.len() <= lower.len() && #[trigger] lower.subrange(
            i,
            i + "skew-symmetric"@.len(),
        ) == "skew-symmetric"@;
    let w = lower.subrange(i, i + 14);
    assert(lower.subrange(i + 5, i + 14) =~= "symmetric"@) by {
        assert forall|q: int| 0 <= q < 9 implies lower.subrange(i + 5, i + 14)[q] == "symmetric"@[q] by {
            assert(w[q + 5] == "skew-symmetric"@[q + 5]);
        }
    }
    let j = i + 5;
    assert(0 <= j && j + "symmetric"@.len() <= lower.len());
    assert(lower.subrange(j, j + "symmetric"@.len()) == "symmetric"@);
}

/// The classification of a lowercased header obeys the banner rules: the
/// symmetry is decided by the banner prefix and the words it names, and a
/// banner that names neither `symmetric` nor `hermitian` (nor, thus,
/// `skew-symmetric`) is general.
pub proof fn law_banner_classification(lower: Seq<char>)
    ensures
        banner_rules(lower, header_symmetry(lower)),
{
    if has_infix(lower, "skew-symmetric"@) {
        lemma_skew_names_symmetric(lower);
    }
}

} // verus!
