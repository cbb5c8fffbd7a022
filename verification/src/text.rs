//! String primitives of the standard library that the engine relies on, and
//! the mathematical statements that stand for them in contracts.

use vstd::prelude::*;

verus! {

/// `needle` occurs in `hay` as a contiguous run of characters.
pub open spec fn is_infix(needle: Seq<char>, hay: Seq<char>) -> bool {
    exists|i: int|
        0 <= i && i + needle.len() <= hay.len() && #[trigger] hay.subrange(
            i,
            i + needle.len(),
        ) == needle
}

/// `a` comes at or before `b` in the lexicographic order of code points.
pub open spec fn lex_le(a: Seq<char>, b: Seq<char>) -> bool
    decreases a.len(),
{
    if a.len() == 0 {
        true
    } else if b.len() == 0 {
        false
    } else if a[0] != b[0] {
        (a[0] as u32) < (b[0] as u32)
    } else {
        lex_le(a.drop_first(), b.drop_first())
    }
}

/// The lowercase form of a text, as the standard library computes it.
pub uninterp spec fn lowercase_of(s: Seq<char>) -> Seq<char>;

/// The lines of a text, as the standard library splits it.
pub uninterp spec fn lines_of(s: Seq<char>) -> Seq<Seq<char>>;

/// The views of a sequence of strings.
pub open spec fn names(v: Seq<String>) -> Seq<Seq<char>> {
    Seq::new(v.len(), |i: int| v[i]@)
}

/// Any two texts are comparable.
pub proof fn lemma_lex_le_total(a: Seq<char>, b: Seq<char>)
    ensures
        lex_le(a, b) || lex_le(b, a),
    decreases a.len(),
{
    if a.len() > 0 && b.len() > 0 {
        if a[0] == b[0] {
            lemma_lex_le_total(a.drop_first(), b.drop_first());
        } else {
            vstd::utf8::char_u32_cast(a[0], a[0] as u32);
            vstd::utf8::char_u32_cast(b[0], b[0] as u32);
        }
    }
}

/// The order is transitive.
pub proof fn lemma_lex_le_transitive(a: Seq<char>, b: Seq<char>, c: Seq<char>)
    requires
        lex_le(a, b),
        lex_le(b, c),
    ensures
        lex_le(a, c),
    decreases a.len(),
{
    if a.len() > 0 && b.len() > 0 && c.len() > 0 && a[0] == b[0] && b[0] == c[0] {
        lemma_lex_le_transitive(a.drop_first(), b.drop_first(), c.drop_first());
    }
}

/// Calls `str::to_lowercase`. The result is a function of the text alone
/// (the Unicode lowercase mapping, independent of any locale); the contract
/// gives it the name `lowercase_of` and says nothing more of it.
#[verifier::external_body]
pub(crate) fn to_lowercase(s: &String) -> (r: String)
    ensures
        r@ == lowercase_of(s@),
{
    s.to_lowercase()
}

/// Calls `str::contains` with a string pattern: true exactly when the
/// pattern matches a sub-slice of the text.
#[verifier::external_body]
pub(crate) fn contains_text(hay: &String, needle: &String) -> (r: bool)
    ensures
        r == is_infix(needle@, hay@),
{
    hay.contains(needle.as_str())
}

/// Calls `<=` of `str`, which the standard library documents as the
/// lexicographic order of the byte values, and so of the code points.
#[verifier::external_body]
pub(crate) fn at_or_before(a: &String, b: &String) -> (r: bool)
    ensures
        r == lex_le(a@, b@),
{
    a.as_str() <= b.as_str()
}

/// Calls `str::lines` and collects the lines as owned strings. The result
/// is a function of the text alone; the contract gives it the name
/// `lines_of`.
#[verifier::external_body]
pub(crate) fn split_lines(listing: &String) -> (r: Vec<String>)
    ensures
        names(r@) == lines_of(listing@),
{
    listing.lines().map(String::from).collect()
}

} // verus!
