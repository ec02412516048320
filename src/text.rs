//! Text primitives: case folding, substring search and lexicographic order
//! over Unicode scalar values.
use vstd::prelude::*;

verus! {

/// What `str::to_lowercase` makes of a string of characters.
pub uninterp spec fn lower_of(s: Seq<char>) -> Seq<char>;

/// Relies on `str::to_lowercase`: the result is a function of the characters
/// alone, and the empty string stays empty.
#[verifier::external_body]
pub(crate) fn lowercase(s: &str) -> (r: String)
    ensures
        r@ == lower_of(s@),
        s@.len() == 0 ==> r@.len() == 0,
{
    s.to_lowercase()
}

/// `needle` occurs as a contiguous run of characters inside `hay`.
pub open spec fn is_infix(needle: Seq<char>, hay: Seq<char>) -> bool {
    exists|i: int|
        0 <= i && i + needle.len() <= hay.len() && #[trigger] hay.subrange(i, i + needle.len())
            == needle
}

/// The empty sequence occurs in every sequence.
pub proof fn lemma_empty_is_infix(needle: Seq<char>, hay: Seq<char>)
    requires
        needle.len() == 0,
    ensures
        is_infix(needle, hay),
{
    assert(hay.subrange(0, 0 + needle.len() as int) =~= needle);
}

/// Relies on `str::contains` with a `&str` pattern: true exactly when the
/// pattern matches a sub-slice of the string.
#[verifier::external_body]
pub(crate) fn str_contains(hay: &str, needle: &str) -> (r: bool)
    ensures
        r == is_infix(needle@, hay@),
{
    hay.contains(needle)
}

/// The characters of a string, in order.
pub fn char_vec(s: &str) -> (r: Vec<char>)
    ensures
        r@ == s@,
{
    let mut r: Vec<char> = Vec::new();
    for c in it: s.chars()
        invariant
            it.seq() == s@,
            r@ == it.seq().take(it.index() as int),
    {
        r.push(c);
    }
    r
}

/// Three-way lexicographic comparison of `a` and `b` from position `i` on:
/// negative when `a` orders first, zero when equal, positive otherwise.
/// Characters compare by scalar value, so this is also UTF-8 byte order.
pub open spec fn lex_cmp_from(a: Seq<char>, b: Seq<char>, i: int) -> int
    decreases a.len() - i,
{
    if i >= a.len() {
        if i >= b.len() {
            0
        } else {
            -1
        }
    } else if i >= b.len() {
        1
    } else if a[i] != b[i] {
        if a[i] < b[i] {
            -1
        } else {
            1
        }
    } else {
        lex_cmp_from(a, b, i + 1)
    }
}

pub open spec fn lex_cmp(a: Seq<char>, b: Seq<char>) -> int {
    lex_cmp_from(a, b, 0)
}

/// `a` orders no later than `b` in lexicographic order.
pub open spec fn lex_le(a: Seq<char>, b: Seq<char>) -> bool {
    lex_cmp(a, b) <= 0
}

proof fn lemma_lex_cmp_from_antisym(a: Seq<char>, b: Seq<char>, i: int)
    requires
        0 <= i,
    ensures
        lex_cmp_from(a, b, i) == -lex_cmp_from(b, a, i),
    decreases a.len() - i,
{
    if i < a.len() && i < b.len() && a[i] == b[i] {
        lemma_lex_cmp_from_antisym(a, b, i + 1);
    }
}

proof fn lemma_lex_cmp_from_trans(a: Seq<char>, b: Seq<char>, c: Seq<char>, i: int)
    requires
        0 <= i,
        lex_cmp_from(a, b, i) <= 0,
        lex_cmp_from(b, c, i) <= 0,
    ensures
        lex_cmp_from(a, c, i) <= 0,
    decreases a.len() - i,
{
    if i < a.len() && i < b.len() && i < c.len() && a[i] == b[i] && b[i] == c[i] {
        lemma_lex_cmp_from_trans(a, b, c, i + 1);
    }
}

proof fn lemma_lex_cmp_from_refl(a: Seq<char>, i: int)
    requires
        0 <= i,
    ensures
        lex_cmp_from(a, a, i) == 0,
    decreases a.len() - i,
{
    if i < a.len() {
        lemma_lex_cmp_from_refl(a, i + 1);
    }
}

/// Lexicographic order is total.
pub proof fn lemma_lex_le_total(a: Seq<char>, b: Seq<char>)
    ensures
        lex_le(a, b) || lex_le(b, a),
{
    lemma_lex_cmp_from_antisym(a, b, 0);
}

/// Lexicographic order is transitive.
pub proof fn lemma_lex_le_trans(a: Seq<char>, b: Seq<char>, c: Seq<char>)
    requires
        lex_le(a, b),
        lex_le(b, c),
    ensures
        lex_le(a, c),
{
    lemma_lex_cmp_from_trans(a, b, c, 0);
}

/// Lexicographic order is reflexive.
pub proof fn lemma_lex_le_refl(a: Seq<char>)
    ensures
        lex_le(a, a),
{
    lemma_lex_cmp_from_refl(a, 0);
}

/// Whether `a` orders no later than `b` lexicographically.
pub fn chars_le(a: &Vec<char>, b: &Vec<char>) -> (r: bool)
    ensures
        r == lex_le(a@, b@),
{
    let mut i: usize = 0;
    while i < a.len() && i < b.len()
        invariant
            i <= a.len(),
            i <= b.len(),
            lex_cmp(a@, b@) == lex_cmp_from(a@, b@, i as int),
        decreases a.len() - i,
    {
        if a[i] != b[i] {
            return a[i] < b[i];
        }
        i = i + 1;
    }
    i == a.len()
}

} // verus!
