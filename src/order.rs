//! Lexicographic order of texts, as std orders `str`: by code point, a proper prefix
//! first.

use vstd::prelude::*;
use vstd::utf8::char_u32_cast;

verus! {

/// Whether text `a` comes strictly before text `b`.
pub open spec fn text_before(a: Seq<char>, b: Seq<char>) -> bool
    decreases a.len(),
{
    if a.len() == 0 {
        b.len() > 0
    } else if b.len() == 0 {
        false
    } else if a[0] != b[0] {
        (a[0] as u32) < (b[0] as u32)
    } else {
        text_before(a.skip(1), b.skip(1))
    }
}

/// No text comes before itself.
pub proof fn lemma_text_irreflexive(a: Seq<char>)
    ensures
        !text_before(a, a),
    decreases a.len(),
{
    if a.len() > 0 {
        lemma_text_irreflexive(a.skip(1));
    }
}

/// Of two different texts, exactly one comes before the other.
pub proof fn lemma_text_total(a: Seq<char>, b: Seq<char>)
    ensures
        a != b ==> (text_before(a, b) || text_before(b, a)),
        !(text_before(a, b) && text_before(b, a)),
    decreases a.len(),
{
    if a.len() > 0 && b.len() > 0 {
        if a[0] == b[0] {
            lemma_text_total(a.skip(1), b.skip(1));
            if a != b {
                assert(a.skip(1) != b.skip(1)) by {
                    if a.skip(1) == b.skip(1) {
                        assert(a =~= seq![a[0]] + a.skip(1));
                        assert(b =~= seq![b[0]] + b.skip(1));
                    }
                }
            }
        } else {
            let x = a[0] as u32;
            let y = b[0] as u32;
            assert(x != y) by {
                char_u32_cast(a[0], x);
                char_u32_cast(b[0], y);
            }
        }
    } else if a.len() == 0 && b.len() == 0 {
        assert(a =~= b);
    }
}

/// The order is transitive.
pub proof fn lemma_text_transitive(a: Seq<char>, b: Seq<char>, c: Seq<char>)
    requires
        text_before(a, b),
        text_before(b, c),
    ensures
        text_before(a, c),
    decreases a.len(),
{
    if a.len() > 0 && b.len() > 0 && c.len() > 0 {
        if a[0] == b[0] && b[0] == c[0] {
            lemma_text_transitive(a.skip(1), b.skip(1), c.skip(1));
        }
    }
}

/// Whether text `a` comes strictly before text `b`.
pub fn text_precedes(a: &str, b: &str) -> (r: bool)
    ensures
        r == text_before(a@, b@),
{
    let la = a.unicode_len();
    let lb = b.unicode_len();
    let mut i: usize = 0;
    proof {
        assert(a@.skip(0) =~= a@);
        assert(b@.skip(0) =~= b@);
    }
    while i < la && i < lb
        invariant
            la == a@.len(),
            lb == b@.len(),
            i <= la,
            i <= lb,
            text_before(a@, b@) == text_before(a@.skip(i as int), b@.skip(i as int)),
        decreases la - i,
    {
        let x = a.get_char(i);
        let y = b.get_char(i);
        if x != y {
            return (x as u32) < (y as u32);
        }
        proof {
            assert(a@.skip(i as int).skip(1) =~= a@.skip(i + 1));
            assert(b@.skip(i as int).skip(1) =~= b@.skip(i + 1));
        }
        i = i + 1;
    }
    i < lb && i == la
}

/// Whether the entry named `n1` with id `i1` ranks before the one named `n2` with id
/// `i2`: by name, and by id where the names are equal.
pub open spec fn ranked_before(n1: Seq<char>, i1: i32, n2: Seq<char>, i2: i32) -> bool {
    text_before(n1, n2) || (n1 == n2 && i1 < i2)
}

/// Of two entries with different ids, exactly one ranks before the other.
pub proof fn lemma_ranked_total(n1: Seq<char>, i1: i32, n2: Seq<char>, i2: i32)
    ensures
        i1 != i2 ==> (ranked_before(n1, i1, n2, i2) || ranked_before(n2, i2, n1, i1)),
        !(ranked_before(n1, i1, n2, i2) && ranked_before(n2, i2, n1, i1)),
        !ranked_before(n1, i1, n1, i1),
{
    lemma_text_total(n1, n2);
    lemma_text_irreflexive(n1);
    lemma_text_irreflexive(n2);
}

/// The ranking is transitive.
pub proof fn lemma_ranked_transitive(
    n1: Seq<char>,
    i1: i32,
    n2: Seq<char>,
    i2: i32,
    n3: Seq<char>,
    i3: i32,
)
    requires
        ranked_before(n1, i1, n2, i2),
        ranked_before(n2, i2, n3, i3),
    ensures
        ranked_before(n1, i1, n3, i3),
{
    if text_before(n1, n2) && text_before(n2, n3) {
        lemma_text_transitive(n1, n2, n3);
    }
}

/// Whether the entry named `n1` with id `i1` ranks before the one named `n2` with id
/// `i2`.
pub fn ranked_precedes(n1: &String, i1: i32, n2: &String, i2: i32) -> (r: bool)
    ensures
        r == ranked_before(n1@, i1, n2@, i2),
{
    if text_precedes(n1.as_str(), n2.as_str()) {
        true
    } else {
        *n1 == *n2 && i1 < i2
    }
}

} // verus!
