//! Case-insensitive ordering of names.
//!
//! Names are compared by their lowercase form, character by character, in
//! the order of the Unicode code points.

use vstd::prelude::*;

verus! {

/// The lowercase form of a string, as `str::to_lowercase` computes it.
///
/// The mapping follows the Unicode case tables; nothing is claimed of it here
/// beyond its being a function of the characters alone.
pub uninterp spec fn lowercase_of(s: Seq<char>) -> Seq<char>;

/// `str::to_lowercase` returns the lowercase form of its argument. The
/// conversion depends on the characters only, not on a locale.
pub assume_specification[ str::to_lowercase ](s: &str) -> (lower: String)
    ensures
        lower@ == lowercase_of(s@),
;

/// `a` comes no later than `b` in the lexicographic order: a proper prefix
/// comes first, and otherwise the first differing character decides.
pub open spec fn lex_le(a: Seq<char>, b: Seq<char>) -> bool
    decreases a.len(),
{
    if a.len() == 0 {
        true
    } else if b.len() == 0 {
        false
    } else if a[0] == b[0] {
        lex_le(a.drop_first(), b.drop_first())
    } else {
        a[0] < b[0]
    }
}

/// The key by which a name is ordered.
pub open spec fn sort_key(name: Seq<char>) -> Seq<char> {
    lowercase_of(name)
}

/// `a` is ordered no later than `b` when case is ignored.
pub open spec fn name_le(a: Seq<char>, b: Seq<char>) -> bool {
    lex_le(sort_key(a), sort_key(b))
}

/// Every sequence is ordered no later than itself.
pub proof fn lemma_lex_le_reflexive(a: Seq<char>)
    ensures
        lex_le(a, a),
    decreases a.len(),
{
    if a.len() > 0 {
        lemma_lex_le_reflexive(a.drop_first());
    }
}

/// Any two sequences are comparable.
pub proof fn lemma_lex_le_total(a: Seq<char>, b: Seq<char>)
    ensures
        lex_le(a, b) || lex_le(b, a),
    decreases a.len(),
{
    if a.len() > 0 && b.len() > 0 && a[0] == b[0] {
        lemma_lex_le_total(a.drop_first(), b.drop_first());
    }
}

/// The order is transitive.
pub proof fn lemma_lex_le_transitive(a: Seq<char>, b: Seq<char>, c: Seq<char>)
    requires
        lex_le(a, b),
        lex_le(b, c),
    ensures
        lex_le(a, c),
    decreases a.len(),
{
    if a.len() > 0 && b.len() > 0 && c.len() > 0 && a[0] == b[0] && b[0] == c[0] {
        lemma_lex_le_transitive(a.drop_first(), b.drop_first(), c.drop_first());
    }
}

/// Two sequences that are each ordered no later than the other are equal.
pub proof fn lemma_lex_le_antisymmetric(a: Seq<char>, b: Seq<char>)
    requires
        lex_le(a, b),
        lex_le(b, a),
    ensures
        a == b,
    decreases a.len(),
{
    if a.len() > 0 && b.len() > 0 {
        lemma_lex_le_antisymmetric(a.drop_first(), b.drop_first());
        assert(a =~= seq![a[0]] + a.drop_first());
        assert(b =~= seq![b[0]] + b.drop_first());
    } else {
        assert(a =~= b);
    }
}

/// `a` and `b` hold the same characters at their first `k` places.
pub open spec fn agree_before(a: Seq<char>, b: Seq<char>, k: int) -> bool {
    forall|i: int| 0 <= i < k ==> a[i] == b[i]
}

/// `a` holds the smaller character at place `k`, the first place at which
/// `a` and `b` differ.
pub open spec fn smaller_at(a: Seq<char>, b: Seq<char>, k: int) -> bool {
    &&& 0 <= k < a.len()
    &&& k < b.len()
    &&& agree_before(a, b, k)
    &&& a[k] < b[k]
}

/// The order said without recursion: `a` comes no later than `b` exactly
/// when `a` is a prefix of `b`, or holds the smaller character at the first
/// place at which the two differ.
pub proof fn lemma_lex_le_by_first_difference(a: Seq<char>, b: Seq<char>)
    ensures
        lex_le(a, b) <==> (a.len() <= b.len() && agree_before(a, b, a.len() as int)) || exists|
            k: int,
        | smaller_at(a, b, k),
    decreases a.len(),
{
    if a.len() > 0 && b.len() > 0 {
        let ta = a.drop_first();
        let tb = b.drop_first();
        if a[0] == b[0] {
            lemma_lex_le_by_first_difference(ta, tb);
            if ta.len() <= tb.len() && agree_before(ta, tb, ta.len() as int) {
                assert forall|i: int| 0 <= i < a.len() implies a[i] == b[i] by {
                    if i > 0 {
                        assert(ta[i - 1] == tb[i - 1]);
                    }
                }
            }
            if a.len() <= b.len() && agree_before(a, b, a.len() as int) {
                assert forall|i: int| 0 <= i < ta.len() implies ta[i] == tb[i] by {
                    assert(a[i + 1] == b[i + 1]);
                }
            }
            if exists|k: int| smaller_at(ta, tb, k) {
                let k = choose|k: int| smaller_at(ta, tb, k);
                assert forall|i: int| 0 <= i < k + 1 implies a[i] == b[i] by {
                    if i > 0 {
                        assert(ta[i - 1] == tb[i - 1]);
                    }
                }
                assert(smaller_at(a, b, k + 1));
            }
            if exists|k: int| smaller_at(a, b, k) {
                let k = choose|k: int| smaller_at(a, b, k);
                assert forall|i: int| 0 <= i < k - 1 implies ta[i] == tb[i] by {
                    assert(a[i + 1] == b[i + 1]);
                }
                assert(smaller_at(ta, tb, k - 1));
            }
        } else {
            if a[0] < b[0] {
                assert(smaller_at(a, b, 0));
            }
            if exists|k: int| smaller_at(a, b, k) {
                let k = choose|k: int| smaller_at(a, b, k);
                if k > 0 {
                    assert(a[0] == b[0]);
                }
            }
            if a.len() <= b.len() && agree_before(a, b, a.len() as int) {
                assert(a[0] == b[0]);
            }
        }
    } else if a.len() > 0 {
        assert forall|k: int| !smaller_at(a, b, k) by {}
    } else {
        assert(agree_before(a, b, 0));
    }
}

/// The characters of a string, in order.
pub fn chars_of(s: &str) -> (chars: Vec<char>)
    ensures
        chars@ == s@,
{
    let mut chars: Vec<char> = Vec::new();
    for c in it: s.chars()
        invariant
            chars@ == it.seq().take(it.index() as int),
            it.seq() == s@,
    {
        chars.push(c);
    }
    chars
}

/// Computes the key by which `name` is ordered.
pub fn key_of(name: &String) -> (key: Vec<char>)
    ensures
        key@ == sort_key(name@),
{
    let lower = name.as_str().to_lowercase();
    chars_of(lower.as_str())
}

/// Decides the lexicographic order of two character sequences.
pub fn chars_le(a: &Vec<char>, b: &Vec<char>) -> (le: bool)
    ensures
        le == lex_le(a@, b@),
{
    let mut i: usize = 0;
    proof {
        assert(a@.skip(0) =~= a@);
        assert(b@.skip(0) =~= b@);
    }
    while i < a.len() && i < b.len()
        invariant
            i <= a.len(),
            i <= b.len(),
            lex_le(a@, b@) == lex_le(a@.skip(i as int), b@.skip(i as int)),
        decreases a.len() - i,
    {
        proof {
            assert(a@.skip(i as int).drop_first() =~= a@.skip(i + 1));
            assert(b@.skip(i as int).drop_first() =~= b@.skip(i + 1));
        }
        if a[i] != b[i] {
            return a[i] < b[i];
        }
        i += 1;
    }
    a.len() <= b.len()
}

} // verus!
