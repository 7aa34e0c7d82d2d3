//! What holds of the canonical list and of the steps that build it.

use vstd::prelude::*;
use crate::list::{
    all_named, canonical, deduplicated, insert_by_name, is_canonical, is_stable_sort_of, named,
    names_distinguish, no_adjacent_repeats, ordered_by_name, sorted_by_name,
    strictly_ordered_by_name, with_key,
};
use crate::service::ServiceRecordView;
use crate::text::{
    lemma_lex_le_antisymmetric, lemma_lex_le_reflexive, lemma_lex_le_total,
    lemma_lex_le_transitive, name_le, sort_key,
};

verus! {

/// A record occurs in a non-empty sequence when it is the last one or occurs
/// before it.
proof fn lemma_contains_last(s: Seq<ServiceRecordView>, r: ServiceRecordView)
    requires
        s.len() > 0,
    ensures
        s.contains(r) <==> s.drop_last().contains(r) || s.last() == r,
{
    let front = s.drop_last();
    if s.contains(r) {
        let i = choose|i: int| 0 <= i < s.len() && s[i] == r;
        if i < s.len() - 1 {
            assert(front[i] == r);
        }
    }
    if front.contains(r) {
        let i = choose|i: int| 0 <= i < front.len() && front[i] == r;
        assert(s[i] == r);
    }
    if s.last() == r {
        assert(s[s.len() - 1] == r);
    }
}

/// An ordered sequence stays ordered without its last record.
proof fn lemma_ordered_front(s: Seq<ServiceRecordView>)
    requires
        ordered_by_name(s),
        s.len() > 0,
    ensures
        ordered_by_name(s.drop_last()),
{
    let front = s.drop_last();
    assert forall|i: int, j: int| 0 <= i < j < front.len() implies name_le(
        #[trigger] front[i].name,
        #[trigger] front[j].name,
    ) by {
        assert(name_le(s[i].name, s[j].name));
    }
}

/// A strictly ordered sequence stays strictly ordered without its last
/// record, and that record does not occur before its end.
proof fn lemma_strictly_ordered_front(s: Seq<ServiceRecordView>)
    requires
        strictly_ordered_by_name(s),
        s.len() > 0,
    ensures
        strictly_ordered_by_name(s.drop_last()),
        !s.drop_last().contains(s.last()),
{
    let front = s.drop_last();
    assert forall|i: int, j: int| 0 <= i < j < front.len() implies name_le(
        #[trigger] front[i].name,
        #[trigger] front[j].name,
    ) && !name_le(front[j].name, front[i].name) by {
        assert(name_le(s[i].name, s[j].name) && !name_le(s[j].name, s[i].name));
    }
    if front.contains(s.last()) {
        let k = choose|k: int| 0 <= k < front.len() && front[k] == s.last();
        lemma_lex_le_reflexive(sort_key(s.last().name));
        assert(!name_le(s[s.len() - 1].name, s[k].name));
    }
}

/// `named` keeps exactly the records that carry a name.
pub proof fn lemma_named(s: Seq<ServiceRecordView>)
    ensures
        all_named(named(s)),
        named(s).len() <= s.len(),
        forall|r: ServiceRecordView|
            #[trigger] named(s).contains(r) <==> s.contains(r) && r.is_named(),
    decreases s.len(),
{
    if s.len() > 0 {
        let front = s.drop_last();
        lemma_named(front);
        assert forall|r: ServiceRecordView|
            #[trigger] named(s).contains(r) <==> s.contains(r) && r.is_named() by {
            lemma_contains_last(s, r);
            if s.last().is_named() {
                lemma_contains_last(named(s), r);
                assert(named(s).drop_last() =~= named(front));
            }
        }
    }
}

/// Inserting a record into an ordered sequence keeps it ordered, and adds
/// that record and nothing else.
pub proof fn lemma_insert_by_name(sorted: Seq<ServiceRecordView>, r: ServiceRecordView)
    requires
        ordered_by_name(sorted),
    ensures
        ordered_by_name(insert_by_name(sorted, r)),
        insert_by_name(sorted, r).len() == sorted.len() + 1,
        forall|x: ServiceRecordView|
            #[trigger] insert_by_name(sorted, r).contains(x) <==> sorted.contains(x) || x == r,
    decreases sorted.len(),
{
    let out = insert_by_name(sorted, r);
    if sorted.len() == 0 || name_le(sorted.last().name, r.name) {
        assert forall|i: int, j: int| 0 <= i < j < out.len() implies name_le(
            #[trigger] out[i].name,
            #[trigger] out[j].name,
        ) by {
            if j < sorted.len() {
                assert(name_le(sorted[i].name, sorted[j].name));
            } else if i < sorted.len() - 1 {
                assert(name_le(sorted[i].name, sorted[sorted.len() - 1].name));
                lemma_lex_le_transitive(
                    sort_key(sorted[i].name),
                    sort_key(sorted.last().name),
                    sort_key(r.name),
                );
            }
        }
        assert forall|x: ServiceRecordView|
            #[trigger] out.contains(x) <==> sorted.contains(x) || x == r by {
            lemma_contains_last(out, x);
            assert(out.drop_last() =~= sorted);
        }
    } else {
        let front = sorted.drop_last();
        let last = sorted.last();
        let inner = insert_by_name(front, r);
        lemma_ordered_front(sorted);
        lemma_insert_by_name(front, r);
        lemma_lex_le_total(sort_key(last.name), sort_key(r.name));
        assert forall|i: int, j: int| 0 <= i < j < out.len() implies name_le(
            #[trigger] out[i].name,
            #[trigger] out[j].name,
        ) by {
            if j < inner.len() {
                assert(name_le(inner[i].name, inner[j].name));
            } else {
                let x = inner[i];
                assert(inner.contains(x));
                if x != r {
                    let k = choose|k: int| 0 <= k < front.len() && front[k] == x;
                    assert(name_le(sorted[k].name, sorted[sorted.len() - 1].name));
                }
            }
        }
        assert forall|x: ServiceRecordView|
            #[trigger] out.contains(x) <==> sorted.contains(x) || x == r by {
            lemma_contains_last(out, x);
            lemma_contains_last(sorted, x);
            assert(out.drop_last() =~= inner);
        }
    }
}

/// Sorting orders the records, and neither adds nor loses one.
pub proof fn lemma_sorted_by_name(s: Seq<ServiceRecordView>)
    ensures
        ordered_by_name(sorted_by_name(s)),
        sorted_by_name(s).len() == s.len(),
        forall|x: ServiceRecordView| #[trigger] sorted_by_name(s).contains(x) <==> s.contains(x),
    decreases s.len(),
{
    if s.len() > 0 {
        let front = s.drop_last();
        lemma_sorted_by_name(front);
        lemma_insert_by_name(sorted_by_name(front), s.last());
        assert forall|x: ServiceRecordView| #[trigger]
            sorted_by_name(s).contains(x) <==> s.contains(x) by {
            lemma_contains_last(s, x);
        }
    }
}

/// Inserting a record puts it behind the records that share its sort key
/// and leaves the records of every other key as they were.
proof fn lemma_insert_with_key(
    sorted: Seq<ServiceRecordView>,
    r: ServiceRecordView,
    key: Seq<char>,
)
    ensures
        with_key(insert_by_name(sorted, r), key) == if sort_key(r.name) == key {
            with_key(sorted, key).push(r)
        } else {
            with_key(sorted, key)
        },
    decreases sorted.len(),
{
    let out = insert_by_name(sorted, r);
    if sorted.len() == 0 || name_le(sorted.last().name, r.name) {
        assert(out.drop_last() =~= sorted);
    } else {
        let front = sorted.drop_last();
        lemma_insert_with_key(front, r, key);
        lemma_lex_le_reflexive(sort_key(r.name));
        assert(out.drop_last() =~= insert_by_name(front, r));
    }
}

/// Sorting is stable: the result is ordered, and the records of each sort
/// key stand in it as they stood before.
pub proof fn lemma_sort_is_stable(s: Seq<ServiceRecordView>)
    ensures
        is_stable_sort_of(sorted_by_name(s), s),
    decreases s.len(),
{
    lemma_sorted_by_name(s);
    assert forall|key: Seq<char>| #[trigger]
        with_key(sorted_by_name(s), key) == with_key(s, key) by {
        if s.len() > 0 {
            lemma_sort_is_stable(s.drop_last());
            lemma_insert_with_key(sorted_by_name(s.drop_last()), s.last(), key);
        }
    }
}

/// Where some record has a given sort key, it stands somewhere in the
/// sequence.
proof fn lemma_with_key_witness(s: Seq<ServiceRecordView>, key: Seq<char>)
    requires
        with_key(s, key).len() > 0,
    ensures
        exists|i: int| 0 <= i < s.len() && sort_key(#[trigger] s[i].name) == key,
    decreases s.len(),
{
    if sort_key(s.last().name) == key {
        assert(sort_key(s[s.len() - 1].name) == key);
    } else {
        let front = s.drop_last();
        lemma_with_key_witness(front, key);
        let i = choose|i: int| 0 <= i < front.len() && sort_key(#[trigger] front[i].name) == key;
        assert(sort_key(s[i].name) == key);
    }
}

/// In an ordered sequence no record is ordered later than the last one.
proof fn lemma_last_is_greatest(s: Seq<ServiceRecordView>, i: int)
    requires
        ordered_by_name(s),
        0 <= i < s.len(),
    ensures
        name_le(s[i].name, s.last().name),
{
    if i < s.len() - 1 {
        assert(name_le(s[i].name, s[s.len() - 1].name));
    } else {
        lemma_lex_le_reflexive(sort_key(s[i].name));
    }
}

/// Two ordered sequences that hold the same records under every sort key end
/// in the same record.
proof fn lemma_same_last(a: Seq<ServiceRecordView>, b: Seq<ServiceRecordView>)
    requires
        ordered_by_name(a),
        ordered_by_name(b),
        a.len() > 0,
        b.len() > 0,
        forall|key: Seq<char>| #[trigger] with_key(a, key) == with_key(b, key),
    ensures
        a.last() == b.last(),
{
    let ka = sort_key(a.last().name);
    let kb = sort_key(b.last().name);
    assert(with_key(a, ka).last() == a.last());
    assert(with_key(b, kb).last() == b.last());
    assert(with_key(b, ka) == with_key(a, ka));
    assert(with_key(a, kb) == with_key(b, kb));
    lemma_with_key_witness(b, ka);
    lemma_with_key_witness(a, kb);
    let i = choose|i: int| 0 <= i < b.len() && sort_key(#[trigger] b[i].name) == ka;
    let j = choose|j: int| 0 <= j < a.len() && sort_key(#[trigger] a[j].name) == kb;
    lemma_last_is_greatest(b, i);
    lemma_last_is_greatest(a, j);
    lemma_lex_le_antisymmetric(ka, kb);
}

/// A stable order by name is unique: two ordered sequences that hold the
/// same records under every sort key, in the same order, are equal. So
/// `is_stable_sort_of` holds of `sorted_by_name` and of nothing else.
pub proof fn lemma_stable_sort_unique(a: Seq<ServiceRecordView>, b: Seq<ServiceRecordView>)
    requires
        ordered_by_name(a),
        ordered_by_name(b),
        forall|key: Seq<char>| #[trigger] with_key(a, key) == with_key(b, key),
    ensures
        a == b,
    decreases a.len() + b.len(),
{
    if a.len() == 0 && b.len() == 0 {
        assert(a =~= b);
    } else if a.len() == 0 {
        let kb = sort_key(b.last().name);
        assert(with_key(b, kb).len() > 0);
        assert(with_key(a, kb).len() == 0);
    } else if b.len() == 0 {
        let ka = sort_key(a.last().name);
        assert(with_key(a, ka).len() > 0);
        assert(with_key(b, ka).len() == 0);
    } else {
        let fa = a.drop_last();
        let fb = b.drop_last();
        lemma_same_last(a, b);
        lemma_ordered_front(a);
        lemma_ordered_front(b);
        assert forall|key: Seq<char>| #[trigger] with_key(fa, key) == with_key(fb, key) by {
            assert(with_key(a, key) == with_key(b, key));
            if key == sort_key(a.last().name) {
                assert(with_key(a, key).drop_last() =~= with_key(fa, key));
                assert(with_key(b, key).drop_last() =~= with_key(fb, key));
            }
        }
        lemma_stable_sort_unique(fa, fb);
        assert(a =~= fa.push(a.last()));
        assert(b =~= fb.push(b.last()));
    }
}

/// Dropping repeats keeps the last record, loses no record altogether, and
/// leaves no record next to an equal one.
pub proof fn lemma_deduplicated(s: Seq<ServiceRecordView>)
    ensures
        no_adjacent_repeats(deduplicated(s)),
        deduplicated(s).len() <= s.len(),
        s.len() > 0 ==> deduplicated(s).len() > 0 && deduplicated(s).last() == s.last(),
        forall|x: ServiceRecordView| #[trigger] deduplicated(s).contains(x) <==> s.contains(x),
    decreases s.len(),
{
    if s.len() > 0 {
        let front = s.drop_last();
        let out = deduplicated(s);
        lemma_deduplicated(front);
        assert forall|x: ServiceRecordView| #[trigger] out.contains(x) <==> s.contains(x) by {
            lemma_contains_last(s, x);
            if s.len() >= 2 && s[s.len() - 2] == s.last() {
                assert(front[front.len() - 1] == s.last());
            } else {
                lemma_contains_last(out, x);
                assert(out.drop_last() =~= deduplicated(front));
            }
        }
    }
}

/// Dropping repeats from an ordered sequence leaves it ordered.
pub proof fn lemma_deduplicated_ordered(s: Seq<ServiceRecordView>)
    requires
        ordered_by_name(s),
    ensures
        ordered_by_name(deduplicated(s)),
    decreases s.len(),
{
    if s.len() > 0 {
        let front = s.drop_last();
        let inner = deduplicated(front);
        let out = deduplicated(s);
        lemma_ordered_front(s);
        lemma_deduplicated_ordered(front);
        lemma_deduplicated(front);
        assert forall|i: int, j: int| 0 <= i < j < out.len() implies name_le(
            #[trigger] out[i].name,
            #[trigger] out[j].name,
        ) by {
            if j < inner.len() {
                assert(name_le(inner[i].name, inner[j].name));
            } else {
                let x = inner[i];
                assert(inner.contains(x));
                let k = choose|k: int| 0 <= k < front.len() && front[k] == x;
                assert(name_le(s[k].name, s[s.len() - 1].name));
            }
        }
    }
}

/// The canonical list holds named records only, in ascending order of their
/// names with case ignored, and no record next to an equal one. It holds
/// exactly the named records it was made of.
pub proof fn lemma_canonical(s: Seq<ServiceRecordView>)
    ensures
        is_canonical(canonical(s)),
        canonical(s).len() <= s.len(),
        forall|r: ServiceRecordView|
            #[trigger] canonical(s).contains(r) <==> s.contains(r) && r.is_named(),
{
    let kept = named(s);
    let sorted = sorted_by_name(kept);
    let out = deduplicated(sorted);
    lemma_named(s);
    lemma_sorted_by_name(kept);
    lemma_deduplicated(sorted);
    lemma_deduplicated_ordered(sorted);
    assert forall|i: int| 0 <= i < out.len() implies (#[trigger] out[i]).is_named() by {
        assert(out.contains(out[i]));
    }
}

/// A record without a name never reaches the canonical list.
pub proof fn lemma_unnamed_excluded(s: Seq<ServiceRecordView>, r: ServiceRecordView)
    requires
        !r.is_named(),
    ensures
        !canonical(s).contains(r),
{
    lemma_canonical(s);
}

/// A sequence of named records is left as it is by `named`.
proof fn lemma_named_fixed(s: Seq<ServiceRecordView>)
    requires
        all_named(s),
    ensures
        named(s) == s,
    decreases s.len(),
{
    if s.len() > 0 {
        lemma_named_fixed(s.drop_last());
        assert(s.drop_last().push(s.last()) =~= s);
    } else {
        assert(s =~= Seq::empty());
    }
}

/// An ordered sequence is left as it is by sorting.
proof fn lemma_sorted_fixed(s: Seq<ServiceRecordView>)
    requires
        ordered_by_name(s),
    ensures
        sorted_by_name(s) == s,
    decreases s.len(),
{
    if s.len() > 0 {
        let front = s.drop_last();
        lemma_ordered_front(s);
        lemma_sorted_fixed(front);
        if front.len() > 0 {
            assert(name_le(s[s.len() - 2].name, s[s.len() - 1].name));
        }
        assert(front.push(s.last()) =~= s);
    } else {
        assert(s =~= Seq::empty());
    }
}

/// A sequence without adjacent repeats is left as it is by `deduplicated`.
proof fn lemma_deduplicated_fixed(s: Seq<ServiceRecordView>)
    requires
        no_adjacent_repeats(s),
    ensures
        deduplicated(s) == s,
    decreases s.len(),
{
    if s.len() > 0 {
        let front = s.drop_last();
        assert forall|i: int| 0 < i < front.len() implies front[i - 1] != #[trigger] front[i] by {
            assert(s[i - 1] != s[i]);
        }
        lemma_deduplicated_fixed(front);
        if s.len() >= 2 {
            assert(s[s.len() - 2] != s[s.len() - 1]);
        }
        assert(front.push(s.last()) =~= s);
    } else {
        assert(s =~= Seq::empty());
    }
}

/// A list that is already canonical is left as it is.
pub proof fn lemma_canonical_fixed(s: Seq<ServiceRecordView>)
    requires
        is_canonical(s),
    ensures
        canonical(s) == s,
{
    lemma_named_fixed(s);
    lemma_sorted_fixed(s);
    lemma_deduplicated_fixed(s);
}

/// Building the canonical list of a canonical list changes nothing: to
/// build twice is to build once.
pub proof fn lemma_canonical_idempotent(s: Seq<ServiceRecordView>)
    ensures
        canonical(canonical(s)) == canonical(s),
{
    lemma_canonical(s);
    lemma_canonical_fixed(canonical(s));
}

/// The canonical list is strictly ordered exactly when no two different named
/// records share a sort key.
pub proof fn lemma_canonical_strictly_ordered(s: Seq<ServiceRecordView>)
    ensures
        strictly_ordered_by_name(canonical(s)) <==> names_distinguish(s),
{
    let c = canonical(s);
    lemma_canonical(s);
    if names_distinguish(s) {
        assert forall|i: int, j: int| 0 <= i < j < c.len() implies name_le(
            #[trigger] c[i].name,
            #[trigger] c[j].name,
        ) && !name_le(c[j].name, c[i].name) by {
            if name_le(c[j].name, c[i].name) {
                let next = c[i + 1];
                if i + 1 < j {
                    assert(name_le(next.name, c[j].name));
                } else {
                    lemma_lex_le_reflexive(sort_key(c[j].name));
                }
                assert(name_le(c[i].name, next.name));
                lemma_lex_le_transitive(
                    sort_key(next.name),
                    sort_key(c[j].name),
                    sort_key(c[i].name),
                );
                lemma_lex_le_antisymmetric(sort_key(c[i].name), sort_key(next.name));
                assert(c.contains(c[i]));
                assert(c.contains(next));
                assert(s.contains(c[i]) && s.contains(next));
                assert(c[i] == c[i + 1]);
            }
        }
    }
    if strictly_ordered_by_name(c) {
        assert forall|a: ServiceRecordView, b: ServiceRecordView|
            #[trigger] s.contains(a) && #[trigger] s.contains(b) && a.is_named() && b.is_named()
                && sort_key(a.name) == sort_key(b.name) implies a == b by {
            assert(c.contains(a) && c.contains(b));
            let i = choose|i: int| 0 <= i < c.len() && c[i] == a;
            let j = choose|j: int| 0 <= j < c.len() && c[j] == b;
            lemma_lex_le_reflexive(sort_key(a.name));
            if i < j {
                assert(!name_le(c[j].name, c[i].name));
            } else if j < i {
                assert(!name_le(c[i].name, c[j].name));
            }
        }
    }
}

/// Where no two different named records share a sort key, no name stands
/// twice in the canonical list.
pub proof fn lemma_canonical_unique_names(s: Seq<ServiceRecordView>)
    requires
        names_distinguish(s),
    ensures
        forall|i: int, j: int|
            0 <= i < j < canonical(s).len() ==> (#[trigger] canonical(s)[i]).name != (
            #[trigger] canonical(s)[j]).name,
{
    let c = canonical(s);
    lemma_canonical_strictly_ordered(s);
    assert forall|i: int, j: int| 0 <= i < j < c.len() implies (#[trigger] c[i]).name != (
    #[trigger] c[j]).name by {
        assert(!name_le(c[j].name, c[i].name));
        lemma_lex_le_reflexive(sort_key(c[i].name));
    }
}

/// Two strictly ordered sequences that hold the same records are equal.
proof fn lemma_strictly_ordered_unique(a: Seq<ServiceRecordView>, b: Seq<ServiceRecordView>)
    requires
        strictly_ordered_by_name(a),
        strictly_ordered_by_name(b),
        forall|r: ServiceRecordView| #[trigger] a.contains(r) <==> b.contains(r),
    ensures
        a == b,
    decreases a.len(),
{
    if a.len() == 0 {
        if b.len() > 0 {
            assert(b.contains(b[0]));
            assert(a.contains(b[0]));
        }
        assert(a =~= b);
    } else {
        let x = a.last();
        assert(a.contains(a[a.len() - 1]));
        assert(b.contains(x));
        let y = b.last();
        assert(b.contains(b[b.len() - 1]));
        assert(a.contains(y));
        let i = choose|i: int| 0 <= i < a.len() && a[i] == y;
        let j = choose|j: int| 0 <= j < b.len() && b[j] == x;
        if i < a.len() - 1 {
            assert(!name_le(a[a.len() - 1].name, a[i].name));
            if j < b.len() - 1 {
                assert(name_le(b[j].name, b[b.len() - 1].name));
            } else {
                lemma_lex_le_reflexive(sort_key(x.name));
            }
        }
        assert(x == y);
        let fa = a.drop_last();
        let fb = b.drop_last();
        lemma_strictly_ordered_front(a);
        lemma_strictly_ordered_front(b);
        assert forall|r: ServiceRecordView| #[trigger] fa.contains(r) <==> fb.contains(r) by {
            lemma_contains_last(a, r);
            lemma_contains_last(b, r);
        }
        lemma_strictly_ordered_unique(fa, fb);
        assert(a =~= fa.push(x));
        assert(b =~= fb.push(y));
    }
}

/// Where no two different named records share a sort key, the canonical list
/// depends only on which records the directory gave, not on their order nor
/// on how often each was given.
pub proof fn lemma_canonical_ignores_order(a: Seq<ServiceRecordView>, b: Seq<ServiceRecordView>)
    requires
        names_distinguish(a),
        forall|r: ServiceRecordView| #[trigger] a.contains(r) <==> b.contains(r),
    ensures
        canonical(a) == canonical(b),
{
    assert(names_distinguish(b)) by {
        assert forall|x: ServiceRecordView, y: ServiceRecordView|
            #[trigger] b.contains(x) && #[trigger] b.contains(y) && x.is_named() && y.is_named()
                && sort_key(x.name) == sort_key(y.name) implies x == y by {
            assert(a.contains(x) && a.contains(y));
        }
    }
    lemma_canonical(a);
    lemma_canonical(b);
    lemma_canonical_strictly_ordered(a);
    lemma_canonical_strictly_ordered(b);
    assert forall|r: ServiceRecordView| #[trigger]
        canonical(a).contains(r) <==> canonical(b).contains(r) by {
        assert(a.contains(r) <==> b.contains(r));
    }
    lemma_strictly_ordered_unique(canonical(a), canonical(b));
}

} // verus!
