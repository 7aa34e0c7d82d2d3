//! The canonical service list: named records only, ordered by name without
//! regard to case, with runs of identical records collapsed to one.

use vstd::prelude::*;
use crate::directory::{listed, resolve, DirectoryError, Listing, Resolution};
use crate::list_lemmas::{
    lemma_canonical, lemma_deduplicated, lemma_named, lemma_sort_is_stable, lemma_sorted_by_name,
};
use crate::service::{views, ServiceRecord, ServiceRecordView};
use crate::text::{chars_le, key_of, name_le, sort_key};

verus! {

/// The records of `s` that carry a name, in the order in which they stand in `s`.
pub open spec fn named(s: Seq<ServiceRecordView>) -> Seq<ServiceRecordView>
    decreases s.len(),
{
    if s.len() == 0 {
        Seq::empty()
    } else if s.last().is_named() {
        named(s.drop_last()).push(s.last())
    } else {
        named(s.drop_last())
    }
}

/// `sorted` with `r` put behind every record that is ordered no later than `r`.
pub open spec fn insert_by_name(
    sorted: Seq<ServiceRecordView>,
    r: ServiceRecordView,
) -> Seq<ServiceRecordView>
    decreases sorted.len(),
{
    if sorted.len() == 0 || name_le(sorted.last().name, r.name) {
        sorted.push(r)
    } else {
        insert_by_name(sorted.drop_last(), r).push(sorted.last())
    }
}

/// The records of `s` ordered by name without regard to case; records whose
/// names are ordered alike keep the order they had in `s`.
pub open spec fn sorted_by_name(s: Seq<ServiceRecordView>) -> Seq<ServiceRecordView>
    decreases s.len(),
{
    if s.len() == 0 {
        Seq::empty()
    } else {
        insert_by_name(sorted_by_name(s.drop_last()), s.last())
    }
}

/// `s` without the records that repeat their predecessor.
pub open spec fn deduplicated(s: Seq<ServiceRecordView>) -> Seq<ServiceRecordView>
    decreases s.len(),
{
    if s.len() == 0 {
        Seq::empty()
    } else if s.len() >= 2 && s[s.len() - 2] == s.last() {
        deduplicated(s.drop_last())
    } else {
        deduplicated(s.drop_last()).push(s.last())
    }
}

/// The canonical list made of the records `s`.
pub open spec fn canonical(s: Seq<ServiceRecordView>) -> Seq<ServiceRecordView> {
    deduplicated(sorted_by_name(named(s)))
}

/// Every record of `s` carries a name.
pub open spec fn all_named(s: Seq<ServiceRecordView>) -> bool {
    forall|i: int| 0 <= i < s.len() ==> (#[trigger] s[i]).is_named()
}

/// The records of `s` stand in ascending order of their names, case ignored.
pub open spec fn ordered_by_name(s: Seq<ServiceRecordView>) -> bool {
    forall|i: int, j: int|
        0 <= i < j < s.len() ==> name_le(#[trigger] s[i].name, #[trigger] s[j].name)
}

/// The records of `s` stand in strictly ascending order of their names, case
/// ignored: no later record is ordered as early as an earlier one.
pub open spec fn strictly_ordered_by_name(s: Seq<ServiceRecordView>) -> bool {
    forall|i: int, j: int|
        0 <= i < j < s.len() ==> name_le(#[trigger] s[i].name, #[trigger] s[j].name) && !name_le(
            s[j].name,
            s[i].name,
        )
}

/// No record of `s` equals the one before it.
pub open spec fn no_adjacent_repeats(s: Seq<ServiceRecordView>) -> bool {
    forall|i: int| 0 < i < s.len() ==> s[i - 1] != #[trigger] s[i]
}

/// What holds of every canonical list.
pub open spec fn is_canonical(s: Seq<ServiceRecordView>) -> bool {
    &&& all_named(s)
    &&& ordered_by_name(s)
    &&& no_adjacent_repeats(s)
}

/// Records of `s` that carry a name and are ordered alike are the same record.
pub open spec fn names_distinguish(s: Seq<ServiceRecordView>) -> bool {
    forall|a: ServiceRecordView, b: ServiceRecordView|
        #[trigger] s.contains(a) && #[trigger] s.contains(b) && a.is_named() && b.is_named()
            && sort_key(a.name) == sort_key(b.name) ==> a == b
}

/// The records of `s` whose names have the sort key `key`, in their order.
pub open spec fn with_key(s: Seq<ServiceRecordView>, key: Seq<char>) -> Seq<ServiceRecordView>
    decreases s.len(),
{
    if s.len() == 0 {
        Seq::empty()
    } else if sort_key(s.last().name) == key {
        with_key(s.drop_last(), key).push(s.last())
    } else {
        with_key(s.drop_last(), key)
    }
}

/// `sorted` holds the records of `s` in a stable order by name: ascending,
/// and with the records of every one sort key in the order they have in `s`.
pub open spec fn is_stable_sort_of(
    sorted: Seq<ServiceRecordView>,
    s: Seq<ServiceRecordView>,
) -> bool {
    &&& ordered_by_name(sorted)
    &&& forall|key: Seq<char>| #[trigger] with_key(sorted, key) == with_key(s, key)
}

/// Keeps the records that carry a name.
pub fn retain_named(records: Vec<ServiceRecord>) -> (kept: Vec<ServiceRecord>)
    ensures
        views(kept@) == named(views(records@)),
        all_named(views(kept@)),
{
    let ghost all = views(records@);
    proof {
        lemma_named(all);
    }
    let mut kept: Vec<ServiceRecord> = Vec::new();
    for record in it: records.into_iter()
        invariant
            it.seq() == records@,
            all == views(records@),
            views(kept@) == named(all.take(it.index() as int)),
    {
        proof {
            let k = it.index() as int;
            assert(all.take(k + 1).drop_last() =~= all.take(k));
            assert(all.take(k + 1).last() == record@);
        }
        let ghost before = views(kept@);
        if !record.name.as_str().is_empty() {
            kept.push(record);
            assert(views(kept@) =~= before.push(record@));
        }
    }
    proof {
        assert(all.take(all.len() as int) =~= all);
    }
    kept
}

/// Where `insert_by_name` puts a record: behind the last record that is
/// ordered no later than it.
proof fn lemma_insert_position(s: Seq<ServiceRecordView>, r: ServiceRecordView, at: int)
    requires
        0 <= at <= s.len(),
        at > 0 ==> name_le(s[at - 1].name, r.name),
        forall|j: int| at <= j < s.len() ==> !name_le(#[trigger] s[j].name, r.name),
    ensures
        insert_by_name(s, r) == s.insert(at, r),
    decreases s.len(),
{
    if at == s.len() {
        assert(s.insert(at, r) =~= s.push(r));
    } else {
        assert(!name_le(s[s.len() - 1].name, r.name));
        lemma_insert_position(s.drop_last(), r, at);
        assert(s.insert(at, r) =~= s.drop_last().insert(at, r).push(s.last()));
    }
}

/// Orders the records by name without regard to case. Records whose names
/// are ordered alike stay in the order in which they came.
pub fn sort_by_name(records: Vec<ServiceRecord>) -> (sorted: Vec<ServiceRecord>)
    ensures
        views(sorted@) == sorted_by_name(views(records@)),
        is_stable_sort_of(views(sorted@), views(records@)),
        sorted.len() == records.len(),
{
    let ghost all = views(records@);
    proof {
        lemma_sort_is_stable(all);
        lemma_sorted_by_name(all);
    }
    let mut sorted: Vec<ServiceRecord> = Vec::new();
    let mut keys: Vec<Vec<char>> = Vec::new();
    for record in it: records.into_iter()
        invariant
            it.seq() == records@,
            all == views(records@),
            views(sorted@) == sorted_by_name(all.take(it.index() as int)),
            keys.len() == sorted.len(),
            forall|j: int|
                0 <= j < keys.len() ==> (#[trigger] keys[j])@ == sort_key(sorted[j].name@),
    {
        proof {
            let k = it.index() as int;
            assert(all.take(k + 1).drop_last() =~= all.take(k));
            assert(all.take(k + 1).last() == record@);
        }
        let key = key_of(&record.name);
        let mut at: usize = sorted.len();
        while at > 0 && !chars_le(&keys[at - 1], &key)
            invariant
                at <= sorted.len(),
                keys.len() == sorted.len(),
                key@ == sort_key(record.name@),
                forall|j: int|
                    0 <= j < keys.len() ==> (#[trigger] keys[j])@ == sort_key(sorted[j].name@),
                forall|j: int|
                    at <= j < sorted.len() ==> !name_le(
                        #[trigger] views(sorted@)[j].name,
                        record.name@,
                    ),
            decreases at,
        {
            at -= 1;
        }
        let ghost before = views(sorted@);
        proof {
            assert(at > 0 ==> before[at - 1].name == sorted[at - 1].name@);
            lemma_insert_position(before, record@, at as int);
        }
        sorted.insert(at, record);
        keys.insert(at, key);
        assert(views(sorted@) =~= before.insert(at as int, record@));
    }
    proof {
        assert(all.take(all.len() as int) =~= all);
    }
    sorted
}

/// Drops every record that repeats the one before it.
pub fn dedup(records: Vec<ServiceRecord>) -> (unique: Vec<ServiceRecord>)
    ensures
        views(unique@) == deduplicated(views(records@)),
        no_adjacent_repeats(views(unique@)),
{
    let ghost all = views(records@);
    proof {
        lemma_deduplicated(all);
    }
    let mut unique: Vec<ServiceRecord> = Vec::new();
    for record in it: records.into_iter()
        invariant
            it.seq() == records@,
            all == views(records@),
            views(unique@) == deduplicated(all.take(it.index() as int)),
            it.index() > 0 ==> unique.len() > 0 && unique[unique.len() - 1]@ == all[it.index()
                - 1],
    {
        proof {
            let k = it.index() as int;
            assert(all.take(k + 1).drop_last() =~= all.take(k));
            assert(all.take(k + 1).last() == record@);
            assert(k > 0 ==> all.take(k + 1)[k - 1] == all[k - 1]);
        }
        let ghost before = views(unique@);
        let repeats = unique.len() > 0 && unique[unique.len() - 1] == record;
        if !repeats {
            unique.push(record);
            assert(views(unique@) =~= before.push(record@));
        }
    }
    proof {
        assert(all.take(all.len() as int) =~= all);
    }
    unique
}

/// Builds the canonical list from the records as the directory gave them.
pub fn canonicalize(records: Vec<ServiceRecord>) -> (list: Vec<ServiceRecord>)
    ensures
        views(list@) == canonical(views(records@)),
        is_canonical(views(list@)),
{
    proof {
        lemma_canonical(views(records@));
    }
    dedup(sort_by_name(retain_named(records)))
}

/// Builds the canonical list from one answer of the directory. A failed
/// query gives the empty list; a unit that could not be described gives a
/// placeholder, which has no name and so does not reach the list.
pub fn get_services(listing: Listing) -> (services: Vec<ServiceRecord>)
    ensures
        views(services@) == canonical(listed(listing)),
        is_canonical(views(services@)),
{
    match listing {
        Ok(units) => {
            let ghost all = listed(listing);
            let mut records: Vec<ServiceRecord> = Vec::new();
            for outcome in it: units.into_iter()
                invariant
                    it.seq() == units@,
                    all == listed(listing),
                    listing == Ok::<Vec<Resolution>, DirectoryError>(units),
                    views(records@) == all.take(it.index() as int),
            {
                let ghost before = views(records@);
                let record = resolve(outcome);
                records.push(record);
                assert(views(records@) =~= before.push(record@));
                assert(all.take(it.index() + 1) =~= all.take(it.index() as int).push(record@));
            }
            proof {
                assert(all.take(all.len() as int) =~= all);
            }
            canonicalize(records)
        },
        Err(_) => {
            let services: Vec<ServiceRecord> = Vec::new();
            proof {
                assert(views(services@) =~= Seq::empty());
                lemma_canonical(listed(listing));
            }
            services
        },
    }
}

} // verus!
