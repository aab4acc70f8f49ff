//! Reporting: partition aggregated usage into active and deleted models,
//! compute the manifests never seen in any log, sort each view, format
//! sizes, and render the three fixed-width tables.

use vstd::prelude::*;

use crate::ascii::{deleted_suffix, deleted_suffix_bytes, name_sep, name_sep_bytes};
use crate::bytes::{
    dec_of, find_sub, is_suffix, lemma_lex_leq_total, lemma_lex_leq_trans, lex_leq,
    lex_leq_bytes, occurs_at, u64_dec,
};
use crate::logs::{first_occurrence, usages_view, ModelUsage, UsageTable};
use crate::manifest::views_of;

verus! {

/// A display name marks a deleted model: it ends with `-deleted`.
pub open spec fn is_deleted_name(n: Seq<u8>) -> bool {
    is_suffix(n, deleted_suffix())
}

/// Whether this record's name marks a deleted model.
pub fn usage_is_deleted(u: &ModelUsage) -> (r: bool)
    ensures
        r == is_deleted_name(u.name@),
{
    let suffix = deleted_suffix_bytes();
    crate::bytes::ends_with(u.name.as_slice(), suffix.as_slice())
}

/// The subsequence of usage records whose deleted-ness matches `deleted`,
/// in their table order.
pub open spec fn spec_partition(s: Seq<(Seq<u8>, i64, u64, u64)>, deleted: bool) -> Seq<
    (Seq<u8>, i64, u64, u64),
>
    decreases s.len(),
{
    if s.len() == 0 {
        Seq::empty()
    } else {
        spec_partition(s.drop_last(), deleted) + (if is_deleted_name(s.last().0) == deleted {
            seq![s.last()]
        } else {
            Seq::empty()
        })
    }
}

/// Split the usage records into (active, deleted), each in table order.
pub fn partition_usages(table: &UsageTable) -> (r: (Vec<ModelUsage>, Vec<ModelUsage>))
    ensures
        usages_view(r.0@) == spec_partition(table.view_entries(), false),
        usages_view(r.1@) == spec_partition(table.view_entries(), true),
{
    let mut active: Vec<ModelUsage> = Vec::new();
    let mut deleted: Vec<ModelUsage> = Vec::new();
    let ghost all = table.view_entries();
    let mut i: usize = 0;
    while i < table.entries.len()
        invariant
            i <= table.entries@.len(),
            all == table.view_entries(),
            usages_view(active@) == spec_partition(all.take(i as int), false),
            usages_view(deleted@) == spec_partition(all.take(i as int), true),
        decreases table.entries@.len() - i,
    {
        let u = table.entries[i].clone();
        proof {
            assert(all.take(i + 1).drop_last() =~= all.take(i as int));
            assert(all.take(i + 1).last() == all[i as int]);
        }
        if usage_is_deleted(&u) {
            deleted.push(u);
        } else {
            active.push(u);
        }
        proof {
            assert(usages_view(active@) =~= spec_partition(all.take(i + 1), false));
            assert(usages_view(deleted@) =~= spec_partition(all.take(i + 1), true));
        }
        i += 1;
    }
    proof {
        assert(all.take(table.entries@.len() as int) =~= all);
    }
    (active, deleted)
}

/// The report's order on usage records: more recently used first, ties
/// broken by higher usage count first.
pub open spec fn usage_order(a: (Seq<u8>, i64, u64, u64), b: (Seq<u8>, i64, u64, u64)) -> bool {
    a.1 > b.1 || (a.1 == b.1 && a.2 >= b.2)
}

/// A sequence of usage records in report order.
pub open spec fn sorted_usages(s: Seq<(Seq<u8>, i64, u64, u64)>) -> bool {
    forall|i: int, j: int| 0 <= i < j < s.len() ==> usage_order(s[i], s[j])
}

/// Law: in a table in report order, two records last used at the same
/// instant stand in descending usage-count order.
pub proof fn lemma_ties_order_by_count(s: Seq<(Seq<u8>, i64, u64, u64)>, i: int, j: int)
    requires
        sorted_usages(s),
        0 <= i < j < s.len(),
        s[i].1 == s[j].1,
    ensures
        s[i].2 >= s[j].2,
{
    assert(usage_order(s[i], s[j]));
}

/// `x` placed into the sorted sequence `s`, after every record that
/// precedes it in report order (so equal records keep their old order).
pub open spec fn spec_insert_usage(
    s: Seq<(Seq<u8>, i64, u64, u64)>,
    x: (Seq<u8>, i64, u64, u64),
) -> Seq<(Seq<u8>, i64, u64, u64)>
    decreases s.len(),
{
    if s.len() == 0 {
        seq![x]
    } else if usage_order(s[0], x) {
        seq![s[0]] + spec_insert_usage(s.drop_first(), x)
    } else {
        seq![x] + s
    }
}

/// The usage records sorted into report order by stable insertion.
pub open spec fn spec_sort_usages(s: Seq<(Seq<u8>, i64, u64, u64)>) -> Seq<
    (Seq<u8>, i64, u64, u64),
>
    decreases s.len(),
{
    if s.len() == 0 {
        Seq::empty()
    } else {
        spec_insert_usage(spec_sort_usages(s.drop_last()), s.last())
    }
}

proof fn lemma_insert_usage_at(
    s: Seq<(Seq<u8>, i64, u64, u64)>,
    x: (Seq<u8>, i64, u64, u64),
    p: int,
)
    requires
        0 <= p <= s.len(),
        forall|q: int| 0 <= q < p ==> usage_order(s[q], x),
        p < s.len() ==> !usage_order(s[p], x),
    ensures
        spec_insert_usage(s, x) =~= s.insert(p, x),
    decreases s.len(),
{
    if s.len() == 0 {
        assert(spec_insert_usage(s, x) =~= s.insert(0, x));
    } else if p == 0 {
        assert(seq![x] + s =~= s.insert(0, x));
    } else {
        lemma_insert_usage_at(s.drop_first(), x, p - 1);
        assert(seq![s[0]] + spec_insert_usage(s.drop_first(), x) =~= s.insert(p, x));
    }
}

/// Law: inserting into a sequence in report order keeps report order.
pub proof fn lemma_insert_usage_sorted(
    s: Seq<(Seq<u8>, i64, u64, u64)>,
    x: (Seq<u8>, i64, u64, u64),
)
    requires
        sorted_usages(s),
    ensures
        sorted_usages(spec_insert_usage(s, x)),
    decreases s.len(),
{
    if s.len() == 0 {
    } else if usage_order(s[0], x) {
        lemma_insert_usage_sorted(s.drop_first(), x);
        let r = seq![s[0]] + spec_insert_usage(s.drop_first(), x);
        assert forall|i: int, j: int| 0 <= i < j < r.len() implies usage_order(r[i], r[j]) by {
            if i == 0 {
                if j < r.len() {
                    assert(usage_order(
                        s[0],
                        spec_insert_usage(s.drop_first(), x)[j - 1],
                    )) by {
                        lemma_insert_usage_members(s.drop_first(), x, j - 1);
                    }
                }
            }
        }
    } else {
        let r = seq![x] + s;
        assert forall|i: int, j: int| 0 <= i < j < r.len() implies usage_order(r[i], r[j]) by {
            if i == 0 {
                assert(usage_order(x, s[0]));
                if j > 1 {
                    assert(usage_order(s[0], s[j - 1]));
                }
            }
        }
    }
}

/// Every element of an insertion's result is the inserted record or one
/// of the old ones; in report order, anything ordered before all old
/// records and before `x` is ordered before every element of the result.
proof fn lemma_insert_usage_members(
    s: Seq<(Seq<u8>, i64, u64, u64)>,
    x: (Seq<u8>, i64, u64, u64),
    k: int,
)
    requires
        0 <= k < spec_insert_usage(s, x).len(),
    ensures
        spec_insert_usage(s, x)[k] == x || exists|m: int|
            0 <= m < s.len() && spec_insert_usage(s, x)[k] == s[m],
    decreases s.len(),
{
    if s.len() == 0 {
    } else if usage_order(s[0], x) {
        if k > 0 {
            lemma_insert_usage_members(s.drop_first(), x, k - 1);
            let r1 = spec_insert_usage(s.drop_first(), x);
            if r1[k - 1] != x {
                let m = choose|m: int| 0 <= m < s.drop_first().len() && r1[k - 1]
                    == s.drop_first()[m];
                assert(spec_insert_usage(s, x)[k] == s[m + 1]);
            }
        } else {
            assert(spec_insert_usage(s, x)[0] == s[0]);
        }
    }
}

/// Law: sorting preserves the records, as a multiset.
pub proof fn lemma_sort_usages_permutes(s: Seq<(Seq<u8>, i64, u64, u64)>)
    ensures
        spec_sort_usages(s).to_multiset() == s.to_multiset(),
    decreases s.len(),
{
    broadcast use vstd::seq_lib::group_to_multiset_ensures;

    if s.len() > 0 {
        lemma_sort_usages_permutes(s.drop_last());
        lemma_insert_usage_multiset(spec_sort_usages(s.drop_last()), s.last());
        assert(s =~= s.drop_last().push(s.last()));
        assert(s.to_multiset() =~= spec_sort_usages(s).to_multiset());
    } else {
        assert(spec_sort_usages(s).to_multiset() =~= s.to_multiset());
    }
}

proof fn lemma_insert_usage_multiset(
    s: Seq<(Seq<u8>, i64, u64, u64)>,
    x: (Seq<u8>, i64, u64, u64),
)
    ensures
        spec_insert_usage(s, x).to_multiset() == s.to_multiset().insert(x),
    decreases s.len(),
{
    broadcast use vstd::seq_lib::group_to_multiset_ensures;

    if s.len() == 0 {
        assert(spec_insert_usage(s, x) =~= Seq::empty().push(x));
        assert(Seq::<(Seq<u8>, i64, u64, u64)>::empty().push(x).to_multiset()
            =~= s.to_multiset().insert(x));
    } else if usage_order(s[0], x) {
        lemma_insert_usage_multiset(s.drop_first(), x);
        assert(spec_insert_usage(s, x) =~= spec_insert_usage(s.drop_first(), x).insert(
            0,
            s[0],
        ));
        vstd::seq_lib::to_multiset_insert(spec_insert_usage(s.drop_first(), x), 0, s[0]);
        assert(s =~= s.drop_first().insert(0, s[0]));
        vstd::seq_lib::to_multiset_insert(s.drop_first(), 0, s[0]);
        assert(spec_insert_usage(s, x).to_multiset() =~= s.to_multiset().insert(x));
    } else {
        assert(spec_insert_usage(s, x) =~= s.insert(0, x));
        vstd::seq_lib::to_multiset_insert(s, 0, x);
    }
}

/// Law: the sorted records are in report order.
pub proof fn lemma_sort_usages_sorted(s: Seq<(Seq<u8>, i64, u64, u64)>)
    ensures
        sorted_usages(spec_sort_usages(s)),
    decreases s.len(),
{
    if s.len() > 0 {
        lemma_sort_usages_sorted(s.drop_last());
        lemma_insert_usage_sorted(spec_sort_usages(s.drop_last()), s.last());
    }
}

/// Decide the report order on two records.
fn usage_order_exec(a: &ModelUsage, b: &ModelUsage) -> (r: bool)
    ensures
        r == usage_order(a@, b@),
{
    a.last_used > b.last_used || (a.last_used == b.last_used && a.usage_count >= b.usage_count)
}

/// Sort usage records into report order: most recently used first, ties
/// broken by usage count descending, equal records keeping their order.
pub fn sort_usages(v: &Vec<ModelUsage>) -> (r: Vec<ModelUsage>)
    ensures
        usages_view(r@) == spec_sort_usages(usages_view(v@)),
{
    let ghost all = usages_view(v@);
    let mut out: Vec<ModelUsage> = Vec::new();
    let mut k: usize = 0;
    while k < v.len()
        invariant
            k <= v@.len(),
            all == usages_view(v@),
            usages_view(out@) == spec_sort_usages(all.take(k as int)),
        decreases v@.len() - k,
    {
        let x = v[k].clone();
        let mut p: usize = 0;
        while p < out.len() && usage_order_exec(&out[p], &x)
            invariant
                p <= out@.len(),
                x@ == all[k as int],
                usages_view(out@) == spec_sort_usages(all.take(k as int)),
                forall|q: int| 0 <= q < p ==> usage_order(usages_view(out@)[q], x@),
            decreases out@.len() - p,
        {
            p += 1;
        }
        proof {
            lemma_insert_usage_at(usages_view(out@), x@, p as int);
            assert(all.take(k + 1).drop_last() =~= all.take(k as int));
            assert(all.take(k + 1).last() == all[k as int]);
        }
        out.insert(p, x);
        proof {
            assert(usages_view(out@) =~= spec_insert_usage(
                spec_sort_usages(all.take(k as int)),
                all[k as int],
            ));
        }
        k += 1;
    }
    proof {
        assert(all.take(v@.len() as int) =~= all);
    }
    out
}

/// An entry of the unlogged table: a single (non-joined) display name and
/// the size of its indexed content.
pub struct UnloggedRow {
    pub name: Vec<u8>,
    pub size: u64,
}

impl View for UnloggedRow {
    type V = (Seq<u8>, u64);

    open spec fn view(&self) -> Self::V {
        (self.name@, self.size)
    }
}

impl Clone for UnloggedRow {
    /// Cloning a row keeps its view.
    fn clone(&self) -> (r: Self)
        ensures
            r@ == self@,
    {
        UnloggedRow { name: self.name.clone(), size: self.size }
    }
}

/// The view of a sequence of unlogged rows.
pub open spec fn unlogged_view(s: Seq<UnloggedRow>) -> Seq<(Seq<u8>, u64)> {
    s.map_values(|u: UnloggedRow| u@)
}

/// A joined display name split on `, ` into its sub-names, left to right.
pub open spec fn spec_split_names(s: Seq<u8>) -> Seq<Seq<u8>>
    decreases s.len(),
{
    if exists|i: int| first_occurrence(s, name_sep(), i) {
        let i = choose|i: int| first_occurrence(s, name_sep(), i);
        seq![s.take(i)] + spec_split_names(s.skip(i + name_sep().len()))
    } else {
        seq![s]
    }
}

/// Split a joined display name on `, `.
pub fn split_names(name: &[u8]) -> (r: Vec<Vec<u8>>)
    ensures
        views_of(r@) == spec_split_names(name@),
    decreases name@.len(),
{
    let sep = name_sep_bytes();
    let n = name.len();
    match find_sub(name, sep.as_slice()) {
        Some(i) => {
            assert(i + sep@.len() <= n);
            proof {
                assert(first_occurrence(name@, name_sep(), i as int));
                let w = choose|w: int| first_occurrence(name@, name_sep(), w);
                assert(occurs_at(name@, name_sep(), w) && occurs_at(
                    name@,
                    name_sep(),
                    i as int,
                ));
                assert(w == i as int);
            }
            let head = vstd::slice::slice_to_vec(vstd::slice::slice_subrange(name, 0, i));
            let rest = vstd::slice::slice_subrange(name, i + 2, name.len());
            assert(rest@ =~= name@.skip(i + name_sep().len()));
            let mut out: Vec<Vec<u8>> = Vec::new();
            out.push(head);
            let mut tail = split_names(rest);
            out.append(&mut tail);
            proof {
                assert(views_of(out@) =~= seq![name@.take(i as int)] + spec_split_names(
                    name@.skip(i + name_sep().len()),
                ));
            }
            out
        },
        None => {
            assert(forall|i: int| !first_occurrence(name@, name_sep(), i));
            let mut out: Vec<Vec<u8>> = Vec::new();
            out.push(vstd::slice::slice_to_vec(name));
            assert(views_of(out@) =~= seq![name@]);
            out
        },
    }
}

/// A sub-name was logged: some usage record's (possibly joined) name
/// splits into parts one of which is exactly this sub-name.
pub open spec fn spec_logged(usages: Seq<(Seq<u8>, i64, u64, u64)>, sub: Seq<u8>) -> bool {
    exists|i: int| 0 <= i < usages.len() && spec_split_names(usages[i].0).contains(sub)
}

fn contains_name(list: &Vec<Vec<u8>>, sub: &[u8]) -> (r: bool)
    ensures
        r == views_of(list@).contains(sub@),
{
    let mut i: usize = 0;
    while i < list.len()
        invariant
            i <= list@.len(),
            forall|j: int| 0 <= j < i ==> views_of(list@)[j] != sub@,
        decreases list@.len() - i,
    {
        if crate::bytes::bytes_eq(list[i].as_slice(), sub) {
            assert(views_of(list@)[i as int] == sub@);
            return true;
        }
        i += 1;
    }
    assert(forall|j: int| 0 <= j < list@.len() ==> views_of(list@)[j] != sub@);
    false
}

/// Whether a sub-name appears among the sub-names of any usage record.
pub fn is_logged(usages: &UsageTable, sub: &[u8]) -> (r: bool)
    ensures
        r == spec_logged(usages.view_entries(), sub@),
{
    let mut i: usize = 0;
    while i < usages.entries.len()
        invariant
            i <= usages.entries@.len(),
            forall|j: int|
                0 <= j < i ==> !spec_split_names(usages.view_entries()[j].0).contains(sub@),
        decreases usages.entries@.len() - i,
    {
        let parts = split_names(usages.entries[i].name.as_slice());
        if contains_name(&parts, sub) {
            assert(spec_split_names(usages.view_entries()[i as int].0).contains(sub@));
            return true;
        }
        i += 1;
    }
    false
}

/// The unlogged rows contributed by the sub-names of one index entry, in
/// split order: each sub-name not logged anywhere, with the entry's size.
pub open spec fn spec_unlogged_subs(
    subs: Seq<Seq<u8>>,
    size: u64,
    usages: Seq<(Seq<u8>, i64, u64, u64)>,
) -> Seq<(Seq<u8>, u64)>
    decreases subs.len(),
{
    if subs.len() == 0 {
        Seq::empty()
    } else {
        spec_unlogged_subs(subs.drop_last(), size, usages) + (if !spec_logged(
            usages,
            subs.last(),
        ) {
            seq![(subs.last(), size)]
        } else {
            Seq::empty()
        })
    }
}

/// All unlogged rows of the index, entries in index order, sub-names in
/// split order.
pub open spec fn spec_unlogged(
    entries: Seq<(Seq<u8>, Seq<u8>, u64)>,
    usages: Seq<(Seq<u8>, i64, u64, u64)>,
) -> Seq<(Seq<u8>, u64)>
    decreases entries.len(),
{
    if entries.len() == 0 {
        Seq::empty()
    } else {
        spec_unlogged(entries.drop_last(), usages) + spec_unlogged_subs(
            spec_split_names(entries.last().1),
            entries.last().2,
            usages,
        )
    }
}

/// Compute the unlogged rows: every sub-name in the index that no usage
/// record's sub-names contain, with the size of its entry.
pub fn unlogged_rows(index: &crate::manifest::ModelIndex, usages: &UsageTable) -> (r: Vec<
    UnloggedRow,
>)
    ensures
        unlogged_view(r@) == spec_unlogged(index.view_entries(), usages.view_entries()),
{
    let mut out: Vec<UnloggedRow> = Vec::new();
    let ghost idx = index.view_entries();
    let ghost us = usages.view_entries();
    let mut i: usize = 0;
    while i < index.entries.len()
        invariant
            i <= index.entries@.len(),
            idx == index.view_entries(),
            us == usages.view_entries(),
            unlogged_view(out@) == spec_unlogged(idx.take(i as int), us),
        decreases index.entries@.len() - i,
    {
        let subs = split_names(index.entries[i].name.as_slice());
        let size = index.entries[i].size;
        let ghost subsv = spec_split_names(idx[i as int].1);
        assert(views_of(subs@) == subsv);
        proof {
            assert(spec_unlogged_subs(subsv.take(0), size, us) =~= Seq::<(Seq<u8>, u64)>::empty());
            assert(unlogged_view(out@) =~= spec_unlogged(idx.take(i as int), us)
                + spec_unlogged_subs(subsv.take(0), size, us));
        }
        let mut j: usize = 0;
        while j < subs.len()
            invariant
                j <= subs@.len(),
                idx == index.view_entries(),
                us == usages.view_entries(),
                i < index.entries@.len(),
                views_of(subs@) == subsv,
                size == idx[i as int].2,
                unlogged_view(out@) == spec_unlogged(idx.take(i as int), us)
                    + spec_unlogged_subs(subsv.take(j as int), size, us),
            decreases subs@.len() - j,
        {
            proof {
                assert(subsv.take(j + 1).drop_last() =~= subsv.take(j as int));
                assert(subsv.take(j + 1).last() == subsv[j as int]);
                assert(subs@[j as int]@ == subsv[j as int]);
            }
            let ghost pre = spec_unlogged(idx.take(i as int), us);
            let ghost before = spec_unlogged_subs(subsv.take(j as int), size, us);
            proof {
                assert(spec_unlogged_subs(subsv.take(j + 1), size, us) =~= before + (
                if !spec_logged(us, subsv[j as int]) {
                    seq![(subsv[j as int], size)]
                } else {
                    Seq::<(Seq<u8>, u64)>::empty()
                }));
            }
            if !is_logged(usages, subs[j].as_slice()) {
                let name = subs[j].clone();
                assert(name@ == subsv[j as int]);
                let ghost ov = unlogged_view(out@);
                out.push(UnloggedRow { name, size });
                proof {
                    assert(unlogged_view(out@) =~= ov.push((subsv[j as int], size)));
                    assert(ov.push((subsv[j as int], size)) =~= pre + (before + seq![
                        (subsv[j as int], size),
                    ]));
                }
            } else {
                proof {
                    assert(unlogged_view(out@) =~= pre + (before
                        + Seq::<(Seq<u8>, u64)>::empty()));
                }
            }
            proof {
                assert(unlogged_view(out@) =~= spec_unlogged(idx.take(i as int), us)
                    + spec_unlogged_subs(subsv.take(j + 1), size, us));
            }
            j += 1;
        }
        proof {
            assert(subsv.take(subs@.len() as int) =~= subsv);
            assert(idx.take(i + 1).drop_last() =~= idx.take(i as int));
            assert(idx.take(i + 1).last() == idx[i as int]);
            assert(unlogged_view(out@) =~= spec_unlogged(idx.take(i + 1), us));
        }
        i += 1;
    }
    proof {
        assert(idx.take(index.entries@.len() as int) =~= idx);
    }
    out
}

/// The ascending-name order on unlogged rows.
pub open spec fn unlogged_order(a: (Seq<u8>, u64), b: (Seq<u8>, u64)) -> bool {
    lex_leq(a.0, b.0)
}

/// A sequence of unlogged rows in ascending name order.
pub open spec fn sorted_unlogged(s: Seq<(Seq<u8>, u64)>) -> bool {
    forall|i: int, j: int| 0 <= i < j < s.len() ==> unlogged_order(s[i], s[j])
}

/// `x` placed into the sorted sequence `s`, after every row whose name
/// does not come after `x`'s.
pub open spec fn spec_insert_unlogged(s: Seq<(Seq<u8>, u64)>, x: (Seq<u8>, u64)) -> Seq<
    (Seq<u8>, u64),
>
    decreases s.len(),
{
    if s.len() == 0 {
        seq![x]
    } else if unlogged_order(s[0], x) {
        seq![s[0]] + spec_insert_unlogged(s.drop_first(), x)
    } else {
        seq![x] + s
    }
}

/// The unlogged rows sorted by name, ascending, by stable insertion.
pub open spec fn spec_sort_unlogged(s: Seq<(Seq<u8>, u64)>) -> Seq<(Seq<u8>, u64)>
    decreases s.len(),
{
    if s.len() == 0 {
        Seq::empty()
    } else {
        spec_insert_unlogged(spec_sort_unlogged(s.drop_last()), s.last())
    }
}

proof fn lemma_insert_unlogged_at(s: Seq<(Seq<u8>, u64)>, x: (Seq<u8>, u64), p: int)
    requires
        0 <= p <= s.len(),
        forall|q: int| 0 <= q < p ==> unlogged_order(s[q], x),
        p < s.len() ==> !unlogged_order(s[p], x),
    ensures
        spec_insert_unlogged(s, x) =~= s.insert(p, x),
    decreases s.len(),
{
    if s.len() == 0 {
        assert(spec_insert_unlogged(s, x) =~= s.insert(0, x));
    } else if p == 0 {
        assert(seq![x] + s =~= s.insert(0, x));
    } else {
        lemma_insert_unlogged_at(s.drop_first(), x, p - 1);
        assert(seq![s[0]] + spec_insert_unlogged(s.drop_first(), x) =~= s.insert(p, x));
    }
}

proof fn lemma_insert_unlogged_members(s: Seq<(Seq<u8>, u64)>, x: (Seq<u8>, u64), k: int)
    requires
        0 <= k < spec_insert_unlogged(s, x).len(),
    ensures
        spec_insert_unlogged(s, x)[k] == x || exists|m: int|
            0 <= m < s.len() && spec_insert_unlogged(s, x)[k] == s[m],
    decreases s.len(),
{
    if s.len() == 0 {
    } else if unlogged_order(s[0], x) {
        if k > 0 {
            lemma_insert_unlogged_members(s.drop_first(), x, k - 1);
            let r1 = spec_insert_unlogged(s.drop_first(), x);
            if r1[k - 1] != x {
                let m = choose|m: int| 0 <= m < s.drop_first().len() && r1[k - 1]
                    == s.drop_first()[m];
                assert(spec_insert_unlogged(s, x)[k] == s[m + 1]);
            }
        } else {
            assert(spec_insert_unlogged(s, x)[0] == s[0]);
        }
    }
}

/// Law: inserting into a name-sorted sequence keeps it name-sorted.
pub proof fn lemma_insert_unlogged_sorted(s: Seq<(Seq<u8>, u64)>, x: (Seq<u8>, u64))
    requires
        sorted_unlogged(s),
    ensures
        sorted_unlogged(spec_insert_unlogged(s, x)),
    decreases s.len(),
{
    if s.len() == 0 {
    } else if unlogged_order(s[0], x) {
        lemma_insert_unlogged_sorted(s.drop_first(), x);
        let r = seq![s[0]] + spec_insert_unlogged(s.drop_first(), x);
        assert forall|i: int, j: int| 0 <= i < j < r.len() implies unlogged_order(
            r[i],
            r[j],
        ) by {
            if i == 0 {
                lemma_insert_unlogged_members(s.drop_first(), x, j - 1);
                let e = spec_insert_unlogged(s.drop_first(), x)[j - 1];
                if e == x {
                    assert(unlogged_order(s[0], x));
                } else {
                    let m = choose|m: int| 0 <= m < s.drop_first().len() && e == s.drop_first()[
                        m
                    ];
                    assert(unlogged_order(s[0], s[m + 1]));
                }
            }
        }
    } else {
        lemma_lex_leq_total(s[0].0, x.0);
        let r = seq![x] + s;
        assert forall|i: int, j: int| 0 <= i < j < r.len() implies unlogged_order(
            r[i],
            r[j],
        ) by {
            if i == 0 {
                if j == 1 {
                    assert(unlogged_order(x, s[0]));
                } else {
                    assert(unlogged_order(s[0], s[j - 1]));
                    lemma_lex_leq_trans(x.0, s[0].0, s[j - 1].0);
                }
            }
        }
    }
}

/// Law: sorting by name keeps the rows, as a multiset, and yields
/// ascending name order.
pub proof fn lemma_sort_unlogged_sorted(s: Seq<(Seq<u8>, u64)>)
    ensures
        sorted_unlogged(spec_sort_unlogged(s)),
    decreases s.len(),
{
    if s.len() > 0 {
        lemma_sort_unlogged_sorted(s.drop_last());
        lemma_insert_unlogged_sorted(spec_sort_unlogged(s.drop_last()), s.last());
    }
}

proof fn lemma_insert_unlogged_multiset(s: Seq<(Seq<u8>, u64)>, x: (Seq<u8>, u64))
    ensures
        spec_insert_unlogged(s, x).to_multiset() == s.to_multiset().insert(x),
    decreases s.len(),
{
    broadcast use vstd::seq_lib::group_to_multiset_ensures;

    if s.len() == 0 {
        assert(spec_insert_unlogged(s, x) =~= Seq::empty().push(x));
        assert(Seq::<(Seq<u8>, u64)>::empty().push(x).to_multiset() =~= s.to_multiset().insert(
            x,
        ));
    } else if unlogged_order(s[0], x) {
        lemma_insert_unlogged_multiset(s.drop_first(), x);
        assert(spec_insert_unlogged(s, x) =~= spec_insert_unlogged(s.drop_first(), x).insert(
            0,
            s[0],
        ));
        vstd::seq_lib::to_multiset_insert(spec_insert_unlogged(s.drop_first(), x), 0, s[0]);
        assert(s =~= s.drop_first().insert(0, s[0]));
        vstd::seq_lib::to_multiset_insert(s.drop_first(), 0, s[0]);
        assert(spec_insert_unlogged(s, x).to_multiset() =~= s.to_multiset().insert(x));
    } else {
        assert(spec_insert_unlogged(s, x) =~= s.insert(0, x));
        vstd::seq_lib::to_multiset_insert(s, 0, x);
    }
}

/// Law: sorting the unlogged rows preserves them, as a multiset.
pub proof fn lemma_sort_unlogged_permutes(s: Seq<(Seq<u8>, u64)>)
    ensures
        spec_sort_unlogged(s).to_multiset() == s.to_multiset(),
    decreases s.len(),
{
    broadcast use vstd::seq_lib::group_to_multiset_ensures;

    if s.len() > 0 {
        lemma_sort_unlogged_permutes(s.drop_last());
        lemma_insert_unlogged_multiset(spec_sort_unlogged(s.drop_last()), s.last());
        assert(s =~= s.drop_last().push(s.last()));
        assert(s.to_multiset() =~= spec_sort_unlogged(s).to_multiset());
    } else {
        assert(spec_sort_unlogged(s).to_multiset() =~= s.to_multiset());
    }
}

fn unlogged_order_exec(a: &UnloggedRow, b: &UnloggedRow) -> (r: bool)
    ensures
        r == unlogged_order(a@, b@),
{
    lex_leq_bytes(a.name.as_slice(), b.name.as_slice())
}

/// Sort unlogged rows by name, ascending.
pub fn sort_unlogged(v: &Vec<UnloggedRow>) -> (r: Vec<UnloggedRow>)
    ensures
        unlogged_view(r@) == spec_sort_unlogged(unlogged_view(v@)),
{
    let ghost all = unlogged_view(v@);
    let mut out: Vec<UnloggedRow> = Vec::new();
    let mut k: usize = 0;
    while k < v.len()
        invariant
            k <= v@.len(),
            all == unlogged_view(v@),
            unlogged_view(out@) == spec_sort_unlogged(all.take(k as int)),
        decreases v@.len() - k,
    {
        let x = v[k].clone();
        let mut p: usize = 0;
        while p < out.len() && unlogged_order_exec(&out[p], &x)
            invariant
                p <= out@.len(),
                x@ == all[k as int],
                unlogged_view(out@) == spec_sort_unlogged(all.take(k as int)),
                forall|q: int| 0 <= q < p ==> unlogged_order(unlogged_view(out@)[q], x@),
            decreases out@.len() - p,
        {
            p += 1;
        }
        proof {
            lemma_insert_unlogged_at(unlogged_view(out@), x@, p as int);
            assert(all.take(k + 1).drop_last() =~= all.take(k as int));
            assert(all.take(k + 1).last() == all[k as int]);
        }
        out.insert(p, x);
        proof {
            assert(unlogged_view(out@) =~= spec_insert_unlogged(
                spec_sort_unlogged(all.take(k as int)),
                all[k as int],
            ));
        }
        k += 1;
    }
    proof {
        assert(all.take(v@.len() as int) =~= all);
    }
    out
}

} // verus!

use crate::ascii::{
    gb_unit, gb_unit_bytes, hdr_last_used, hdr_last_used_bytes, hdr_model, hdr_model_bytes,
    hdr_size, hdr_size_bytes, hdr_usage_count, hdr_usage_count_bytes, mb_unit, mb_unit_bytes,
    title_active, title_active_bytes, title_deleted, title_deleted_bytes, title_unlogged,
    title_unlogged_bytes, unlogged_rule, unlogged_rule_bytes,
};
use chrono::TimeZone;

verus! {

/// `10 * n / unit`, rounded to the nearest integer, ties to even: the
/// size's value in tenths of a unit, as the fixed-point rendering shows it.
pub open spec fn round_tenths(n: nat, unit: nat) -> nat
    recommends
        unit > 0,
{
    let q = (10 * n) / unit;
    let r = (10 * n) % unit;
    if 2 * r > unit {
        q + 1
    } else if 2 * r < unit {
        q
    } else if q % 2 == 0 {
        q
    } else {
        q + 1
    }
}

/// A size rendered with one decimal digit in binary units: in GB when at
/// least 1 GiB, else in MB.
pub open spec fn spec_format_size(size: u64) -> Seq<u8> {
    if size >= 1073741824 {
        let t = round_tenths(size as nat, 1073741824);
        dec_of(t / 10) + seq![46u8] + dec_of(t % 10) + gb_unit()
    } else {
        let t = round_tenths(size as nat, 1048576);
        dec_of(t / 10) + seq![46u8] + dec_of(t % 10) + mb_unit()
    }
}

/// Render a size in binary units with one decimal digit.
pub fn format_size(size: u64) -> (r: Vec<u8>)
    ensures
        r@ == spec_format_size(size),
{
    let gib = size >= 1073741824;
    let ten: u128 = (size as u128) * 10;
    let unit: u128 = if gib {
        1073741824
    } else {
        1048576
    };
    let q = ten / unit;
    let rem = ten % unit;
    let t: u128 = if 2 * rem > unit {
        q + 1
    } else if 2 * rem < unit {
        q
    } else if q % 2 == 0 {
        q
    } else {
        q + 1
    };
    proof {
        vstd::arithmetic::div_mod::lemma_div_is_ordered_by_denominator(
            ten as int,
            1048576,
            unit as int,
        );
    }
    let whole = (t / 10) as u64;
    let digit = (t % 10) as u8;
    let mut out = u64_dec(whole);
    out.push(46);
    out.push(48 + digit);
    let mut unit_s = if gib {
        gb_unit_bytes()
    } else {
        mb_unit_bytes()
    };
    out.append(&mut unit_s);
    assert(out@ =~= spec_format_size(size));
    out
}

/// `n` spaces.
pub open spec fn spaces(n: nat) -> Seq<u8> {
    Seq::new(n, |i: int| 32u8)
}

/// `n` dashes.
pub open spec fn dashes(n: nat) -> Seq<u8> {
    Seq::new(n, |i: int| 45u8)
}

/// `s` left-aligned in a cell of width `w` (never truncated).
pub open spec fn pad_right(s: Seq<u8>, w: nat) -> Seq<u8> {
    if s.len() >= w {
        s
    } else {
        s + spaces((w - s.len()) as nat)
    }
}

/// `s` right-aligned in a cell of width `w` (never truncated).
pub open spec fn pad_left(s: Seq<u8>, w: nat) -> Seq<u8> {
    if s.len() >= w {
        s
    } else {
        spaces((w - s.len()) as nat) + s
    }
}

fn push_bytes(out: &mut Vec<u8>, s: &[u8])
    ensures
        final(out)@ == old(out)@ + s@,
{
    out.extend_from_slice(s);
    assert(final(out)@ =~= old(out)@ + s@);
}

fn push_spaces(out: &mut Vec<u8>, n: usize)
    ensures
        final(out)@ == old(out)@ + spaces(n as nat),
{
    let mut k: usize = 0;
    while k < n
        invariant
            k <= n,
            out@ == old(out)@ + spaces(k as nat),
        decreases n - k,
    {
        out.push(32);
        assert(out@ =~= old(out)@ + spaces((k + 1) as nat));
        k += 1;
    }
}

fn push_dashes(out: &mut Vec<u8>, n: usize)
    ensures
        final(out)@ == old(out)@ + dashes(n as nat),
{
    let mut k: usize = 0;
    while k < n
        invariant
            k <= n,
            out@ == old(out)@ + dashes(k as nat),
        decreases n - k,
    {
        out.push(45);
        assert(out@ =~= old(out)@ + dashes((k + 1) as nat));
        k += 1;
    }
}

fn push_pad_right(out: &mut Vec<u8>, s: &[u8], w: usize)
    ensures
        final(out)@ == old(out)@ + pad_right(s@, w as nat),
{
    push_bytes(out, s);
    if s.len() < w {
        push_spaces(out, w - s.len());
        assert(final(out)@ =~= old(out)@ + pad_right(s@, w as nat));
    }
}

fn push_pad_left(out: &mut Vec<u8>, s: &[u8], w: usize)
    ensures
        final(out)@ == old(out)@ + pad_left(s@, w as nat),
{
    if s.len() < w {
        push_spaces(out, w - s.len());
    }
    push_bytes(out, s);
    assert(final(out)@ =~= old(out)@ + pad_left(s@, w as nat));
}

/// The greater of two widths.
pub open spec fn max2(a: nat, b: nat) -> nat {
    if a >= b {
        a
    } else {
        b
    }
}

/// The length of the longest byte string in the sequence.
pub open spec fn max_len(ss: Seq<Seq<u8>>) -> nat
    decreases ss.len(),
{
    if ss.len() == 0 {
        0
    } else {
        max2(max_len(ss.drop_last()), ss.last().len())
    }
}

} // verus!

verus! {

/// One rendered row of a usage table: the display name, the date cell
/// already rendered as text, the usage count, and the size in bytes.
pub struct TableRow {
    pub name: Vec<u8>,
    pub date: Vec<u8>,
    pub usage_count: u64,
    pub size: u64,
}

impl View for TableRow {
    type V = (Seq<u8>, Seq<u8>, u64, u64);

    open spec fn view(&self) -> Self::V {
        (self.name@, self.date@, self.usage_count, self.size)
    }
}

/// The view of a sequence of table rows.
pub open spec fn rows_view(s: Seq<TableRow>) -> Seq<(Seq<u8>, Seq<u8>, u64, u64)> {
    s.map_values(|r: TableRow| r@)
}

/// The width of the Model column: the header or the widest name.
pub open spec fn name_width(names: Seq<Seq<u8>>) -> nat {
    max2(hdr_model().len(), max_len(names))
}

/// The width of the Usage Count column: the header or the widest count.
pub open spec fn count_width(rows: Seq<(Seq<u8>, Seq<u8>, u64, u64)>) -> nat {
    max2(hdr_usage_count().len(), max_len(rows.map_values(|r: (Seq<u8>, Seq<u8>, u64, u64)| dec_of(r.2 as nat))))
}

/// The width of the Size column of a usage table.
pub open spec fn size_width(rows: Seq<(Seq<u8>, Seq<u8>, u64, u64)>) -> nat {
    max2(hdr_size().len(), max_len(rows.map_values(|r: (Seq<u8>, Seq<u8>, u64, u64)| spec_format_size(r.3))))
}

/// One row of the active table: name, date, count and size cells,
/// separated by two spaces, ending in a newline.
pub open spec fn spec_active_row(
    r: (Seq<u8>, Seq<u8>, u64, u64),
    mw: nat,
    uw: nat,
    sw: nat,
) -> Seq<u8> {
    pad_right(r.0, mw) + spaces(2) + pad_right(r.1, 10) + spaces(2) + pad_left(
        dec_of(r.2 as nat),
        uw,
    ) + spaces(2) + pad_left(spec_format_size(r.3), sw) + seq![10u8]
}

/// The concatenated rows of the active table.
pub open spec fn spec_active_rows(
    rows: Seq<(Seq<u8>, Seq<u8>, u64, u64)>,
    mw: nat,
    uw: nat,
    sw: nat,
) -> Seq<u8>
    decreases rows.len(),
{
    if rows.len() == 0 {
        Seq::empty()
    } else {
        spec_active_rows(rows.drop_last(), mw, uw, sw) + spec_active_row(
            rows.last(),
            mw,
            uw,
            sw,
        )
    }
}

/// The active table: blank line, title, header line, separator line and
/// one line per row; nothing at all when there are no rows.
pub open spec fn spec_active_table(rows: Seq<(Seq<u8>, Seq<u8>, u64, u64)>) -> Seq<u8> {
    if rows.len() == 0 {
        Seq::empty()
    } else {
        let mw = name_width(rows.map_values(|r: (Seq<u8>, Seq<u8>, u64, u64)| r.0));
        let uw = count_width(rows);
        let sw = size_width(rows);
        seq![10u8] + title_active() + seq![10u8] + pad_right(hdr_model(), mw) + spaces(2)
            + pad_right(hdr_last_used(), 10) + spaces(2) + pad_left(hdr_usage_count(), uw)
            + spaces(2) + pad_left(hdr_size(), sw) + seq![10u8] + dashes(mw) + spaces(2)
            + dashes(10) + spaces(2) + dashes(uw) + spaces(2) + dashes(sw) + seq![10u8]
            + spec_active_rows(rows, mw, uw, sw)
    }
}

/// One row of the deleted table: name, date and count cells only.
pub open spec fn spec_deleted_row(
    r: (Seq<u8>, Seq<u8>, u64, u64),
    mw: nat,
    uw: nat,
) -> Seq<u8> {
    pad_right(r.0, mw) + spaces(2) + pad_right(r.1, 10) + spaces(2) + pad_left(
        dec_of(r.2 as nat),
        uw,
    ) + seq![10u8]
}

/// The concatenated rows of the deleted table.
pub open spec fn spec_deleted_rows(
    rows: Seq<(Seq<u8>, Seq<u8>, u64, u64)>,
    mw: nat,
    uw: nat,
) -> Seq<u8>
    decreases rows.len(),
{
    if rows.len() == 0 {
        Seq::empty()
    } else {
        spec_deleted_rows(rows.drop_last(), mw, uw) + spec_deleted_row(rows.last(), mw, uw)
    }
}

/// The deleted table: like the active table but with no Size column;
/// nothing at all when there are no rows.
pub open spec fn spec_deleted_table(rows: Seq<(Seq<u8>, Seq<u8>, u64, u64)>) -> Seq<u8> {
    if rows.len() == 0 {
        Seq::empty()
    } else {
        let mw = name_width(rows.map_values(|r: (Seq<u8>, Seq<u8>, u64, u64)| r.0));
        let uw = count_width(rows);
        seq![10u8] + title_deleted() + seq![10u8] + pad_right(hdr_model(), mw) + spaces(2)
            + pad_right(hdr_last_used(), 10) + spaces(2) + pad_left(hdr_usage_count(), uw)
            + seq![10u8] + dashes(mw) + spaces(2) + dashes(10) + spaces(2) + dashes(uw)
            + seq![10u8] + spec_deleted_rows(rows, mw, uw)
    }
}

/// The width of the Size column of the unlogged table.
pub open spec fn unlogged_size_width(rows: Seq<(Seq<u8>, u64)>) -> nat {
    max2(hdr_size().len(), max_len(rows.map_values(|r: (Seq<u8>, u64)| spec_format_size(r.1))))
}

/// One row of the unlogged table: name and size cells.
pub open spec fn spec_unlogged_row(r: (Seq<u8>, u64), mw: nat, sw: nat) -> Seq<u8> {
    pad_right(r.0, mw) + spaces(2) + pad_left(spec_format_size(r.1), sw) + seq![10u8]
}

/// The concatenated rows of the unlogged table.
pub open spec fn spec_unlogged_rows(rows: Seq<(Seq<u8>, u64)>, mw: nat, sw: nat) -> Seq<u8>
    decreases rows.len(),
{
    if rows.len() == 0 {
        Seq::empty()
    } else {
        spec_unlogged_rows(rows.drop_last(), mw, sw) + spec_unlogged_row(rows.last(), mw, sw)
    }
}

/// The unlogged table: blank line, title, a fixed rule line, header,
/// separator and one line per row; nothing at all when there are no rows.
pub open spec fn spec_unlogged_table(rows: Seq<(Seq<u8>, u64)>) -> Seq<u8> {
    if rows.len() == 0 {
        Seq::empty()
    } else {
        let mw = name_width(rows.map_values(|r: (Seq<u8>, u64)| r.0));
        let sw = unlogged_size_width(rows);
        seq![10u8] + title_unlogged() + seq![10u8] + unlogged_rule() + seq![10u8] + pad_right(
            hdr_model(),
            mw,
        ) + spaces(2) + pad_left(hdr_size(), sw) + seq![10u8] + dashes(mw) + spaces(2)
            + dashes(sw) + seq![10u8] + spec_unlogged_rows(rows, mw, sw)
    }
}

/// Law: a table with no rows renders as nothing at all: its title,
/// header and separator are suppressed with it.
pub proof fn lemma_empty_tables_suppressed()
    ensures
        spec_active_table(Seq::empty()) == Seq::<u8>::empty(),
        spec_deleted_table(Seq::empty()) == Seq::<u8>::empty(),
        spec_unlogged_table(Seq::empty()) == Seq::<u8>::empty(),
{
}

} // verus!

verus! {

fn width_of_names(rows: &Vec<TableRow>) -> (w: usize)
    ensures
        w as nat == name_width(rows_view(rows@).map_values(|r: (Seq<u8>, Seq<u8>, u64, u64)| r.0)),
{
    let ghost names = rows_view(rows@).map_values(|r: (Seq<u8>, Seq<u8>, u64, u64)| r.0);
    let hdr = hdr_model_bytes();
    let mut w = hdr.len();
    assert(w as nat == max2(hdr_model().len(), max_len(names.take(0))));
    let mut i: usize = 0;
    while i < rows.len()
        invariant
            i <= rows@.len(),
            names == rows_view(rows@).map_values(|r: (Seq<u8>, Seq<u8>, u64, u64)| r.0),
            w as nat == max2(hdr_model().len(), max_len(names.take(i as int))),
        decreases rows@.len() - i,
    {
        proof {
            assert(names.take(i + 1).drop_last() =~= names.take(i as int));
            assert(names.take(i + 1).last() == names[i as int]);
            assert(names[i as int] == rows@[i as int].name@);
        }
        if rows[i].name.len() > w {
            w = rows[i].name.len();
        }
        assert(w as nat == max2(hdr_model().len(), max_len(names.take(i + 1))));
        i += 1;
    }
    proof {
        assert(names.take(rows@.len() as int) =~= names);
    }
    w
}

fn width_of_counts(rows: &Vec<TableRow>) -> (w: usize)
    ensures
        w as nat == count_width(rows_view(rows@)),
{
    let ghost lens = rows_view(rows@).map_values(
        |r: (Seq<u8>, Seq<u8>, u64, u64)| dec_of(r.2 as nat),
    );
    let hdr = hdr_usage_count_bytes();
    let mut w = hdr.len();
    assert(w as nat == max2(hdr_usage_count().len(), max_len(lens.take(0))));
    let mut i: usize = 0;
    while i < rows.len()
        invariant
            i <= rows@.len(),
            lens == rows_view(rows@).map_values(
                |r: (Seq<u8>, Seq<u8>, u64, u64)| dec_of(r.2 as nat),
            ),
            w as nat == max2(hdr_usage_count().len(), max_len(lens.take(i as int))),
        decreases rows@.len() - i,
    {
        proof {
            assert(lens.take(i + 1).drop_last() =~= lens.take(i as int));
            assert(lens.take(i + 1).last() == lens[i as int]);
            assert(lens[i as int] == dec_of(rows@[i as int].usage_count as nat));
        }
        let d = u64_dec(rows[i].usage_count);
        if d.len() > w {
            w = d.len();
        }
        assert(w as nat == max2(hdr_usage_count().len(), max_len(lens.take(i + 1))));
        i += 1;
    }
    proof {
        assert(lens.take(rows@.len() as int) =~= lens);
    }
    w
}

fn width_of_sizes(rows: &Vec<TableRow>) -> (w: usize)
    ensures
        w as nat == size_width(rows_view(rows@)),
{
    let ghost lens = rows_view(rows@).map_values(
        |r: (Seq<u8>, Seq<u8>, u64, u64)| spec_format_size(r.3),
    );
    let hdr = hdr_size_bytes();
    let mut w = hdr.len();
    assert(w as nat == max2(hdr_size().len(), max_len(lens.take(0))));
    let mut i: usize = 0;
    while i < rows.len()
        invariant
            i <= rows@.len(),
            lens == rows_view(rows@).map_values(
                |r: (Seq<u8>, Seq<u8>, u64, u64)| spec_format_size(r.3),
            ),
            w as nat == max2(hdr_size().len(), max_len(lens.take(i as int))),
        decreases rows@.len() - i,
    {
        proof {
            assert(lens.take(i + 1).drop_last() =~= lens.take(i as int));
            assert(lens.take(i + 1).last() == lens[i as int]);
            assert(lens[i as int] == spec_format_size(rows@[i as int].size));
        }
        let d = format_size(rows[i].size);
        if d.len() > w {
            w = d.len();
        }
        assert(w as nat == max2(hdr_size().len(), max_len(lens.take(i + 1))));
        i += 1;
    }
    proof {
        assert(lens.take(rows@.len() as int) =~= lens);
    }
    w
}

/// Render the Active Models table.
#[verifier::rlimit(60)]
pub fn render_active_table(rows: &Vec<TableRow>) -> (r: Vec<u8>)
    ensures
        r@ == spec_active_table(rows_view(rows@)),
{
    let ghost rv = rows_view(rows@);
    if rows.len() == 0 {
        let out: Vec<u8> = Vec::new();
        assert(out@ =~= spec_active_table(rv));
        return out;
    }
    let mw = width_of_names(rows);
    let uw = width_of_counts(rows);
    let sw = width_of_sizes(rows);
    let mut out: Vec<u8> = Vec::new();
    out.push(10);
    let title = title_active_bytes();
    push_bytes(&mut out, title.as_slice());
    out.push(10);
    let hm = hdr_model_bytes();
    let hl = hdr_last_used_bytes();
    let hu = hdr_usage_count_bytes();
    let hs = hdr_size_bytes();
    push_pad_right(&mut out, hm.as_slice(), mw);
    push_spaces(&mut out, 2);
    push_pad_right(&mut out, hl.as_slice(), 10);
    push_spaces(&mut out, 2);
    push_pad_left(&mut out, hu.as_slice(), uw);
    push_spaces(&mut out, 2);
    push_pad_left(&mut out, hs.as_slice(), sw);
    out.push(10);
    push_dashes(&mut out, mw);
    push_spaces(&mut out, 2);
    push_dashes(&mut out, 10);
    push_spaces(&mut out, 2);
    push_dashes(&mut out, uw);
    push_spaces(&mut out, 2);
    push_dashes(&mut out, sw);
    out.push(10);
    let ghost header = out@;
    proof {
        assert(header =~= seq![10u8] + title_active() + seq![10u8] + pad_right(
            hdr_model(),
            mw as nat,
        ) + spaces(2) + pad_right(hdr_last_used(), 10) + spaces(2) + pad_left(
            hdr_usage_count(),
            uw as nat,
        ) + spaces(2) + pad_left(hdr_size(), sw as nat) + seq![10u8] + dashes(mw as nat)
            + spaces(2) + dashes(10) + spaces(2) + dashes(uw as nat) + spaces(2) + dashes(
            sw as nat,
        ) + seq![10u8]);
        assert(out@ =~= header + spec_active_rows(rv.take(0), mw as nat, uw as nat, sw as nat));
    }
    let mut i: usize = 0;
    while i < rows.len()
        invariant
            i <= rows@.len(),
            rv == rows_view(rows@),
            mw as nat == name_width(rv.map_values(|r: (Seq<u8>, Seq<u8>, u64, u64)| r.0)),
            uw as nat == count_width(rv),
            sw as nat == size_width(rv),
            out@ == header + spec_active_rows(rv.take(i as int), mw as nat, uw as nat, sw as nat),
        decreases rows@.len() - i,
    {
        proof {
            assert(rv.take(i + 1).drop_last() =~= rv.take(i as int));
            assert(rv.take(i + 1).last() == rv[i as int]);
        }
        push_pad_right(&mut out, rows[i].name.as_slice(), mw);
        push_spaces(&mut out, 2);
        push_pad_right(&mut out, rows[i].date.as_slice(), 10);
        push_spaces(&mut out, 2);
        let cnt = u64_dec(rows[i].usage_count);
        push_pad_left(&mut out, cnt.as_slice(), uw);
        push_spaces(&mut out, 2);
        let sz = format_size(rows[i].size);
        push_pad_left(&mut out, sz.as_slice(), sw);
        out.push(10);
        proof {
            assert(out@ =~= header + spec_active_rows(
                rv.take(i + 1),
                mw as nat,
                uw as nat,
                sw as nat,
            ));
        }
        i += 1;
    }
    proof {
        assert(rv.take(rows@.len() as int) =~= rv);
        assert(out@ =~= spec_active_table(rv));
    }
    out
}

/// Render the Deleted Models table.
#[verifier::rlimit(60)]
pub fn render_deleted_table(rows: &Vec<TableRow>) -> (r: Vec<u8>)
    ensures
        r@ == spec_deleted_table(rows_view(rows@)),
{
    let ghost rv = rows_view(rows@);
    if rows.len() == 0 {
        let out: Vec<u8> = Vec::new();
        assert(out@ =~= spec_deleted_table(rv));
        return out;
    }
    let mw = width_of_names(rows);
    let uw = width_of_counts(rows);
    let mut out: Vec<u8> = Vec::new();
    out.push(10);
    let title = title_deleted_bytes();
    push_bytes(&mut out, title.as_slice());
    out.push(10);
    let hm = hdr_model_bytes();
    let hl = hdr_last_used_bytes();
    let hu = hdr_usage_count_bytes();
    push_pad_right(&mut out, hm.as_slice(), mw);
    push_spaces(&mut out, 2);
    push_pad_right(&mut out, hl.as_slice(), 10);
    push_spaces(&mut out, 2);
    push_pad_left(&mut out, hu.as_slice(), uw);
    out.push(10);
    push_dashes(&mut out, mw);
    push_spaces(&mut out, 2);
    push_dashes(&mut out, 10);
    push_spaces(&mut out, 2);
    push_dashes(&mut out, uw);
    out.push(10);
    let ghost header = out@;
    proof {
        assert(header =~= seq![10u8] + title_deleted() + seq![10u8] + pad_right(
            hdr_model(),
            mw as nat,
        ) + spaces(2) + pad_right(hdr_last_used(), 10) + spaces(2) + pad_left(
            hdr_usage_count(),
            uw as nat,
        ) + seq![10u8] + dashes(mw as nat) + spaces(2) + dashes(10) + spaces(2) + dashes(
            uw as nat,
        ) + seq![10u8]);
        assert(out@ =~= header + spec_deleted_rows(rv.take(0), mw as nat, uw as nat));
    }
    let mut i: usize = 0;
    while i < rows.len()
        invariant
            i <= rows@.len(),
            rv == rows_view(rows@),
            mw as nat == name_width(rv.map_values(|r: (Seq<u8>, Seq<u8>, u64, u64)| r.0)),
            uw as nat == count_width(rv),
            out@ == header + spec_deleted_rows(rv.take(i as int), mw as nat, uw as nat),
        decreases rows@.len() - i,
    {
        proof {
            assert(rv.take(i + 1).drop_last() =~= rv.take(i as int));
            assert(rv.take(i + 1).last() == rv[i as int]);
        }
        push_pad_right(&mut out, rows[i].name.as_slice(), mw);
        push_spaces(&mut out, 2);
        push_pad_right(&mut out, rows[i].date.as_slice(), 10);
        push_spaces(&mut out, 2);
        let cnt = u64_dec(rows[i].usage_count);
        push_pad_left(&mut out, cnt.as_slice(), uw);
        out.push(10);
        proof {
            assert(out@ =~= header + spec_deleted_rows(rv.take(i + 1), mw as nat, uw as nat));
        }
        i += 1;
    }
    proof {
        assert(rv.take(rows@.len() as int) =~= rv);
        assert(out@ =~= spec_deleted_table(rv));
    }
    out
}

fn width_of_unlogged_names(rows: &Vec<UnloggedRow>) -> (w: usize)
    ensures
        w as nat == name_width(unlogged_view(rows@).map_values(|r: (Seq<u8>, u64)| r.0)),
{
    let ghost names = unlogged_view(rows@).map_values(|r: (Seq<u8>, u64)| r.0);
    let hdr = hdr_model_bytes();
    let mut w = hdr.len();
    assert(w as nat == max2(hdr_model().len(), max_len(names.take(0))));
    let mut i: usize = 0;
    while i < rows.len()
        invariant
            i <= rows@.len(),
            names == unlogged_view(rows@).map_values(|r: (Seq<u8>, u64)| r.0),
            w as nat == max2(hdr_model().len(), max_len(names.take(i as int))),
        decreases rows@.len() - i,
    {
        proof {
            assert(names.take(i + 1).drop_last() =~= names.take(i as int));
            assert(names.take(i + 1).last() == names[i as int]);
            assert(names[i as int] == rows@[i as int].name@);
        }
        if rows[i].name.len() > w {
            w = rows[i].name.len();
        }
        assert(w as nat == max2(hdr_model().len(), max_len(names.take(i + 1))));
        i += 1;
    }
    proof {
        assert(names.take(rows@.len() as int) =~= names);
    }
    w
}

fn width_of_unlogged_sizes(rows: &Vec<UnloggedRow>) -> (w: usize)
    ensures
        w as nat == unlogged_size_width(unlogged_view(rows@)),
{
    let ghost lens = unlogged_view(rows@).map_values(|r: (Seq<u8>, u64)| spec_format_size(r.1));
    let hdr = hdr_size_bytes();
    let mut w = hdr.len();
    assert(w as nat == max2(hdr_size().len(), max_len(lens.take(0))));
    let mut i: usize = 0;
    while i < rows.len()
        invariant
            i <= rows@.len(),
            lens == unlogged_view(rows@).map_values(|r: (Seq<u8>, u64)| spec_format_size(r.1)),
            w as nat == max2(hdr_size().len(), max_len(lens.take(i as int))),
        decreases rows@.len() - i,
    {
        proof {
            assert(lens.take(i + 1).drop_last() =~= lens.take(i as int));
            assert(lens.take(i + 1).last() == lens[i as int]);
            assert(lens[i as int] == spec_format_size(rows@[i as int].size));
        }
        let d = format_size(rows[i].size);
        if d.len() > w {
            w = d.len();
        }
        assert(w as nat == max2(hdr_size().len(), max_len(lens.take(i + 1))));
        i += 1;
    }
    proof {
        assert(lens.take(rows@.len() as int) =~= lens);
    }
    w
}

/// Render the Unlogged Models table.
#[verifier::rlimit(60)]
pub fn render_unlogged_table(rows: &Vec<UnloggedRow>) -> (r: Vec<u8>)
    ensures
        r@ == spec_unlogged_table(unlogged_view(rows@)),
{
    let ghost rv = unlogged_view(rows@);
    if rows.len() == 0 {
        let out: Vec<u8> = Vec::new();
        assert(out@ =~= spec_unlogged_table(rv));
        return out;
    }
    let mw = width_of_unlogged_names(rows);
    let sw = width_of_unlogged_sizes(rows);
    let mut out: Vec<u8> = Vec::new();
    out.push(10);
    let title = title_unlogged_bytes();
    push_bytes(&mut out, title.as_slice());
    out.push(10);
    let rule = unlogged_rule_bytes();
    push_bytes(&mut out, rule.as_slice());
    out.push(10);
    let hm = hdr_model_bytes();
    let hs = hdr_size_bytes();
    push_pad_right(&mut out, hm.as_slice(), mw);
    push_spaces(&mut out, 2);
    push_pad_left(&mut out, hs.as_slice(), sw);
    out.push(10);
    push_dashes(&mut out, mw);
    push_spaces(&mut out, 2);
    push_dashes(&mut out, sw);
    out.push(10);
    let ghost header = out@;
    proof {
        assert(header =~= seq![10u8] + title_unlogged() + seq![10u8] + unlogged_rule() + seq![
            10u8,
        ] + pad_right(hdr_model(), mw as nat) + spaces(2) + pad_left(hdr_size(), sw as nat)
            + seq![10u8] + dashes(mw as nat) + spaces(2) + dashes(sw as nat) + seq![10u8]);
        assert(out@ =~= header + spec_unlogged_rows(rv.take(0), mw as nat, sw as nat));
    }
    let mut i: usize = 0;
    while i < rows.len()
        invariant
            i <= rows@.len(),
            rv == unlogged_view(rows@),
            mw as nat == name_width(rv.map_values(|r: (Seq<u8>, u64)| r.0)),
            sw as nat == unlogged_size_width(rv),
            out@ == header + spec_unlogged_rows(rv.take(i as int), mw as nat, sw as nat),
        decreases rows@.len() - i,
    {
        proof {
            assert(rv.take(i + 1).drop_last() =~= rv.take(i as int));
            assert(rv.take(i + 1).last() == rv[i as int]);
        }
        push_pad_right(&mut out, rows[i].name.as_slice(), mw);
        push_spaces(&mut out, 2);
        let sz = format_size(rows[i].size);
        push_pad_left(&mut out, sz.as_slice(), sw);
        out.push(10);
        proof {
            assert(out@ =~= header + spec_unlogged_rows(rv.take(i + 1), mw as nat, sw as nat));
        }
        i += 1;
    }
    proof {
        assert(rv.take(rows@.len() as int) =~= rv);
        assert(out@ =~= spec_unlogged_table(rv));
    }
    out
}

/// Assemble the full report from its three rendered tables and the final
/// blank line.
pub fn render_report(
    active: &Vec<TableRow>,
    unlogged: &Vec<UnloggedRow>,
    deleted: &Vec<TableRow>,
) -> (r: Vec<u8>)
    ensures
        r@ == spec_active_table(rows_view(active@)) + spec_unlogged_table(
            unlogged_view(unlogged@),
        ) + spec_deleted_table(rows_view(deleted@)) + seq![10u8],
{
    let mut out = render_active_table(active);
    let mut u = render_unlogged_table(unlogged);
    out.append(&mut u);
    let mut d = render_deleted_table(deleted);
    out.append(&mut d);
    out.push(10);
    assert(out@ =~= spec_active_table(rows_view(active@)) + spec_unlogged_table(
        unlogged_view(unlogged@),
    ) + spec_deleted_table(rows_view(deleted@)) + seq![10u8]);
    out
}

} // verus!

verus! {

/// Relies on chrono::TimeZone::timestamp_millis_opt on the local zone and
/// DateTime::format with `%Y-%m-%d`: renders the instant as a local
/// calendar date, which depends on the machine's time zone; an instant
/// out of chrono's range renders as nothing.
#[verifier::external_body]
fn format_local_date(millis: i64) -> (r: Vec<u8>)
{
    match chrono::Local.timestamp_millis_opt(millis).earliest() {
        Some(dt) => dt.format("%Y-%m-%d").to_string().into_bytes(),
        None => Vec::new(),
    }
}

/// Usage records paired with their rendered date cells: what the date
/// column shows depends on the machine's time zone, so the dates enter
/// the report's specification as a parameter.
pub open spec fn spec_rows_with_dates(
    us: Seq<(Seq<u8>, i64, u64, u64)>,
    dates: Seq<Seq<u8>>,
) -> Seq<(Seq<u8>, Seq<u8>, u64, u64)> {
    Seq::new(
        us.len(),
        |i: int|
            (
                us[i].0,
                if 0 <= i < dates.len() {
                    dates[i]
                } else {
                    Seq::empty()
                },
                us[i].2,
                us[i].3,
            ),
    )
}

fn rows_with_dates(us: &Vec<ModelUsage>) -> (r: (Vec<TableRow>, Ghost<Seq<Seq<u8>>>))
    ensures
        rows_view(r.0@) == spec_rows_with_dates(usages_view(us@), r.1@),
        r.1@.len() == us@.len(),
{
    let mut rows: Vec<TableRow> = Vec::new();
    let ghost mut dates: Seq<Seq<u8>> = Seq::empty();
    let mut i: usize = 0;
    while i < us.len()
        invariant
            i <= us@.len(),
            dates.len() == i,
            rows_view(rows@) == spec_rows_with_dates(usages_view(us@).take(i as int), dates),
        decreases us@.len() - i,
    {
        let u = &us[i];
        let date = format_local_date(u.last_used);
        let ghost pre_dates = dates;
        let ghost prev = rows_view(rows@);
        proof {
            dates = dates.push(date@);
        }
        rows.push(
            TableRow {
                name: u.name.clone(),
                date,
                usage_count: u.usage_count,
                size: u.size,
            },
        );
        proof {
            let gv = usages_view(us@);
            assert(prev.len() == i);
            assert(rows@.len() == i + 1);
            assert forall|k: int| 0 <= k < i + 1 implies #[trigger] rows_view(rows@)[k]
                == spec_rows_with_dates(gv.take(i + 1), dates)[k] by {
                assert(rows_view(rows@).len() == i + 1);
                if k < i as int {
                    assert(rows_view(rows@)[k] == prev[k]);
                    assert(prev[k] == spec_rows_with_dates(gv.take(i as int), pre_dates)[k]);
                    assert(gv.take(i as int)[k] == gv.take(i + 1)[k]);
                    assert(dates[k] == pre_dates[k]);
                } else {
                    assert(rows_view(rows@)[k] == rows@[k]@);
                    assert(gv.take(i + 1)[k] == us@[k]@);
                    assert(dates[k] == rows@[k].date@);
                }
            }
            assert(rows_view(rows@) =~= spec_rows_with_dates(gv.take(i + 1), dates));
        }
        i += 1;
    }
    proof {
        assert(usages_view(us@).take(us@.len() as int) =~= usages_view(us@));
        assert(rows_view(rows@) =~= spec_rows_with_dates(usages_view(us@), dates));
    }
    (rows, Ghost(dates))
}

/// The whole report over the index and the usage records, given the two
/// usage tables' rendered date cells: active records sorted into report
/// order, then the sorted unlogged rows, then deleted records sorted into
/// report order, then a final blank line.
pub open spec fn spec_report(
    idx: Seq<(Seq<u8>, Seq<u8>, u64)>,
    us: Seq<(Seq<u8>, i64, u64, u64)>,
    active_dates: Seq<Seq<u8>>,
    deleted_dates: Seq<Seq<u8>>,
) -> Seq<u8> {
    let act = spec_sort_usages(spec_partition(us, false));
    let del = spec_sort_usages(spec_partition(us, true));
    let unl = spec_sort_unlogged(spec_unlogged(idx, us));
    spec_active_table(spec_rows_with_dates(act, active_dates)) + spec_unlogged_table(unl)
        + spec_deleted_table(spec_rows_with_dates(del, deleted_dates)) + seq![10u8]
}

/// Build the whole report: partition the usage records by the deleted
/// naming convention, sort each part into report order, compute and sort
/// the unlogged rows, and render the three tables. The date cells come
/// from the machine's local time zone; everything else is pinned by the
/// report's specification.
pub fn build_report(index: &crate::manifest::ModelIndex, usage: &UsageTable) -> (r: Vec<u8>)
    ensures
        exists|ad: Seq<Seq<u8>>, dd: Seq<Seq<u8>>|
            ad.len() == spec_sort_usages(spec_partition(usage.view_entries(), false)).len()
                && dd.len() == spec_sort_usages(spec_partition(usage.view_entries(), true)).len()
                && r@ == #[trigger] spec_report(index.view_entries(), usage.view_entries(), ad, dd),
{
    let (act, del) = partition_usages(usage);
    let act_sorted = sort_usages(&act);
    let del_sorted = sort_usages(&del);
    let unl = unlogged_rows(index, usage);
    let unl_sorted = sort_unlogged(&unl);
    let (arows, ad) = rows_with_dates(&act_sorted);
    let (drows, dd) = rows_with_dates(&del_sorted);
    let out = render_report(&arows, &unl_sorted, &drows);
    proof {
        assert(ad@.len() == spec_sort_usages(
            spec_partition(usage.view_entries(), false),
        ).len());
        assert(dd@.len() == spec_sort_usages(spec_partition(usage.view_entries(), true)).len());
        assert(out@ == spec_report(index.view_entries(), usage.view_entries(), ad@, dd@));
    }
    out
}

} // verus!

verus! {

proof fn lemma_unlogged_subs_excludes(
    subs: Seq<Seq<u8>>,
    size: u64,
    usages: Seq<(Seq<u8>, i64, u64, u64)>,
    k: int,
)
    requires
        0 <= k < spec_unlogged_subs(subs, size, usages).len(),
    ensures
        !spec_logged(usages, spec_unlogged_subs(subs, size, usages)[k].0),
        spec_unlogged_subs(subs, size, usages)[k].1 == size,
    decreases subs.len(),
{
    if subs.len() > 0 {
        let rec = spec_unlogged_subs(subs.drop_last(), size, usages);
        if k < rec.len() {
            lemma_unlogged_subs_excludes(subs.drop_last(), size, usages, k);
        }
    }
}

/// Law: every row of the unlogged table names a model that no usage
/// record covers: its name is a sub-name of no record's joined name.
pub proof fn lemma_unlogged_excludes_logged(
    entries: Seq<(Seq<u8>, Seq<u8>, u64)>,
    usages: Seq<(Seq<u8>, i64, u64, u64)>,
    k: int,
)
    requires
        0 <= k < spec_unlogged(entries, usages).len(),
    ensures
        !spec_logged(usages, spec_unlogged(entries, usages)[k].0),
    decreases entries.len(),
{
    if entries.len() > 0 {
        let rec = spec_unlogged(entries.drop_last(), usages);
        if k < rec.len() {
            lemma_unlogged_excludes_logged(entries.drop_last(), usages, k);
        } else {
            lemma_unlogged_subs_excludes(
                spec_split_names(entries.last().1),
                entries.last().2,
                usages,
                k - rec.len(),
            );
        }
    }
}

proof fn lemma_unlogged_subs_includes(
    subs: Seq<Seq<u8>>,
    size: u64,
    usages: Seq<(Seq<u8>, i64, u64, u64)>,
    j: int,
)
    requires
        0 <= j < subs.len(),
        !spec_logged(usages, subs[j]),
    ensures
        spec_unlogged_subs(subs, size, usages).contains((subs[j], size)),
    decreases subs.len(),
{
    if j < subs.len() - 1 {
        lemma_unlogged_subs_includes(subs.drop_last(), size, usages, j);
        let rec = spec_unlogged_subs(subs.drop_last(), size, usages);
        let m = choose|m: int| 0 <= m < rec.len() && rec[m] == (subs.drop_last()[j], size);
        assert(spec_unlogged_subs(subs, size, usages)[m] == (subs[j], size));
    } else {
        let r = spec_unlogged_subs(subs, size, usages);
        assert(r[r.len() - 1] == (subs[j], size));
    }
}

/// Law: every sub-name of an index entry that no usage record covers
/// stands in the unlogged rows, with that entry's size.
pub proof fn lemma_unlogged_includes_unlogged_subname(
    entries: Seq<(Seq<u8>, Seq<u8>, u64)>,
    usages: Seq<(Seq<u8>, i64, u64, u64)>,
    i: int,
    j: int,
)
    requires
        0 <= i < entries.len(),
        0 <= j < spec_split_names(entries[i].1).len(),
        !spec_logged(usages, spec_split_names(entries[i].1)[j]),
    ensures
        spec_unlogged(entries, usages).contains(
            (spec_split_names(entries[i].1)[j], entries[i].2),
        ),
    decreases entries.len(),
{
    let sub = spec_split_names(entries[i].1)[j];
    if i < entries.len() - 1 {
        lemma_unlogged_includes_unlogged_subname(entries.drop_last(), usages, i, j);
        let rec = spec_unlogged(entries.drop_last(), usages);
        let m = choose|m: int|
            0 <= m < rec.len() && rec[m] == (
                spec_split_names(entries.drop_last()[i].1)[j],
                entries.drop_last()[i].2,
            );
        assert(spec_unlogged(entries, usages)[m] == (sub, entries[i].2));
    } else {
        lemma_unlogged_subs_includes(
            spec_split_names(entries[i].1),
            entries[i].2,
            usages,
            j,
        );
        let part = spec_unlogged_subs(spec_split_names(entries[i].1), entries[i].2, usages);
        let m = choose|m: int| 0 <= m < part.len() && part[m] == (sub, entries[i].2);
        let rec = spec_unlogged(entries.drop_last(), usages);
        assert(spec_unlogged(entries, usages)[rec.len() + m] == (sub, entries[i].2));
    }
}

} // verus!

verus! {

/// Law: the synthetic name of a hash with no manifest always carries the
/// deleted suffix, so such usage always lands in the Deleted table.
pub proof fn lemma_fallback_name_is_deleted(h: Seq<u8>)
    ensures
        is_deleted_name(crate::logs::spec_fallback_name(h)),
{
    let n = crate::logs::spec_fallback_name(h);
    assert(n.subrange(n.len() - deleted_suffix().len(), n.len() as int) =~= deleted_suffix());
}

} // verus!
