//! Ordering rows: the stable sort that both the inventory and the visible
//! rows are put through, as a mathematical function and as code.
//!
//! The sort works on rows that each stand beside the text by which they are
//! ordered. The key of a row is its name, or its name in lowercase.

use vstd::prelude::*;
use vstd::seq_lib::{to_multiset_build, to_multiset_insert};
use crate::model::{PackageRow, RowView, views};
use crate::text::{
    at_or_before, lemma_lex_le_total, lemma_lex_le_transitive, lex_le, lowercase_of, names,
    to_lowercase,
};

verus! {

/// A row beside the text by which it is ordered.
pub struct Keyed {
    pub key: Seq<char>,
    pub row: RowView,
}

/// The rows, each beside the key of the same index.
pub open spec fn keyed(rows: Seq<RowView>, keys: Seq<Seq<char>>) -> Seq<Keyed> {
    Seq::new(rows.len(), |i: int| Keyed { key: keys[i], row: rows[i] })
}

/// The rows without their keys.
pub open spec fn rows_of(pairs: Seq<Keyed>) -> Seq<RowView> {
    Seq::new(pairs.len(), |i: int| pairs[i].row)
}

/// Every key is at or before each key that follows it.
pub open spec fn in_order(pairs: Seq<Keyed>) -> bool {
    forall|i: int, j: int| 0 <= i < j < pairs.len() ==> lex_le(pairs[i].key, pairs[j].key)
}

/// Where a row with the key `key` goes: behind the last row whose key is at
/// or before it.
pub open spec fn slot(pairs: Seq<Keyed>, key: Seq<char>) -> int
    decreases pairs.len(),
{
    if pairs.len() == 0 {
        0
    } else if lex_le(pairs.last().key, key) {
        pairs.len() as int
    } else {
        slot(pairs.drop_last(), key)
    }
}

/// The rows with `item` put in at its slot.
pub open spec fn placed(pairs: Seq<Keyed>, item: Keyed) -> Seq<Keyed> {
    pairs.insert(slot(pairs, item.key), item)
}

/// The rows in ascending order of their keys; rows with equal keys keep the
/// order in which they came.
pub open spec fn arranged(pairs: Seq<Keyed>) -> Seq<Keyed>
    decreases pairs.len(),
{
    if pairs.len() == 0 {
        Seq::<Keyed>::empty()
    } else {
        placed(arranged(pairs.drop_last()), pairs.last())
    }
}

/// The rows in ascending order of the keys given beside them.
pub open spec fn sorted_by_keys(rows: Seq<RowView>, keys: Seq<Seq<char>>) -> Seq<RowView> {
    rows_of(arranged(keyed(rows, keys)))
}

/// The text by which a row is ordered: its name, lowercased where `fold` is
/// set.
pub open spec fn sort_key(row: RowView, fold: bool) -> Seq<char> {
    if fold {
        lowercase_of(row.name)
    } else {
        row.name
    }
}

/// The keys of the rows.
pub open spec fn keys_of(rows: Seq<RowView>, fold: bool) -> Seq<Seq<char>> {
    Seq::new(rows.len(), |i: int| sort_key(rows[i], fold))
}

/// `a` may stand before `b`.
pub open spec fn row_le(a: RowView, b: RowView, fold: bool) -> bool {
    lex_le(sort_key(a, fold), sort_key(b, fold))
}

/// Every row is at or before each row that follows it.
pub open spec fn is_sorted(rows: Seq<RowView>, fold: bool) -> bool {
    forall|i: int, j: int| 0 <= i < j < rows.len() ==> row_le(rows[i], rows[j], fold)
}

/// No two rows bear the same name.
pub open spec fn distinct_names(rows: Seq<RowView>) -> bool {
    forall|i: int, j: int| 0 <= i < j < rows.len() ==> rows[i].name != rows[j].name
}

/// The rows in ascending order of their names, or of their lowercased names
/// where `fold` is set; rows with equal keys keep the order in which they
/// came.
pub open spec fn sorted(rows: Seq<RowView>, fold: bool) -> Seq<RowView> {
    sorted_by_keys(rows, keys_of(rows, fold))
}

/// The slot lies behind a key at or before the new one, and before keys
/// that are not.
pub proof fn lemma_slot(pairs: Seq<Keyed>, key: Seq<char>)
    ensures
        0 <= slot(pairs, key) <= pairs.len(),
        slot(pairs, key) > 0 ==> lex_le(pairs[slot(pairs, key) - 1].key, key),
        forall|j: int| slot(pairs, key) <= j < pairs.len() ==> !lex_le((#[trigger] pairs[j]).key, key),
    decreases pairs.len(),
{
    if pairs.len() > 0 && !lex_le(pairs.last().key, key) {
        lemma_slot(pairs.drop_last(), key);
        let p = slot(pairs.drop_last(), key);
        assert forall|j: int| p <= j < pairs.len() implies !lex_le((#[trigger] pairs[j]).key, key) by {
            if j < pairs.len() - 1 {
                assert(pairs.drop_last()[j] == pairs[j]);
            }
        }
        if p > 0 {
            assert(pairs.drop_last()[p - 1] == pairs[p - 1]);
        }
    }
}

/// A place behind a key at or before the new one, and before keys that are
/// not, is the slot.
pub proof fn lemma_slot_found(pairs: Seq<Keyed>, key: Seq<char>, p: int)
    requires
        0 <= p <= pairs.len(),
        p > 0 ==> lex_le(pairs[p - 1].key, key),
        forall|j: int| p <= j < pairs.len() ==> !lex_le((#[trigger] pairs[j]).key, key),
    ensures
        slot(pairs, key) == p,
    decreases pairs.len(),
{
    if pairs.len() > 0 && p < pairs.len() {
        assert(!lex_le(pairs[pairs.len() - 1].key, key));
        let front = pairs.drop_last();
        assert forall|j: int| p <= j < front.len() implies !lex_le((#[trigger] front[j]).key, key) by {
            assert(front[j] == pairs[j]);
        }
        if p > 0 {
            assert(front[p - 1] == pairs[p - 1]);
        }
        lemma_slot_found(front, key, p);
    }
}

/// Putting a row into rows that are in order leaves them in order.
pub proof fn lemma_placed_in_order(pairs: Seq<Keyed>, item: Keyed)
    requires
        in_order(pairs),
    ensures
        in_order(placed(pairs, item)),
{
    let p = slot(pairs, item.key);
    let out = placed(pairs, item);
    lemma_slot(pairs, item.key);
    assert forall|i: int, j: int| 0 <= i < j < out.len() implies lex_le(out[i].key, out[j].key) by {
        if i == p {
            assert(out[j] == pairs[j - 1]);
            lemma_lex_le_total(pairs[j - 1].key, item.key);
        } else if j == p {
            assert(out[i] == pairs[i]);
            if i < p - 1 {
                assert(lex_le(pairs[i].key, pairs[p - 1].key));
                lemma_lex_le_transitive(pairs[i].key, pairs[p - 1].key, item.key);
            }
        } else {
            let a = if i < p {
                i
            } else {
                i - 1
            };
            let b = if j < p {
                j
            } else {
                j - 1
            };
            assert(out[i] == pairs[a] && out[j] == pairs[b]);
            assert(lex_le(pairs[a].key, pairs[b].key));
        }
    }
}

/// What `arranged` gives is in order, and holds the same rows as often.
pub proof fn lemma_arranged(pairs: Seq<Keyed>)
    ensures
        in_order(arranged(pairs)),
        arranged(pairs).len() == pairs.len(),
        arranged(pairs).to_multiset() == pairs.to_multiset(),
        rows_of(arranged(pairs)).to_multiset() == rows_of(pairs).to_multiset(),
    decreases pairs.len(),
{
    if pairs.len() == 0 {
        assert(pairs =~= Seq::<Keyed>::empty());
        assert(rows_of(pairs) =~= rows_of(arranged(pairs)));
    } else {
        let front = pairs.drop_last();
        let item = pairs.last();
        let mid = arranged(front);
        let p = slot(mid, item.key);
        lemma_arranged(front);
        lemma_slot(mid, item.key);
        lemma_placed_in_order(mid, item);
        to_multiset_insert(mid, p, item);
        to_multiset_build(front, item);
        assert(pairs =~= front.push(item));
        assert(rows_of(mid.insert(p, item)) =~= rows_of(mid).insert(p, item.row));
        to_multiset_insert(rows_of(mid), p, item.row);
        to_multiset_build(rows_of(front), item.row);
        assert(rows_of(pairs) =~= rows_of(front).push(item.row));
    }
}

/// Rows that are in order already are left as they are.
pub proof fn lemma_arranged_fixpoint(pairs: Seq<Keyed>)
    requires
        in_order(pairs),
    ensures
        arranged(pairs) == pairs,
    decreases pairs.len(),
{
    if pairs.len() == 0 {
        assert(pairs =~= Seq::<Keyed>::empty());
    } else {
        let front = pairs.drop_last();
        assert(in_order(front)) by {
            assert forall|i: int, j: int| 0 <= i < j < front.len() implies lex_le(
                front[i].key,
                front[j].key,
            ) by {
                assert(lex_le(pairs[i].key, pairs[j].key));
            }
        }
        lemma_arranged_fixpoint(front);
        if front.len() > 0 {
            assert(lex_le(pairs[front.len() - 1].key, pairs[pairs.len() - 1].key));
            assert(front[front.len() - 1] == pairs[front.len() - 1]);
        }
        lemma_slot_found(front, pairs.last().key, front.len() as int);
        assert(front.insert(front.len() as int, pairs.last()) =~= pairs);
    }
}

/// Rows with names of their own keep names of their own when arranged.
pub proof fn lemma_arranged_names(pairs: Seq<Keyed>)
    requires
        distinct_names(rows_of(pairs)),
    ensures
        distinct_names(rows_of(arranged(pairs))),
    decreases pairs.len(),
{
    if pairs.len() > 0 {
        let front = pairs.drop_last();
        let item = pairs.last();
        let mid = arranged(front);
        let p = slot(mid, item.key);
        let out = arranged(pairs);
        assert(distinct_names(rows_of(front))) by {
            assert forall|i: int, j: int| 0 <= i < j < front.len() implies rows_of(front)[i].name
                != rows_of(front)[j].name by {
                assert(rows_of(pairs)[i].name != rows_of(pairs)[j].name);
            }
        }
        lemma_arranged_names(front);
        lemma_arranged(front);
        lemma_slot(mid, item.key);
        assert forall|k: int| 0 <= k < mid.len() implies (#[trigger] mid[k]).row.name
            != item.row.name by {
            mid.to_multiset_ensures();
            front.to_multiset_ensures();
            assert(mid.contains(mid[k]));
            assert(front.to_multiset().count(mid[k]) > 0);
            assert(front.contains(mid[k]));
            let m = choose|m: int| 0 <= m < front.len() && front[m] == mid[k];
            assert(rows_of(pairs)[m].name != rows_of(pairs)[pairs.len() - 1].name);
        }
        assert forall|i: int, j: int| 0 <= i < j < out.len() implies rows_of(out)[i].name
            != rows_of(out)[j].name by {
            let a = if i < p {
                i
            } else {
                i - 1
            };
            let b = if j < p {
                j
            } else {
                j - 1
            };
            if i == p {
                assert(out[j] == mid[b]);
            } else if j == p {
                assert(out[i] == mid[a]);
            } else {
                assert(out[i] == mid[a] && out[j] == mid[b]);
                assert(rows_of(mid)[a].name != rows_of(mid)[b].name);
            }
        }
    }
}

/// What `sorted` gives is in order, and holds the same rows as often.
pub proof fn lemma_sorted_properties(rows: Seq<RowView>, fold: bool)
    ensures
        is_sorted(sorted(rows, fold), fold),
        sorted(rows, fold).len() == rows.len(),
        sorted(rows, fold).to_multiset() == rows.to_multiset(),
{
    let pairs = keyed(rows, keys_of(rows, fold));
    let out = arranged(pairs);
    lemma_arranged(pairs);
    assert(rows_of(pairs) =~= rows);
    assert forall|k: int| 0 <= k < out.len() implies (#[trigger] out[k]).key == sort_key(
        out[k].row,
        fold,
    ) by {
        out.to_multiset_ensures();
        pairs.to_multiset_ensures();
        assert(out.contains(out[k]));
        assert(pairs.to_multiset().count(out[k]) > 0);
        assert(pairs.contains(out[k]));
    }
    assert forall|i: int, j: int| 0 <= i < j < out.len() implies row_le(
        sorted(rows, fold)[i],
        sorted(rows, fold)[j],
        fold,
    ) by {
        assert(lex_le(out[i].key, out[j].key));
    }
}

/// Sorting holds exactly the rows that went in.
pub proof fn lemma_sorted_contains(rows: Seq<RowView>, fold: bool, row: RowView)
    ensures
        sorted(rows, fold).contains(row) <==> rows.contains(row),
{
    lemma_sorted_properties(rows, fold);
    rows.to_multiset_ensures();
    sorted(rows, fold).to_multiset_ensures();
    assert(rows.contains(row) <==> rows.to_multiset().count(row) > 0);
    assert(sorted(rows, fold).contains(row) <==> sorted(rows, fold).to_multiset().count(row) > 0);
}

/// Rows that are in order already are left as they are.
pub proof fn lemma_sorted_fixpoint(rows: Seq<RowView>, fold: bool)
    requires
        is_sorted(rows, fold),
    ensures
        sorted(rows, fold) == rows,
{
    let pairs = keyed(rows, keys_of(rows, fold));
    assert(in_order(pairs)) by {
        assert forall|i: int, j: int| 0 <= i < j < pairs.len() implies lex_le(
            pairs[i].key,
            pairs[j].key,
        ) by {
            assert(row_le(rows[i], rows[j], fold));
        }
    }
    lemma_arranged_fixpoint(pairs);
    assert(rows_of(pairs) =~= rows);
}

/// Rows with names of their own keep names of their own when sorted.
pub proof fn lemma_sorted_names(rows: Seq<RowView>, fold: bool)
    requires
        distinct_names(rows),
    ensures
        distinct_names(sorted(rows, fold)),
{
    let pairs = keyed(rows, keys_of(rows, fold));
    assert(rows_of(pairs) =~= rows);
    lemma_arranged_names(pairs);
}

/// Copies of the rows in ascending order of the keys given beside them,
/// compared by code point. Rows with equal keys keep their order.
pub fn sort_by_keys(rows: &Vec<PackageRow>, keys: &Vec<String>) -> (out: Vec<PackageRow>)
    requires
        keys@.len() == rows@.len(),
    ensures
        views(out@) == sorted_by_keys(views(rows@), names(keys@)),
        out@.len() == rows@.len(),
{
    let ghost pairs = keyed(views(rows@), names(keys@));
    let mut out: Vec<PackageRow> = Vec::new();
    let mut out_keys: Vec<String> = Vec::new();
    let mut i: usize = 0;
    proof {
        assert(pairs.take(0) =~= Seq::<Keyed>::empty());
        assert(keyed(views(out@), names(out_keys@)) =~= Seq::<Keyed>::empty());
    }
    while i < rows.len()
        invariant
            0 <= i <= rows.len(),
            keys@.len() == rows@.len(),
            pairs == keyed(views(rows@), names(keys@)),
            out@.len() == i,
            out_keys@.len() == i,
            keyed(views(out@), names(out_keys@)) == arranged(pairs.take(i as int)),
        decreases rows.len() - i,
    {
        let row = rows[i].duplicate();
        let key = keys[i].clone();
        let ghost item = Keyed { key: key@, row: row@ };
        let ghost current = keyed(views(out@), names(out_keys@));
        let mut p: usize = out_keys.len();
        let mut found = false;
        while p > 0 && !found
            invariant
                0 <= p <= out_keys.len(),
                out@.len() == out_keys@.len(),
                current == keyed(views(out@), names(out_keys@)),
                found ==> p > 0 && lex_le(current[p - 1].key, key@),
                forall|j: int| p <= j < current.len() ==> !lex_le((#[trigger] current[j]).key, key@),
            decreases
                    (if found {
                        0
                    } else {
                        p + 1
                    }),
        {
            if at_or_before(&out_keys[p - 1], &key) {
                found = true;
            } else {
                p = p - 1;
            }
        }
        proof {
            let upto = pairs.take(i + 1);
            assert(upto.drop_last() =~= pairs.take(i as int));
            assert(upto.last() == item);
            lemma_slot_found(current, key@, p as int);
            assert(keyed(views(out@.insert(p as int, row)), names(out_keys@.insert(p as int, key)))
                =~= current.insert(p as int, item));
        }
        out.insert(p, row);
        out_keys.insert(p, key);
        i = i + 1;
    }
    proof {
        assert(pairs.take(rows.len() as int) =~= pairs);
        assert(views(out@) =~= rows_of(keyed(views(out@), names(out_keys@))));
    }
    out
}

/// Copies of the rows in ascending order of their names, compared by code
/// point, after lowercasing where `fold` is set. Rows with equal keys keep
/// their order.
pub fn sort_rows(rows: &Vec<PackageRow>, fold: bool) -> (out: Vec<PackageRow>)
    ensures
        views(out@) == sorted(views(rows@), fold),
        is_sorted(views(out@), fold),
        out@.len() == rows@.len(),
        views(out@).to_multiset() == views(rows@).to_multiset(),
{
    let mut keys: Vec<String> = Vec::new();
    let mut i: usize = 0;
    while i < rows.len()
        invariant
            0 <= i <= rows.len(),
            keys@.len() == i,
            forall|j: int| 0 <= j < i ==> (#[trigger] keys@[j])@ == sort_key(rows@[j]@, fold),
        decreases rows.len() - i,
    {
        let key = if fold {
            to_lowercase(&rows[i].name)
        } else {
            rows[i].name.clone()
        };
        keys.push(key);
        i = i + 1;
    }
    proof {
        assert(names(keys@) =~= keys_of(views(rows@), fold));
        lemma_sorted_properties(views(rows@), fold);
    }
    sort_by_keys(rows, &keys)
}

} // verus!
