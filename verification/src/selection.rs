//! Deriving the visible rows from the inventory and a selection.
//!
//! The search text is matched as it is written, and the visible rows are
//! ordered by their names as they are written, so that capitals come before
//! small letters. The inventory itself is ordered without regard to case.

use vstd::prelude::*;
use crate::model::{
    views, CategoryFilter, CategoryFilterView, PackageRow, RowView, Selection, SelectionView,
    StateFilter,
};
use crate::order::{
    distinct_names, is_sorted, lemma_sorted_contains, lemma_sorted_names, sort_rows, sorted,
};
use crate::text::{contains_text, is_infix};

verus! {

/// Whether the selection lets the row through: the search text is empty or
/// occurs in the name, and the state and the category are the chosen ones
/// where one is chosen.
pub open spec fn passes(row: RowView, selection: SelectionView) -> bool {
    &&& (selection.search.len() == 0 || is_infix(selection.search, row.name))
    &&& (selection.state == StateFilter::All || selection.state == StateFilter::Only(row.state))
    &&& (selection.list == CategoryFilterView::All || selection.list == CategoryFilterView::Only(
        row.uad_list,
    ))
}

/// The rows that the selection lets through, in their order.
pub open spec fn kept(rows: Seq<RowView>, selection: SelectionView) -> Seq<RowView>
    decreases rows.len(),
{
    if rows.len() == 0 {
        Seq::<RowView>::empty()
    } else if passes(rows.last(), selection) {
        kept(rows.drop_last(), selection).push(rows.last())
    } else {
        kept(rows.drop_last(), selection)
    }
}

/// The visible rows: those that the selection lets through, ordered by
/// name.
pub open spec fn visible(rows: Seq<RowView>, selection: SelectionView) -> Seq<RowView> {
    sorted(kept(rows, selection), false)
}

/// `kept` holds exactly the rows that match.
pub proof fn lemma_kept_contains(rows: Seq<RowView>, selection: SelectionView, row: RowView)
    ensures
        kept(rows, selection).contains(row) <==> rows.contains(row) && passes(row, selection),
    decreases rows.len(),
{
    if rows.len() > 0 {
        let front = rows.drop_last();
        lemma_kept_contains(front, selection, row);
        let k = kept(front, selection);
        if rows.contains(row) {
            let i = choose|i: int| 0 <= i < rows.len() && rows[i] == row;
            if i < front.len() {
                assert(front[i] == row);
            }
        }
        if front.contains(row) {
            let i = choose|i: int| 0 <= i < front.len() && front[i] == row;
            assert(rows[i] == row);
        }
        assert(rows[rows.len() - 1] == rows.last());
        if passes(rows.last(), selection) {
            let e = k.push(rows.last());
            if e.contains(row) {
                let i = choose|i: int| 0 <= i < e.len() && e[i] == row;
                if i < k.len() {
                    assert(k[i] == row);
                }
            }
            if k.contains(row) {
                let i = choose|i: int| 0 <= i < k.len() && k[i] == row;
                assert(e[i] == row);
            }
            assert(e[e.len() - 1] == rows.last());
        }
    }
}

/// Rows that all match are all kept.
pub proof fn lemma_kept_all(rows: Seq<RowView>, selection: SelectionView)
    requires
        forall|i: int| 0 <= i < rows.len() ==> passes(#[trigger] rows[i], selection),
    ensures
        kept(rows, selection) == rows,
    decreases rows.len(),
{
    if rows.len() == 0 {
        assert(rows =~= Seq::<RowView>::empty());
    } else {
        let front = rows.drop_last();
        assert forall|i: int| 0 <= i < front.len() implies passes(
            #[trigger] front[i],
            selection,
        ) by {
            assert(front[i] == rows[i]);
        }
        lemma_kept_all(front, selection);
        assert(passes(rows[rows.len() - 1], selection));
        assert(rows =~= front.push(rows.last()));
    }
}

/// Rows with names of their own keep names of their own when some are left
/// out.
pub proof fn lemma_kept_names(rows: Seq<RowView>, selection: SelectionView)
    requires
        distinct_names(rows),
    ensures
        distinct_names(kept(rows, selection)),
    decreases rows.len(),
{
    if rows.len() > 0 {
        let front = rows.drop_last();
        let few = kept(front, selection);
        assert(distinct_names(front)) by {
            assert forall|i: int, j: int| 0 <= i < j < front.len() implies front[i].name
                != front[j].name by {
                assert(rows[i].name != rows[j].name);
            }
        }
        lemma_kept_names(front, selection);
        assert forall|k: int| 0 <= k < few.len() implies (#[trigger] few[k]).name
            != rows.last().name by {
            assert(few.contains(few[k]));
            lemma_kept_contains(front, selection, few[k]);
            let m = choose|m: int| 0 <= m < front.len() && front[m] == few[k];
            assert(rows[m].name != rows[rows.len() - 1].name);
        }
    }
}

/// In an inventory where no two rows bear the same name, no two visible
/// rows do.
pub proof fn lemma_visible_names(rows: Seq<RowView>, selection: SelectionView)
    requires
        distinct_names(rows),
    ensures
        distinct_names(visible(rows, selection)),
{
    lemma_kept_names(rows, selection);
    lemma_sorted_names(kept(rows, selection), false);
}

/// What is visible is a part of the rows: each visible row is one of them
/// and matches, and each of them that matches is visible.
pub proof fn lemma_visible_contains(rows: Seq<RowView>, selection: SelectionView, row: RowView)
    ensures
        visible(rows, selection).contains(row) <==> rows.contains(row) && passes(
            row,
            selection,
        ),
{
    lemma_sorted_contains(kept(rows, selection), false, row);
    lemma_kept_contains(rows, selection, row);
}

/// Whether the category is the chosen one, where one is chosen.
fn list_matches(row: &PackageRow, filter: &CategoryFilter) -> (r: bool)
    ensures
        r == (filter@ == CategoryFilterView::All || filter@ == CategoryFilterView::Only(
            row.uad_list@,
        )),
{
    match filter {
        CategoryFilter::All => true,
        CategoryFilter::Only(list) => list.same(&row.uad_list),
    }
}

/// Whether the selection lets the row through.
pub fn row_matches(row: &PackageRow, selection: &Selection) -> (r: bool)
    ensures
        r == passes(row@, selection@),
{
    let by_text = selection.search.as_str().is_empty() || contains_text(
        &row.name,
        &selection.search,
    );
    let by_state = match selection.state {
        StateFilter::All => true,
        StateFilter::Only(state) => state == row.state,
    };
    by_text && by_state && list_matches(row, &selection.list)
}

/// Copies of the rows of `baseline` that the selection lets through,
/// ordered by name, compared by code point. The baseline is left as it is.
pub fn filter(baseline: &Vec<PackageRow>, selection: &Selection) -> (shown: Vec<PackageRow>)
    ensures
        views(shown@) == visible(views(baseline@), selection@),
        is_sorted(views(shown@), false),
        forall|row: RowView| #[trigger]
            views(shown@).contains(row) <==> views(baseline@).contains(row) && passes(
                row,
                selection@,
            ),
        shown@.len() <= baseline@.len(),
        distinct_names(views(baseline@)) ==> distinct_names(views(shown@)),
{
    let mut chosen: Vec<PackageRow> = Vec::new();
    let mut i: usize = 0;
    proof {
        assert(views(baseline@).take(0) =~= Seq::<RowView>::empty());
        assert(views(chosen@) =~= Seq::<RowView>::empty());
    }
    while i < baseline.len()
        invariant
            0 <= i <= baseline.len(),
            chosen@.len() <= i,
            views(chosen@) == kept(views(baseline@).take(i as int), selection@),
        decreases baseline.len() - i,
    {
        proof {
            let upto = views(baseline@).take(i + 1);
            assert(upto.drop_last() =~= views(baseline@).take(i as int));
            assert(upto.last() == baseline@[i as int]@);
        }
        if row_matches(&baseline[i], selection) {
            let row = baseline[i].duplicate();
            proof {
                assert(views(chosen@.push(row)) =~= views(chosen@).push(row@));
            }
            chosen.push(row);
        }
        i = i + 1;
    }
    let shown = sort_rows(&chosen, false);
    proof {
        assert(views(baseline@).take(baseline.len() as int) =~= views(baseline@));
        assert forall|row: RowView| #[trigger]
            views(shown@).contains(row) <==> views(baseline@).contains(row) && passes(
                row,
                selection@,
            ) by {
            lemma_visible_contains(views(baseline@), selection@, row);
        }
        assert(views(shown@).len() == shown@.len());
        assert(views(chosen@).len() == chosen@.len());
        if distinct_names(views(baseline@)) {
            lemma_visible_names(views(baseline@), selection@);
        }
    }
    shown
}

} // verus!
