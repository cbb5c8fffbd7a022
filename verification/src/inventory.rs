//! Building the inventory: one row for each package that the device lists,
//! filled in from the set of active packages and from the catalog.

use vstd::prelude::*;
use vstd::string::StringExecFns;
use crate::catalog::{Catalog, PackageView};
use crate::model::{views, Category, CategoryView, InstallState, PackageRow, RowView};
use crate::order::{
    distinct_names, is_sorted, lemma_sorted_contains, lemma_sorted_names, lemma_sorted_properties,
    sort_rows, sorted,
};
use crate::text::names;

verus! {

/// The description of a package that the catalog does not know.
pub open spec fn no_description() -> Seq<char> {
    "[No description]"@
}

/// The names in the order in which each first occurs.
pub open spec fn distinct(all: Seq<Seq<char>>) -> Seq<Seq<char>>
    decreases all.len(),
{
    if all.len() == 0 {
        Seq::<Seq<char>>::empty()
    } else {
        let front = distinct(all.drop_last());
        if front.contains(all.last()) {
            front
        } else {
            front.push(all.last())
        }
    }
}

/// The row of the package called `name`.
pub open spec fn row_for(
    name: Seq<char>,
    installed: Set<Seq<char>>,
    catalog: Map<Seq<char>, PackageView>,
) -> RowView {
    RowView {
        name: name,
        state: if installed.contains(name) {
            InstallState::Installed
        } else {
            InstallState::Uninstalled
        },
        description: if catalog.contains_key(name) {
            catalog[name].description
        } else {
            no_description()
        },
        uad_list: if catalog.contains_key(name) {
            CategoryView::Listed(catalog[name].list)
        } else {
            CategoryView::Unlisted
        },
    }
}

/// The rows of the given names, in their order.
pub open spec fn rows_for(
    all: Seq<Seq<char>>,
    installed: Set<Seq<char>>,
    catalog: Map<Seq<char>, PackageView>,
) -> Seq<RowView> {
    Seq::new(all.len(), |i: int| row_for(all[i], installed, catalog))
}

/// The inventory of a device: one row for each distinct name, ordered by
/// lowercased name.
pub open spec fn inventory(
    all: Seq<Seq<char>>,
    installed: Set<Seq<char>>,
    catalog: Map<Seq<char>, PackageView>,
) -> Seq<RowView> {
    sorted(rows_for(distinct(all), installed, catalog), true)
}

/// `distinct` keeps every name once.
pub proof fn lemma_distinct(all: Seq<Seq<char>>)
    ensures
        distinct(all).no_duplicates(),
        distinct(all).to_set() == all.to_set(),
        distinct(all).len() == all.to_set().len(),
    decreases all.len(),
{
    if all.len() == 0 {
        assert(distinct(all).to_set() =~= all.to_set());
    } else {
        let front = all.drop_last();
        lemma_distinct(front);
        let d = distinct(front);
        assert(all =~= front.push(all.last()));
        assert forall|x: Seq<char>| all.to_set().contains(x) <==> (front.to_set().contains(x) || x
            == all.last()) by {
            if all.contains(x) {
                let k = choose|k: int| 0 <= k < all.len() && all[k] == x;
                if k < front.len() {
                    assert(front[k] == x);
                }
            }
            if front.contains(x) {
                let k = choose|k: int| 0 <= k < front.len() && front[k] == x;
                assert(all[k] == x);
            }
            if x == all.last() {
                assert(all[all.len() - 1] == x);
            }
        }
        if d.contains(all.last()) {
            assert(d.to_set() =~= all.to_set());
        } else {
            let e = d.push(all.last());
            assert forall|x: Seq<char>| e.to_set().contains(x) <==> (d.to_set().contains(x) || x
                == all.last()) by {
                if e.contains(x) {
                    let k = choose|k: int| 0 <= k < e.len() && e[k] == x;
                    if k < d.len() {
                        assert(d[k] == x);
                    }
                }
                if d.contains(x) {
                    let k = choose|k: int| 0 <= k < d.len() && d[k] == x;
                    assert(e[k] == x);
                }
                if x == all.last() {
                    assert(e[e.len() - 1] == x);
                }
            }
            assert(e.to_set() =~= all.to_set());
        }
    }
    distinct(all).unique_seq_to_set();
}

/// Whether one of the strings is `name`.
pub fn holds_name(set: &Vec<String>, name: &String) -> (r: bool)
    ensures
        r == names(set@).contains(name@),
{
    let mut i: usize = 0;
    while i < set.len()
        invariant
            0 <= i <= set.len(),
            forall|j: int| 0 <= j < i ==> names(set@)[j] != name@,
        decreases set.len() - i,
    {
        if set[i] == *name {
            assert(names(set@)[i as int] == name@);
            return true;
        }
        i = i + 1;
    }
    false
}

/// Whether one of the rows bears `name`.
fn has_row(rows: &Vec<PackageRow>, name: &String) -> (r: bool)
    ensures
        r == exists|j: int| 0 <= j < rows.len() && (#[trigger] rows@[j]).name@ == name@,
{
    let mut i: usize = 0;
    while i < rows.len()
        invariant
            0 <= i <= rows.len(),
            forall|j: int| 0 <= j < i ==> (#[trigger] rows@[j]).name@ != name@,
        decreases rows.len() - i,
    {
        if rows[i].name == *name {
            return true;
        }
        i = i + 1;
    }
    false
}

/// The row of one package.
fn make_row(name: &String, installed: &Vec<String>, catalog: &Catalog) -> (row: PackageRow)
    ensures
        row@ == row_for(name@, names(installed@).to_set(), catalog@),
{
    let state = if holds_name(installed, name) {
        InstallState::Installed
    } else {
        InstallState::Uninstalled
    };
    match catalog.lookup(name) {
        Some(package) => PackageRow {
            name: name.clone(),
            state,
            description: package.description.clone(),
            uad_list: Category::Listed(package.list.clone()),
        },
        None => PackageRow {
            name: name.clone(),
            state,
            description: String::from_str("[No description]"),
            uad_list: Category::Unlisted,
        },
    }
}

/// One row for each distinct name in `all`, in the order in which the names
/// first occur.
pub fn reconcile(all: &Vec<String>, installed: &Vec<String>, catalog: &Catalog) -> (found: Vec<
    PackageRow,
>)
    ensures
        views(found@) == rows_for(
            distinct(names(all@)),
            names(installed@).to_set(),
            catalog@,
        ),
{
    let ghost active = names(installed@).to_set();
    let mut found: Vec<PackageRow> = Vec::new();
    let mut i: usize = 0;
    proof {
        assert(names(all@).take(0) =~= Seq::<Seq<char>>::empty());
        assert(views(found@) =~= rows_for(distinct(names(all@).take(0)), active, catalog@));
    }
    while i < all.len()
        invariant
            0 <= i <= all.len(),
            active == names(installed@).to_set(),
            views(found@) == rows_for(distinct(names(all@).take(i as int)), active, catalog@),
        decreases all.len() - i,
    {
        let name = &all[i];
        let ghost before = distinct(names(all@).take(i as int));
        let ghost upto = names(all@).take(i + 1);
        proof {
            assert(upto.drop_last() =~= names(all@).take(i as int));
            assert(upto.last() == name@);
            assert(views(found@).len() == found@.len());
            assert(rows_for(before, active, catalog@).len() == before.len());
            if before.contains(name@) {
                let k = choose|k: int| 0 <= k < before.len() && before[k] == name@;
                assert(views(found@)[k].name == name@);
                assert(found@[k].name@ == name@);
            }
            if exists|j: int| 0 <= j < found.len() && (#[trigger] found@[j]).name@ == name@ {
                let j = choose|j: int| 0 <= j < found.len() && (#[trigger] found@[j]).name@ == name@;
                assert(views(found@)[j].name == name@);
                assert(before[j] == name@);
            }
        }
        if !has_row(&found, name) {
            let row = make_row(name, installed, catalog);
            proof {
                let next = rows_for(before.push(name@), active, catalog@);
                assert forall|k: int| 0 <= k < next.len() implies views(found@.push(row))[k]
                    == next[k] by {
                    if k < found@.len() {
                        assert(views(found@)[k] == rows_for(before, active, catalog@)[k]);
                    }
                }
                assert(views(found@.push(row)) =~= next);
            }
            found.push(row);
        }
        i = i + 1;
    }
    proof {
        assert(names(all@).take(all.len() as int) =~= names(all@));
    }
    found
}

/// Merges what the device lists with the catalog: one row for each distinct
/// name in `all`, installed exactly where `installed` holds the name,
/// described and classified by the catalog where it knows the name, and
/// ordered by lowercased name.
pub fn build(all: &Vec<String>, installed: &Vec<String>, catalog: &Catalog) -> (rows: Vec<
    PackageRow,
>)
    ensures
        views(rows@) == inventory(names(all@), names(installed@).to_set(), catalog@),
        rows@.len() == names(all@).to_set().len(),
        is_sorted(views(rows@), true),
        distinct_names(views(rows@)),
        forall|name: Seq<char>| #[trigger]
            names(all@).contains(name) ==> views(rows@).contains(
                row_for(name, names(installed@).to_set(), catalog@),
            ),
        forall|i: int|
            0 <= i < rows@.len() ==> names(all@).contains((#[trigger] rows@[i]).name@),
        forall|i: int|
            0 <= i < rows@.len() ==> ((#[trigger] rows@[i]).state == InstallState::Installed
                <==> names(installed@).contains(rows@[i].name@)),
        forall|i: int|
            0 <= i < rows@.len() && !catalog@.contains_key((#[trigger] rows@[i]).name@) ==> rows@[i].description@
                == no_description() && rows@[i].uad_list@ == CategoryView::Unlisted,
        forall|i: int|
            0 <= i < rows@.len() && catalog@.contains_key((#[trigger] rows@[i]).name@) ==> rows@[i].description@
                == catalog@[rows@[i].name@].description && rows@[i].uad_list@
                == CategoryView::Listed(catalog@[rows@[i].name@].list),
{
    let ghost active = names(installed@).to_set();
    let found = reconcile(all, installed, catalog);
    let rows = sort_rows(&found, true);
    proof {
        let all_names = names(all@);
        let d = distinct(all_names);
        let unsorted = rows_for(d, active, catalog@);
        lemma_distinct(all_names);
        lemma_sorted_properties(unsorted, true);
        assert(distinct_names(unsorted)) by {
            assert forall|i: int, j: int| 0 <= i < j < unsorted.len() implies unsorted[i].name
                != unsorted[j].name by {
                assert(d[i] != d[j]);
            }
        }
        lemma_sorted_names(unsorted, true);
        assert forall|name: Seq<char>| #[trigger] all_names.contains(name) implies views(
            rows@,
        ).contains(row_for(name, active, catalog@)) by {
            assert(all_names.to_set().contains(name));
            assert(d.to_set().contains(name));
            let k = choose|k: int| 0 <= k < d.len() && d[k] == name;
            assert(unsorted[k] == row_for(name, active, catalog@));
            assert(unsorted.contains(row_for(name, active, catalog@)));
            lemma_sorted_contains(unsorted, true, row_for(name, active, catalog@));
        }
        assert forall|i: int| 0 <= i < rows@.len() implies (#[trigger] rows@[i])@ == row_for(
            rows@[i].name@,
            active,
            catalog@,
        ) && all_names.contains(rows@[i].name@) by {
            let x = views(rows@)[i];
            assert(views(rows@).contains(x));
            lemma_sorted_contains(unsorted, true, x);
            let k = choose|k: int| 0 <= k < unsorted.len() && unsorted[k] == x;
            assert(x == row_for(d[k], active, catalog@));
            assert(d.contains(d[k]));
            assert(d.to_set().contains(d[k]));
        }
    }
    rows
}

} // verus!
