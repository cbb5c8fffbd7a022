//! What holds of the engine as a whole, proved from the definitions of its
//! parts.

use vstd::prelude::*;
use crate::catalog::PackageView;
use crate::dispatch::target_state;
use crate::list::{confirmed, next, ListState, Message};
use crate::model::{Action, ActionError, InstallState, RowView, Selection, SelectionView, StateFilter};
use crate::order::{is_sorted, lemma_sorted_fixpoint, lemma_sorted_properties, sorted};
use crate::selection::{kept, lemma_kept_all, lemma_visible_contains, passes, visible};

verus! {

/// With an empty search, every category and every state, all rows of the
/// baseline are visible, ordered by name.
pub proof fn law_select_everything(baseline: Seq<RowView>)
    ensures
        visible(baseline, Selection::everything()) == sorted(baseline, false),
        visible(baseline, Selection::everything()).len() == baseline.len(),
        visible(baseline, Selection::everything()).to_multiset() == baseline.to_multiset(),
        is_sorted(visible(baseline, Selection::everything()), false),
{
    lemma_kept_all(baseline, Selection::everything());
    lemma_sorted_properties(baseline, false);
}

/// Filtering what is visible once more, with the same selection, changes
/// nothing.
pub proof fn law_filter_idempotent(baseline: Seq<RowView>, selection: SelectionView)
    ensures
        visible(visible(baseline, selection), selection) == visible(baseline, selection),
{
    let shown = visible(baseline, selection);
    assert forall|i: int| 0 <= i < shown.len() implies passes(#[trigger] shown[i], selection) by {
        assert(shown.contains(shown[i]));
        lemma_visible_contains(baseline, selection, shown[i]);
    }
    lemma_kept_all(shown, selection);
    lemma_sorted_properties(kept(baseline, selection), false);
    lemma_sorted_fixpoint(shown, false);
}

/// The visible rows once the device has confirmed the removal of the
/// package called `name`.
pub open spec fn after_removal(
    baseline: Seq<RowView>,
    name: Seq<char>,
    selection: SelectionView,
) -> Seq<RowView> {
    visible(confirmed(baseline, name, target_state(Action::Remove)), selection)
}

/// Once a removal is confirmed, the rows derived anew show the package as
/// uninstalled wherever they show it, and do not show it at all where only
/// installed packages are selected.
pub proof fn law_removed_is_uninstalled(
    baseline: Seq<RowView>,
    name: Seq<char>,
    selection: SelectionView,
)
    ensures
        forall|i: int|
            0 <= i < after_removal(baseline, name, selection).len() && (#[trigger] after_removal(
                baseline,
                name,
                selection,
            )[i]).name == name ==> after_removal(baseline, name, selection)[i].state
                == InstallState::Uninstalled,
        selection.state == StateFilter::Only(InstallState::Installed) ==> forall|i: int|
            0 <= i < after_removal(baseline, name, selection).len() ==> (#[trigger] after_removal(
                baseline,
                name,
                selection,
            )[i]).name != name,
{
    let after = confirmed(baseline, name, target_state(Action::Remove));
    let shown = after_removal(baseline, name, selection);
    assert forall|i: int| 0 <= i < shown.len() && (#[trigger] shown[i]).name == name implies shown[i].state
        == InstallState::Uninstalled && selection.state != StateFilter::Only(
        InstallState::Installed,
    ) by {
        assert(shown.contains(shown[i]));
        lemma_visible_contains(after, selection, shown[i]);
        let k = choose|k: int| 0 <= k < after.len() && after[k] == shown[i];
        assert(after[k].state == InstallState::Uninstalled);
    }
}

/// A session that takes in a confirmed removal shows what
/// `after_removal` says, and keeps its selection.
pub proof fn law_session_after_removal(
    pre: ListState,
    name: String,
    catalog: Map<Seq<char>, PackageView>,
)
    ensures
        next(
            pre,
            Message::ActionFinished { name, action: Action::Remove, outcome: Ok(()) },
            catalog,
        ).shown == after_removal(pre.baseline, name@, pre.selection),
        next(
            pre,
            Message::ActionFinished { name, action: Action::Remove, outcome: Ok(()) },
            catalog,
        ).selection == pre.selection,
{
}

/// An action that the device failed leaves the inventory and the visible
/// rows of a session as they were.
pub proof fn law_failure_changes_nothing(
    pre: ListState,
    name: String,
    action: Action,
    error: ActionError,
    catalog: Map<Seq<char>, PackageView>,
)
    ensures
        next(pre, Message::ActionFinished { name, action, outcome: Err(error) }, catalog).baseline
            == pre.baseline,
        next(pre, Message::ActionFinished { name, action, outcome: Err(error) }, catalog).shown
            == pre.shown,
        next(
            pre,
            Message::ActionFinished { name, action, outcome: Err(error) },
            catalog,
        ).selection == pre.selection,
{
}

} // verus!
