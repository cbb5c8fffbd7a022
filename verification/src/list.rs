//! The session: the inventory, the selection and the visible rows, driven
//! by messages. Each message gives the next state and what the caller is to
//! do for it; the answers of the device come back as further messages.

use vstd::prelude::*;
use crate::catalog::{Catalog, PackageView};
use crate::dispatch::{action_of, settle, settled, with_state, RowMessage};
use crate::inventory::{build, holds_name, inventory};
use crate::model::{
    views, Action, ActionError, CategoryFilter, CategoryFilterView, InstallState, PackageRow,
    RowView, Selection, SelectionView, StateFilter,
};
use crate::order::{distinct_names, lemma_sorted_fixpoint};
use crate::selection::{filter, visible};
use crate::text::{lines_of, names, split_lines};

verus! {

/// What the session is told.
#[derive(Debug, PartialEq, Eq)]
pub enum Message {
    /// The search text is now this.
    SearchInputChanged(String),
    /// The packages of the device are wanted.
    LoadPackages,
    /// The device has listed its packages: the raw listing, one name a
    /// line, and the names of the active ones.
    PackagesLoaded { listing: String, installed: Vec<String> },
    /// The category filter is now this.
    ListSelected(CategoryFilter),
    /// The install-state filter is now this.
    PackageStateSelected(StateFilter),
    /// The user did something to the visible row with this index.
    List(usize, RowMessage),
    /// The device has answered an action on the package of this name.
    ActionFinished { name: String, action: Action, outcome: Result<(), ActionError> },
    /// Nothing happened.
    NoEvent,
}

/// What the caller is to do after a message.
#[derive(Clone, Debug, PartialEq, Eq)]
pub enum Effect {
    /// Nothing.
    Nothing,
    /// List the packages of the device, then send `PackagesLoaded`.
    Enumerate,
    /// Carry out the action on the device, then send `ActionFinished`.
    Device { name: String, action: Action },
    /// Tell the user that the device failed.
    Failure(ActionError),
}

/// The view of an `Effect`.
pub enum EffectView {
    Nothing,
    Enumerate,
    Device { name: Seq<char>, action: Action },
    Failure(ActionError),
}

impl View for Effect {
    type V = EffectView;

    open spec fn view(&self) -> EffectView {
        match self {
            Effect::Nothing => EffectView::Nothing,
            Effect::Enumerate => EffectView::Enumerate,
            Effect::Device { name, action } => EffectView::Device { name: name@, action: *action },
            Effect::Failure(e) => EffectView::Failure(*e),
        }
    }
}

/// The session as a mathematical value.
pub struct ListState {
    /// Whether the packages have been loaded.
    pub ready: bool,
    /// The inventory.
    pub baseline: Seq<RowView>,
    /// The visible rows.
    pub shown: Seq<RowView>,
    /// The selection.
    pub selection: SelectionView,
    /// The description of the row that the user touched last.
    pub description: Seq<char>,
    /// The names of the packages with an action under way.
    pub pending: Set<Seq<char>>,
}

/// The rows after the device has confirmed `state` for the package called
/// `name`.
pub open spec fn confirmed(rows: Seq<RowView>, name: Seq<char>, state: InstallState) -> Seq<
    RowView,
> {
    Seq::new(
        rows.len(),
        |i: int|
            if rows[i].name == name {
                with_state(rows[i], state)
            } else {
                rows[i]
            },
    )
}

/// The state with another selection, and the visible rows derived anew.
pub open spec fn reselected(pre: ListState, selection: SelectionView) -> ListState {
    ListState {
        ready: pre.ready,
        baseline: pre.baseline,
        shown: visible(pre.baseline, selection),
        selection: selection,
        description: pre.description,
        pending: pre.pending,
    }
}

/// The state with another inventory, and the visible rows derived anew.
pub open spec fn rebased(pre: ListState, baseline: Seq<RowView>) -> ListState {
    ListState {
        ready: pre.ready,
        baseline: baseline,
        shown: visible(baseline, pre.selection),
        selection: pre.selection,
        description: pre.description,
        pending: pre.pending,
    }
}

/// Whether the message starts an action: it asks for one on a visible row
/// whose package has none under way.
pub open spec fn starts_action(pre: ListState, index: usize, message: RowMessage) -> bool {
    index < pre.shown.len() && action_of(message).is_some() && !pre.pending.contains(
        pre.shown[index as int].name,
    )
}

/// The state after a message.
pub open spec fn next(
    pre: ListState,
    message: Message,
    catalog: Map<Seq<char>, PackageView>,
) -> ListState {
    match message {
        Message::SearchInputChanged(text) => reselected(
            pre,
            SelectionView { search: text@, list: pre.selection.list, state: pre.selection.state },
        ),
        Message::LoadPackages => pre,
        Message::PackagesLoaded { listing, installed } => {
            let baseline = inventory(lines_of(listing@), names(installed@).to_set(), catalog);
            let selection = SelectionView {
                search: pre.selection.search,
                list: CategoryFilterView::All,
                state: StateFilter::Only(InstallState::Installed),
            };
            ListState {
                ready: true,
                baseline: baseline,
                shown: visible(baseline, selection),
                selection: selection,
                description: pre.description,
                pending: Set::<Seq<char>>::empty(),
            }
        },
        Message::ListSelected(list) => reselected(
            pre,
            SelectionView { search: pre.selection.search, list: list@, state: pre.selection.state },
        ),
        Message::PackageStateSelected(state) => reselected(
            pre,
            SelectionView { search: pre.selection.search, list: pre.selection.list, state: state },
        ),
        Message::List(index, row_message) => if index < pre.shown.len() {
            ListState {
                ready: pre.ready,
                baseline: pre.baseline,
                shown: pre.shown,
                selection: pre.selection,
                description: pre.shown[index as int].description,
                pending: if starts_action(pre, index, row_message) {
                    pre.pending.insert(pre.shown[index as int].name)
                } else {
                    pre.pending
                },
            }
        } else {
            pre
        },
        Message::ActionFinished { name, action, outcome } => {
            let idle = ListState {
                ready: pre.ready,
                baseline: pre.baseline,
                shown: pre.shown,
                selection: pre.selection,
                description: pre.description,
                pending: pre.pending.remove(name@),
            };
            match settled(action, outcome) {
                Ok(state) => rebased(idle, confirmed(pre.baseline, name@, state)),
                Err(_) => idle,
            }
        },
        Message::NoEvent => pre,
    }
}

/// What the caller is to do after a message.
pub open spec fn effect_of(pre: ListState, message: Message) -> EffectView {
    match message {
        Message::LoadPackages => EffectView::Enumerate,
        Message::List(index, row_message) => if starts_action(pre, index, row_message) {
            EffectView::Device {
                name: pre.shown[index as int].name,
                action: action_of(row_message).unwrap(),
            }
        } else {
            EffectView::Nothing
        },
        Message::ActionFinished { name, action, outcome } => match settled(action, outcome) {
            Ok(_) => EffectView::Nothing,
            Err(e) => EffectView::Failure(e),
        },
        _ => EffectView::Nothing,
    }
}

/// Copies of the rows, with `state` for those called `name`.
fn confirm(rows: &Vec<PackageRow>, name: &String, state: InstallState) -> (out: Vec<PackageRow>)
    ensures
        views(out@) == confirmed(views(rows@), name@, state),
{
    let mut out: Vec<PackageRow> = Vec::new();
    let mut i: usize = 0;
    while i < rows.len()
        invariant
            0 <= i <= rows.len(),
            out@.len() == i,
            forall|j: int| 0 <= j < i ==> out@[j]@ == confirmed(views(rows@), name@, state)[j],
        decreases rows.len() - i,
    {
        let mut row = rows[i].duplicate();
        if row.name == *name {
            row.state = state;
        }
        out.push(row);
        i = i + 1;
    }
    assert(views(out@) =~= confirmed(views(rows@), name@, state));
    out
}

/// Copies of the strings other than `name`.
fn without(set: &Vec<String>, name: &String) -> (out: Vec<String>)
    ensures
        names(out@).to_set() == names(set@).to_set().remove(name@),
{
    let mut out: Vec<String> = Vec::new();
    let mut i: usize = 0;
    while i < set.len()
        invariant
            0 <= i <= set.len(),
            forall|j: int| 0 <= j < out@.len() ==> #[trigger] names(out@)[j] != name@ && names(
                set@,
            ).contains(names(out@)[j]),
            forall|j: int|
                0 <= j < i && #[trigger] names(set@)[j] != name@ ==> names(out@).contains(
                    names(set@)[j],
                ),
        decreases set.len() - i,
    {
        if set[i] != *name {
            let ghost before = out@;
            out.push(set[i].clone());
            proof {
                assert(names(set@)[i as int] == set@[i as int]@);
                assert forall|j: int| 0 <= j < out@.len() implies #[trigger] names(out@)[j]
                    != name@ && names(set@).contains(names(out@)[j]) by {
                    if j < before.len() {
                        assert(names(out@)[j] == names(before)[j]);
                    } else {
                        assert(names(out@)[j] == names(set@)[i as int]);
                    }
                }
                assert forall|j: int|
                    0 <= j < i + 1 && #[trigger] names(set@)[j] != name@ implies names(
                    out@,
                ).contains(names(set@)[j]) by {
                    if j < i {
                        let k = choose|k: int|
                            0 <= k < names(before).len() && names(before)[k] == names(set@)[j];
                        assert(names(out@)[k] == names(set@)[j]);
                    } else {
                        assert(names(out@)[out@.len() - 1] == names(set@)[j]);
                    }
                }
            }
        }
        i = i + 1;
    }
    assert(names(out@).to_set() =~= names(set@).to_set().remove(name@));
    out
}

/// The session: the inventory of the device, the selection, and the rows
/// that the selection makes visible.
#[derive(Clone, Debug)]
pub struct List {
    ready: bool,
    p_row: Vec<PackageRow>,
    phone_packages_row: Vec<PackageRow>,
    selection: Selection,
    description: String,
    pending: Vec<String>,
}

impl View for List {
    type V = ListState;

    closed spec fn view(&self) -> ListState {
        ListState {
            ready: self.ready,
            baseline: views(self.phone_packages_row@),
            shown: views(self.p_row@),
            selection: self.selection@,
            description: self.description@,
            pending: names(self.pending@).to_set(),
        }
    }
}

impl Default for List {
    /// An empty session, as `List::new` gives it.
    fn default() -> (r: List)
        ensures
            r@ == List::initial(),
            List::consistent(r@),
    {
        List::new()
    }
}

impl List {
    /// The state of a session that has seen no message.
    pub open spec fn initial() -> ListState {
        ListState {
            ready: false,
            baseline: Seq::<RowView>::empty(),
            shown: Seq::<RowView>::empty(),
            selection: Selection::everything(),
            description: Seq::<char>::empty(),
            pending: Set::<Seq<char>>::empty(),
        }
    }

    /// No two rows of the inventory bear the same name, and the visible
    /// rows are those that the selection derives from the inventory.
    pub open spec fn consistent(state: ListState) -> bool {
        &&& distinct_names(state.baseline)
        &&& state.shown == visible(state.baseline, state.selection)
    }

    /// An empty session, not yet loaded, that hides nothing.
    pub fn new() -> (r: List)
        ensures
            r@ == List::initial(),
            List::consistent(r@),
    {
        let r = List {
            ready: false,
            p_row: Vec::new(),
            phone_packages_row: Vec::new(),
            selection: Selection::all(),
            description: String::new(),
            pending: Vec::new(),
        };
        proof {
            assert(views(r.p_row@) =~= Seq::<RowView>::empty());
            assert(views(r.phone_packages_row@) =~= Seq::<RowView>::empty());
            assert(names(r.pending@) =~= Seq::<Seq<char>>::empty());
            assert(names(r.pending@).to_set() =~= Set::<Seq<char>>::empty());
            lemma_sorted_fixpoint(Seq::<RowView>::empty(), false);
        }
        r
    }

    /// Whether the packages have been loaded.
    pub fn ready(&self) -> (r: bool)
        ensures
            r == self@.ready,
    {
        self.ready
    }

    /// The visible rows.
    pub fn rows(&self) -> (r: &Vec<PackageRow>)
        ensures
            views(r@) == self@.shown,
    {
        &self.p_row
    }

    /// The inventory.
    pub fn packages(&self) -> (r: &Vec<PackageRow>)
        ensures
            views(r@) == self@.baseline,
    {
        &self.phone_packages_row
    }

    /// The selection.
    pub fn selection(&self) -> (r: &Selection)
        ensures
            r@ == self@.selection,
    {
        &self.selection
    }

    /// The description of the row that the user touched last.
    pub fn description(&self) -> (r: &String)
        ensures
            r@ == self@.description,
    {
        &self.description
    }

    /// Whether an action on the package of this name is under way.
    pub fn is_pending(&self, name: &String) -> (r: bool)
        ensures
            r == self@.pending.contains(name@),
    {
        holds_name(&self.pending, name)
    }

    /// Takes a message into the session and says what the caller is to do
    /// for it. The visible rows are derived anew from the inventory whenever
    /// the selection or the inventory has changed; a failed action changes
    /// neither.
    pub fn update(&mut self, message: Message, catalog: &Catalog) -> (effect: Effect)
        requires
            List::consistent(old(self)@),
        ensures
            final(self)@ == next(old(self)@, message, catalog@),
            effect@ == effect_of(old(self)@, message),
            List::consistent(final(self)@),
    {
        match message {
            Message::SearchInputChanged(text) => {
                self.selection.search = text;
                self.p_row = filter(&self.phone_packages_row, &self.selection);
                Effect::Nothing
            },
            Message::LoadPackages => Effect::Enumerate,
            Message::PackagesLoaded { listing, installed } => {
                let all = split_lines(&listing);
                self.phone_packages_row = build(&all, &installed, catalog);
                self.selection.list = CategoryFilter::All;
                self.selection.state = StateFilter::Only(InstallState::Installed);
                self.p_row = filter(&self.phone_packages_row, &self.selection);
                self.pending = Vec::new();
                self.ready = true;
                proof {
                    assert(names(self.pending@) =~= Seq::<Seq<char>>::empty());
                    assert(names(self.pending@).to_set() =~= Set::<Seq<char>>::empty());
                }
                Effect::Nothing
            },
            Message::ListSelected(list) => {
                self.selection.list = list;
                self.p_row = filter(&self.phone_packages_row, &self.selection);
                Effect::Nothing
            },
            Message::PackageStateSelected(state) => {
                self.selection.state = state;
                self.p_row = filter(&self.phone_packages_row, &self.selection);
                Effect::Nothing
            },
            Message::List(index, row_message) => {
                if index < self.p_row.len() {
                    self.description = self.p_row[index].description.clone();
                    let name = self.p_row[index].name.clone();
                    assert(views(self.p_row@)[index as int].name == name@);
                    match row_message.action() {
                        Some(action) => {
                            if holds_name(&self.pending, &name) {
                                Effect::Nothing
                            } else {
                                proof {
                                    let before = names(self.pending@);
                                    let after = names(self.pending@.push(name));
                                    assert(after =~= before.push(name@));
                                    assert(after.to_set() =~= before.to_set().insert(name@)) by {
                                        assert forall|x: Seq<char>| after.contains(x) <==> (
                                        before.contains(x) || x == name@) by {
                                            if before.contains(x) {
                                                let k = choose|k: int|
                                                    0 <= k < before.len() && before[k] == x;
                                                assert(after[k] == x);
                                            }
                                            assert(after[after.len() - 1] == name@);
                                        }
                                    }
                                }
                                self.pending.push(name.clone());
                                Effect::Device { name, action }
                            }
                        },
                        None => Effect::Nothing,
                    }
                } else {
                    Effect::Nothing
                }
            },
            Message::ActionFinished { name, action, outcome } => {
                self.pending = without(&self.pending, &name);
                match settle(action, outcome) {
                    Ok(state) => {
                        self.phone_packages_row = confirm(&self.phone_packages_row, &name, state);
                        self.p_row = filter(&self.phone_packages_row, &self.selection);
                        Effect::Nothing
                    },
                    Err(e) => Effect::Failure(e),
                }
            },
            Message::NoEvent => Effect::Nothing,
        }
    }
}

} // verus!
