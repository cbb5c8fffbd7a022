//! The data that the engine works on, and its mathematical views.

use vstd::prelude::*;
use vstd::string::StringExecFns;

verus! {

/// Whether a package is active on the device.
#[derive(Clone, Copy, Debug, PartialEq, Eq, Structural)]
pub enum InstallState {
    Installed,
    Uninstalled,
}

/// The membership list of a package; `Unlisted` where the catalog does not
/// know the package.
#[derive(Clone, Debug, PartialEq, Eq)]
pub enum Category {
    Unlisted,
    Listed(String),
}

/// The view of a `Category`.
pub enum CategoryView {
    Unlisted,
    Listed(Seq<char>),
}

impl View for Category {
    type V = CategoryView;

    open spec fn view(&self) -> CategoryView {
        match self {
            Category::Unlisted => CategoryView::Unlisted,
            Category::Listed(s) => CategoryView::Listed(s@),
        }
    }
}

impl Category {
    /// A copy with the same view.
    pub fn duplicate(&self) -> (r: Category)
        ensures
            r@ == self@,
    {
        match self {
            Category::Unlisted => Category::Unlisted,
            Category::Listed(s) => Category::Listed(s.clone()),
        }
    }

    /// Whether two categories are the same one.
    pub fn same(&self, other: &Category) -> (r: bool)
        ensures
            r == (self@ == other@),
    {
        match self {
            Category::Unlisted => match other {
                Category::Unlisted => true,
                Category::Listed(_) => false,
            },
            Category::Listed(a) => match other {
                Category::Unlisted => false,
                Category::Listed(b) => *a == *b,
            },
        }
    }
}

/// The install-state part of a selection: every state, or one.
#[derive(Clone, Copy, Debug, PartialEq, Eq, Structural)]
pub enum StateFilter {
    All,
    Only(InstallState),
}

/// The category part of a selection: every category, or one.
#[derive(Clone, Debug, PartialEq, Eq)]
pub enum CategoryFilter {
    All,
    Only(Category),
}

/// The view of a `CategoryFilter`.
pub enum CategoryFilterView {
    All,
    Only(CategoryView),
}

impl View for CategoryFilter {
    type V = CategoryFilterView;

    open spec fn view(&self) -> CategoryFilterView {
        match self {
            CategoryFilter::All => CategoryFilterView::All,
            CategoryFilter::Only(c) => CategoryFilterView::Only(c@),
        }
    }
}

impl CategoryFilter {
    /// A copy with the same view.
    pub fn duplicate(&self) -> (r: CategoryFilter)
        ensures
            r@ == self@,
    {
        match self {
            CategoryFilter::All => CategoryFilter::All,
            CategoryFilter::Only(c) => CategoryFilter::Only(c.duplicate()),
        }
    }
}

/// What the user has chosen to see.
#[derive(Clone, Debug, PartialEq, Eq)]
pub struct Selection {
    pub search: String,
    pub list: CategoryFilter,
    pub state: StateFilter,
}

/// The view of a `Selection`.
pub struct SelectionView {
    pub search: Seq<char>,
    pub list: CategoryFilterView,
    pub state: StateFilter,
}

impl View for Selection {
    type V = SelectionView;

    open spec fn view(&self) -> SelectionView {
        SelectionView { search: self.search@, list: self.list@, state: self.state }
    }
}

impl Selection {
    /// The selection that hides nothing.
    pub open spec fn everything() -> SelectionView {
        SelectionView {
            search: Seq::<char>::empty(),
            list: CategoryFilterView::All,
            state: StateFilter::All,
        }
    }

    /// An empty search over every category and every state.
    pub fn all() -> (r: Selection)
        ensures
            r@ == Selection::everything(),
    {
        Selection { search: String::new(), list: CategoryFilter::All, state: StateFilter::All }
    }
}

/// One package of the device: its identity, its install state and what the
/// catalog says of it.
#[derive(Clone, Debug, PartialEq, Eq)]
pub struct PackageRow {
    pub name: String,
    pub state: InstallState,
    pub description: String,
    pub uad_list: Category,
}

/// The view of a `PackageRow`.
pub struct RowView {
    pub name: Seq<char>,
    pub state: InstallState,
    pub description: Seq<char>,
    pub uad_list: CategoryView,
}

impl View for PackageRow {
    type V = RowView;

    open spec fn view(&self) -> RowView {
        RowView {
            name: self.name@,
            state: self.state,
            description: self.description@,
            uad_list: self.uad_list@,
        }
    }
}

/// The views of a sequence of rows.
pub open spec fn views(rows: Seq<PackageRow>) -> Seq<RowView> {
    Seq::new(rows.len(), |i: int| rows[i]@)
}

impl PackageRow {
    /// A row with the given contents.
    pub fn new(name: &str, state: InstallState, description: &str, uad_list: Category) -> (r:
        PackageRow)
        ensures
            r@ == (RowView {
                name: name@,
                state: state,
                description: description@,
                uad_list: uad_list@,
            }),
    {
        PackageRow {
            name: String::from_str(name),
            state,
            description: String::from_str(description),
            uad_list,
        }
    }

    /// A copy with the same view.
    pub fn duplicate(&self) -> (r: PackageRow)
        ensures
            r@ == self@,
    {
        PackageRow {
            name: self.name.clone(),
            state: self.state,
            description: self.description.clone(),
            uad_list: self.uad_list.duplicate(),
        }
    }
}

/// A user-initiated operation on one package.
#[derive(Clone, Copy, Debug, PartialEq, Eq, Structural)]
pub enum Action {
    Remove,
    Restore,
}

/// Why the device did not carry out an action.
#[derive(Clone, Copy, Debug, PartialEq, Eq, Structural)]
pub enum ActionError {
    DeviceUnavailable,
    CommandFailed,
}

} // verus!
