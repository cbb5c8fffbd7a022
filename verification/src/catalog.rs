//! The classification catalog: what is known of a package by its name.

use vstd::prelude::*;
use vstd::string::StringExecFns;

verus! {

/// What the catalog says of one package.
#[derive(Clone, Debug, PartialEq, Eq)]
pub struct Package {
    pub description: String,
    pub list: String,
}

/// The view of a `Package`.
pub struct PackageView {
    pub description: Seq<char>,
    pub list: Seq<char>,
}

impl View for Package {
    type V = PackageView;

    open spec fn view(&self) -> PackageView {
        PackageView { description: self.description@, list: self.list@ }
    }
}

/// One entry as the catalog keeps it.
#[derive(Clone, Debug)]
pub struct Entry {
    pub name: String,
    pub package: Package,
}

/// The mapping that a run of entries stands for: a later entry replaces an
/// earlier one of the same name.
pub open spec fn mapping(entries: Seq<Entry>) -> Map<Seq<char>, PackageView>
    decreases entries.len(),
{
    if entries.len() == 0 {
        Map::empty()
    } else {
        mapping(entries.drop_last()).insert(entries.last().name@, entries.last().package@)
    }
}

/// A name that none of the entries from `from` on bears is mapped as the
/// entries before `from` map it.
proof fn lemma_mapping_skips(entries: Seq<Entry>, from: int, name: Seq<char>)
    requires
        0 <= from <= entries.len(),
        forall|j: int| from <= j < entries.len() ==> (#[trigger] entries[j]).name@ != name,
    ensures
        mapping(entries).contains_key(name) == mapping(entries.take(from)).contains_key(name),
        mapping(entries).contains_key(name) ==> mapping(entries)[name] == mapping(
            entries.take(from),
        )[name],
    decreases entries.len() - from,
{
    if from == entries.len() {
        assert(entries.take(from) =~= entries);
    } else {
        let front = entries.drop_last();
        assert(entries[entries.len() - 1].name@ != name);
        lemma_mapping_skips(front, from, name);
        assert(front.take(from) =~= entries.take(from));
    }
}

/// An immutable-once-loaded mapping from package name to what is known of
/// the package.
#[derive(Clone, Debug)]
pub struct Catalog {
    entries: Vec<Entry>,
}

impl View for Catalog {
    type V = Map<Seq<char>, PackageView>;

    closed spec fn view(&self) -> Map<Seq<char>, PackageView> {
        mapping(self.entries@)
    }
}

impl Catalog {
    /// A catalog that knows no package.
    pub fn new() -> (r: Catalog)
        ensures
            r@ == Map::<Seq<char>, PackageView>::empty(),
    {
        Catalog { entries: Vec::new() }
    }

    /// Records what is known of `name`, in place of anything recorded of
    /// it before.
    pub fn insert(&mut self, name: &str, description: &str, list: &str)
        ensures
            final(self)@ == old(self)@.insert(
                name@,
                PackageView { description: description@, list: list@ },
            ),
    {
        let entry = Entry {
            name: String::from_str(name),
            package: Package {
                description: String::from_str(description),
                list: String::from_str(list),
            },
        };
        proof {
            assert(self.entries@.push(entry).drop_last() =~= self.entries@);
        }
        self.entries.push(entry);
    }

    /// What the catalog says of `name`, if it knows the package.
    pub fn lookup(&self, name: &String) -> (r: Option<&Package>)
        ensures
            r.is_some() == self@.contains_key(name@),
            r.is_some() ==> r.unwrap()@ == self@[name@],
    {
        let mut i: usize = self.entries.len();
        proof {
            assert(self.entries@.take(i as int) =~= self.entries@);
        }
        while i > 0
            invariant
                0 <= i <= self.entries.len(),
                forall|j: int|
                    i <= j < self.entries.len() ==> (#[trigger] self.entries@[j]).name@ != name@,
            decreases i,
        {
            if self.entries[i - 1].name == *name {
                proof {
                    lemma_mapping_skips(self.entries@, i as int, name@);
                    assert(self.entries@.take(i as int).drop_last() =~= self.entries@.take(
                        i - 1,
                    ));
                }
                return Some(&self.entries[i - 1].package);
            }
            i = i - 1;
        }
        proof {
            lemma_mapping_skips(self.entries@, 0, name@);
        }
        None
    }
}

} // verus!
