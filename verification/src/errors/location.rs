//! Locations: paths into nested data.

use vstd::prelude::*;

verus! {

/// One step of a path into nested data.
#[derive(Debug, PartialEq, Eq)]
pub enum LocItem {
    /// The key of an entry of a mapping.
    Key(String),
    /// The position of an element of a sequence or a set.
    Index(usize),
    /// The name of a declared field of a record.
    Field(String),
}

/// A path step as contracts see it: strings by their characters.
pub enum LocItemModel {
    Key(Seq<char>),
    Index(usize),
    Field(Seq<char>),
}

impl View for LocItem {
    type V = LocItemModel;

    open spec fn view(&self) -> LocItemModel {
        match self {
            LocItem::Key(k) => LocItemModel::Key(k@),
            LocItem::Index(i) => LocItemModel::Index(*i),
            LocItem::Field(f) => LocItemModel::Field(f@),
        }
    }
}

impl Clone for LocItem {
    fn clone(&self) -> (copy: LocItem)
        ensures
            copy@ == self@,
    {
        match self {
            LocItem::Key(k) => LocItem::Key(k.clone()),
            LocItem::Index(i) => LocItem::Index(*i),
            LocItem::Field(f) => LocItem::Field(f.clone()),
        }
    }
}

/// Where in the input something was found: the path steps from the root of
/// the input down to the place, outermost first.
#[derive(Debug, PartialEq, Eq)]
pub struct Location {
    pub items: Vec<LocItem>,
}

impl View for Location {
    type V = Seq<LocItemModel>;

    open spec fn view(&self) -> Seq<LocItemModel> {
        Seq::new(self.items.len() as nat, |i: int| self.items[i]@)
    }
}

impl Location {
    /// The location of the root of the input: no steps.
    pub fn new() -> (loc: Location)
        ensures
            loc@ == Seq::<LocItemModel>::empty(),
    {
        let loc = Location { items: Vec::new() };
        assert(loc@ =~= Seq::<LocItemModel>::empty());
        loc
    }

    /// The number of steps.
    pub fn len(&self) -> (n: usize)
        ensures
            n == self@.len(),
    {
        self.items.len()
    }

    /// Goes one step further down.
    pub fn push(&mut self, item: LocItem)
        ensures
            final(self)@ == old(self)@.push(item@),
    {
        self.items.push(item);
        assert(self@ =~= old(self)@.push(item@));
    }

    /// Goes one step back up; at the root it stays where it is.
    pub fn pop(&mut self)
        ensures
            old(self)@.len() > 0 ==> final(self)@ == old(self)@.drop_last(),
            old(self)@.len() == 0 ==> final(self)@ == old(self)@,
    {
        let _ = self.items.pop();
        assert(old(self)@.len() > 0 ==> self@ =~= old(self)@.drop_last());
        assert(old(self)@.len() == 0 ==> self@ =~= old(self)@);
    }
}

impl Clone for Location {
    fn clone(&self) -> (copy: Location)
        ensures
            copy@ == self@,
    {
        let mut items: Vec<LocItem> = Vec::new();
        let mut i: usize = 0;
        while i < self.items.len()
            invariant
                i <= self.items.len(),
                items.len() == i,
                forall|j: int| 0 <= j < i ==> (#[trigger] items[j])@ == self.items[j]@,
            decreases self.items.len() - i,
        {
            items.push(self.items[i].clone());
            i = i + 1;
        }
        let copy = Location { items };
        assert(copy@ =~= self@);
        copy
    }
}

} // verus!
