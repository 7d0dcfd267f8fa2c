//! An ordered list of string items with at most one selected position.

use vstd::prelude::*;

verus! {

/// The views of a sequence of strings, in order.
pub open spec fn texts(strings: Seq<String>) -> Seq<Seq<char>> {
    Seq::new(strings.len(), |i: int| strings[i]@)
}

/// What a list is, mathematically: its items in order, each as its sequence
/// of characters, and the selected position if there is one.
pub struct ListModel {
    pub items: Seq<Seq<char>>,
    pub selected: Option<nat>,
}

impl ListModel {
    /// A selection, where there is one, points at an item.
    pub open spec fn wf(self) -> bool {
        match self.selected {
            Some(i) => i < self.items.len(),
            None => true,
        }
    }

    /// There is a selection exactly when there is an item to select.
    pub open spec fn settled(self) -> bool {
        self.wf() && (self.selected is Some <==> self.items.len() > 0)
    }

    /// The selected item, if any.
    pub open spec fn selected_item(self) -> Option<Seq<char>> {
        match self.selected {
            Some(i) => Some(self.items[i as int]),
            None => None,
        }
    }

    /// The list with `item` added at the end; the selection stays.
    pub open spec fn push(self, item: Seq<char>) -> ListModel {
        ListModel { items: self.items.push(item), selected: self.selected }
    }

    /// The list with `item` placed at `index`, or at the end where `index`
    /// lies beyond it; the selected position stays.
    pub open spec fn insert(self, item: Seq<char>, index: nat) -> ListModel {
        let at = if index <= self.items.len() {
            index
        } else {
            self.items.len()
        };
        ListModel { items: self.items.insert(at as int, item), selected: self.selected }
    }

    /// The list without the item at `index`. A selection on a later item
    /// follows that item down; a selection on the removed item passes to the
    /// item that takes its place, or to the new last item, or is dropped
    /// when nothing is left.
    pub open spec fn delete(self, index: nat) -> ListModel
        recommends
            index < self.items.len(),
    {
        let rest = self.items.remove(index as int);
        let selected = match self.selected {
            None => None,
            Some(s) => if s > index {
                Some((s - 1) as nat)
            } else if s < index {
                Some(s)
            } else if rest.len() == 0 {
                None
            } else if index < rest.len() {
                Some(index)
            } else {
                Some((rest.len() - 1) as nat)
            },
        };
        ListModel { items: rest, selected }
    }

    /// The list with its first item selected; an empty one stays as it is.
    pub open spec fn select_first(self) -> ListModel {
        if self.items.len() == 0 {
            self
        } else {
            ListModel { items: self.items, selected: Some(0nat) }
        }
    }

    /// The list with the selection moved one item on, from the last item to
    /// the first; an unselected list gets its first item selected, an empty
    /// one stays as it is.
    pub open spec fn next(self) -> ListModel {
        if self.items.len() == 0 {
            self
        } else {
            let selected = match self.selected {
                Some(i) => if i + 1 >= self.items.len() {
                    0nat
                } else {
                    i + 1
                },
                None => 0nat,
            };
            ListModel { items: self.items, selected: Some(selected) }
        }
    }

    /// The list with the selection moved one item back, from the first item
    /// to the last; an unselected list gets its first item selected, an empty
    /// one stays as it is.
    pub open spec fn previous(self) -> ListModel {
        if self.items.len() == 0 {
            self
        } else {
            let selected = match self.selected {
                Some(i) => if i == 0 {
                    (self.items.len() - 1) as nat
                } else {
                    (i - 1) as nat
                },
                None => 0nat,
            };
            ListModel { items: self.items, selected: Some(selected) }
        }
    }
}

/// One step of navigation.
pub enum Move {
    Next,
    Previous,
}

/// The list after the moves of `moves`, taken in order.
pub open spec fn navigate(list: ListModel, moves: Seq<Move>) -> ListModel
    decreases moves.len(),
{
    if moves.len() == 0 {
        list
    } else {
        let before = navigate(list, moves.drop_last());
        match moves.last() {
            Move::Next => before.next(),
            Move::Previous => before.previous(),
        }
    }
}

/// An ordered list of items with an optional selected position.
#[derive(Debug)]
pub struct SelectableList {
    items: Vec<String>,
    selected: Option<usize>,
}

impl View for SelectableList {
    type V = ListModel;

    closed spec fn view(&self) -> ListModel {
        ListModel {
            items: texts(self.items@),
            selected: match self.selected {
                Some(i) => Some(i as nat),
                None => None,
            },
        }
    }
}

impl SelectableList {
    /// The invariant of the type: a selection points at an item.
    pub open spec fn wf(&self) -> bool {
        self@.wf()
    }

    /// An empty list with nothing selected.
    pub fn new() -> (list: SelectableList)
        ensures
            list@.items == Seq::<Seq<char>>::empty(),
            list@.selected is None,
            list.wf(),
    {
        let list = SelectableList { items: Vec::new(), selected: None };
        assert(list@.items =~= Seq::<Seq<char>>::empty());
        list
    }

    /// A list of the given items, in their order, with nothing selected.
    pub fn with_items(items: Vec<String>) -> (list: SelectableList)
        ensures
            list@.items == texts(items@),
            list@.selected is None,
            list.wf(),
    {
        SelectableList { items, selected: None }
    }

    /// The number of items.
    pub fn len(&self) -> (n: usize)
        ensures
            n == self@.items.len(),
    {
        self.items.len()
    }

    /// Whether the list holds no item.
    pub fn is_empty(&self) -> (empty: bool)
        ensures
            empty == (self@.items.len() == 0),
    {
        self.items.len() == 0
    }

    /// The items in order.
    pub fn items(&self) -> (items: &Vec<String>)
        ensures
            texts(items@) == self@.items,
    {
        &self.items
    }

    /// The item at `index`, if there is one.
    pub fn get(&self, index: usize) -> (item: Option<&String>)
        ensures
            index < self@.items.len() ==> item is Some && item->0@ == self@.items[index as int],
            index >= self@.items.len() ==> item is None,
    {
        if index < self.items.len() {
            Some(&self.items[index])
        } else {
            None
        }
    }

    /// The selected position, if any.
    pub fn selected_index(&self) -> (index: Option<usize>)
        ensures
            index is Some <==> self@.selected is Some,
            index is Some ==> index->0 as nat == self@.selected->0,
    {
        self.selected
    }

    /// The selected item, if any.
    pub fn selected_item(&self) -> (item: Option<&String>)
        requires
            self.wf(),
        ensures
            item is Some <==> self@.selected is Some,
            item is Some ==> Some(item->0@) == self@.selected_item(),
    {
        match self.selected {
            Some(i) => Some(&self.items[i]),
            None => None,
        }
    }

    /// Adds `item` at the end. The selection is left as it is: an empty list
    /// that receives its first item has none until one is asked for.
    pub fn push(&mut self, item: String)
        requires
            old(self).wf(),
        ensures
            final(self)@ == old(self)@.push(item@),
            final(self).wf(),
    {
        self.items.push(item);
        assert(self@.items =~= old(self)@.items.push(item@));
    }

    /// Places `item` at `index`, moving the items from there on one place
    /// towards the end. An `index` beyond the end means the end. The selected
    /// position is left as it is.
    pub fn insert(&mut self, item: String, index: usize)
        requires
            old(self).wf(),
        ensures
            final(self)@ == old(self)@.insert(item@, index as nat),
            final(self).wf(),
    {
        let at: usize = if index <= self.items.len() {
            index
        } else {
            self.items.len()
        };
        self.items.insert(at, item);
        assert(self@.items =~= old(self)@.items.insert(at as int, item@));
    }

    /// Removes the item at `index` and returns it. The selection keeps to
    /// the item it was on; where that item is the one removed, it passes to
    /// the item that followed, else to the new last item, and is dropped
    /// when the list becomes empty.
    pub fn delete(&mut self, index: usize) -> (removed: String)
        requires
            old(self).wf(),
            index < old(self)@.items.len(),
        ensures
            final(self)@ == old(self)@.delete(index as nat),
            removed@ == old(self)@.items[index as int],
            final(self).wf(),
    {
        let removed = self.items.remove(index);
        let remaining: usize = self.items.len();
        self.selected = match self.selected {
            None => None,
            Some(s) => if s > index {
                Some(s - 1)
            } else if s < index {
                Some(s)
            } else if remaining == 0 {
                None
            } else if index < remaining {
                Some(index)
            } else {
                Some(remaining - 1)
            },
        };
        assert(self@.items =~= old(self)@.items.remove(index as int));
        removed
    }

    /// Selects the first item; an empty list is left alone.
    pub fn select_first(&mut self)
        requires
            old(self).wf(),
        ensures
            final(self)@ == old(self)@.select_first(),
            final(self).wf(),
    {
        if self.items.len() != 0 {
            self.selected = Some(0);
        }
    }

    /// Moves the selection one item on, from the last item round to the
    /// first. With nothing selected the first item is selected; an empty
    /// list is left alone.
    pub fn next(&mut self)
        requires
            old(self).wf(),
        ensures
            final(self)@ == old(self)@.next(),
            final(self).wf(),
            final(self)@.items.len() > 0 ==> final(self)@.selected is Some,
    {
        let n: usize = self.items.len();
        if n != 0 {
            let i: usize = match self.selected {
                Some(i) => if i >= n - 1 {
                    0
                } else {
                    i + 1
                },
                None => 0,
            };
            self.selected = Some(i);
        }
    }

    /// Moves the selection one item back, from the first item round to the
    /// last. With nothing selected the first item is selected; an empty list
    /// is left alone.
    pub fn previous(&mut self)
        requires
            old(self).wf(),
        ensures
            final(self)@ == old(self)@.previous(),
            final(self).wf(),
            final(self)@.items.len() > 0 ==> final(self)@.selected is Some,
    {
        let n: usize = self.items.len();
        if n != 0 {
            let i: usize = match self.selected {
                Some(i) => if i == 0 {
                    n - 1
                } else {
                    i - 1
                },
                None => 0,
            };
            self.selected = Some(i);
        }
    }
}

/// On a list that holds an item, any run of moves that starts from a
/// selection or makes at least one move ends with an item selected.
pub proof fn lemma_navigation_selects_in_bounds(list: ListModel, moves: Seq<Move>)
    requires
        list.wf(),
        list.items.len() > 0,
        list.selected is Some || moves.len() > 0,
    ensures
        navigate(list, moves).items == list.items,
        navigate(list, moves).selected is Some,
        navigate(list, moves).selected->0 < list.items.len(),
    decreases moves.len(),
{
    if moves.len() > 0 {
        let earlier = moves.drop_last();
        if list.selected is Some || earlier.len() > 0 {
            lemma_navigation_selects_in_bounds(list, earlier);
        } else {
            assert(navigate(list, earlier) == list);
        }
    }
}

/// Navigation never changes the items, and keeps a well-formed list
/// well-formed, whatever the list and the moves.
pub proof fn lemma_navigation_keeps_items(list: ListModel, moves: Seq<Move>)
    requires
        list.wf(),
    ensures
        navigate(list, moves).items == list.items,
        navigate(list, moves).wf(),
    decreases moves.len(),
{
    if moves.len() > 0 {
        lemma_navigation_keeps_items(list, moves.drop_last());
    }
}

/// With an item selected, one move on and one move back, in either order,
/// return to the list as it was.
pub proof fn lemma_next_previous_inverse(list: ListModel)
    requires
        list.wf(),
        list.selected is Some,
    ensures
        list.next().previous() == list,
        list.previous().next() == list,
{
}

/// Deleting the selected item of a list of more than one item, when an item
/// follows it, leaves one item fewer and the selection on the item that
/// followed.
pub proof fn lemma_delete_selected_moves_to_follower(list: ListModel)
    requires
        list.wf(),
        list.selected is Some,
        list.selected->0 + 1 < list.items.len(),
    ensures
        list.delete(list.selected->0).items.len() == list.items.len() - 1,
        list.delete(list.selected->0).selected == list.selected,
        list.delete(list.selected->0).selected_item() == Some(
            list.items[list.selected->0 as int + 1],
        ),
        list.delete(list.selected->0).wf(),
{
}

/// Deleting the selected item when it is the last of several leaves one item
/// fewer and the selection on the item before it, the new last one.
pub proof fn lemma_delete_selected_last_moves_back(list: ListModel)
    requires
        list.wf(),
        list.items.len() > 1,
        list.selected == Some((list.items.len() - 1) as nat),
    ensures
        list.delete(list.selected->0).items.len() == list.items.len() - 1,
        list.delete(list.selected->0).selected == Some((list.items.len() - 2) as nat),
        list.delete(list.selected->0).selected_item() == Some(
            list.items[list.items.len() - 2],
        ),
        list.delete(list.selected->0).wf(),
{
}

/// Deleting the only item leaves an empty list with nothing selected.
pub proof fn lemma_delete_sole_item_empties(list: ListModel)
    requires
        list.wf(),
        list.items.len() == 1,
    ensures
        list.delete(0).items == Seq::<Seq<char>>::empty(),
        list.delete(0).selected is None,
{
    assert(list.delete(0).items =~= Seq::<Seq<char>>::empty());
}

/// Deleting an item other than the selected one leaves the selection on the
/// same item, and a settled list stays settled under every deletion.
pub proof fn lemma_delete_tracks_selection(list: ListModel, index: nat)
    requires
        list.wf(),
        index < list.items.len(),
    ensures
        list.delete(index).wf(),
        list.delete(index).items.len() == list.items.len() - 1,
        list.settled() ==> list.delete(index).settled(),
        list.selected is Some && list.selected->0 != index ==> list.delete(index).selected_item()
            == list.selected_item(),
{
}

} // verus!
