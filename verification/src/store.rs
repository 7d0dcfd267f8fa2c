//! The list of bookmarks together with the edits that keep the backing file
//! and the clipboard in step with it.
//!
//! The store owns the list. It never touches the file or the clipboard
//! itself: each operation takes what was read as a plain string and returns
//! what is to be written, so that one call is one logical step.

use vstd::prelude::*;
use vstd::string::*;
use crate::file_editor::{
    all_lines, delete_line_from_file, file_text, is_line, lemma_parsed_records_are_lines,
    lemma_lines_of_single, lemma_records_push, lemma_written_lines_read_back, lines_of,
    parse_records, records_of, strip_trailing_newlines, without_trailing_newlines,
};
use crate::error::StoreError;
use crate::selectable_list::{ListModel, SelectableList};

verus! {

/// The path of the backing file, relative to the working directory.
pub const BOOKMARKS_PATH: &'static str = ".bookmarks";

/// What a deletion asks of the caller.
#[derive(Debug)]
pub struct Deletion {
    /// The deleted item, to be placed on the clipboard.
    pub clipboard: String,
    /// The new text of the whole file.
    pub file_contents: String,
}

/// The list after `item` was pasted: as its only item where the list was
/// empty, right after the selected item where one is selected, and not at
/// all where the list has items but none is selected.
pub open spec fn pasted(list: ListModel, item: Seq<char>) -> ListModel {
    if list.items.len() == 0 {
        list.push(item)
    } else {
        match list.selected {
            Some(i) => list.insert(item, i + 1),
            None => list,
        }
    }
}

/// The list of bookmarks, edited in step with its backing file.
#[derive(Debug)]
pub struct FileSyncedStore {
    list: SelectableList,
}

impl View for FileSyncedStore {
    type V = ListModel;

    closed spec fn view(&self) -> ListModel {
        self.list@
    }
}

impl FileSyncedStore {
    /// The invariant of the type: a selection points at an item.
    pub open spec fn wf(&self) -> bool {
        self@.wf()
    }

    /// The store for a file with the given text: one item for each line that
    /// is not empty after trimming, in the file's order, nothing selected.
    pub fn load(contents: &str) -> (store: FileSyncedStore)
        ensures
            store@.items == records_of(lines_of(contents@)),
            store@.selected is None,
            all_lines(store@.items),
            store.wf(),
    {
        let records = parse_records(contents);
        let list = SelectableList::with_items(records);
        proof {
            lemma_parsed_records_are_lines(contents@);
        }
        FileSyncedStore { list }
    }

    /// The list, to read and to show.
    pub fn list(&self) -> (list: &SelectableList)
        ensures
            list@ == self@,
    {
        &self.list
    }

    /// Moves the selection one item on, with wraparound.
    pub fn select_next(&mut self)
        requires
            old(self).wf(),
        ensures
            final(self)@ == old(self)@.next(),
            final(self).wf(),
    {
        self.list.next();
    }

    /// Moves the selection one item back, with wraparound.
    pub fn select_previous(&mut self)
        requires
            old(self).wf(),
        ensures
            final(self)@ == old(self)@.previous(),
            final(self).wf(),
    {
        self.list.previous();
    }

    /// The text to place on the clipboard for a yank: the selected item as it
    /// stands, or nothing where no item is selected.
    pub fn yank_selected(&self) -> (yanked: Option<String>)
        requires
            self.wf(),
        ensures
            yanked is Some <==> self@.selected is Some,
            yanked is Some ==> Some(yanked->0@) == self@.selected_item(),
    {
        match self.list.selected_item() {
            Some(item) => Some(item.clone()),
            None => None,
        }
    }

    /// Deletes the selected item from the list and from the text of the
    /// file, by its position. `file_contents` is the file as it stands.
    ///
    /// With nothing selected nothing happens. Otherwise the result holds the
    /// deleted item for the clipboard and the file's new text, which lacks
    /// the line at the selected position. Where the file has no line at that
    /// position the edit is refused and the list is left as it was.
    pub fn delete_selected(&mut self, file_contents: &str) -> (outcome: Result<
        Option<Deletion>,
        StoreError,
    >)
        requires
            old(self).wf(),
        ensures
            final(self).wf(),
            match old(self)@.selected {
                None => outcome matches Ok(None) && final(self)@ == old(self)@,
                Some(i) => if i < lines_of(file_contents@).len() {
                    &&& outcome matches Ok(Some(deletion))
                    &&& deletion.clipboard@ == old(self)@.items[i as int]
                    &&& deletion.file_contents@ == file_text(
                        lines_of(file_contents@).remove(i as int),
                    )
                    &&& final(self)@ == old(self)@.delete(i)
                } else {
                    &&& outcome matches Err(StoreError::IndexOutOfRange)
                    &&& final(self)@ == old(self)@
                },
            },
    {
        match self.list.selected_index() {
            None => Ok(None),
            Some(index) => {
                match delete_line_from_file(file_contents, index) {
                    Err(e) => Err(e),
                    Ok(edited) => {
                        let removed = self.list.delete(index);
                        Ok(Some(Deletion { clipboard: removed, file_contents: edited }))
                    },
                }
            },
        }
    }

    /// Pastes the clipboard's text as a new item and returns what is to be
    /// appended to the end of the file.
    ///
    /// The item is the text without the newlines at its end; the file
    /// receives the item and one newline. The item goes right after the
    /// selected one, or becomes the only item of an empty list; the selected
    /// position does not change.
    pub fn paste_after_selected(&mut self, clipboard_contents: &str) -> (appended: String)
        requires
            old(self).wf(),
        ensures
            appended@ == without_trailing_newlines(clipboard_contents@) + seq!['\n'],
            final(self)@ == pasted(old(self)@, without_trailing_newlines(clipboard_contents@)),
            final(self).wf(),
    {
        let item = strip_trailing_newlines(clipboard_contents);
        let mut appended = item.clone();
        proof {
            reveal_strlit("\n");
        }
        assert("\n"@ =~= seq!['\n']);
        appended.append("\n");
        let count: usize = self.list.len();
        if count == 0 {
            self.list.push(item);
        } else {
            match self.list.selected_index() {
                Some(index) => {
                    self.list.insert(item, index + 1);
                },
                None => {},
            }
        }
        appended
    }
}

/// A paste after a selected item puts the new item right behind it, keeps
/// every other item in order, adds exactly one item and leaves the selected
/// position where it was.
pub proof fn lemma_paste_lands_after_selection(list: ListModel, item: Seq<char>)
    requires
        list.wf(),
        list.selected is Some,
    ensures
        pasted(list, item).items.len() == list.items.len() + 1,
        pasted(list, item).items[list.selected->0 as int + 1] == item,
        pasted(list, item).selected == list.selected,
        pasted(list, item).selected_item() == list.selected_item(),
        pasted(list, item).wf(),
{
}

/// A deletion keeps the file in step with the list: where the file's lines
/// are the list's items before, each able to stand as a line, and more than
/// one, the rewritten file's lines are the list's items after.
pub proof fn lemma_delete_keeps_file_in_step(list: ListModel, file: Seq<char>)
    requires
        list.wf(),
        list.selected is Some,
        list.items.len() > 1,
        all_lines(list.items),
        lines_of(file) == list.items,
    ensures
        lines_of(file_text(lines_of(file).remove(list.selected->0 as int))) == list.delete(
            list.selected->0,
        ).items,
{
    let rest = list.items.remove(list.selected->0 as int);
    assert(all_lines(rest)) by {
        assert forall|i: int| 0 <= i < rest.len() implies is_line(#[trigger] rest[i]) by {
            if i < list.selected->0 {
                assert(rest[i] == list.items[i]);
            } else {
                assert(rest[i] == list.items[i + 1]);
            }
        }
    }
    lemma_written_lines_read_back(rest);
}

/// Deleting the only item leaves a file of one empty line, which holds no
/// record: read afresh, it gives the empty list that is left in memory.
pub proof fn lemma_delete_sole_item_leaves_no_record(list: ListModel, file: Seq<char>)
    requires
        list.wf(),
        list.selected is Some,
        list.items.len() == 1,
        lines_of(file) == list.items,
    ensures
        file_text(lines_of(file).remove(0)) == seq!['\n'],
        records_of(lines_of(file_text(lines_of(file).remove(0)))) == list.delete(0).items,
{
    let left = lines_of(file).remove(0);
    let text = file_text(left);
    assert(left =~= Seq::<Seq<char>>::empty());
    assert(text =~= seq!['\n']);
    lemma_lines_of_single(Seq::<char>::empty());
    assert(Seq::<char>::empty() + seq!['\n'] =~= seq!['\n']);
    lemma_records_push(Seq::<Seq<char>>::empty(), Seq::<char>::empty());
    assert(Seq::<Seq<char>>::empty().push(Seq::<char>::empty()) =~= seq![Seq::<char>::empty()]);
    assert(records_of(Seq::<Seq<char>>::empty()) =~= Seq::<Seq<char>>::empty()) by {
        reveal(Seq::filter);
    }
    assert(list.delete(0).items =~= Seq::<Seq<char>>::empty());
}

} // verus!
