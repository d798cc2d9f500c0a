//! The list store: an ordered todo list and its mutations.
//!
//! A [`TodoList`] is an ordered sequence of [`TodoItem`]s; its view is the
//! sequence of their models, so order and 1-based numbering are part of
//! every contract.  Loading and saving go through the codec's document
//! model: the list neither reads nor writes files itself, it decodes and
//! encodes plain text.

use crate::codec::decode_model;
use crate::codec::encode_model;
use crate::codec::header;
use crate::codec::item_of_line;
use crate::codec::items_of_lines;
use crate::codec::lemma_encode_items_push;
use crate::codec::lemma_items_of_lines_push;
use crate::codec::line_of;
use crate::codec::split_lines;
use crate::decimal::decimal_of;
use crate::decimal::decimal_string;
use crate::item::ItemModel;
use vstd::prelude::*;
use vstd::string::StrSliceExecFns;
use vstd::string::StringExecFns;

verus! {

/// One numbered listing line: the 1-based number, a colon and a space,
/// then the item's checklist line.
pub open spec fn numbered_line(n: nat, m: ItemModel) -> Seq<char> {
    decimal_of(n) + seq![':', ' '] + line_of(m)
}

/// One entry of a [`TodoList`].
#[derive(Debug, PartialEq)]
pub struct TodoItem {
    done: bool,
    todo: String,
}

impl View for TodoItem {
    type V = ItemModel;

    closed spec fn view(&self) -> ItemModel {
        ItemModel { done: self.done, text: self.todo@ }
    }
}

impl DeepView for TodoItem {
    type V = ItemModel;

    open spec fn deep_view(&self) -> ItemModel {
        self.view()
    }
}

impl TodoItem {
    /// A fresh, not yet completed entry.
    pub fn new(todo: String) -> (item: TodoItem)
        ensures
            item@ == (ItemModel { done: false, text: todo@ }),
    {
        TodoItem { todo, done: false }
    }

    /// Decodes one checklist line, tolerating short lines as
    /// [`item_of_line`] describes.
    pub fn from_string(todo: &str) -> (item: TodoItem)
        ensures
            item@ == item_of_line(todo@),
    {
        let n = todo.unicode_len();
        let done = n > 3 && todo.get_char(3) == 'X';
        let text = if n >= 6 {
            String::from_str(todo.substring_char(6, n))
        } else {
            String::new()
        };
        TodoItem { todo: text, done }
    }

    /// Encodes the entry as its checklist line, without the closing
    /// newline.
    pub fn to_string(&self) -> (line: String)
        ensures
            line@ == line_of(self@),
    {
        let mut line = String::from_str("- [");
        if self.done {
            line.append("X");
        } else {
            line.append(" ");
        }
        line.append("] ");
        line.append(self.todo.as_str());
        proof {
            reveal_strlit("- [");
            reveal_strlit("X");
            reveal_strlit(" ");
            reveal_strlit("] ");
            assert(line@ =~= line_of(self@));
        }
        line
    }

    /// Marks the entry as completed.
    pub fn done(&mut self)
        ensures
            final(self)@ == (ItemModel { done: true, text: old(self)@.text }),
    {
        self.done = true;
    }
}

/// An ordered todo list.  Items are addressed by their 1-based position;
/// removing one shifts every later number down by one.
#[derive(Debug, PartialEq)]
pub struct TodoList {
    items: Vec<TodoItem>,
}

impl View for TodoList {
    type V = Seq<ItemModel>;

    closed spec fn view(&self) -> Seq<ItemModel> {
        self.items.deep_view()
    }
}

impl TodoList {
    /// Builds the list a document describes: the first line is discarded
    /// as the title, empty lines are skipped, every other line is one
    /// item, in order.
    pub fn from_text(text: &str) -> (list: TodoList)
        ensures
            list@ == decode_model(text@),
    {
        let lines = split_lines(text);
        let mut items: Vec<TodoItem> = Vec::new();
        proof {
            assert(items.deep_view() =~= Seq::<ItemModel>::empty());
        }
        if lines.len() == 0 {
            return TodoList { items };
        }
        let mut idx: usize = 1;
        proof {
            assert(lines.deep_view().subrange(1, 1) =~= Seq::<Seq<char>>::empty());
        }
        while idx < lines.len()
            invariant
                1 <= idx <= lines.len(),
                items.deep_view() == items_of_lines(lines.deep_view().subrange(1, idx as int)),
            decreases lines.len() - idx,
        {
            let line: &String = &lines[idx];
            let ghost before = items.deep_view();
            if !line.as_str().is_empty() {
                let item = TodoItem::from_string(line.as_str());
                items.push(item);
                proof {
                    assert(items.deep_view() =~= before + seq![item@]);
                }
            }
            proof {
                let all = lines.deep_view();
                assert(all[idx as int] == lines@[idx as int]@);
                assert(all.subrange(1, idx as int + 1) =~= all.subrange(1, idx as int).push(
                    all[idx as int],
                ));
                lemma_items_of_lines_push(all.subrange(1, idx as int), all[idx as int]);
            }
            idx = idx + 1;
        }
        proof {
            let all = lines.deep_view();
            assert(all.subrange(1, all.len() as int) =~= all.drop_first());
        }
        TodoList { items }
    }

    /// Encodes the list as a whole document: the fixed header, then one
    /// checklist line per item.
    pub fn to_text(&self) -> (text: String)
        ensures
            text@ == encode_model(self@),
    {
        let mut text = String::from_str("# TODO\n\n");
        proof {
            reveal_strlit("# TODO\n\n");
            assert(text@ =~= header());
            assert(self@.take(0) =~= Seq::<ItemModel>::empty());
            assert(text@ =~= header() + crate::codec::encode_items(self@.take(0)));
        }
        let mut idx: usize = 0;
        while idx < self.items.len()
            invariant
                idx <= self.items.len(),
                text@ == header() + crate::codec::encode_items(self@.take(idx as int)),
            decreases self.items.len() - idx,
        {
            let line = self.items[idx].to_string();
            text.append(line.as_str());
            text.append("\n");
            proof {
                reveal_strlit("\n");
                assert(self@[idx as int] == self.items@[idx as int]@);
                assert(self@.take(idx as int + 1) =~= self@.take(idx as int).push(
                    self@[idx as int],
                ));
                lemma_encode_items_push(self@.take(idx as int), self@[idx as int]);
                assert(text@ =~= header() + crate::codec::encode_items(self@.take(idx as int + 1)));
            }
            idx = idx + 1;
        }
        proof {
            assert(self@.take(self@.len() as int) =~= self@);
        }
        text
    }

    /// Renders the list for display: one line per item, numbered from 1.
    pub fn list_items(&self) -> (out: Vec<String>)
        ensures
            out@.len() == self@.len(),
            forall|i: int|
                0 <= i < self@.len() ==> out@[i]@ == numbered_line((i + 1) as nat, self@[i]),
    {
        let mut out: Vec<String> = Vec::new();
        let mut idx: usize = 0;
        while idx < self.items.len()
            invariant
                idx <= self.items.len(),
                out@.len() == idx,
                forall|i: int|
                    0 <= i < idx ==> out@[i]@ == numbered_line((i + 1) as nat, self@[i]),
            decreases self.items.len() - idx,
        {
            let mut line = decimal_string(idx + 1);
            line.append(": ");
            let encoded = self.items[idx].to_string();
            line.append(encoded.as_str());
            proof {
                reveal_strlit(": ");
                assert(self@[idx as int] == self.items@[idx as int]@);
                assert(line@ =~= numbered_line((idx + 1) as nat, self@[idx as int]));
            }
            out.push(line);
            idx = idx + 1;
        }
        out
    }

    /// Appends a new, not yet completed item at the end of the list.
    pub fn add_item(&mut self, item: String)
        ensures
            final(self)@ == old(self)@.push((ItemModel { done: false, text: item@ })),
    {
        let ghost text = item@;
        self.items.push(TodoItem::new(item));
        proof {
            assert(self@ =~= old(self)@.push((ItemModel { done: false, text })));
        }
    }

    /// Marks item `number` (1-based) as done, and says whether the number
    /// was valid.  An invalid number leaves the list unchanged; marking an
    /// already done item changes nothing either.
    pub fn mark_done(&mut self, number: usize) -> (ok: bool)
        ensures
            ok == (1 <= number <= old(self)@.len()),
            ok ==> final(self)@ == old(self)@.update(
                number - 1,
                (ItemModel { done: true, text: old(self)@[number - 1].text }),
            ),
            !ok ==> final(self)@ == old(self)@,
    {
        if number == 0 || number > self.items.len() {
            return false;
        }
        let idx = number - 1;
        let mut item = self.items.remove(idx);
        item.done();
        self.items.insert(idx, item);
        proof {
            assert(self@ =~= old(self)@.update(
                idx as int,
                (ItemModel { done: true, text: old(self)@[idx as int].text }),
            ));
        }
        true
    }

    /// Removes item `number` (1-based), shifting every later number down
    /// by one, and says whether the number was valid.  An invalid number
    /// leaves the list unchanged.
    pub fn remove(&mut self, number: usize) -> (ok: bool)
        ensures
            ok == (1 <= number <= old(self)@.len()),
            ok ==> final(self)@ == old(self)@.remove(number - 1),
            !ok ==> final(self)@ == old(self)@,
    {
        if number == 0 || number > self.items.len() {
            return false;
        }
        self.items.remove(number - 1);
        proof {
            assert(self@ =~= old(self)@.remove(number - 1));
        }
        true
    }

    /// Removes every completed item, keeping the rest in order.
    pub fn remove_completed(&mut self)
        ensures
            final(self)@ == old(self)@.filter(|m: ItemModel| !m.done),
    {
        let ghost orig = old(self)@;
        let mut kept: Vec<TodoItem> = Vec::new();
        let ghost mut taken: int = 0;
        proof {
            assert(orig.skip(0) =~= orig);
            assert(kept.deep_view() =~= Seq::<ItemModel>::empty());
            assert(orig.take(0) =~= Seq::<ItemModel>::empty());
            reveal(Seq::filter);
        }
        while self.items.len() > 0
            invariant
                0 <= taken <= orig.len(),
                self.items.deep_view() == orig.skip(taken),
                kept.deep_view() == orig.take(taken).filter(|m: ItemModel| !m.done),
            decreases self.items.len(),
        {
            let ghost kept_before = kept.deep_view();
            let ghost pre = self.items.deep_view();
            proof {
                assert(pre.len() == self.items@.len());
                assert(taken < orig.len());
            }
            let item = self.items.remove(0);
            proof {
                assert(item@ == pre[0]);
                assert(pre[0] == orig[taken]);
                assert(self.items.deep_view() =~= pre.drop_first());
                assert(pre.drop_first() =~= orig.skip(taken + 1));
            }
            if !item.done {
                kept.push(item);
                proof {
                    assert(kept.deep_view() =~= kept_before.push(item@));
                }
            }
            proof {
                let pred = |m: ItemModel| !m.done;
                assert(orig.take(taken + 1) =~= orig.take(taken) + seq![orig[taken]]);
                Seq::<ItemModel>::filter_distributes_over_add(
                    orig.take(taken),
                    seq![orig[taken]],
                    pred,
                );
                reveal(Seq::filter);
                assert(seq![orig[taken]].drop_last() =~= Seq::<ItemModel>::empty());
                assert(Seq::<ItemModel>::empty().filter(pred) == Seq::<ItemModel>::empty());
                assert(seq![orig[taken]].last() == orig[taken]);
                assert(seq![orig[taken]].filter(pred) == if pred(orig[taken]) {
                    Seq::<ItemModel>::empty().push(orig[taken])
                } else {
                    Seq::<ItemModel>::empty()
                });
                assert(Seq::<ItemModel>::empty().push(orig[taken]) =~= seq![orig[taken]]);
                taken = taken + 1;
            }
        }
        self.items = kept;
        proof {
            assert(orig.take(orig.len() as int) =~= orig);
        }
    }

    /// Empties the list, whatever it held.
    pub fn remove_all(&mut self)
        ensures
            final(self)@ == Seq::<ItemModel>::empty(),
    {
        self.items.clear();
        proof {
            assert(self@ =~= Seq::<ItemModel>::empty());
        }
    }
}

} // verus!
