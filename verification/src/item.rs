//! A single checklist entry: a task description and a completion flag.

use vstd::prelude::*;

verus! {

/// Mathematical model of one checklist entry: the completion flag and the
/// task text as a sequence of characters.  Both [`Item`] and
/// [`crate::list::TodoItem`] view to this type, so the codec and the list
/// store share one model.
#[verifier::ext_equal]
pub ghost struct ItemModel {
    pub done: bool,
    pub text: Seq<char>,
}

/// One checklist entry as the codec produces and consumes it.
#[derive(Debug, PartialEq)]
pub struct Item {
    todo: String,
    done: bool,
}

impl View for Item {
    type V = ItemModel;

    closed spec fn view(&self) -> ItemModel {
        ItemModel { done: self.done, text: self.todo@ }
    }
}

impl DeepView for Item {
    type V = ItemModel;

    open spec fn deep_view(&self) -> ItemModel {
        self.view()
    }
}

impl Item {
    pub fn new(todo: String, done: bool) -> (item: Item)
        ensures
            item@ == (ItemModel { done, text: todo@ }),
    {
        Item { todo, done }
    }

    pub fn is_done(&self) -> (done: bool)
        ensures
            done == self@.done,
    {
        self.done
    }

    pub fn get_todo(&self) -> (todo: &str)
        ensures
            todo@ == self@.text,
    {
        self.todo.as_str()
    }
}

} // verus!
