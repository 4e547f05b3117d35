//! The text the two panes show: one line per list name on the left, a
//! checkbox line per item and a padded title on the right.

use crate::todo::{Todo, TodoView, Todos};
use vstd::prelude::*;

verus! {

/// The checkbox marker an item line starts with.
pub open spec fn checkbox(done: bool) -> Seq<char> {
    if done {
        "[x]"@
    } else {
        "[ ]"@
    }
}

/// The full line shown for one item: marker, a space, then the title.
pub open spec fn item_line_spec(t: TodoView) -> Seq<char> {
    checkbox(t.done) + " "@ + t.title
}

/// Renders one item as its detail-pane line.
pub fn item_line(t: &Todo) -> (r: String)
    ensures
        r@ == item_line_spec(t@),
{
    let mut line = if t.done {
        String::from_str("[x]")
    } else {
        String::from_str("[ ]")
    };
    line.append(" ");
    line.append(t.title.as_str());
    line
}

/// Renders every item of the selected list, in order.
pub fn detail_lines(ts: &Todos) -> (r: Vec<String>)
    ensures
        r@.len() == ts.todo_list@.len(),
        forall|i: int| 0 <= i < r@.len() ==> r@[i]@ == item_line_spec(ts@.items[i]),
{
    let mut out: Vec<String> = Vec::new();
    let mut k: usize = 0;
    while k < ts.todo_list.len()
        invariant
            k <= ts.todo_list@.len(),
            out@.len() == k,
            forall|i: int| 0 <= i < k ==> out@[i]@ == item_line_spec(ts@.items[i]),
        decreases ts.todo_list@.len() - k,
    {
        out.push(item_line(&ts.todo_list[k]));
        k = k + 1;
    }
    out
}

/// The detail pane's title: the selected list's name between single spaces.
pub fn pane_title(ts: &Todos) -> (r: String)
    ensures
        r@ == " "@ + ts@.name + " "@,
{
    let mut title = String::from_str(" ");
    title.append(ts.name.as_str());
    title.append(" ");
    title
}

/// The left pane's lines: every list's name, in collection order.
pub fn list_names(collection: &Vec<Todos>) -> (r: Vec<String>)
    ensures
        r@.len() == collection@.len(),
        forall|i: int| 0 <= i < r@.len() ==> r@[i]@ == collection@[i]@.name,
{
    let mut out: Vec<String> = Vec::new();
    let mut k: usize = 0;
    while k < collection.len()
        invariant
            k <= collection@.len(),
            out@.len() == k,
            forall|i: int| 0 <= i < k ==> out@[i]@ == collection@[i]@.name,
        decreases collection@.len() - k,
    {
        out.push(collection[k].name.clone());
        k = k + 1;
    }
    out
}

} // verus!
