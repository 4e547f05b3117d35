//! The data model: a checkbox item, and a named list of items.

use vstd::prelude::*;

verus! {

/// One checkbox-style record: a completion flag and a title.
pub struct Todo {
    pub done: bool,
    pub title: String,
}

/// A named, ordered collection of [`Todo`] items, one per source file.
pub struct Todos {
    pub name: String,
    pub todo_list: Vec<Todo>,
}

/// Mathematical image of a [`Todo`].
pub ghost struct TodoView {
    pub done: bool,
    pub title: Seq<char>,
}

/// Mathematical image of a [`Todos`].
pub ghost struct TodosView {
    pub name: Seq<char>,
    pub items: Seq<TodoView>,
}

impl View for Todo {
    type V = TodoView;

    open spec fn view(&self) -> TodoView {
        TodoView { done: self.done, title: self.title@ }
    }
}

impl View for Todos {
    type V = TodosView;

    open spec fn view(&self) -> TodosView {
        TodosView {
            name: self.name@,
            items: self.todo_list@.map_values(|t: Todo| t@),
        }
    }
}

impl Todo {
    /// Builds an item from its two fields.
    pub fn new(done: bool, title: String) -> (r: Todo)
        ensures
            r@ == (TodoView { done: done, title: title@ }),
    {
        Todo { done, title }
    }
}

impl Todos {
    /// Builds a list from its name and items.
    pub fn new(name: String, todo_list: Vec<Todo>) -> (r: Todos)
        ensures
            r@.name == name@,
            r@.items == todo_list@.map_values(|t: Todo| t@),
    {
        Todos { name, todo_list }
    }
}

} // verus!
