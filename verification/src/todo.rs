//! A to-do item and the bindings that present it.

use crate::fixed::Fixed;
use vstd::prelude::*;

verus! {

/// The fields of a to-do item.
#[derive(Clone, Copy, Debug, PartialEq, Eq, Structural)]
pub enum TodoE {
    Goal,
    Done,
}

/// The elements of the drawing that a to-do item is shown on.
#[derive(Clone, Copy, Debug, PartialEq, Eq, Structural)]
pub enum SvgID {
    Check,
}

/// A to-do item.
#[derive(Debug, PartialEq, Eq)]
pub struct Todo {
    pub goal: String,
    pub done: bool,
}

/// A point of the drawing.
#[derive(Clone, Copy, Debug, PartialEq, Eq, Structural)]
pub struct Point {
    pub x: Fixed,
    pub y: Fixed,
}

/// The extent of the area that a drawing is laid out in.
#[derive(Clone, Copy, Debug, PartialEq, Eq, Structural)]
pub struct Area {
    pub width: Fixed,
    pub height: Fixed,
}

/// A field shown on an element: when the field changes, the element is laid out again.
#[derive(Clone, Copy, Debug, PartialEq, Eq, Structural)]
pub struct Binding {
    pub field: TodoE,
    pub element: SvgID,
}

/// What presents a to-do item: the bindings of its fields to elements, and for each
/// callback the field that it reports as changed.
#[derive(Debug, PartialEq, Eq)]
pub struct Presenter {
    pub layouts: Vec<Binding>,
    pub callbacks: Vec<TodoE>,
}

impl Default for Todo {
    /// An item without a goal that is not done.
    fn default() -> (r: Todo)
        ensures
            r.goal@ == Seq::<char>::empty(),
            !r.done,
    {
        Todo { goal: String::new(), done: false }
    }
}

/// Where the check mark goes when the goal changes: it stays where it is.
pub fn goal_change(point: Point, area: Area) -> (r: Point)
    ensures
        r == point,
{
    point
}

/// A click on the check box: the item is done, and `Done` is the field that changed.
pub fn on_check_box_click(todo: &mut Todo) -> (changed: TodoE)
    ensures
        final(todo).done,
        final(todo).goal == old(todo).goal,
        changed == TodoE::Done,
{
    todo.done = true;
    TodoE::Done
}

/// The presenter of the to-do application: the goal is shown on the check element, and
/// the one callback, the click on the check box, reports `Done`.
pub fn app() -> (presenter: Presenter)
    ensures
        presenter.layouts@ == seq![(Binding { field: TodoE::Goal, element: SvgID::Check })],
        presenter.callbacks@ == seq![TodoE::Done],
{
    let mut layouts: Vec<Binding> = Vec::new();
    layouts.push(Binding { field: TodoE::Goal, element: SvgID::Check });
    let mut callbacks: Vec<TodoE> = Vec::new();
    callbacks.push(TodoE::Done);
    assert(layouts@ =~= seq![(Binding { field: TodoE::Goal, element: SvgID::Check })]);
    assert(callbacks@ =~= seq![TodoE::Done]);
    Presenter { layouts, callbacks }
}

} // verus!
