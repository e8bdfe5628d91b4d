//! What the task handler of the todo service decides: which stored values it
//! lists, which tasks a query keeps, in what order they are shown, and which
//! task a path names.

use crate::error::KvsError;
use crate::text::{contains_ignoring_ascii_case, found_in, nth_piece, piece, same_text};
use vstd::prelude::*;
use vstd::utf8::encode_utf8;

verus! {

/// The order in which tasks are listed.
#[derive(Clone, Copy, Debug, PartialEq, Eq, Structural)]
pub enum TaskOrder {
    /// As the store hands them out.
    Stored,
    /// By creation time, oldest first.
    CreatedAscending,
    /// By creation time, newest first.
    CreatedDescending,
}

/// The text of an optional parameter.
pub open spec fn text_of(param: Option<&str>) -> Option<Seq<char>> {
    match param {
        Some(text) => Some(text@),
        None => None,
    }
}

/// The order that the parameters `order` and `asc` of a listing ask for.
///
/// Without `order` the tasks are not sorted. With it they are sorted by
/// creation time, whatever it names, and oldest first unless it names
/// `created_at` and `asc` is `false`.
pub open spec fn order_of(order: Option<Seq<char>>, asc: Option<Seq<char>>) -> TaskOrder {
    match order {
        None => TaskOrder::Stored,
        Some(field) => if field == "created_at"@ && asc == Some("false"@) {
            TaskOrder::CreatedDescending
        } else {
            TaskOrder::CreatedAscending
        },
    }
}

/// The handler of the requests that concern tasks.
pub struct TaskHandler {}

impl TaskHandler {
    /// A handler.
    pub fn new() -> (handler: TaskHandler) {
        TaskHandler {  }
    }

    /// Whether a stored value that could not be read is passed over in a
    /// listing: the store may hold other values than tasks, so one that does
    /// not read as a task is passed over, and any other error is reported.
    pub fn skips(&self, err: &KvsError) -> (skip: bool)
        ensures
            skip == (*err == KvsError::Serialize),
    {
        err.is_serialize()
    }

    /// Whether the parameter `query` keeps a task of the given title: the
    /// query has to stand in the title, ASCII letters compared without regard
    /// to case.
    pub fn matches(&self, title: &str, query: &str) -> (keep: bool)
        ensures
            keep == found_in(encode_utf8(title@), encode_utf8(query@)),
    {
        contains_ignoring_ascii_case(title, query)
    }

    /// The order that the parameters `order` and `asc` ask for.
    pub fn order(&self, order: Option<&str>, asc: Option<&str>) -> (by: TaskOrder)
        ensures
            by == order_of(text_of(order), text_of(asc)),
    {
        match order {
            None => TaskOrder::Stored,
            Some(field) => {
                let descending = match asc {
                    Some(asc) => same_text(asc, "false"),
                    None => false,
                };
                if descending && same_text(field, "created_at") {
                    TaskOrder::CreatedDescending
                } else {
                    TaskOrder::CreatedAscending
                }
            },
        }
    }

    /// The id of the task that a path of the form `/tasks/{id}` names: the
    /// third piece of the path cut at every `/`, if it has one.
    pub fn delete_target<'a>(&self, path: &'a str) -> (id: Option<&'a str>)
        ensures
            match id {
                Some(id) => piece(path@, 2) == Some(id@),
                None => piece(path@, 2) is None,
            },
    {
        nth_piece(path, 2)
    }
}

} // verus!
