//! Which handler of the todo service answers a request.

use crate::text::{begins_with, same_text, starts_with};
use vstd::prelude::*;
use vstd::utf8::encode_utf8;

verus! {

/// What the service does with a request.
#[derive(Clone, Copy, Debug, PartialEq, Eq, Structural)]
pub enum Route {
    /// Answer a CORS preflight with 204 and no body.
    Preflight,
    /// List the tasks.
    GetTasks,
    /// Create a task from the request's body.
    CreateTask,
    /// Delete the task that the path names.
    DeleteTask,
    /// Say that the service is up.
    Healthz,
    /// Answer 404.
    NotFound,
}

/// The route of a request, from its method and the path of its URI.
///
/// A preflight is answered whatever its path is, since its path is that of
/// the request to come. Paths that begin with `/tasks` belong to the task
/// handler, which knows `GET`, `POST` and `DELETE`.
pub open spec fn route_of(method: Seq<char>, path: Seq<char>) -> Route {
    if method == "OPTIONS"@ {
        Route::Preflight
    } else if begins_with(encode_utf8(path), encode_utf8("/tasks"@)) {
        if method == "GET"@ {
            Route::GetTasks
        } else if method == "POST"@ {
            Route::CreateTask
        } else if method == "DELETE"@ {
            Route::DeleteTask
        } else {
            Route::NotFound
        }
    } else if path == "/healthz"@ {
        Route::Healthz
    } else {
        Route::NotFound
    }
}

/// The route of a request, from its method and the path of its URI.
pub fn route(method: &str, path: &str) -> (r: Route)
    ensures
        r == route_of(method@, path@),
{
    if same_text(method, "OPTIONS") {
        Route::Preflight
    } else if starts_with(path, "/tasks") {
        if same_text(method, "GET") {
            Route::GetTasks
        } else if same_text(method, "POST") {
            Route::CreateTask
        } else if same_text(method, "DELETE") {
            Route::DeleteTask
        } else {
            Route::NotFound
        }
    } else if same_text(path, "/healthz") {
        Route::Healthz
    } else {
        Route::NotFound
    }
}

} // verus!
