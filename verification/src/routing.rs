//! Which operation a request asks for.

use crate::responses::{message, Response, ResponseModel, _404};
use crate::text::{chars_of, same_text, string_of};
use vstd::prelude::*;
use vstd::string::*;

verus! {

/// The operations.
#[derive(Clone, Copy, Debug, PartialEq, Eq, Structural)]
pub enum Route {
    TopIndexes,
    Post,
    AllTags,
    TagIndexes,
    SearchPost,
}

/// Where a request leads.
#[derive(Clone, Copy, Debug, PartialEq, Eq, Structural)]
pub enum Routed {
    /// To an operation.
    Endpoint(Route),
    /// To the path of an operation, with a method that it does not serve.
    NoMethod,
    /// Nowhere.
    NoEndpoint,
}

/// Offset `i` holds the last `/` of `path`.
pub open spec fn is_last_slash(path: Seq<char>, i: int) -> bool {
    &&& 0 <= i < path.len()
    &&& path[i] == '/'
    &&& forall|j: int| i < j < path.len() ==> path[j] != '/'
}

/// What stands in `fullpath` from its last `/` on.
pub open spec fn endpoint_path(fullpath: Seq<char>) -> Seq<char>
    recommends
        fullpath.contains('/'),
{
    fullpath.skip(choose|i: int| is_last_slash(fullpath, i))
}

/// The part of a request path that names the operation: what stands from
/// the last `/` on. A path without `/` names none.
pub fn endpoint_of(fullpath: &str) -> (path: Option<String>)
    ensures
        match path {
            Some(p) => fullpath@.contains('/') && p@ == endpoint_path(fullpath@),
            None => !fullpath@.contains('/'),
        },
{
    let chars = chars_of(fullpath);
    let mut i: usize = chars.len();
    while i > 0
        invariant
            i <= chars@.len(),
            chars@ == fullpath@,
            forall|j: int| i <= j < chars@.len() ==> chars@[j] != '/',
        decreases i,
    {
        i -= 1;
        if chars[i] == '/' {
            let path = string_of(&chars, i, chars.len());
            proof {
                assert(is_last_slash(fullpath@, i as int));
                let chosen = choose|k: int| is_last_slash(fullpath@, k);
                assert(chosen == i);
                assert(fullpath@.skip(i as int) =~= chars@.subrange(i as int, chars@.len() as int));
            }
            return Some(path);
        }
    }
    assert forall|j: int| 0 <= j < fullpath@.len() implies fullpath@[j] != '/' by {
        assert(chars@[j] != '/');
    }
    None
}

/// The operation that goes by `path`.
pub open spec fn route_named(path: Seq<char>) -> Option<Route> {
    if path == "/get-top-indexes"@ {
        Some(Route::TopIndexes)
    } else if path == "/get-post"@ {
        Some(Route::Post)
    } else if path == "/get-all-tags"@ {
        Some(Route::AllTags)
    } else if path == "/get-tag-indexes"@ {
        Some(Route::TagIndexes)
    } else if path == "/search-post"@ {
        Some(Route::SearchPost)
    } else {
        None
    }
}

/// Where a request for `path` with `method` leads: every operation serves
/// `GET` and nothing else.
pub open spec fn routed(path: Seq<char>, method: Seq<char>) -> Routed {
    match route_named(path) {
        Some(route) => if method == "GET"@ {
            Routed::Endpoint(route)
        } else {
            Routed::NoMethod
        },
        None => Routed::NoEndpoint,
    }
}

/// Finds the operation that a request asks for.
pub fn route(path: &str, method: &str) -> (result: Routed)
    ensures
        result == routed(path@, method@),
{
    let found = if same_text(path, "/get-top-indexes") {
        Some(Route::TopIndexes)
    } else if same_text(path, "/get-post") {
        Some(Route::Post)
    } else if same_text(path, "/get-all-tags") {
        Some(Route::AllTags)
    } else if same_text(path, "/get-tag-indexes") {
        Some(Route::TagIndexes)
    } else if same_text(path, "/search-post") {
        Some(Route::SearchPost)
    } else {
        None
    };
    match found {
        Some(route) => if same_text(method, "GET") {
            Routed::Endpoint(route)
        } else {
            Routed::NoMethod
        },
        None => Routed::NoEndpoint,
    }
}

/// What a request that leads to no operation is told.
pub open spec fn not_found(path: Seq<char>, known_path: bool) -> ResponseModel {
    if known_path {
        message(404, "No method found for `"@ + path + "` path."@)
    } else {
        message(404, "No API endpoint path found."@)
    }
}

/// The answer to a request that leads to no operation: `known_path` tells
/// whether at least the path is that of an operation.
pub fn not_found_response(path: &str, known_path: bool) -> (response: Response)
    ensures
        response@ == not_found(path@, known_path),
{
    if known_path {
        let mut text = "No method found for `".to_owned();
        text.append(path);
        text.append("` path.");
        _404(text)
    } else {
        _404("No API endpoint path found.".to_owned())
    }
}

} // verus!
