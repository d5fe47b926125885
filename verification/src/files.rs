//! Serving files: the size limit and the name filter stand before the
//! file's bytes.

use vstd::prelude::*;
use crate::filter::{allowed, name_allowed, NameFilter};
use crate::mime::{content_type, content_type_of};
use crate::paths::{file_name, requested_name, ResolvedPath};
use crate::response::{file, forbidden, too_large, Response, ResponseModel};

verus! {

/// Whether a size is over an optional limit.
pub open spec fn exceeds(size: u64, limit: Option<u64>) -> bool {
    limit is Some && size > limit->0
}

/// The answer to a request for a file of the given size that was asked
/// for by `name`. The size is judged first, then the name; a file that
/// passes both is streamed from `path`, with the content type that the
/// name gives.
pub open spec fn file_response(
    path: Seq<char>,
    name: Seq<char>,
    size: u64,
    limit: Option<u64>,
    filter: Option<Seq<char>>,
) -> ResponseModel {
    if exceeds(size, limit) {
        too_large()
    } else if !allowed(filter, name) {
        forbidden()
    } else {
        file(path, content_type_of(name))
    }
}

/// Answers a request for the file `found`, which was reached by `path`.
/// The file is judged by the name that was asked for, the last one of
/// `path`: where a link leads to a file of another name, that other name
/// plays no part.
pub fn serve_file(
    path: String,
    found: &ResolvedPath,
    limit: Option<u64>,
    filter: &Option<NameFilter>,
) -> (response: Response)
    ensures
        response.deep_view() == file_response(
            path@,
            requested_name(path@),
            found.size,
            limit,
            filter.deep_view(),
        ),
{
    let over = match limit {
        Some(most) => found.size > most,
        None => false,
    };
    if over {
        return Response::too_large();
    }
    let name = file_name(path.as_str());
    if !name_allowed(filter, name) {
        return Response::forbidden();
    }
    let kind = content_type(name);
    Response::file(path, kind)
}

} // verus!
