//! Decoding a request: its method and its target give a tile request or the
//! status with which the request is turned down.

use crate::route::{pair_texts, request_of, route, TileRequest, TileRequestView};
use crate::status::Status;
use crate::text::{chars_of, text_is};
use vstd::prelude::*;

verus! {

/// The parts of a request's target that decide what it asks for.
#[derive(Debug)]
pub struct Target {
    /// The path, percent-encoded as it stands in the target.
    pub path: String,
    /// The keys and values of the query in their order, percent-decoded.
    pub query: Vec<(String, String)>,
}

/// The path of the URL that `url::Url::parse` reads from `target`; `None`
/// where it reads none.
pub uninterp spec fn url_path(target: Seq<char>) -> Option<Seq<char>>;

/// The pairs that `url::Url::query_pairs` gives for the URL read from
/// `target`.
pub uninterp spec fn url_query(target: Seq<char>) -> Seq<(Seq<char>, Seq<char>)>;

/// `url::Url::parse` reads an absolute URL from the text; of the URL,
/// `url::Url::path` gives the path and `url::Url::query_pairs` the keys and
/// values of the query. All that is claimed is that the three depend on the
/// text alone: an outcome has a name, and nothing is said of what it is.
#[verifier::external_body]
fn parse_target(target: &str) -> (r: Option<Target>)
    ensures
        match r {
            Some(parts) => url_path(target@) == Some(parts.path@) && url_query(target@)
                == pair_texts(parts.query@),
            None => url_path(target@) is None,
        },
{
    let url = url::Url::parse(target).ok()?;
    let query = url.query_pairs().map(|(key, value)| (key.into_owned(), value.into_owned()));
    Some(Target { path: url.path().to_owned(), query: query.collect() })
}

/// What a request with `method` and `target` comes to: any method but `GET`
/// is not allowed; a target that is no absolute URL is not found; the path
/// and the query of any other target decide.
pub open spec fn decoded(method: Seq<char>, target: Seq<char>) -> Result<TileRequestView, Status> {
    if method != "GET"@ {
        Err(Status::MethodNotAllowed)
    } else {
        match url_path(target) {
            None => Err(Status::NotFound),
            Some(path) => request_of(path, url_query(target)),
        }
    }
}

/// Whether `r` is the outcome `expected`.
pub open spec fn is_outcome(
    r: Result<TileRequest, Status>,
    expected: Result<TileRequestView, Status>,
) -> bool {
    match expected {
        Ok(request) => r is Ok && r->Ok_0@ == request,
        Err(status) => r is Err && r->Err_0 == status,
    }
}

/// Decodes a request from its method and its target. The method is looked
/// at first, then the target; what the path and the query of a target ask
/// for is decided by [`route`].
pub fn decode_request(method: &str, target: &str) -> (r: Result<TileRequest, Status>)
    ensures
        is_outcome(r, decoded(method@, target@)),
{
    let name = chars_of(method);
    proof {
        assert(name@.subrange(0, name.len() as int) =~= method@);
    }
    if !text_is(&name, 0, name.len(), "GET") {
        return Err(Status::MethodNotAllowed);
    }
    match parse_target(target) {
        None => Err(Status::NotFound),
        Some(parts) => route(parts.path.as_str(), &parts.query),
    }
}

} // verus!
