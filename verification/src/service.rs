use vstd::prelude::*;
use crate::id_gen::IdGen;
use crate::query::form_urlencoded_pairs;
use crate::query::pairs_to_map;
use crate::query::parse_query_str;
use crate::query::requested_num;
use crate::query::requested_sharding_id;
use crate::response::AppResponse;

verus! {

/// A request to the id generation loop.
pub enum Request {
    /// Stop the loop.
    Termination,
    /// Hand out `num` ids for the shard of `sharding_id`.
    NewKey { sharding_id: u64, num: usize },
}

/// What the loop does with a request.
pub enum Reply {
    /// The loop stops.
    Stop,
    /// The ids to send back.
    Ids(Vec<u64>),
    /// The generator cannot hand out that many ids: the id space is used up.
    Exhausted,
}

/// Serves one request of the id generation loop with the generator `g`.
pub fn handle_request<G: IdGen>(g: &mut G, request: Request) -> (reply: Reply)
    ensures
        match request {
            Request::Termination => reply is Stop && *final(g) == *old(g),
            Request::NewKey { sharding_id, num } => if old(g).can_issue(num as nat) {
                reply matches Reply::Ids(ids) && ids.len() == num && old(g).issues(
                    &*final(g),
                    sharding_id,
                    num as nat,
                    ids@,
                )
            } else {
                reply is Exhausted && *final(g) == *old(g)
            },
        },
{
    match request {
        Request::Termination => Reply::Stop,
        Request::NewKey { sharding_id, num } => {
            if g.has_capacity(num) {
                Reply::Ids(g.next_ids(sharding_id, num))
            } else {
                Reply::Exhausted
            }
        },
    }
}

/// Where an HTTP request goes.
pub enum Route {
    /// Ask the generator for `num` ids for the shard of `sharding_id`.
    Generate { sharding_id: u64, num: usize },
    /// The request is for ids but its parameters cannot be read.
    InvalidParameters,
    /// No such resource.
    NotFound,
}

/// The path under which ids are handed out.
pub open spec fn id_path() -> Seq<char> {
    seq!['/', 'i', 'd']
}

/// Decides where an HTTP request goes: a `POST` to `/id` with a readable
/// sharding id asks for ids, one without it has invalid parameters, and any
/// other request is for a resource that does not exist.
pub fn route(path: &str, is_post: bool, query: Option<&str>) -> (r: Route)
    ensures
        ({
            let params = match query {
                Some(q) => pairs_to_map(form_urlencoded_pairs(q@)),
                None => Map::empty(),
            };
            if path@ == id_path() && is_post {
                match requested_sharding_id(params) {
                    Some(sharding_id) => r == (Route::Generate {
                        sharding_id: sharding_id as u64,
                        num: requested_num(params) as usize,
                    }),
                    None => r is InvalidParameters,
                }
            } else {
                r is NotFound
            }
        }),
{
    proof {
        reveal_strlit("/id");
        assert("/id"@ =~= id_path());
    }
    let p = path.to_owned();
    if is_post && p == "/id".to_owned() {
        match parse_query_str(query) {
            Some((sharding_id, num)) => Route::Generate { sharding_id, num },
            None => Route::InvalidParameters,
        }
    } else {
        Route::NotFound
    }
}

/// The answer to a request for ids: the ids where the generator sent them,
/// and a server error where the request or the reply was lost.
pub fn generated_response(outcome: Option<Vec<u64>>) -> (r: AppResponse<Vec<u64>>)
    ensures
        match outcome {
            Some(ids) => r.data == Some(ids) && r.code == 0 && r.http_code == 200,
            None => r.data is None && r.code == 2 && r.http_code == 500,
        },
{
    match outcome {
        Some(ids) => AppResponse::success(ids),
        None => AppResponse::internal_server_error(),
    }
}

/// Ids are handed out under the path `/id` and no other.
pub proof fn law_id_path(path: Seq<char>)
    ensures
        path == id_path() <==> path == seq!['/', 'i', 'd'],
{
}

} // verus!
