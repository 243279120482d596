use vstd::prelude::*;

verus! {

/// The body and status of an answer to an HTTP request: `code` tells the
/// client what happened, `http_code` is the HTTP status.
pub struct AppResponse<T> {
    pub data: Option<T>,
    pub code: u8,
    pub http_code: u16,
}

impl<T> AppResponse<T> {
    /// The answer that carries `data`.
    pub fn success(data: T) -> (r: Self)
        ensures
            r.data == Some(data),
            r.code == 0,
            r.http_code == 200,
    {
        AppResponse { data: Some(data), code: 0, http_code: 200 }
    }

    /// The answer to a request for a path that does not exist.
    pub fn not_found() -> (r: Self)
        ensures
            r.data is None,
            r.code == 1,
            r.http_code == 404,
    {
        AppResponse { data: None, code: 1, http_code: 404 }
    }

    /// The answer when the service failed.
    pub fn internal_server_error() -> (r: Self)
        ensures
            r.data is None,
            r.code == 2,
            r.http_code == 500,
    {
        AppResponse { data: None, code: 2, http_code: 500 }
    }

    /// The answer to a request whose parameters could not be read.
    pub fn invalid_parameters() -> (r: Self)
        ensures
            r.data is None,
            r.code == 3,
            r.http_code == 400,
    {
        AppResponse { data: None, code: 3, http_code: 400 }
    }
}

} // verus!
