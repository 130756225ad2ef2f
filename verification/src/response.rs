//! The payload that answers a request for the list of servers.

use vstd::prelude::*;

verus! {

/// The version of the list format.
pub const LIST_VERSION: u8 = 1;

/// The status code of a list that was produced without fault.
pub const CODE_OK: u8 = 0;

/// The status message of a list that was produced without fault.
pub const MSG_OK: &'static str = "OK";

/// The list of servers with its status.
#[derive(Debug)]
pub struct ListResult {
    /// The version of the list format.
    pub list_version: u8,
    /// The status code: zero when the list was produced.
    pub code: u8,
    /// The address of each live server, as `host:port`.
    pub servers: Vec<String>,
    /// The status in words.
    pub msg: String,
}

/// The envelope in which a list is sent.
#[derive(Debug)]
pub struct Response {
    /// The list and its status.
    pub result: ListResult,
}

impl Response {
    /// The answer that lists `servers`. An empty list is an answer like any
    /// other.
    pub fn listing(servers: Vec<String>) -> (response: Response)
        ensures
            response.result.list_version == LIST_VERSION,
            response.result.code == CODE_OK,
            response.result.servers == servers,
            response.result.msg@ == MSG_OK@,
    {
        Response {
            result: ListResult {
                list_version: LIST_VERSION,
                code: CODE_OK,
                servers,
                msg: MSG_OK.to_owned(),
            },
        }
    }
}

} // verus!
