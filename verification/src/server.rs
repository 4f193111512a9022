//! The HTTP-facing server's configuration: where repositories live. The
//! routing, sockets and process plumbing around it are not the library's
//! concern.

use vstd::prelude::*;

verus! {

/// The server's one piece of state: the directory that holds repositories.
#[derive(Debug)]
pub struct Server {
    pub data_dir: String,
}

impl Server {
    pub fn new(data_dir: String) -> (r: Server)
        ensures
            r.data_dir == data_dir,
    {
        Server { data_dir }
    }
}

} // verus!
