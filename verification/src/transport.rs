//! Naming the GUI↔engine channel: a unix domain socket on Unix, a named pipe
//! on Windows. Both carry the same newline-delimited JSON; the sockets
//! themselves are opened by the programs on either end.
use vstd::prelude::*;

verus! {

/// Where a listener can be reached: a socket path or a pipe name.
pub struct Endpoint(String);

impl View for Endpoint {
    type V = Seq<char>;

    closed spec fn view(&self) -> Seq<char> {
        self.0@
    }
}

impl Endpoint {
    pub fn new(name: String) -> (e: Endpoint)
        ensures
            e@ == name@,
    {
        Endpoint(name)
    }

    pub fn as_str(&self) -> (s: &str)
        ensures
            s@ == self@,
    {
        self.0.as_str()
    }
}

/// The socket file name for a listener whose random token is `token`.
pub fn socket_file_name(token: &str) -> (r: String)
    ensures
        r@ == "sni-fake-"@ + token@ + ".sock"@,
{
    let mut s = String::from_str("sni-fake-");
    s.append(token);
    s.append(".sock");
    s
}

/// The pipe name for a listener whose random token is `token`.
pub fn pipe_name(token: &str) -> (r: String)
    ensures
        r@ == "\\\\.\\pipe\\sni-fake-"@ + token@,
{
    let mut s = String::from_str("\\\\.\\pipe\\sni-fake-");
    s.append(token);
    s
}

} // verus!
