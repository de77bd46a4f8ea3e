//! The status of a response and its line on the wire.

use vstd::prelude::*;
use crate::wire::ascii;
use crate::wire::push_ascii;

verus! {

/// What the server answers: the request was served, no route matched its path,
/// or the request could not be read as text.
#[derive(Clone, Copy, Debug, PartialEq, Eq, Structural)]
pub enum StatusCode {
    Okay,
    NotFound,
    Error,
}

impl StatusCode {
    /// The numeric code and the reason phrase, as they stand on the status line.
    pub open spec fn reason(self) -> Seq<u8> {
        match self {
            StatusCode::Okay => ascii("200 OK"@),
            StatusCode::NotFound => ascii("404 Not Found"@),
            StatusCode::Error => ascii("500 Internal Server Error"@),
        }
    }

    /// The status line: protocol version, code, reason, CR LF.
    pub open spec fn line(self) -> Seq<u8> {
        ascii("HTTP/1.1 "@) + self.reason() + ascii("\r\n"@)
    }

    /// Appends the status line to `buf` and returns its length in bytes.
    pub fn write(&self, buf: &mut Vec<u8>) -> (size: usize)
        ensures
            final(buf)@ == old(buf)@ + self.line(),
            size == self.line().len(),
    {
        proof {
            reveal_strlit("HTTP/1.1 ");
            reveal_strlit("200 OK");
            reveal_strlit("404 Not Found");
            reveal_strlit("500 Internal Server Error");
            reveal_strlit("\r\n");
        }
        let mut size = push_ascii(buf, "HTTP/1.1 ");
        size += match *self {
            StatusCode::Okay => push_ascii(buf, "200 OK"),
            StatusCode::NotFound => push_ascii(buf, "404 Not Found"),
            StatusCode::Error => push_ascii(buf, "500 Internal Server Error"),
        };
        size += push_ascii(buf, "\r\n");
        assert(final(buf)@ =~= old(buf)@ + self.line());
        size
    }
}

} // verus!
