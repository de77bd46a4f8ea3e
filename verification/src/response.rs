//! A response and its serial form.

use vstd::prelude::*;
use crate::status::StatusCode;
use crate::wire::ascii;
use crate::wire::decimal;
use crate::wire::decimal_value;
use crate::wire::lemma_decimal_round_trip;
use crate::wire::push_ascii;
use crate::wire::push_bytes;
use crate::wire::push_decimal;

verus! {

/// A response before it is serialized: a status and the bytes of the body.
#[derive(Debug)]
pub struct Response {
    pub code: StatusCode,
    pub body: Vec<u8>,
}

/// The header line that declares a body of `len` bytes.
pub open spec fn length_header(len: nat) -> Seq<u8> {
    ascii("Content-Length: "@) + decimal(len) + ascii("\r\n"@)
}

/// The header line that names the media type; it is the same for every response.
pub open spec fn type_header() -> Seq<u8> {
    ascii("Content-type: text/plain; charset=UTF-8\r\n"@)
}

/// Everything that precedes the body of a response with the given status and
/// body length: status line, length header, type header and a blank line.
pub open spec fn head(code: StatusCode, len: nat) -> Seq<u8> {
    code.line() + length_header(len) + type_header() + ascii("\r\n"@)
}

/// The serial form of a response: its head, then the body as it is.
pub open spec fn serial(code: StatusCode, body: Seq<u8>) -> Seq<u8> {
    head(code, body.len()) + body
}

/// In the serial form of every response, the length header holds the numeral
/// of the body's length and nothing else, that numeral denotes the number of
/// bytes that follow the head, and those bytes are the body.
pub proof fn lemma_declared_length(code: StatusCode, body: Seq<u8>)
    ensures
        serial(code, body) == code.line() + (ascii("Content-Length: "@) + decimal(body.len())
            + ascii("\r\n"@)) + type_header() + ascii("\r\n"@) + body,
        decimal_value(decimal(body.len())) == body.len(),
        serial(code, body).len() == head(code, body.len()).len() + body.len(),
        serial(code, body).skip(head(code, body.len()).len() as int) == body,
        serial(code, body).take(head(code, body.len()).len() as int) == head(code, body.len()),
{
    lemma_decimal_round_trip(body.len());
    let h = head(code, body.len());
    assert(serial(code, body).skip(h.len() as int) =~= body);
    assert(serial(code, body).take(h.len() as int) =~= h);
}

impl Response {
    /// The serial form of this response.
    pub open spec fn wire(&self) -> Seq<u8> {
        serial(self.code, self.body@)
    }

    /// A response that reports success and has no body yet.
    pub fn new() -> (r: Response)
        ensures
            r.code == StatusCode::Okay,
            r.body@ == Seq::<u8>::empty(),
    {
        Response { code: StatusCode::Okay, body: Vec::new() }
    }

    /// Appends the serial form of the response to `buf`. The call itself
    /// counts nothing: it returns 0 whatever it wrote.
    pub fn write(&self, buf: &mut Vec<u8>) -> (size: usize)
        ensures
            final(buf)@ == old(buf)@ + self.wire(),
            size == 0,
    {
        proof {
            reveal_strlit("Content-Length: ");
            reveal_strlit("\r\n");
            reveal_strlit("Content-type: text/plain; charset=UTF-8\r\n");
        }
        self.code.write(buf);
        push_ascii(buf, "Content-Length: ");
        push_decimal(buf, self.body.len());
        push_ascii(buf, "\r\n");
        push_ascii(buf, "Content-type: text/plain; charset=UTF-8\r\n");
        push_ascii(buf, "\r\n");
        push_bytes(buf, self.body.as_slice());
        assert(final(buf)@ =~= old(buf)@ + self.wire());
        0
    }
}

} // verus!
