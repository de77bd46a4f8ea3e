//! The routes: which response answers which request.

use vstd::prelude::*;
use vstd::utf8::decode_utf8;
use vstd::utf8::encode_utf8_decode_utf8;
use vstd::utf8::valid_utf8;
use crate::parser::header_of;
use crate::parser::path_of;
use crate::parser::RequestParser;
use crate::response::Response;
use crate::status::StatusCode;
use crate::sys::debug_bytes;
use crate::sys::debug_text;
use crate::sys::text_of;
use crate::text::same_text;
use crate::wire::ascii;
use crate::wire::push_ascii;
use crate::wire::push_bytes;

verus! {

/// The body served at `/`: a greeting, then the time of the answer, then the
/// echo of the request's `User-Agent` line.
pub open spec fn greeting(now: Seq<u8>, agent: Seq<u8>) -> Seq<u8> {
    ascii("Hello World!\n"@) + now + agent
}

/// The body served at `/other`.
pub open spec fn other_text() -> Seq<u8> {
    ascii("This is the other path!"@)
}

/// Status and body for a request that is text and asks for `path`. `now` is
/// the printed time of the answer and `agent` the printed `User-Agent` line;
/// only the route `/` uses them.
pub open spec fn route(path: Option<Seq<char>>, now: Seq<u8>, agent: Seq<u8>) -> (
    StatusCode,
    Seq<u8>,
) {
    if path == Some("/"@) {
        (StatusCode::Okay, greeting(now, agent))
    } else if path == Some("/other"@) {
        (StatusCode::Okay, other_text())
    } else {
        (StatusCode::NotFound, Seq::empty())
    }
}

/// Status and body of the answer to the request `req`, given at time `now`.
/// A request that is not well-formed UTF-8 is answered with an error and no
/// body; any other by its route.
pub open spec fn answer(req: Seq<u8>, now: Seq<u8>) -> (StatusCode, Seq<u8>) {
    if valid_utf8(req) {
        let text = decode_utf8(req);
        route(path_of(text), now, debug_text(header_of(text, "User-Agent"@)))
    } else {
        (StatusCode::Error, Seq::empty())
    }
}

/// The response of the route `/`.
pub fn greet(now: &[u8], agent: &[u8]) -> (r: Response)
    ensures
        r.code == StatusCode::Okay,
        r.body@ == greeting(now@, agent@),
{
    let mut r = Response::new();
    proof {
        reveal_strlit("Hello World!\n");
    }
    push_ascii(&mut r.body, "Hello World!\n");
    push_bytes(&mut r.body, now);
    push_bytes(&mut r.body, agent);
    assert(r.body@ =~= greeting(now@, agent@));
    r
}

/// The response of the route `/other`.
pub fn other() -> (r: Response)
    ensures
        r.code == StatusCode::Okay,
        r.body@ == other_text(),
{
    let mut r = Response::new();
    proof {
        reveal_strlit("This is the other path!");
    }
    push_ascii(&mut r.body, "This is the other path!");
    assert(r.body@ =~= other_text());
    r
}

/// The response without a body that carries `code`.
pub fn bare(code: StatusCode) -> (r: Response)
    ensures
        r.code == code,
        r.body@ == Seq::<u8>::empty(),
{
    let mut r = Response::new();
    r.code = code;
    r
}

/// The answer to the request `req`, given at time `now`.
pub fn respond(req: &[u8], now: &[u8]) -> (r: Response)
    ensures
        (r.code, r.body@) == answer(req@, now@),
{
    match text_of(req) {
        Ok(text) => {
            proof {
                encode_utf8_decode_utf8(text@);
            }
            let parser = RequestParser(text);
            match parser.path() {
                Some(path) => {
                    if same_text(path, "/") {
                        let agent = debug_bytes(parser.header("User-Agent"));
                        greet(now, agent.as_slice())
                    } else if same_text(path, "/other") {
                        other()
                    } else {
                        bare(StatusCode::NotFound)
                    }
                },
                None => bare(StatusCode::NotFound),
            }
        },
        Err(_) => bare(StatusCode::Error),
    }
}

} // verus!
