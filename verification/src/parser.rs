//! Reading a request head: method, path and header lines.

use vstd::prelude::*;
use vstd::string::StrSliceExecFns;
use crate::text::begins_with;
use crate::text::chars_of;
use crate::text::find_line_end;
use crate::text::find_line_stop;
use crate::text::find_next_line;
use crate::text::first_line;
use crate::text::first_with_prefix;
use crate::text::lemma_line_stop;
use crate::text::lemma_lines_have_no_line_feed;
use crate::text::lemma_until_blank;
use crate::text::line_at;
use crate::text::lines;
use crate::text::lines_from;
use crate::text::next_line;
use crate::text::skip_letters;
use crate::text::skip_spaces;
use crate::text::until_blank;
use crate::text::word;

verus! {

/// The method of a request: the first word of its first line.
pub open spec fn method_of(text: Seq<char>) -> Option<Seq<char>> {
    word(first_line(text), 0, 0)
}

/// The path of a request: the second word of its first line.
pub open spec fn path_of(text: Seq<char>) -> Option<Seq<char>> {
    word(first_line(text), 0, 1)
}

/// The lines of `text` but the first.
pub open spec fn lines_after_first(text: Seq<char>) -> Seq<Seq<char>> {
    if lines(text).len() == 0 {
        Seq::empty()
    } else {
        lines(text).drop_first()
    }
}

/// The header lines of a request: every line after the first, up to and
/// without the first empty line.
pub open spec fn headers_of(text: Seq<char>) -> Seq<Seq<char>> {
    until_blank(lines_after_first(text))
}

/// The first header line that begins with `name`.
pub open spec fn header_of(text: Seq<char>, name: Seq<char>) -> Option<Seq<char>> {
    first_with_prefix(headers_of(text), name)
}

/// The lines after the first are the lines from where the second one starts.
pub proof fn lemma_lines_after_first(text: Seq<char>)
    ensures
        lines_after_first(text) == lines_from(text, next_line(text, 0)),
{
    if text.len() == 0 {
        assert(lines_from(text, next_line(text, 0)) =~= Seq::empty());
    } else {
        assert(lines(text).drop_first() =~= lines_from(text, next_line(text, 0)));
    }
}

/// The header lines are the lines after the first, as far as none is empty:
/// no header line is empty, and none holds a line feed. (A carriage return
/// that no line feed follows stays in its line.)
pub proof fn lemma_headers_shape(text: Seq<char>)
    ensures
        headers_of(text).len() <= lines_after_first(text).len(),
        forall|n: int|
            0 <= n < headers_of(text).len() ==> #[trigger] headers_of(text)[n]
                == lines_after_first(text)[n] && headers_of(text)[n].len() > 0,
        headers_of(text).len() < lines_after_first(text).len() ==> lines_after_first(
            text,
        )[headers_of(text).len() as int].len() == 0,
        forall|n: int, j: int|
            0 <= n < headers_of(text).len() && 0 <= j < headers_of(text)[n].len()
                ==> #[trigger] headers_of(text)[n][j] != '\n',
{
    lemma_lines_after_first(text);
    lemma_line_stop(text, 0);
    lemma_until_blank(lines_after_first(text));
    lemma_lines_have_no_line_feed(text, next_line(text, 0));
}

/// A view over the text of a request head. It owns nothing and copies nothing
/// of the text it reads.
#[derive(Debug)]
pub struct RequestParser<'a>(pub &'a str);

impl<'a> View for RequestParser<'a> {
    type V = Seq<char>;

    open spec fn view(&self) -> Seq<char> {
        self.0@
    }
}

impl<'a> RequestParser<'a> {
    /// The method: the first word of the first line, if that line has a word.
    pub fn method(&self) -> (r: Option<&'a str>)
        ensures
            r.deep_view() == method_of(self@),
    {
        let v = chars_of(self.0);
        let stop = find_line_stop(&v, 0);
        let end = find_line_end(&v, 0, stop);
        let from = skip_spaces(&v, 0, end);
        let to = skip_letters(&v, from, end);
        if from == to {
            None
        } else {
            let found = self.0.substring_char(from, to);
            assert(found@ =~= first_line(self@).subrange(from as int, to as int));
            Some(found)
        }
    }

    /// The path: the second word of the first line, if that line has two words.
    pub fn path(&self) -> (r: Option<&'a str>)
        ensures
            r.deep_view() == path_of(self@),
    {
        let v = chars_of(self.0);
        let stop = find_line_stop(&v, 0);
        let end = find_line_end(&v, 0, stop);
        let first = skip_spaces(&v, 0, end);
        let mid = skip_letters(&v, first, end);
        proof {
            reveal_with_fuel(word, 2);
        }
        if first == mid {
            return None;
        }
        let from = skip_spaces(&v, mid, end);
        let to = skip_letters(&v, from, end);
        if from == to {
            None
        } else {
            let found = self.0.substring_char(from, to);
            assert(found@ =~= first_line(self@).subrange(from as int, to as int));
            Some(found)
        }
    }

    /// The header lines, in order: every line after the first, up to and
    /// without the first empty line.
    pub fn headers(&self) -> (r: Vec<&'a str>)
        ensures
            r.deep_view() == headers_of(self@),
    {
        let v = chars_of(self.0);
        let stop = find_line_stop(&v, 0);
        let mut pos = find_next_line(&v, 0, stop);
        let mut out: Vec<&'a str> = Vec::new();
        proof {
            lemma_lines_after_first(self@);
        }
        loop
            invariant
                v@ == self@,
                pos <= v.len(),
                headers_of(self@) == out.deep_view() + until_blank(lines_from(self@, pos as int)),
            ensures
                headers_of(self@) == out.deep_view(),
            decreases v.len() - pos,
        {
            if pos >= v.len() {
                assert(headers_of(self@) =~= out.deep_view());
                break;
            }
            let stop = find_line_stop(&v, pos);
            let end = find_line_end(&v, pos, stop);
            let ghost rest = lines_from(self@, pos as int);
            assert(rest[0] == line_at(self@, pos as int));
            if end == pos {
                assert(headers_of(self@) =~= out.deep_view());
                break;
            }
            let line = self.0.substring_char(pos, end);
            let ghost before = out.deep_view();
            out.push(line);
            pos = find_next_line(&v, pos, stop);
            proof {
                assert(rest.drop_first() =~= lines_from(self@, pos as int));
                assert(out.deep_view() =~= before.push(line@));
                assert(headers_of(self@) =~= out.deep_view() + until_blank(
                    lines_from(self@, pos as int),
                ));
            }
        }
        out
    }

    /// The first header line that begins with `name`, if there is one.
    pub fn header(&self, name: &str) -> (r: Option<&'a str>)
        ensures
            r.deep_view() == header_of(self@, name@),
    {
        let v = chars_of(self.0);
        let prefix = chars_of(name);
        let stop = find_line_stop(&v, 0);
        let mut pos = find_next_line(&v, 0, stop);
        proof {
            lemma_lines_after_first(self@);
        }
        loop
            invariant
                v@ == self@,
                prefix@ == name@,
                pos <= v.len(),
                header_of(self@, name@) == first_with_prefix(
                    until_blank(lines_from(self@, pos as int)),
                    name@,
                ),
            decreases v.len() - pos,
        {
            if pos >= v.len() {
                return None;
            }
            let stop = find_line_stop(&v, pos);
            let end = find_line_end(&v, pos, stop);
            let ghost rest = lines_from(self@, pos as int);
            assert(rest[0] == line_at(self@, pos as int));
            if end == pos {
                return None;
            }
            if begins_with(&v, pos, end, &prefix) {
                let line = self.0.substring_char(pos, end);
                return Some(line);
            }
            let ghost here = pos;
            pos = find_next_line(&v, pos, stop);
            proof {
                assert(rest.drop_first() =~= lines_from(self@, pos as int));
                assert(until_blank(rest).drop_first() =~= until_blank(rest.drop_first()));
            }
        }
    }
}

} // verus!
