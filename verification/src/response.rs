//! The answer of the server to one command: `OK`, or `ERR` with a message.

use crate::error::{ParseError, ParseFault};
use crate::text::{
    chars_of, copy_range, has_prefix, push_all, same_chars, starts_with, string_of, trim_end,
    trim_end_chars, trim_start, trim_start_chars,
};
use vstd::prelude::*;

verus! {

/// The answer to a command.
#[derive(Debug, PartialEq, Eq)]
pub enum Response {
    /// The command was taken.
    Okay,
    /// The command was refused; holds the reason, which may be empty.
    Error(String),
}

/// What a [`Response`] holds.
pub enum ResponseView {
    Okay,
    Error(Seq<char>),
}

impl View for Response {
    type V = ResponseView;

    open spec fn view(&self) -> ResponseView {
        match self {
            Response::Okay => ResponseView::Okay,
            Response::Error(message) => ResponseView::Error(message@),
        }
    }
}

impl Clone for Response {
    fn clone(&self) -> (r: Self)
        ensures
            r@ == self@,
    {
        match self {
            Response::Okay => Response::Okay,
            Response::Error(message) => Response::Error(message.clone()),
        }
    }
}

/// The line of a response: `OK`, `ERR`, or `ERR` with a space and the
/// message where there is one.
pub open spec fn response_text(r: ResponseView) -> Seq<char> {
    match r {
        ResponseView::Okay => "OK"@,
        ResponseView::Error(message) => if message.len() == 0 {
            "ERR"@
        } else {
            "ERR "@ + message
        },
    }
}

/// What reading a response from a line gives. Whitespace before the
/// response is passed over, and so is whitespace behind a bare `OK` or `ERR`;
/// a message is taken as it stands, up to the end of the line.
pub open spec fn parse_response(s: Seq<char>) -> Result<ResponseView, ParseFault> {
    let line = trim_start(s);
    if trim_end(line) == "OK"@ {
        Ok(ResponseView::Okay)
    } else if starts_with(line, "ERR "@) {
        Ok(ResponseView::Error(line.skip(4)))
    } else if trim_end(line) == "ERR"@ {
        Ok(ResponseView::Error(Seq::empty()))
    } else {
        Err(ParseFault::InvalidResponse(line))
    }
}

impl Response {
    /// Reads a response from a line.
    pub fn parse(s: &str) -> (r: Result<Response, ParseError>)
        ensures
            match r {
                Ok(response) => parse_response(s@) == Ok::<ResponseView, ParseFault>(response@),
                Err(e) => parse_response(s@) == Err::<ResponseView, ParseFault>(e@),
            },
    {
        let chars = chars_of(s);
        let line = trim_start_chars(chars.as_slice());
        let bare = trim_end_chars(line.as_slice());
        let ok = chars_of("OK");
        let err = chars_of("ERR");
        let err_space = chars_of("ERR ");
        proof {
            reveal_strlit("ERR ");
        }
        if same_chars(bare.as_slice(), ok.as_slice()) {
            Ok(Response::Okay)
        } else if has_prefix(line.as_slice(), err_space.as_slice()) {
            let message = copy_range(line.as_slice(), 4, line.len());
            assert(line@.subrange(4, line.len() as int) == line@.skip(4));
            Ok(Response::Error(string_of(message.as_slice())))
        } else if same_chars(bare.as_slice(), err.as_slice()) {
            Ok(Response::Error(String::new()))
        } else {
            Err(ParseError::InvalidResponse(string_of(line.as_slice())))
        }
    }

    /// The line of this response.
    pub fn to_string(&self) -> (r: String)
        ensures
            r@ == response_text(self@),
    {
        match self {
            Response::Okay => {
                let chars = chars_of("OK");
                string_of(chars.as_slice())
            },
            Response::Error(message) => {
                let text = chars_of(message.as_str());
                if text.len() == 0 {
                    let chars = chars_of("ERR");
                    string_of(chars.as_slice())
                } else {
                    let mut out = chars_of("ERR ");
                    push_all(&mut out, text.as_slice());
                    string_of(out.as_slice())
                }
            },
        }
    }
}

impl std::str::FromStr for Response {
    type Err = ParseError;

    fn from_str(s: &str) -> (r: Result<Self, ParseError>)
        ensures
            match r {
                Ok(response) => parse_response(s@) == Ok::<ResponseView, ParseFault>(response@),
                Err(e) => parse_response(s@) == Err::<ResponseView, ParseFault>(e@),
            },
    {
        Response::parse(s)
    }
}

/// Every response reads back from its line as itself.
pub proof fn law_response_round_trip(r: ResponseView)
    ensures
        parse_response(response_text(r)) == Ok::<ResponseView, ParseFault>(r),
{
    reveal_strlit("OK");
    reveal_strlit("ERR");
    reveal_strlit("ERR ");
    let line = response_text(r);
    assert(trim_start(line) == line);
    match r {
        ResponseView::Okay => {
            assert(line.len() == 2 && line[0] == 'O' && line[1] == 'K');
            assert(line.last() == 'K');
            assert(trim_end(line) == line);
        },
        ResponseView::Error(message) => {
            if message.len() == 0 {
                assert(line.len() == 3 && line[0] == 'E' && line[2] == 'R');
                assert(line.last() == 'R');
                assert(trim_end(line) == line);
                assert(!starts_with(line, "ERR "@));
                assert(message == Seq::<char>::empty());
            } else {
                assert(line[0] == 'E');
                assert(starts_with(line, "ERR "@)) by {
                    assert(line.take(4) == "ERR "@);
                }
                assert(line.skip(4) == message);
                crate::text::lemma_trim_is_trimmed(line);
                assert(trim_end(line).len() > 0 ==> trim_end(line)[0] == 'E') by {
                    lemma_trim_end_head(line);
                }
                assert(trim_end(line) != "OK"@);
            }
        },
    }
}

proof fn lemma_trim_end_head(s: Seq<char>)
    ensures
        trim_end(s).len() > 0 ==> trim_end(s)[0] == s[0],
        trim_end(s).len() <= s.len(),
    decreases s.len(),
{
    if s.len() > 0 && crate::text::is_space(s.last()) {
        lemma_trim_end_head(s.drop_last());
    }
}

} // verus!
