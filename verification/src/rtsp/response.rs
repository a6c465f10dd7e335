//! The streaming response parser: fed a growing byte slice, it yields the
//! protocol token, the status, each header, and the body, in that order,
//! across as many calls as the data takes.

use vstd::prelude::*;
use crate::bytes::{
    crlf_at, find_crlf, find_crlf_index, find_index, lemma_find_crlf_index, lemma_find_index,
    parse_u32, parse_u32_spec, bytes_eq_ignore_case, eq_ignore_case, ParseIntError,
};
use crate::bytes;
use crate::http::header::{spec_parse_header, Header, ParseHeaderError};
use crate::rtsp::method::ParseMethodError;
use crate::rtsp::protocol::{spec_parse_protocol, ParseProtocolError, Protocol};
use crate::rtsp::status::{spec_parse_status, ParseStatusError, Status};

verus! {

#[derive(Debug, Clone, Copy, PartialEq, Eq, Structural)]
pub enum State {
    ExpectProtocol,
    ExpectStatus,
    ExpectHeader,
    ExpectBody,
    Done,
}

#[derive(Debug, Clone, Copy, PartialEq, Eq, Structural)]
pub enum ParseError {
    MissingEndOfLine,
    MissingSpace,
    ParseHeader(ParseHeaderError),
    ParseMethod(ParseMethodError),
    ParseProtocol(ParseProtocolError),
    ParseStatus(ParseStatusError),
    ParseContentLength(ParseIntError),
}

/// One parsed element of a response.
pub enum ParseItem {
    Protocol(Protocol),
    Status(Status),
    Header(Header),
    Body(Vec<u8>),
}

/// The parser state as the contracts see it.
pub struct ParserModel {
    pub state: State,
    pub pos: int,
    pub header_length: int,
    pub content_length: int,
}

/// A parsed element as the contracts see it.
pub enum ItemModel {
    Protocol(Protocol),
    Status(Status),
    Header(Seq<u8>, Seq<u8>),
    Body(Seq<u8>),
}

/// Whether a yielded item carries the modelled content.
pub open spec fn item_matches(item: ParseItem, im: ItemModel) -> bool {
    match (item, im) {
        (ParseItem::Protocol(a), ItemModel::Protocol(b)) => a == b,
        (ParseItem::Status(a), ItemModel::Status(b)) => a == b,
        (ParseItem::Header(h), ItemModel::Header(n, v)) => h.name@ == n && h.value@ == v,
        (ParseItem::Body(b), ItemModel::Body(s)) => b@ == s,
        _ => false,
    }
}

impl ParserModel {
    /// Cursor and length invariant of the parser.
    pub open spec fn wf(&self) -> bool {
        &&& 0 <= self.pos
        &&& 0 <= self.content_length <= u32::MAX
        &&& match self.state {
            State::ExpectBody => self.header_length >= 2 && self.pos == self.header_length,
            State::Done => self.header_length >= 2 && self.pos == self.header_length
                + self.content_length,
            _ => self.header_length == 0,
        }
    }
}

/// The name `content-length`, lower case.
pub open spec fn content_length_name() -> Seq<u8> {
    seq![0x63u8, 0x6f, 0x6e, 0x74, 0x65, 0x6e, 0x74, 0x2d, 0x6c, 0x65, 0x6e, 0x67, 0x74, 0x68]
}

/// The next token from `pos`: the line must be complete, must not start at
/// its end of line, and the token runs to the first space of the line or to
/// the line's end. Yields the token and the position after it and any one
/// space.
pub open spec fn spec_next_token(data: Seq<u8>, pos: int) -> Result<(Seq<u8>, int), ParseError> {
    match find_crlf_index(data, pos) {
        Option::None => Err(ParseError::MissingEndOfLine),
        Option::Some(e) => {
            if e == pos {
                Err(ParseError::MissingSpace)
            } else {
                let line = data.subrange(pos, e);
                match find_index(line, 0x20, 0) {
                    Option::None => Ok((line, e)),
                    Option::Some(t) => Ok((line.subrange(0, t), pos + t + 1)),
                }
            }
        },
    }
}

/// The next full line from `pos` and the position after its CR LF.
pub open spec fn spec_next_line(data: Seq<u8>, pos: int) -> Result<(Seq<u8>, int), ParseError> {
    match find_crlf_index(data, pos) {
        Option::None => Err(ParseError::MissingEndOfLine),
        Option::Some(e) => Ok((data.subrange(pos, e), e + 2)),
    }
}

/// Consumes the body if all its bytes are present, else waits.
pub open spec fn spec_finish_body(m: ParserModel, data: Seq<u8>) -> (ParserModel, Result<
    Option<ItemModel>,
    ParseError,
>) {
    if data.len() - m.pos >= m.content_length {
        (
            ParserModel {
                state: State::Done,
                pos: m.pos + m.content_length,
                header_length: m.header_length,
                content_length: m.content_length,
            },
            Ok(Some(ItemModel::Body(data.subrange(m.pos, m.pos + m.content_length)))),
        )
    } else {
        (
            ParserModel {
                state: State::ExpectBody,
                pos: m.pos,
                header_length: m.header_length,
                content_length: m.content_length,
            },
            Ok(None),
        )
    }
}

/// One step of the parser on `data`: the new state and what it yields.
pub open spec fn spec_parse_next(m: ParserModel, data: Seq<u8>) -> (ParserModel, Result<
    Option<ItemModel>,
    ParseError,
>) {
    match m.state {
        State::ExpectProtocol => match spec_next_token(data, m.pos) {
            Result::Err(e) => (m, Err(e)),
            Result::Ok((tok, p)) => {
                let moved = ParserModel {
                    state: m.state,
                    pos: p,
                    header_length: m.header_length,
                    content_length: m.content_length,
                };
                match spec_parse_protocol(tok) {
                    Result::Err(e) => (moved, Err(ParseError::ParseProtocol(e))),
                    Result::Ok(proto) => (
                        ParserModel { state: State::ExpectStatus, ..moved },
                        Ok(Some(ItemModel::Protocol(proto))),
                    ),
                }
            },
        },
        State::ExpectStatus => match spec_next_token(data, m.pos) {
            Result::Err(e) => (m, Err(e)),
            Result::Ok((tok, p)) => {
                let moved = ParserModel {
                    state: m.state,
                    pos: p,
                    header_length: m.header_length,
                    content_length: m.content_length,
                };
                match spec_parse_status(tok) {
                    Result::Err(e) => (moved, Err(ParseError::ParseStatus(e))),
                    Result::Ok(st) => match find_crlf_index(data, p) {
                        Option::None => (moved, Err(ParseError::MissingEndOfLine)),
                        Option::Some(e2) => (
                            ParserModel { state: State::ExpectHeader, pos: e2 + 2, ..moved },
                            Ok(Some(ItemModel::Status(st))),
                        ),
                    },
                }
            },
        },
        State::ExpectHeader => match spec_next_line(data, m.pos) {
            Result::Err(e) => (m, Err(e)),
            Result::Ok((line, p)) => {
                let moved = ParserModel {
                    state: m.state,
                    pos: p,
                    header_length: m.header_length,
                    content_length: m.content_length,
                };
                if line.len() == 0 {
                    spec_finish_body(ParserModel { header_length: p, ..moved }, data)
                } else {
                    match spec_parse_header(line) {
                        Result::Err(e) => (moved, Err(ParseError::ParseHeader(e))),
                        Result::Ok((name, value)) => {
                            if eq_ignore_case(name, content_length_name()) {
                                match parse_u32_spec(value) {
                                    Result::Err(e) => (moved, Err(ParseError::ParseContentLength(e))),
                                    Result::Ok(v) => (
                                        ParserModel { content_length: v as int, ..moved },
                                        Ok(Some(ItemModel::Header(name, value))),
                                    ),
                                }
                            } else {
                                (moved, Ok(Some(ItemModel::Header(name, value))))
                            }
                        },
                    }
                }
            },
        },
        State::ExpectBody => spec_finish_body(m, data),
        State::Done => (m, Ok(None)),
    }
}

pub struct Parser {
    state: State,
    pos: usize,
    header_length: usize,
    content_length: usize,
}

impl Parser {
    /// The parser state as the contracts see it.
    pub closed spec fn model(&self) -> ParserModel {
        ParserModel {
            state: self.state,
            pos: self.pos as int,
            header_length: self.header_length as int,
            content_length: self.content_length as int,
        }
    }

    pub fn new() -> (r: Self)
        ensures
            r.model() == (ParserModel {
                state: State::ExpectProtocol,
                pos: 0,
                header_length: 0,
                content_length: 0,
            }),
            r.model().wf(),
    {
        Parser { state: State::ExpectProtocol, pos: 0, header_length: 0, content_length: 0 }
    }

    /// Reads the next token, advancing the cursor over it.
    fn next_token(&mut self, data: &[u8]) -> (r: Result<Vec<u8>, ParseError>)
        requires
            old(self).model().pos <= data@.len(),
        ensures
            final(self).state == old(self).state,
            final(self).header_length == old(self).header_length,
            final(self).content_length == old(self).content_length,
            match spec_next_token(data@, old(self).model().pos) {
                Result::Err(e) => r matches Err(e2) && e2 == e && final(self).pos == old(self).pos,
                Result::Ok((tok, p)) => r matches Ok(t) && t@ == tok && final(self).model().pos == p
                    && p <= data@.len(),
            },
    {
        match find_crlf(data, self.pos) {
            Option::None => Err(ParseError::MissingEndOfLine),
            Option::Some(e) => {
                if e == self.pos {
                    Err(ParseError::MissingSpace)
                } else {
                    let ghost line = data@.subrange(self.pos as int, e as int);
                    proof {
                        lemma_find_index(line, 0x20, 0);
                    }
                    match bytes::find_byte(data, self.pos, e, 0x20) {
                        Option::None => {
                            proof {
                                match find_index(line, 0x20, 0) {
                                    Option::None => {},
                                    Option::Some(t) => {
                                        assert(line[t] == 0x20);
                                        assert(data@[self.pos + t] == 0x20);
                                    },
                                }
                            }
                            let tok = bytes::copy_range(data, self.pos, e);
                            self.pos = e;
                            Ok(tok)
                        },
                        Option::Some(t_abs) => {
                            proof {
                                match find_index(line, 0x20, 0) {
                                    Option::None => {
                                        assert(line[t_abs - self.pos] == 0x20);
                                        assert(false);
                                    },
                                    Option::Some(t) => {
                                        assert(line[t] == 0x20);
                                        assert(data@[self.pos + t] == 0x20);
                                        assert(!(self.pos + t < t_abs)) by {
                                            assert(forall|j: int|
                                                self.pos <= j < t_abs ==> data@[j] != 0x20);
                                        }
                                        assert(!(t_abs < self.pos + t)) by {
                                            if t_abs < self.pos + t {
                                                assert(line[t_abs - self.pos] == data@[t_abs as int]);
                                            }
                                        }
                                        assert(t_abs == self.pos + t);
                                        assert(line.subrange(0, t) =~= data@.subrange(
                                            self.pos as int,
                                            self.pos + t,
                                        ));
                                    },
                                }
                            }
                            let tok = bytes::copy_range(data, self.pos, t_abs);
                            self.pos = t_abs + 1;
                            Ok(tok)
                        },
                    }
                }
            },
        }
    }

    /// Reads the next full line, advancing the cursor past its CR LF.
    fn next_line(&mut self, data: &[u8]) -> (r: Result<Vec<u8>, ParseError>)
        requires
            old(self).model().pos <= data@.len(),
        ensures
            final(self).state == old(self).state,
            final(self).header_length == old(self).header_length,
            final(self).content_length == old(self).content_length,
            match spec_next_line(data@, old(self).model().pos) {
                Result::Err(e) => r matches Err(e2) && e2 == e && final(self).pos == old(self).pos,
                Result::Ok((line, p)) => r matches Ok(l) && l@ == line && final(self).model().pos == p
                    && p <= data@.len(),
            },
    {
        let n = data.len();
        match find_crlf(data, self.pos) {
            Option::None => Err(ParseError::MissingEndOfLine),
            Option::Some(e) => {
                proof {
                    assert(e + 2 <= n);
                }
                let line = bytes::copy_range(data, self.pos, e);
                self.pos = e + 2;
                Ok(line)
            },
        }
    }

    /// Consumes the body if all its bytes are present, else waits.
    fn finish_body(&mut self, data: &[u8]) -> (r: Result<Option<ParseItem>, ParseError>)
        requires
            old(self).model().pos <= data@.len(),
            old(self).model().content_length <= u32::MAX,
        ensures
            final(self).model() == spec_finish_body(old(self).model(), data@).0,
            (match (r, spec_finish_body(old(self).model(), data@).1) {
                (Result::Ok(Option::Some(item)), Result::Ok(Option::Some(im))) => item_matches(
                    item,
                    im,
                ),
                (Result::Ok(Option::None), Result::Ok(Option::None)) => true,
                _ => false,
            }),
            final(self).model().pos <= data@.len(),
            final(self).header_length == old(self).header_length,
            final(self).content_length == old(self).content_length,
    {
        if data.len() - self.pos >= self.content_length {
            let start = self.pos;
            let body = bytes::copy_range(data, start, start + self.content_length);
            self.pos = start + self.content_length;
            self.state = State::Done;
            Ok(Some(ParseItem::Body(body)))
        } else {
            self.state = State::ExpectBody;
            Ok(None)
        }
    }

    /// One step: yields the next parsed element, `None` when more data is
    /// needed for the body or the response is done, or the fault found.
    pub fn parse_next(&mut self, data: &[u8]) -> (r: Result<Option<ParseItem>, ParseError>)
        requires
            old(self).model().wf(),
            old(self).model().pos <= data@.len(),
        ensures
            final(self).model().wf(),
            final(self).model().pos <= data@.len(),
            final(self).model() == spec_parse_next(old(self).model(), data@).0,
            (match (r, spec_parse_next(old(self).model(), data@).1) {
                (Result::Ok(Option::Some(item)), Result::Ok(Option::Some(im))) => item_matches(
                    item,
                    im,
                ),
                (Result::Ok(Option::None), Result::Ok(Option::None)) => true,
                (Result::Err(e1), Result::Err(e2)) => e1 == e2,
                _ => false,
            }),
    {
        match self.state {
            State::ExpectProtocol => {
                let tok = match self.next_token(data) {
                    Result::Err(e) => {
                        return Err(e);
                    },
                    Result::Ok(t) => t,
                };
                match Protocol::parse(tok.as_slice()) {
                    Result::Err(e) => Err(ParseError::ParseProtocol(e)),
                    Result::Ok(proto) => {
                        self.state = State::ExpectStatus;
                        Ok(Some(ParseItem::Protocol(proto)))
                    },
                }
            },
            State::ExpectStatus => {
                let tok = match self.next_token(data) {
                    Result::Err(e) => {
                        return Err(e);
                    },
                    Result::Ok(t) => t,
                };
                match Status::parse(tok.as_slice()) {
                    Result::Err(e) => Err(ParseError::ParseStatus(e)),
                    Result::Ok(st) => {
                        // discard the reason phrase to the end of the line
                        let n = data.len();
                        match find_crlf(data, self.pos) {
                            Option::None => Err(ParseError::MissingEndOfLine),
                            Option::Some(e2) => {
                                proof {
                                    assert(e2 + 2 <= n);
                                }
                                self.pos = e2 + 2;
                                self.state = State::ExpectHeader;
                                Ok(Some(ParseItem::Status(st)))
                            },
                        }
                    },
                }
            },
            State::ExpectHeader => {
                let line = match self.next_line(data) {
                    Result::Err(e) => {
                        return Err(e);
                    },
                    Result::Ok(l) => l,
                };
                if line.len() == 0 {
                    proof {
                        // the empty line's CR LF puts the cursor past zero
                        lemma_find_crlf_index(data@, old(self).model().pos);
                        assert(self.pos >= 2);
                    }
                    self.header_length = self.pos;
                    self.finish_body(data)
                } else {
                    match Header::parse(line.as_slice()) {
                        Result::Err(e) => Err(ParseError::ParseHeader(e)),
                        Result::Ok(h) => {
                            let name_vec: Vec<u8> = vec![
                                0x63u8, 0x6f, 0x6e, 0x74, 0x65, 0x6e, 0x74, 0x2d, 0x6c, 0x65, 0x6e,
                                0x67, 0x74, 0x68,
                            ];
                            proof {
                                assert(name_vec@ =~= content_length_name());
                            }
                            if bytes_eq_ignore_case(h.name.as_slice(), name_vec.as_slice()) {
                                match parse_u32(h.value.as_slice()) {
                                    Result::Err(e) => Err(ParseError::ParseContentLength(e)),
                                    Result::Ok(v) => {
                                        self.content_length = v as usize;
                                        Ok(Some(ParseItem::Header(h)))
                                    },
                                }
                            } else {
                                Ok(Some(ParseItem::Header(h)))
                            }
                        },
                    }
                }
            },
            State::ExpectBody => self.finish_body(data),
            State::Done => Ok(None),
        }
    }

    /// Whether the whole response has been consumed.
    pub fn is_done(&self) -> (r: bool)
        ensures
            r <==> self.model().state == State::Done,
    {
        match self.state {
            State::Done => true,
            _ => false,
        }
    }

    /// Once the header is complete, how many bytes of the response are still
    /// missing from the data seen so far.
    pub fn missing_bytes(&self) -> (r: Option<usize>)
        requires
            self.model().wf(),
        ensures
            self.model().header_length > 0 ==> (r matches Some(n) && n == self.model().header_length
                + self.model().content_length - self.model().pos),
            self.model().header_length == 0 ==> r is None,
    {
        if self.header_length > 0 {
            Some(self.content_length - (self.pos - self.header_length))
        } else {
            None
        }
    }

    /// Once the header is complete, the whole response's length in bytes.
    pub fn response_bytes(&self) -> (r: Option<usize>)
        requires
            self.model().wf(),
            self.model().header_length + self.model().content_length <= usize::MAX,
        ensures
            self.model().header_length > 0 ==> (r matches Some(n) && n == self.model().header_length
                + self.model().content_length),
            self.model().header_length == 0 ==> r is None,
    {
        if self.header_length > 0 {
            Some(self.header_length + self.content_length)
        } else {
            None
        }
    }

    /// The bytes consumed so far.
    pub fn parsed_bytes(&self) -> (r: usize)
        ensures
            r == self.model().pos,
    {
        self.pos
    }
}


/// A rank that falls along the parse pipeline, for termination measures.
pub open spec fn state_rank(s: State) -> int {
    match s {
        State::Done => 0,
        State::ExpectBody => 1,
        State::ExpectHeader => 2,
        State::ExpectStatus => 3,
        State::ExpectProtocol => 4,
    }
}

/// Every step that yields an item moves the cursor forward, or finishes
/// the body in place; and the cursor stays within the data.
pub proof fn lemma_parse_next_progress(m: ParserModel, data: Seq<u8>)
    requires
        m.wf(),
        0 <= m.pos <= data.len(),
    ensures
        ({
            let (m2, r) = spec_parse_next(m, data);
            (r matches Ok(o) && o is Some) ==> (0 <= m2.pos <= data.len() && (m2.pos > m.pos || (
            m2.pos == m.pos && state_rank(m2.state) < state_rank(m.state))))
        }),
{
    lemma_find_crlf_index(data, m.pos);
    match find_crlf_index(data, m.pos) {
        Option::None => {},
        Option::Some(e) => {
            let line = data.subrange(m.pos, e);
            lemma_find_index(line, 0x20, 0);
            match m.state {
                State::ExpectStatus => {
                    match spec_next_token(data, m.pos) {
                        Result::Err(x) => {},
                        Result::Ok((tok, p)) => {
                            lemma_find_crlf_index(data, p);
                        },
                    }
                },
                _ => {},
            }
        },
    }
}

/// The parser model a fresh parser starts in.
pub open spec fn spec_initial_model() -> ParserModel {
    ParserModel { state: State::ExpectProtocol, pos: 0, header_length: 0, content_length: 0 }
}

/// One whole run of the parser: the model it stops in, the items it
/// yielded on the way, and the fault that stopped it, if any.
pub struct DriveResult {
    pub model: ParserModel,
    pub items: Seq<ItemModel>,
    pub error: Option<ParseError>,
}

/// Iterates `spec_parse_next` from `m` until it yields nothing more or
/// faults, collecting every item.
pub open spec fn spec_drive(m: ParserModel, data: Seq<u8>) -> DriveResult
    decreases data.len() - m.pos, state_rank(m.state)
        via spec_drive_decreases
{
    if !(m.wf() && 0 <= m.pos <= data.len()) {
        DriveResult { model: m, items: Seq::empty(), error: None }
    } else {
        let (m2, r) = spec_parse_next(m, data);
        match r {
            Result::Err(e) => DriveResult { model: m, items: Seq::empty(), error: Some(e) },
            Result::Ok(o) => match o {
                Option::None => DriveResult { model: m2, items: Seq::empty(), error: None },
                Option::Some(item) => {
                    let rest = spec_drive(m2, data);
                    DriveResult {
                        model: rest.model,
                        items: seq![item] + rest.items,
                        error: rest.error,
                    }
                },
            },
        }
    }
}

#[via_fn]
proof fn spec_drive_decreases(m: ParserModel, data: Seq<u8>) {
    if m.wf() && 0 <= m.pos <= data.len() {
        lemma_parse_next_progress(m, data);
    }
}
} // verus!
