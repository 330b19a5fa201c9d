//! An HTTP response under construction.

use vstd::prelude::*;
use vstd::slice::slice_to_vec;
use vstd::string::StringSliceAdditionalSpecFns;

verus! {

/// The status line of a response.
pub enum StatusMessage {
    /// `200 OK`.
    Success,
    /// A code and the message that goes with it.
    Custom(u32, String),
}

/// The mathematical content of a status.
pub enum StatusView {
    Success,
    Custom(u32, Seq<char>),
}

impl View for StatusMessage {
    type V = StatusView;

    open spec fn view(&self) -> StatusView {
        match *self {
            StatusMessage::Success => StatusView::Success,
            StatusMessage::Custom(code, message) => StatusView::Custom(code, message@),
        }
    }
}

/// The mathematical content of a response.
pub struct ResponseView {
    /// The header lines, in the order in which they were added.
    pub headers: Seq<(Seq<char>, Seq<char>)>,
    /// The body.
    pub body: Seq<u8>,
    /// The status.
    pub status: StatusView,
}

/// A response: status, header lines and body.
pub struct Response {
    headers: Vec<(String, String)>,
    response: Vec<u8>,
    status_message: StatusMessage,
}

impl View for Response {
    type V = ResponseView;

    closed spec fn view(&self) -> ResponseView {
        ResponseView {
            headers: self.headers@.map_values(|h: (String, String)| (h.0@, h.1@)),
            body: self.response@,
            status: self.status_message@,
        }
    }
}

impl Response {
    /// A response with status `200 OK`, no header line and an empty body.
    pub fn new() -> (response: Response)
        ensures
            response@ == (ResponseView {
                headers: Seq::empty(),
                body: Seq::empty(),
                status: StatusView::Success,
            }),
    {
        let response = Response {
            headers: Vec::new(),
            response: Vec::new(),
            status_message: StatusMessage::Success,
        };
        assert(response@.headers =~= Seq::empty());
        response
    }

    /// Sets the status to `code` with `message`.
    pub fn status_code(&mut self, code: u32, message: &str) -> (same: &mut Response)
        ensures
            same@ == (ResponseView { status: StatusView::Custom(code, message@), ..old(self)@ }),
            *final(self) == *final(same),
    {
        self.status_message = StatusMessage::Custom(code, message.to_owned());
        self
    }

    /// Adds a header line behind those already there.
    pub fn header(&mut self, name: &str, val: &str) -> (same: &mut Response)
        ensures
            same@ == (ResponseView {
                headers: old(self)@.headers.push((name@, val@)),
                ..old(self)@
            }),
            *final(self) == *final(same),
    {
        self.headers.push((name.to_owned(), val.to_owned()));
        assert(self@.headers =~= old(self)@.headers.push((name@, val@)));
        self
    }

    /// Sets the body to the bytes of `s`.
    pub fn body(&mut self, s: &str) -> (same: &mut Response)
        ensures
            same@ == (ResponseView { body: s.spec_bytes(), ..old(self)@ }),
            *final(self) == *final(same),
    {
        self.response = slice_to_vec(s.as_bytes());
        self
    }

    /// Sets the body to `b`.
    pub fn body_bytes(&mut self, b: &[u8]) -> (same: &mut Response)
        ensures
            same@ == (ResponseView { body: b@, ..old(self)@ }),
            *final(self) == *final(same),
    {
        self.response = slice_to_vec(b);
        self
    }

    /// The status.
    pub fn status(&self) -> (status: &StatusMessage)
        ensures
            status@ == self@.status,
    {
        &self.status_message
    }

    /// The header lines, in the order in which they were added.
    pub fn headers(&self) -> (headers: &[(String, String)])
        ensures
            headers@.map_values(|h: (String, String)| (h.0@, h.1@)) == self@.headers,
    {
        self.headers.as_slice()
    }

    /// The body.
    pub fn content(&self) -> (body: &[u8])
        ensures
            body@ == self@.body,
    {
        self.response.as_slice()
    }
}

} // verus!
