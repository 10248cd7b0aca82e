//! The request assembler: request line, then header section, then body.
use vstd::prelude::*;
use vstd::slice::slice_subrange;
use vstd::utf8::encode_utf8;
use crate::error::HttpError;
use crate::wire::{crlf_from, lemma_crlf_from, find_crlf, range_is, is_numeral, numeral_value, parse_numeral};
use crate::request_line::{RequestMethod, parse_request_line, spec_request_line};
use crate::headers::{
    Headers, FieldTable, lookup, lemma_fields_from_bounds, ascii_lower, lowercase, spec_field_section, parse_field_section,
};
use crate::body::{
    ChunkState, ChunkRun, spec_chunked, spec_fixed, decode_chunked, parse_fixed_message,
};

verus! {

/// Where the assembler stands.
#[derive(Debug, Clone, Copy, PartialEq, Eq, Structural)]
pub enum ParsingState {
    Init,
    Header,
    Body,
    Error,
    Done,
}

impl ParsingState {
    pub open spec fn spec_name(self) -> &'static str {
        match self {
            ParsingState::Init => "init",
            ParsingState::Header => "header",
            ParsingState::Body => "body",
            ParsingState::Error => "error",
            ParsingState::Done => "done",
        }
    }

    /// A short name of the state, for diagnostics.
    pub fn as_str(&self) -> (r: &'static str)
        ensures
            r == self.spec_name(),
    {
        match self {
            ParsingState::Init => "init",
            ParsingState::Header => "header",
            ParsingState::Body => "body",
            ParsingState::Error => "error",
            ParsingState::Done => "done",
        }
    }
}

/// The lowercase name `transfer-encoding`.
pub open spec fn transfer_encoding_name() -> Seq<u8> {
    seq![116u8, 114, 97, 110, 115, 102, 101, 114, 45, 101, 110, 99, 111, 100, 105, 110, 103]
}

/// The lowercase name `content-length`.
pub open spec fn content_length_name() -> Seq<u8> {
    seq![99u8, 111, 110, 116, 101, 110, 116, 45, 108, 101, 110, 103, 116, 104]
}

/// The coding name `chunked`.
pub open spec fn chunked_name() -> Seq<u8> {
    seq![99u8, 104, 117, 110, 107, 101, 100]
}

/// A field value names the chunked coding, in any ASCII case.
pub open spec fn names_chunked(v: Seq<char>) -> bool {
    let low = ascii_lower(encode_utf8(v));
    exists|i: int| 0 <= i && i + 7 <= low.len() && #[trigger] low.subrange(i, i + 7) == chunked_name()
}

/// What the body step does, given the header table, the chunked decoder's state,
/// the body so far and the bytes after the header section: the bytes consumed,
/// whether the body is complete, the decoder's new state and the new body.
pub open spec fn spec_body(t: FieldTable, cs: ChunkState, body: Seq<u8>, data: Seq<u8>) -> ChunkRun {
    let chunked = match lookup(t, transfer_encoding_name()) {
        Some(te) => names_chunked(te),
        None => false,
    };
    if chunked {
        spec_chunked(data, cs, body)
    } else {
        match lookup(t, content_length_name()) {
            Some(cl) => {
                let digits = encode_utf8(cl);
                if !is_numeral(digits, 10) || numeral_value(digits, 10) > usize::MAX {
                    Err((HttpError::InvalidContentLength, body))
                } else {
                    let size = numeral_value(digits, 10);
                    match spec_fixed(data, size) {
                        Ok(n) => Ok((n as int, cs, body + data.subrange(0, size as int), true)),
                        Err(e) => Err((e, body)),
                    }
                }
            },
            None => Ok((0, cs, body, true)),
        }
    }
}

/// A request, filled in as the assembler advances through the message.
#[derive(Debug)]
pub struct Request {
    pub state: ParsingState,
    pub method: Option<RequestMethod>,
    pub version: Option<String>,
    pub headers: Option<Headers>,
    pub path: Option<String>,
    pub body: Vec<u8>,
    /// Where chunked decoding resumes.
    pub chunk_state: ChunkState,
}

fn contains_chunked(v: &str) -> (r: bool)
    ensures
        r == names_chunked(v@),
{
    let low = lowercase(v.as_bytes());
    let lit: [u8; 7] = [99, 104, 117, 110, 107, 101, 100];
    proof {
        assert(lit@ =~= chunked_name());
    }
    let n = low.len();
    if n < 7 {
        return false;
    }
    let mut i: usize = 0;
    while i <= n - 7
        invariant
            n == low@.len() >= 7,
            low@ == ascii_lower(encode_utf8(v@)),
            lit@ == chunked_name(),
            forall|j: int| 0 <= j < i ==> #[trigger] low@.subrange(j, j + 7) != chunked_name(),
        decreases n - i,
    {
        if range_is(low.as_slice(), i, i + 7, lit.as_slice()) {
            return true;
        }
        i = i + 1;
    }
    false
}

impl Request {
    /// Requests that the assembler can go on with.
    pub open spec fn wf(&self) -> bool {
        &&& self.headers matches Some(h) ==> h.wf()
        &&& self.state is Body ==> self.headers is Some
        &&& (self.state is Init || self.state is Header) ==> self.headers is None
    }

    /// An empty request, before its first byte.
    pub fn new() -> (r: Request)
        ensures
            r.state == ParsingState::Init,
            r.method is None,
            r.version is None,
            r.path is None,
            r.headers is None,
            r.body@.len() == 0,
            r.chunk_state == ChunkState::AwaitingSize,
            r.wf(),
    {
        Request {
            state: ParsingState::Init,
            method: None,
            version: None,
            path: None,
            headers: None,
            body: Vec::new(),
            chunk_state: ChunkState::AwaitingSize,
        }
    }

    /// Whether the request is complete or has failed.
    pub fn is_done(&self) -> (r: bool)
        ensures
            r == (self.state is Error || self.state is Done),
    {
        self.state == ParsingState::Error || self.state == ParsingState::Done
    }

    /// The `Init` step: the request line.
    fn read_start_line(&mut self, data: &[u8]) -> (r: Result<usize, HttpError>)
        requires
            old(self).wf(),
            old(self).state is Init,
            data@.len() + 2 <= usize::MAX,
        ensures
            final(self).chunk_state == old(self).chunk_state,
            final(self).wf(),
            r matches Ok(n) ==> n <= data@.len(),
            r matches Err(e) && !(e is NeedMoreData) ==> final(self).state == ParsingState::Error,
            match crlf_from(data@, 0) {
                None => {
                    &&& r == Err::<usize, HttpError>(HttpError::NeedMoreData)
                    &&& *final(self) == *old(self)
                },
                Some(k) => match spec_request_line(data@.subrange(0, k)) {
                    Err(e) => r == Err::<usize, HttpError>(e),
                    Ok((m, t, v)) => {
                        &&& r == Ok::<usize, HttpError>((k + 2) as usize)
                        &&& final(self).state == ParsingState::Header
                        &&& final(self).method == Some(m)
                        &&& (final(self).path matches Some(p) && p@ == t)
                        &&& (final(self).version matches Some(x) && x@ == v)
                        &&& final(self).headers == old(self).headers
                        &&& final(self).body == old(self).body
                    },
                },
            },
    {
        let k = match find_crlf(data, 0) {
            Some(k) => k,
            None => {
                return Err(HttpError::NeedMoreData);
            },
        };
        match parse_request_line(slice_subrange(data, 0, k)) {
            Ok((m, t, v, n)) => {
                self.method = Some(m);
                self.path = Some(t);
                self.version = Some(v);
                self.state = ParsingState::Header;
                Ok(n)
            },
            Err(e) => {
                self.state = ParsingState::Error;
                Err(e)
            },
        }
    }

    /// The `Header` step: the header section.
    fn read_field_section(&mut self, data: &[u8]) -> (r: Result<usize, HttpError>)
        requires
            old(self).wf(),
            old(self).state is Header,
            data@.len() + 2 <= usize::MAX,
        ensures
            final(self).chunk_state == old(self).chunk_state,
            final(self).wf(),
            r matches Ok(n) ==> n <= data@.len(),
            r matches Err(e) && !(e is NeedMoreData) ==> final(self).state == ParsingState::Error,
            match spec_field_section(data@) {
                Err(e) => r == Err::<usize, HttpError>(e),
                Ok((t, n, complete)) => if complete {
                    &&& r == Ok::<usize, HttpError>(n as usize)
                    &&& final(self).state == ParsingState::Body
                    &&& (final(self).headers matches Some(h) && h@ == t)
                    &&& final(self).method == old(self).method
                    &&& final(self).path == old(self).path
                    &&& final(self).version == old(self).version
                    &&& final(self).body == old(self).body
                } else {
                    &&& r == Err::<usize, HttpError>(HttpError::NeedMoreData)
                    &&& *final(self) == *old(self)
                },
            },
    {
        match parse_field_section(data) {
            Ok((h, n, complete)) => {
                if complete {
                    self.headers = Some(h);
                    self.state = ParsingState::Body;
                    Ok(n)
                } else {
                    Err(HttpError::NeedMoreData)
                }
            },
            Err(e) => {
                self.state = ParsingState::Error;
                Err(e)
            },
        }
    }

    /// The `Body` step: the body.
    fn read_body(&mut self, data: &[u8]) -> (r: Result<usize, HttpError>)
        requires
            old(self).wf(),
            old(self).state is Body,
            data@.len() + 2 <= usize::MAX,
        ensures
            final(self).wf(),
            r matches Ok(n) ==> n <= data@.len(),
            r matches Err(e) && !(e is NeedMoreData) ==> final(self).state == ParsingState::Error,
            final(self).method == old(self).method,
            final(self).path == old(self).path,
            final(self).version == old(self).version,
            final(self).headers == old(self).headers,
            match old(self).headers {
                None => false,
                Some(h) => match spec_body(h@, old(self).chunk_state, old(self).body@, data@) {
                    Err((e, b)) => {
                        &&& r == Err::<usize, HttpError>(e)
                        &&& final(self).body@ == b
                    },
                    Ok((n, cs, b, complete)) => {
                        &&& r == Ok::<usize, HttpError>(n as usize)
                        &&& final(self).chunk_state == cs
                        &&& final(self).body@ == b
                        &&& final(self).state == if complete {
                            ParsingState::Done
                        } else {
                            ParsingState::Body
                        }
                    },
                },
            },
    {
        let r = parse_request_body(data, self);
        match r {
            Ok((n, complete)) => {
                if complete {
                    self.state = ParsingState::Done;
                }
                Ok(n)
            },
            Err(e) => {
                if !e.retryable() {
                    self.state = ParsingState::Error;
                }
                Err(e)
            },
        }
    }

    /// One step of the assembler on `data`, the bytes after those consumed so
    /// far: it handles the request line in `Init`, the header section in
    /// `Header` and the body in `Body`, and returns the bytes it consumed.
    ///
    /// `NeedMoreData` leaves the request as it was; any other error moves it to `Error`.
    pub fn step(&mut self, data: &[u8]) -> (r: Result<usize, HttpError>)
        requires
            old(self).wf(),
            !(old(self).state is Error || old(self).state is Done),
            data@.len() + 2 <= usize::MAX,
        ensures
            !(old(self).state is Body) ==> final(self).chunk_state == old(self).chunk_state,
            final(self).wf(),
            r matches Ok(n) ==> n <= data@.len(),
            r matches Err(e) && !(e is NeedMoreData) ==> final(self).state == ParsingState::Error,
            old(self).state is Init ==> match crlf_from(data@, 0) {
                None => {
                    &&& r == Err::<usize, HttpError>(HttpError::NeedMoreData)
                    &&& *final(self) == *old(self)
                },
                Some(k) => match spec_request_line(data@.subrange(0, k)) {
                    Err(e) => r == Err::<usize, HttpError>(e),
                    Ok((m, t, v)) => {
                        &&& r == Ok::<usize, HttpError>((k + 2) as usize)
                        &&& final(self).state == ParsingState::Header
                        &&& final(self).method == Some(m)
                        &&& (final(self).path matches Some(p) && p@ == t)
                        &&& (final(self).version matches Some(x) && x@ == v)
                        &&& final(self).headers == old(self).headers
                        &&& final(self).body == old(self).body
                    },
                },
            },
            old(self).state is Header ==> match spec_field_section(data@) {
                Err(e) => r == Err::<usize, HttpError>(e),
                Ok((t, n, complete)) => if complete {
                    &&& r == Ok::<usize, HttpError>(n as usize)
                    &&& final(self).state == ParsingState::Body
                    &&& (final(self).headers matches Some(h) && h@ == t)
                    &&& final(self).method == old(self).method
                    &&& final(self).path == old(self).path
                    &&& final(self).version == old(self).version
                    &&& final(self).body == old(self).body
                } else {
                    &&& r == Err::<usize, HttpError>(HttpError::NeedMoreData)
                    &&& *final(self) == *old(self)
                },
            },
            old(self).state is Body ==> {
                &&& final(self).method == old(self).method
                &&& final(self).path == old(self).path
                &&& final(self).version == old(self).version
                &&& final(self).headers == old(self).headers
            },
            old(self).state is Body ==> match old(self).headers {
                None => false,
                Some(h) => match spec_body(h@, old(self).chunk_state, old(self).body@, data@) {
                    Err((e, b)) => {
                        &&& r == Err::<usize, HttpError>(e)
                        &&& final(self).body@ == b
                    },
                    Ok((n, cs, b, complete)) => {
                        &&& r == Ok::<usize, HttpError>(n as usize)
                        &&& final(self).chunk_state == cs
                        &&& final(self).body@ == b
                        &&& final(self).state == if complete {
                            ParsingState::Done
                        } else {
                            ParsingState::Body
                        }
                    },
                },
            },
    {
        match self.state {
            ParsingState::Init => self.read_start_line(data),
            ParsingState::Header => self.read_field_section(data),
            _ => self.read_body(data),
        }
    }
}

/// Decodes the body that the request's headers announce, from the start of
/// `bytes`: chunked where `Transfer-Encoding` names `chunked`, else
/// `Content-Length` bytes where that header is present, else an empty body.
///
/// Returns the bytes consumed and whether the body is complete.
pub fn parse_request_body(bytes: &[u8], request: &mut Request) -> (r: Result<(usize, bool), HttpError>)
    requires
        old(request).wf(),
    ensures
        final(request).state == old(request).state,
        final(request).method == old(request).method,
        final(request).path == old(request).path,
        final(request).version == old(request).version,
        final(request).headers == old(request).headers,
        match old(request).headers {
            None => r == Err::<(usize, bool), HttpError>(HttpError::MissingHeaders)
                && final(request).body == old(request).body,
            Some(h) => match spec_body(h@, old(request).chunk_state, old(request).body@, bytes@) {
                Err((e, b)) => r == Err::<(usize, bool), HttpError>(e) && final(request).body@ == b,
                Ok((n, cs, b, complete)) => r == Ok::<(usize, bool), HttpError>(
                    (n as usize, complete),
                ) && final(request).chunk_state == cs && final(request).body@ == b,
            },
        },
        r matches Ok((n, _)) ==> n <= bytes@.len(),
{
    let header = match &request.headers {
        Some(h) => h,
        None => {
            return Err(HttpError::MissingHeaders);
        },
    };
    let te_name: [u8; 17] = [116, 114, 97, 110, 115, 102, 101, 114, 45, 101, 110, 99, 111, 100, 105, 110, 103];
    let cl_name: [u8; 14] = [99, 111, 110, 116, 101, 110, 116, 45, 108, 101, 110, 103, 116, 104];
    proof {
        assert(te_name@ =~= transfer_encoding_name());
        assert(cl_name@ =~= content_length_name());
    }
    let chunked = match header.get_exact(te_name.as_slice()) {
        Some(te) => contains_chunked(te),
        None => false,
    };
    if chunked {
        match decode_chunked(bytes, &mut request.chunk_state, &mut request.body) {
            Ok((n, complete)) => {
                return Ok((n, complete));
            },
            Err(e) => {
                return Err(e);
            },
        }
    }
    match header.get_exact(cl_name.as_slice()) {
        Some(cl) => {
            let digits = cl.as_bytes();
            let size = match parse_numeral(digits, 0, digits.len(), 10) {
                Some(v) => v,
                None => {
                    proof {
                        assert(digits@.subrange(0, digits@.len() as int) =~= digits@);
                    }
                    return Err(HttpError::InvalidContentLength);
                },
            };
            proof {
                assert(digits@.subrange(0, digits@.len() as int) =~= digits@);
            }
            match parse_fixed_message(bytes, size, &mut request.body) {
                Ok(n) => Ok((n, true)),
                Err(e) => Err(e),
            }
        },
        None => Ok((0, true)),
    }
}

/// What assembling a whole request from `data` gives: its method, target,
/// version, header table and body, or the error or `NeedMoreData` that stops it.
pub open spec fn spec_parse(data: Seq<u8>) -> Result<
    (RequestMethod, Seq<char>, Seq<char>, FieldTable, Seq<u8>),
    HttpError,
> {
    match crlf_from(data, 0) {
        None => Err(HttpError::NeedMoreData),
        Some(k) => match spec_request_line(data.subrange(0, k)) {
            Err(e) => Err(e),
            Ok((m, t, v)) => {
                let rest = data.subrange(k + 2, data.len() as int);
                match spec_field_section(rest) {
                    Err(e) => Err(e),
                    Ok((tab, n, complete)) => if !complete {
                        Err(HttpError::NeedMoreData)
                    } else {
                        let tail = rest.subrange(n, rest.len() as int);
                        match spec_body(tab, ChunkState::AwaitingSize, Seq::empty(), tail) {
                            Err((e, _)) => Err(e),
                            Ok((_, _, b, done)) => if done {
                                Ok((m, t, v, tab, b))
                            } else {
                                Err(HttpError::NeedMoreData)
                            },
                        }
                    },
                }
            },
        },
    }
}

/// Assembles one request from `data`: the request line, the header section,
/// then the body that the headers announce.
///
/// Returns the complete request, the first error met, or `NeedMoreData` where
/// `data` ends before the request does.
pub fn parse(data: &[u8]) -> (r: Result<Request, HttpError>)
    requires
        data@.len() + 2 <= usize::MAX,
    ensures
        match spec_parse(data@) {
            Err(e) => r matches Err(x) && x == e,
            Ok((m, t, v, tab, b)) => r matches Ok(req) && {
                &&& req.state == ParsingState::Done
                &&& req.method == Some(m)
                &&& (req.path matches Some(p) && p@ == t)
                &&& (req.version matches Some(x) && x@ == v)
                &&& (req.headers matches Some(h) && h@ == tab)
                &&& req.body@ == b
            },
        },
{
    let mut req = Request::new();
    let n1 = match req.read_start_line(data) {
        Ok(n) => n,
        Err(e) => {
            return Err(e);
        },
    };
    proof {
        lemma_crlf_from(data@, 0);
    }
    let rest = slice_subrange(data, n1, data.len());
    let n2 = match req.read_field_section(rest) {
        Ok(n) => n,
        Err(e) => {
            return Err(e);
        },
    };
    proof {
        lemma_fields_from_bounds(rest@, 0, Seq::empty());
    }
    let tail = slice_subrange(rest, n2, rest.len());
    proof {
        assert(req.body@ =~= Seq::<u8>::empty());
    }
    match req.read_body(tail) {
        Ok(_) => {
            if req.state == ParsingState::Done {
                Ok(req)
            } else {
                Err(HttpError::NeedMoreData)
            }
        },
        Err(e) => Err(e),
    }
}

} // verus!
