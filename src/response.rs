//! Responses and their wire form: status line, field lines, blank line, entity.
use vstd::prelude::*;
use vstd::utf8::encode_utf8;
use crate::wire::{CR, LF, SP, utf8_to_string, is_ascii_bytes, ascii_chars, lemma_ascii_utf8};

verus! {

pub const COLON: u8 = 58;

/// The decimal digits of `n`, most significant first.
pub open spec fn decimal(n: nat) -> Seq<u8>
    decreases n,
{
    if n < 10 {
        seq![(48 + n) as u8]
    } else {
        decimal(n / 10).push((48 + n % 10) as u8)
    }
}

proof fn lemma_decimal_ascii(n: nat)
    ensures
        is_ascii_bytes(decimal(n)),
        decimal(n).len() > 0,
    decreases n,
{
    if n >= 10 {
        lemma_decimal_ascii(n / 10);
    }
}

pub open spec fn crlf() -> Seq<u8> {
    seq![CR, LF]
}

/// The field lines `name: value` of `hs`, in order.
pub open spec fn fields_wire(hs: Seq<(Seq<char>, Seq<char>)>) -> Seq<u8>
    decreases hs.len(),
{
    if hs.len() == 0 {
        Seq::empty()
    } else {
        fields_wire(hs.drop_last()) + encode_utf8(hs.last().0) + seq![COLON, SP] + encode_utf8(
            hs.last().1,
        ) + crlf()
    }
}

/// The wire form of a message with the given parts.
pub open spec fn message_wire(
    protocol: Seq<char>,
    code: nat,
    text: Seq<char>,
    hs: Seq<(Seq<char>, Seq<char>)>,
    entity: Seq<u8>,
) -> Seq<u8> {
    encode_utf8(protocol) + seq![SP] + decimal(code) + seq![SP] + encode_utf8(text) + crlf()
        + fields_wire(hs) + crlf() + entity
}

/// The fields every response carries; the last gives the entity's length in bytes.
pub open spec fn default_fields(len: nat) -> Seq<(Seq<char>, Seq<char>)> {
    seq![("Server"@, "X-B-O-X"@), ("Connection"@, "close"@), ("Content-Length"@, ascii_chars(decimal(len)))]
}

/// The wire form of the response that `Response::new` builds.
pub open spec fn reply_wire(code: nat, text: Seq<char>, entity: Seq<u8>) -> Seq<u8> {
    message_wire("HTTP/1.1"@, code, text, default_fields(entity.len()), entity)
}

pub open spec fn entity_bytes(e: Option<Vec<u8>>) -> Seq<u8> {
    match e {
        Some(v) => v@,
        None => Seq::empty(),
    }
}

/// An outgoing response.
pub struct Response {
    pub protocol: String,
    pub status_code: u16,
    pub status_text: String,
    pub headers: Vec<(String, String)>,
    pub entity: Option<Vec<u8>>,
}

pub open spec fn pair_view(p: (String, String)) -> (Seq<char>, Seq<char>) {
    (p.0@, p.1@)
}

impl Response {
    pub open spec fn fields(&self) -> Seq<(Seq<char>, Seq<char>)> {
        self.headers@.map_values(|p: (String, String)| pair_view(p))
    }

    /// The bytes this response is sent as.
    pub open spec fn wire(&self) -> Seq<u8> {
        message_wire(
            self.protocol@,
            self.status_code as nat,
            self.status_text@,
            self.fields(),
            entity_bytes(self.entity),
        )
    }

    /// A response with the given status and entity; it carries the fields
    /// `Server`, `Connection` and `Content-Length`, the last being the entity's
    /// length in bytes (0 where there is none).
    pub fn new(status_code: u16, status_text: &str, entity: Option<Vec<u8>>) -> (r: Response)
        ensures
            r.protocol@ == "HTTP/1.1"@,
            r.status_code == status_code,
            r.status_text@ == status_text@,
            r.entity == entity,
            r.fields() == default_fields(entity_bytes(entity).len()),
            r.wire() == reply_wire(status_code as nat, status_text@, entity_bytes(entity)),
    {
        let len: usize = match &entity {
            Some(e) => e.len(),
            None => 0,
        };
        let mut digits: Vec<u8> = Vec::new();
        push_decimal(&mut digits, len);
        proof {
            lemma_decimal_ascii(len as nat);
            lemma_ascii_utf8(digits@);
        }
        let length = match utf8_to_string(digits.as_slice()) {
            Some(s) => s,
            None => String::new(),
        };
        let mut headers: Vec<(String, String)> = Vec::new();
        headers.push(("Server".to_owned(), "X-B-O-X".to_owned()));
        headers.push(("Connection".to_owned(), "close".to_owned()));
        headers.push(("Content-Length".to_owned(), length));
        let r = Response {
            protocol: "HTTP/1.1".to_owned(),
            status_code,
            status_text: status_text.to_owned(),
            headers,
            entity,
        };
        assert(r.fields() =~= default_fields(entity_bytes(entity).len()));
        r
    }

    /// Writes the wire form of this response to `stream`.
    pub fn send(&self, stream: &mut Vec<u8>)
        ensures
            final(stream)@ == old(stream)@ + self.wire(),
    {
        let ghost start = stream@;
        push_str(stream, self.protocol.as_str());
        stream.push(SP);
        push_decimal(stream, self.status_code as usize);
        stream.push(SP);
        push_str(stream, self.status_text.as_str());
        stream.push(CR);
        stream.push(LF);
        let ghost head = stream@;
        let mut i: usize = 0;
        while i < self.headers.len()
            invariant
                i <= self.headers@.len(),
                stream@ == head + fields_wire(self.fields().subrange(0, i as int)),
            decreases self.headers@.len() - i,
        {
            let ghost before = stream@;
            push_str(stream, self.headers[i].0.as_str());
            stream.push(COLON);
            stream.push(SP);
            push_str(stream, self.headers[i].1.as_str());
            stream.push(CR);
            stream.push(LF);
            proof {
                let hs = self.fields().subrange(0, i + 1);
                assert(hs.drop_last() =~= self.fields().subrange(0, i as int));
                assert(stream@ =~= before + encode_utf8(hs.last().0) + seq![COLON, SP]
                    + encode_utf8(hs.last().1) + crlf());
            }
            i = i + 1;
        }
        stream.push(CR);
        stream.push(LF);
        if let Some(e) = &self.entity {
            push_bytes(stream, e.as_slice());
        }
        proof {
            assert(self.fields().subrange(0, self.headers@.len() as int) =~= self.fields());
            assert(stream@ =~= start + self.wire());
        }
    }

    /// Writes a `200 OK` response to `stream`, with `message` as its entity, or `OK`.
    pub fn ok(stream: &mut Vec<u8>, message: Option<&[u8]>)
        ensures
            final(stream)@ == old(stream)@ + reply_wire(
                200,
                "OK"@,
                match message {
                    Some(m) => m@,
                    None => encode_utf8("OK"@),
                },
            ),
    {
        reply(stream, 200, "OK", message, "OK")
    }

    /// Writes a `404 NOT FOUND` response to `stream`, with `message` as its
    /// entity, or `Resource Not Found`.
    pub fn not_found(stream: &mut Vec<u8>, message: Option<&[u8]>)
        ensures
            final(stream)@ == old(stream)@ + reply_wire(
                404,
                "NOT FOUND"@,
                match message {
                    Some(m) => m@,
                    None => encode_utf8("Resource Not Found"@),
                },
            ),
    {
        reply(stream, 404, "NOT FOUND", message, "Resource Not Found")
    }

    /// Writes a `400 BAD REQUEST` response to `stream`, with `message` as its
    /// entity, or `Bad Request`.
    pub fn bad_request(stream: &mut Vec<u8>, message: Option<&[u8]>)
        ensures
            final(stream)@ == old(stream)@ + reply_wire(
                400,
                "BAD REQUEST"@,
                match message {
                    Some(m) => m@,
                    None => encode_utf8("Bad Request"@),
                },
            ),
    {
        reply(stream, 400, "BAD REQUEST", message, "Bad Request")
    }
}

fn reply(stream: &mut Vec<u8>, code: u16, text: &str, message: Option<&[u8]>, fallback: &str)
    ensures
        final(stream)@ == old(stream)@ + reply_wire(
            code as nat,
            text@,
            match message {
                Some(m) => m@,
                None => encode_utf8(fallback@),
            },
        ),
{
    let entity: Vec<u8> = match message {
        Some(m) => to_vec(m),
        None => to_vec(fallback.as_bytes()),
    };
    let response = Response::new(code, text, Some(entity));
    response.send(stream);
}

fn to_vec(s: &[u8]) -> (r: Vec<u8>)
    ensures
        r@ == s@,
{
    let mut r: Vec<u8> = Vec::new();
    push_bytes(&mut r, s);
    r
}

fn push_bytes(out: &mut Vec<u8>, s: &[u8])
    ensures
        final(out)@ == old(out)@ + s@,
{
    let ghost start = out@;
    let mut i: usize = 0;
    while i < s.len()
        invariant
            i <= s@.len(),
            out@ == start + s@.subrange(0, i as int),
        decreases s@.len() - i,
    {
        out.push(s[i]);
        i = i + 1;
        assert(out@ =~= start + s@.subrange(0, i as int));
    }
    assert(s@.subrange(0, i as int) =~= s@);
}

fn push_str(out: &mut Vec<u8>, s: &str)
    ensures
        final(out)@ == old(out)@ + encode_utf8(s@),
{
    push_bytes(out, s.as_bytes());
}

fn push_decimal(out: &mut Vec<u8>, n: usize)
    ensures
        final(out)@ == old(out)@ + decimal(n as nat),
    decreases n,
{
    let ghost start = out@;
    if n >= 10 {
        push_decimal(out, n / 10);
    }
    out.push(48 + (n % 10) as u8);
    assert(out@ =~= start + decimal(n as nat));
}

} // verus!
