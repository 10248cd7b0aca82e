//! Body decoding: fixed `Content-Length` bodies and the chunked transfer coding.
use vstd::prelude::*;
use crate::error::HttpError;
use crate::wire::{CR, LF, crlf_from, find_crlf, lemma_crlf_from, is_numeral, numeral_value, parse_numeral};

verus! {

/// Inputs this long or longer are refused by both decoders.
pub const MAX_LENGTH: usize = 1024;

/// Where a chunked decoder stands between two calls.
#[derive(Debug, Clone, Copy, PartialEq, Eq, Structural)]
pub enum ChunkState {
    /// Reading a chunk-size line.
    AwaitingSize,
    /// Reading a chunk of the given size and its terminator.
    AwaitingData(usize),
}

/// What decoding a fixed-length body from `msg` does: the bytes consumed, or an error.
pub open spec fn spec_fixed(msg: Seq<u8>, size: nat) -> Result<nat, HttpError> {
    if msg.len() >= MAX_LENGTH {
        Err(HttpError::BufferTooLarge)
    } else if msg.len() < size {
        Err(HttpError::NeedMoreData)
    } else {
        Ok(size)
    }
}

/// Decodes a body of exactly `size` bytes from the start of `msg` and appends it to `body`.
///
/// Returns the bytes consumed; where fewer than `size` bytes are present it
/// returns `NeedMoreData` and leaves `body` as it was.
pub fn parse_fixed_message(msg: &[u8], size: usize, body: &mut Vec<u8>) -> (r: Result<usize, HttpError>)
    ensures
        match spec_fixed(msg@, size as nat) {
            Ok(n) => r == Ok::<usize, HttpError>(n as usize) && final(body)@ == old(body)@
                + msg@.subrange(0, size as int),
            Err(e) => r == Err::<usize, HttpError>(e) && final(body)@ == old(body)@,
        },
{
    if msg.len() >= MAX_LENGTH {
        return Err(HttpError::BufferTooLarge);
    }
    if msg.len() < size {
        return Err(HttpError::NeedMoreData);
    }
    let ghost start = body@;
    let mut i: usize = 0;
    while i < size
        invariant
            i <= size <= msg@.len(),
            body@ == start + msg@.subrange(0, i as int),
        decreases size - i,
    {
        body.push(msg[i]);
        i = i + 1;
        assert(body@ =~= start + msg@.subrange(0, i as int));
    }
    Ok(size)
}

/// A chunk-size line that this decoder accepts: hex digits whose value fits in `usize`.
pub open spec fn is_chunk_size_line(line: Seq<u8>) -> bool {
    is_numeral(line, 16) && numeral_value(line, 16) <= usize::MAX
}

/// The outcome of decoding chunks: the bytes consumed, the state reached, the
/// body so far, and whether the terminating chunk was read; or the error met,
/// with the body as it stands then (the payload of each chunk whose terminator
/// was checked before the error).
pub type ChunkRun = Result<(int, ChunkState, Seq<u8>, bool), (HttpError, Seq<u8>)>;

/// Decoding chunks of `s` from `pos` on, in state `st`, with `body` decoded so far.
pub open spec fn spec_chunks_from(s: Seq<u8>, pos: int, st: ChunkState, body: Seq<u8>) -> ChunkRun
    decreases s.len() - pos,
    via spec_chunks_from_decreases
{
    if pos < 0 || pos > s.len() {
        Ok((pos, st, body, false))
    } else {
        match st {
            ChunkState::AwaitingSize => match crlf_from(s, pos) {
                None => Ok((pos, st, body, false)),
                Some(k) => {
                    let line = s.subrange(pos, pos + k);
                    let e = pos + k + 2;
                    if !is_chunk_size_line(line) {
                        Err((HttpError::InvalidChunkSize, body))
                    } else if numeral_value(line, 16) == 0 {
                        if s.len() < e + 2 {
                            Ok((pos, st, body, false))
                        } else if s[e] == CR && s[e + 1] == LF {
                            Ok((e + 2, st, body, true))
                        } else {
                            Err((HttpError::MissingChunkTerminator, body))
                        }
                    } else {
                        spec_chunks_from(
                            s,
                            e,
                            ChunkState::AwaitingData(numeral_value(line, 16) as usize),
                            body,
                        )
                    }
                },
            },
            ChunkState::AwaitingData(n) => if s.len() - pos < n + 2 {
                Ok((pos, st, body, false))
            } else if s[pos + n] == CR && s[pos + n + 1] == LF {
                spec_chunks_from(
                    s,
                    pos + n + 2,
                    ChunkState::AwaitingSize,
                    body + s.subrange(pos, pos + n),
                )
            } else {
                Err((HttpError::MissingChunkTerminator, body))
            },
        }
    }
}

#[via_fn]
proof fn spec_chunks_from_decreases(s: Seq<u8>, pos: int, st: ChunkState, body: Seq<u8>) {
    if 0 <= pos {
        lemma_crlf_from(s, pos);
    }
}

/// What a chunked decoder does with `msg` from state `st`, with `body` decoded so far.
pub open spec fn spec_chunked(msg: Seq<u8>, st: ChunkState, body: Seq<u8>) -> ChunkRun {
    if msg.len() >= MAX_LENGTH {
        Err((HttpError::BufferTooLarge, body))
    } else {
        spec_chunks_from(msg, 0, st, body)
    }
}

/// Decodes chunks from the start of `msg`, resuming from `state` and appending
/// each chunk's payload to `body`.
///
/// Returns the bytes consumed and whether the terminating chunk was read.
/// Where the input ends inside a chunk-size line or a chunk, it stops there,
/// and `state` records where to resume on the bytes after those consumed.
pub fn decode_chunked(msg: &[u8], state: &mut ChunkState, body: &mut Vec<u8>) -> (r: Result<
    (usize, bool),
    HttpError,
>)
    ensures
        match spec_chunked(msg@, *old(state), old(body)@) {
            Ok((n, st, b, done)) => r == Ok::<(usize, bool), HttpError>((n as usize, done))
                && *final(state) == st && final(body)@ == b,
            Err((e, b)) => r == Err::<(usize, bool), HttpError>(e) && final(body)@ == b,
        },
        r matches Ok((n, _)) ==> n <= msg@.len(),
{
    if msg.len() >= MAX_LENGTH {
        return Err(HttpError::BufferTooLarge);
    }
    let ghost whole = spec_chunked(msg@, *state, body@);
    let mut pos: usize = 0;
    loop
        invariant
            pos <= msg@.len() < MAX_LENGTH,
            whole == spec_chunks_from(msg@, pos as int, *state, body@),
            whole == spec_chunked(msg@, *old(state), old(body)@),
        decreases msg@.len() - pos,
    {
        match *state {
            ChunkState::AwaitingSize => {
                match find_crlf(msg, pos) {
                    None => {
                        return Ok((pos, false));
                    },
                    Some(k) => {
                        let e = pos + k + 2;
                        let size = match parse_numeral(msg, pos, pos + k, 16) {
                            Some(v) => v,
                            None => {
                                return Err(HttpError::InvalidChunkSize);
                            },
                        };
                        if size == 0 {
                            if msg.len() - e < 2 {
                                return Ok((pos, false));
                            } else if msg[e] == CR && msg[e + 1] == LF {
                                return Ok((e + 2, true));
                            } else {
                                return Err(HttpError::MissingChunkTerminator);
                            }
                        }
                        *state = ChunkState::AwaitingData(size);
                        pos = e;
                    },
                }
            },
            ChunkState::AwaitingData(n) => {
                if msg.len() - pos < 2 || n > msg.len() - pos - 2 {
                    return Ok((pos, false));
                }
                if msg[pos + n] != CR || msg[pos + n + 1] != LF {
                    return Err(HttpError::MissingChunkTerminator);
                }
                let ghost before = body@;
                let end: usize = pos + n;
                let mut i: usize = pos;
                while i < end
                    invariant
                        end == pos + n,
                        pos <= i <= end <= msg@.len(),
                        body@ == before + msg@.subrange(pos as int, i as int),
                    decreases end - i,
                {
                    body.push(msg[i]);
                    i = i + 1;
                    assert(body@ =~= before + msg@.subrange(pos as int, i as int));
                }
                *state = ChunkState::AwaitingSize;
                pos = pos + n + 2;
            },
        }
    }
}

/// Decodes a whole chunked body from the start of `msg`, appending each
/// chunk's payload to `body`; returns the bytes consumed.
pub fn parse_chunked_message(msg: &[u8], body: &mut Vec<u8>) -> (r: Result<usize, HttpError>)
    ensures
        match spec_chunked(msg@, ChunkState::AwaitingSize, old(body)@) {
            Ok((n, _, b, _)) => r == Ok::<usize, HttpError>(n as usize) && final(body)@ == b,
            Err((e, b)) => r == Err::<usize, HttpError>(e) && final(body)@ == b,
        },
        r matches Ok(n) ==> n <= msg@.len(),
{
    let mut state = ChunkState::AwaitingSize;
    match decode_chunked(msg, &mut state, body) {
        Ok((n, _)) => Ok(n),
        Err(e) => Err(e),
    }
}

/// A size line that is not a hexadecimal numeral fitting in `usize` is refused,
/// wherever the decoder meets it: the error comes with the body decoded so far.
pub proof fn lemma_bad_chunk_size_rejected(msg: Seq<u8>, pos: int, body: Seq<u8>)
    requires
        0 <= pos <= msg.len(),
        crlf_from(msg, pos) matches Some(k) && !is_chunk_size_line(msg.subrange(pos, pos + k)),
    ensures
        spec_chunks_from(msg, pos, ChunkState::AwaitingSize, body) == Err::<
            (int, ChunkState, Seq<u8>, bool),
            (HttpError, Seq<u8>),
        >((HttpError::InvalidChunkSize, body)),
{
}

/// Input of the size limit or longer is refused and leaves the body as it was.
pub proof fn lemma_large_input_rejected(msg: Seq<u8>, st: ChunkState, body: Seq<u8>)
    requires
        msg.len() >= MAX_LENGTH,
    ensures
        spec_chunked(msg, st, body) == Err::<(int, ChunkState, Seq<u8>, bool), (HttpError, Seq<u8>)>(
            (HttpError::BufferTooLarge, body),
        ),
{
}

} // verus!
