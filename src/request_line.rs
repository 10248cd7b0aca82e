//! The request line: `METHOD SP TARGET SP HTTP-VERSION`.
use vstd::prelude::*;
use vstd::slice::slice_subrange;
use vstd::utf8::{valid_utf8, decode_utf8};
use crate::error::{HttpError, Utf8Field};
use crate::wire::{SP, range_is, utf8_to_string, is_ascii_bytes, lemma_ascii_utf8, ascii_chars};

verus! {

/// The request methods this core accepts.
#[derive(Debug, Clone, Copy, PartialEq, Eq, Structural)]
pub enum RequestMethod {
    Get,
    Post,
    Patch,
    Delete,
    Put,
}

impl RequestMethod {
    /// The method that a request-line token names, matched case-sensitively.
    pub fn from_token(tok: &[u8]) -> (r: Option<RequestMethod>)
        ensures
            r == method_of(tok@),
    {
        let r = method_from_token(tok, 0, tok.len());
        assert(tok@.subrange(0, tok@.len() as int) =~= tok@);
        r
    }
}

/// The method token that names each method.
pub open spec fn method_token(m: RequestMethod) -> Seq<u8> {
    match m {
        RequestMethod::Get => seq![71u8, 69u8, 84u8],
        RequestMethod::Post => seq![80u8, 79u8, 83u8, 84u8],
        RequestMethod::Patch => seq![80u8, 65u8, 84u8, 67u8, 72u8],
        RequestMethod::Delete => seq![68u8, 69u8, 76u8, 69u8, 84u8, 69u8],
        RequestMethod::Put => seq![80u8, 85u8, 84u8],
    }
}

/// The method a token names, matched case-sensitively.
pub open spec fn method_of(tok: Seq<u8>) -> Option<RequestMethod> {
    if tok == method_token(RequestMethod::Get) {
        Some(RequestMethod::Get)
    } else if tok == method_token(RequestMethod::Post) {
        Some(RequestMethod::Post)
    } else if tok == method_token(RequestMethod::Patch) {
        Some(RequestMethod::Patch)
    } else if tok == method_token(RequestMethod::Put) {
        Some(RequestMethod::Put)
    } else if tok == method_token(RequestMethod::Delete) {
        Some(RequestMethod::Delete)
    } else {
        None
    }
}

/// `i1` and `i2` are the only two spaces of `s`.
pub open spec fn two_spaces_at(s: Seq<u8>, i1: int, i2: int) -> bool {
    &&& 0 <= i1 < i2 < s.len()
    &&& s[i1] == SP
    &&& s[i2] == SP
    &&& forall|j: int| 0 <= j < s.len() && j != i1 && j != i2 ==> s[j] != SP
}

/// The split of a line on single spaces, when it yields exactly three tokens.
pub open spec fn start_line_tokens(s: Seq<u8>) -> Option<(Seq<u8>, Seq<u8>, Seq<u8>)> {
    if exists|i1: int, i2: int| two_spaces_at(s, i1, i2) {
        let (i1, i2) = choose|i1: int, i2: int| two_spaces_at(s, i1, i2);
        Some((s.subrange(0, i1), s.subrange(i1 + 1, i2), s.subrange(i2 + 1, s.len() as int)))
    } else {
        None
    }
}

pub open spec fn http_prefix() -> Seq<u8> {
    seq![72u8, 84u8, 84u8, 80u8, 47u8]
}

pub open spec fn https_prefix() -> Seq<u8> {
    seq![72u8, 84u8, 84u8, 80u8, 83u8, 47u8]
}

/// Length of the version token's scheme and its `/`, when the scheme is `HTTP` or `HTTPS`.
pub open spec fn scheme_end(v: Seq<u8>) -> Option<int> {
    if v.len() >= 5 && v.subrange(0, 5) == http_prefix() {
        Some(5)
    } else if v.len() >= 6 && v.subrange(0, 6) == https_prefix() {
        Some(6)
    } else {
        None
    }
}

/// The protocol number after the version token's `/` is `1.0` or `1.1`.
pub open spec fn is_supported_number(n: Seq<u8>) -> bool {
    n == seq![49u8, 46u8, 48u8] || n == seq![49u8, 46u8, 49u8]
}

/// The verdict on a version token: its scheme is checked before its number.
pub open spec fn check_version(v: Seq<u8>) -> Result<(), HttpError> {
    match scheme_end(v) {
        None => Err(HttpError::InvalidHttpSpecification),
        Some(k) => if is_supported_number(v.subrange(k, v.len() as int)) {
            Ok(())
        } else {
            Err(HttpError::InvalidHttpVersion)
        },
    }
}

/// What a request line (without its terminator) parses to.
pub open spec fn spec_request_line(s: Seq<u8>) -> Result<
    (RequestMethod, Seq<char>, Seq<char>),
    HttpError,
> {
    match start_line_tokens(s) {
        None => Err(HttpError::MalformedStartLine),
        Some((m, t, v)) => if !valid_utf8(m) {
            Err(HttpError::InvalidUtf8(Utf8Field::Method))
        } else if !valid_utf8(t) {
            Err(HttpError::InvalidUtf8(Utf8Field::Target))
        } else if !valid_utf8(v) {
            Err(HttpError::InvalidUtf8(Utf8Field::Version))
        } else {
            match method_of(m) {
                None => Err(HttpError::UnsupportedMethod),
                Some(meth) => match check_version(v) {
                    Err(e) => Err(e),
                    Ok(_) => Ok((meth, decode_utf8(t), decode_utf8(v))),
                },
            }
        },
    }
}

fn method_from_token(s: &[u8], lo: usize, hi: usize) -> (r: Option<RequestMethod>)
    requires
        lo <= hi <= s@.len(),
    ensures
        r == method_of(s@.subrange(lo as int, hi as int)),
{
    let get: [u8; 3] = [71u8, 69u8, 84u8];
    let post: [u8; 4] = [80u8, 79u8, 83u8, 84u8];
    let patch: [u8; 5] = [80u8, 65u8, 84u8, 67u8, 72u8];
    let put: [u8; 3] = [80u8, 85u8, 84u8];
    let delete: [u8; 6] = [68u8, 69u8, 76u8, 69u8, 84u8, 69u8];
    proof {
        assert(get@ =~= method_token(RequestMethod::Get));
        assert(post@ =~= method_token(RequestMethod::Post));
        assert(patch@ =~= method_token(RequestMethod::Patch));
        assert(put@ =~= method_token(RequestMethod::Put));
        assert(delete@ =~= method_token(RequestMethod::Delete));
    }
    if range_is(s, lo, hi, get.as_slice()) {
        Some(RequestMethod::Get)
    } else if range_is(s, lo, hi, post.as_slice()) {
        Some(RequestMethod::Post)
    } else if range_is(s, lo, hi, patch.as_slice()) {
        Some(RequestMethod::Patch)
    } else if range_is(s, lo, hi, put.as_slice()) {
        Some(RequestMethod::Put)
    } else if range_is(s, lo, hi, delete.as_slice()) {
        Some(RequestMethod::Delete)
    } else {
        None
    }
}

fn version_verdict(s: &[u8], lo: usize) -> (r: Result<(), HttpError>)
    requires
        lo <= s@.len(),
    ensures
        r == check_version(s@.subrange(lo as int, s@.len() as int)),
{
    let v = Ghost(s@.subrange(lo as int, s@.len() as int));
    let http: [u8; 5] = [72u8, 84u8, 84u8, 80u8, 47u8];
    let https: [u8; 6] = [72u8, 84u8, 84u8, 80u8, 83u8, 47u8];
    let one_zero: [u8; 3] = [49u8, 46u8, 48u8];
    let one_one: [u8; 3] = [49u8, 46u8, 49u8];
    proof {
        assert(http@ =~= http_prefix());
        assert(https@ =~= https_prefix());
        assert(one_zero@ =~= seq![49u8, 46u8, 48u8]);
        assert(one_one@ =~= seq![49u8, 46u8, 49u8]);
    }
    let n = s.len();
    let k: usize;
    if n - lo >= 5 && range_is(s, lo, lo + 5, http.as_slice()) {
        proof {
            assert(v@.subrange(0, 5) =~= s@.subrange(lo as int, lo + 5));
        }
        k = lo + 5;
    } else if n - lo >= 6 && range_is(s, lo, lo + 6, https.as_slice()) {
        proof {
            assert(v@.subrange(0, 5) =~= s@.subrange(lo as int, lo + 5));
            assert(v@.subrange(0, 6) =~= s@.subrange(lo as int, lo + 6));
            assert(s@.subrange(lo as int, lo + 5)[4] != http_prefix()[4]);
        }
        k = lo + 6;
    } else {
        proof {
            if v@.len() >= 5 {
                assert(v@.subrange(0, 5) =~= s@.subrange(lo as int, lo + 5));
            }
            if v@.len() >= 6 {
                assert(v@.subrange(0, 6) =~= s@.subrange(lo as int, lo + 6));
            }
        }
        return Err(HttpError::InvalidHttpSpecification);
    }
    proof {
        assert(v@.subrange(k - lo, v@.len() as int) =~= s@.subrange(k as int, n as int));
    }
    if range_is(s, k, n, one_zero.as_slice()) || range_is(s, k, n, one_one.as_slice()) {
        Ok(())
    } else {
        Err(HttpError::InvalidHttpVersion)
    }
}

/// Parses one request line, given without its line terminator.
///
/// On success returns the method, the target, the version and the number of
/// bytes consumed: the line and its two-byte terminator.
pub fn parse_request_line(b: &[u8]) -> (r: Result<(RequestMethod, String, String, usize), HttpError>)
    requires
        b@.len() + 2 <= usize::MAX,
    ensures
        match spec_request_line(b@) {
            Err(e) => r == Err::<(RequestMethod, String, String, usize), HttpError>(e),
            Ok((m, t, v)) => r matches Ok((rm, rt, rv, n)) && rm == m && rt@ == t && rv@ == v
                && n == b@.len() + 2,
        },
{
    let n = b.len();
    let mut count: usize = 0;
    let mut i1: usize = 0;
    let mut i2: usize = 0;
    let mut i: usize = 0;
    while i < n
        invariant
            n == b@.len(),
            i <= n,
            count <= 2,
            count >= 1 ==> i1 < i && b@[i1 as int] == SP && forall|j: int| 0 <= j < i1 ==> b@[j] != SP,
            count >= 2 ==> i1 < i2 < i && b@[i2 as int] == SP && forall|j: int| i1 < j < i2 ==> b@[j] != SP,
            count == 0 ==> forall|j: int| 0 <= j < i ==> b@[j] != SP,
            count == 1 ==> forall|j: int| i1 < j < i ==> b@[j] != SP,
            count == 2 ==> forall|j: int| i2 < j < i ==> b@[j] != SP,
        decreases n - i,
    {
        if b[i] == SP {
            if count == 2 {
                proof {
                    assert forall|x: int, y: int| !two_spaces_at(b@, x, y) by {
                        if two_spaces_at(b@, x, y) {
                            assert(x == i1 as int);
                            assert(y == i2 as int);
                        }
                    }
                }
                return Err(HttpError::MalformedStartLine);
            } else if count == 1 {
                i2 = i;
            } else {
                i1 = i;
            }
            count = count + 1;
        }
        i = i + 1;
    }
    if count != 2 {
        proof {
            assert forall|x: int, y: int| !two_spaces_at(b@, x, y) by {
                if two_spaces_at(b@, x, y) {
                    if count == 1 {
                        assert(x == i1 as int);
                    }
                }
            }
        }
        return Err(HttpError::MalformedStartLine);
    }
    proof {
        assert(two_spaces_at(b@, i1 as int, i2 as int));
        assert forall|x: int, y: int| two_spaces_at(b@, x, y) implies x == i1 && y == i2 by {
            if x < i1 {
                assert(b@[x] != SP);
            }
            if x > i1 {
                assert(x != i1);
            }
        }
    }
    let ghost toks = (
        b@.subrange(0, i1 as int),
        b@.subrange(i1 + 1, i2 as int),
        b@.subrange(i2 + 1, n as int),
    );
    assert(start_line_tokens(b@) == Some(toks));
    let method_s = utf8_to_string(slice_subrange(b, 0, i1));
    let target_s = utf8_to_string(slice_subrange(b, i1 + 1, i2));
    let version_s = utf8_to_string(slice_subrange(b, i2 + 1, n));
    if method_s.is_none() {
        return Err(HttpError::InvalidUtf8(Utf8Field::Method));
    }
    let target = match target_s {
        Some(t) => t,
        None => {
            return Err(HttpError::InvalidUtf8(Utf8Field::Target));
        },
    };
    let version = match version_s {
        Some(v) => v,
        None => {
            return Err(HttpError::InvalidUtf8(Utf8Field::Version));
        },
    };
    let method = match method_from_token(b, 0, i1) {
        Some(m) => m,
        None => {
            return Err(HttpError::UnsupportedMethod);
        },
    };
    match version_verdict(b, i2 + 1) {
        Ok(_) => Ok((method, target, version, n + 2)),
        Err(e) => Err(e),
    }
}

/// The request line that writes `m`, `t` and `v` separated by single spaces.
pub open spec fn request_line_of(m: RequestMethod, t: Seq<u8>, v: Seq<u8>) -> Seq<u8> {
    method_token(m) + seq![SP] + t + seq![SP] + v
}

/// A version token that this core accepts.
pub open spec fn is_supported_version(v: Seq<u8>) -> bool {
    ||| v == http_prefix() + seq![49u8, 46u8, 48u8]
    ||| v == http_prefix() + seq![49u8, 46u8, 49u8]
    ||| v == https_prefix() + seq![49u8, 46u8, 48u8]
    ||| v == https_prefix() + seq![49u8, 46u8, 49u8]
}

/// A well-formed request line parses back to the method, target and version it
/// was written from; `parse_request_line` reports it consumed with its terminator.
pub proof fn lemma_request_line_round_trip(m: RequestMethod, t: Seq<u8>, v: Seq<u8>)
    requires
        forall|j: int| 0 <= j < t.len() ==> t[j] != SP,
        valid_utf8(t),
        is_supported_version(v),
    ensures
        spec_request_line(request_line_of(m, t, v)) == Ok::<
            (RequestMethod, Seq<char>, Seq<char>),
            HttpError,
        >((m, decode_utf8(t), ascii_chars(v))),
{
    let s = request_line_of(m, t, v);
    let mt = method_token(m);
    let i1 = mt.len() as int;
    let i2 = i1 + 1 + t.len();
    assert(is_ascii_bytes(mt));
    assert(is_ascii_bytes(v));
    assert forall|j: int| 0 <= j < mt.len() implies mt[j] != SP by {}
    assert forall|j: int| 0 <= j < v.len() implies v[j] != SP by {}
    assert(s.subrange(0, i1) =~= mt);
    assert(s.subrange(i1 + 1, i2) =~= t);
    assert(s.subrange(i2 + 1, s.len() as int) =~= v);
    assert(two_spaces_at(s, i1, i2)) by {
        assert forall|j: int| 0 <= j < s.len() && j != i1 && j != i2 implies s[j] != SP by {
            if j < i1 {
                assert(s[j] == mt[j]);
            } else if j < i2 {
                assert(s[j] == t[j - i1 - 1]);
            } else {
                assert(s[j] == v[j - i2 - 1]);
            }
        }
    }
    assert forall|x: int, y: int| two_spaces_at(s, x, y) implies x == i1 && y == i2 by {
        if x != i1 && x != i2 {
            assert(s[x] != SP);
        }
        if y != i1 && y != i2 {
            assert(s[y] != SP);
        }
    }
    lemma_ascii_utf8(mt);
    lemma_ascii_utf8(v);
    assert(method_of(mt) == Some(m));
    let one_zero = seq![49u8, 46u8, 48u8];
    let one_one = seq![49u8, 46u8, 49u8];
    if v == http_prefix() + one_zero || v == http_prefix() + one_one {
        assert(v.subrange(0, 5) =~= http_prefix());
        if v == http_prefix() + one_zero {
            assert(v.subrange(5, v.len() as int) =~= one_zero);
        } else {
            assert(v.subrange(5, v.len() as int) =~= one_one);
        }
    } else {
        assert(v.subrange(0, 5) != http_prefix()) by {
            assert(v.subrange(0, 5)[4] == v[4]);
        }
        assert(v.subrange(0, 6) =~= https_prefix());
        if v == https_prefix() + one_zero {
            assert(v.subrange(6, v.len() as int) =~= one_zero);
        } else {
            assert(v.subrange(6, v.len() as int) =~= one_one);
        }
    }
}

} // verus!
