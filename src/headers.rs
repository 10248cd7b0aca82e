//! The header table and the field-line parser.
use vstd::prelude::*;
use vstd::slice::slice_subrange;
use vstd::string::*;
use vstd::utf8::{valid_utf8, decode_utf8};
use crate::error::{HttpError, Utf8Field};
use crate::wire::{
    CR, LF, SP, HTAB, crlf_from, find_crlf, lemma_crlf_from, lemma_crlf_from_at, utf8_to_string,
    bytes_eq, index_of, lemma_index_of, lemma_index_of_at,
};

verus! {

pub const COLON: u8 = 58;

/// The model of a header table: `(name, value)` pairs in order of first arrival.
pub type FieldTable = Seq<(Seq<u8>, Seq<char>)>;

/// A token character of a field name: a letter, a digit or one of ``!#$%&'*+-.^_`|~``.
pub open spec fn is_tchar(b: u8) -> bool {
    ||| (97 <= b <= 122)
    ||| (65 <= b <= 90)
    ||| (48 <= b <= 57)
    ||| b == 33 || b == 35 || b == 36 || b == 37 || b == 38 || b == 39 || b == 42
    ||| b == 43 || b == 45 || b == 46 || b == 94 || b == 95 || b == 96 || b == 124 || b == 126
}

pub open spec fn is_token(s: Seq<u8>) -> bool {
    s.len() > 0 && forall|j: int| 0 <= j < s.len() ==> is_tchar(#[trigger] s[j])
}

pub open spec fn lower_byte(b: u8) -> u8 {
    if 65 <= b <= 90 {
        (b + 32) as u8
    } else {
        b
    }
}

/// ASCII lowercasing; other bytes are kept.
pub open spec fn ascii_lower(s: Seq<u8>) -> Seq<u8> {
    s.map_values(|b: u8| lower_byte(b))
}

/// Well-formed names are lowercase tokens, each stored once.
pub open spec fn table_wf(t: FieldTable) -> bool {
    &&& forall|i: int| 0 <= i < t.len() ==> is_token(#[trigger] t[i].0) && ascii_lower(t[i].0) == t[i].0
    &&& forall|i: int, j: int| 0 <= i < j < t.len() ==> #[trigger] t[i].0 != #[trigger] t[j].0
}

pub open spec fn has_field(t: FieldTable, k: Seq<u8>) -> bool {
    exists|i: int| 0 <= i < t.len() && t[i].0 == k
}

pub open spec fn field_index(t: FieldTable, k: Seq<u8>) -> int {
    choose|i: int| 0 <= i < t.len() && t[i].0 == k
}

/// The value stored under name `k`.
pub open spec fn lookup(t: FieldTable, k: Seq<u8>) -> Option<Seq<char>> {
    if has_field(t, k) {
        Some(t[field_index(t, k)].1)
    } else {
        None
    }
}

pub open spec fn list_separator() -> Seq<char> {
    seq![',', ' ']
}

/// Adds a field: a repeated name has the new value joined to the old one with `", "`.
pub open spec fn fold_field(t: FieldTable, k: Seq<u8>, v: Seq<char>) -> FieldTable {
    if has_field(t, k) {
        let i = field_index(t, k);
        t.update(i, (k, t[i].1 + list_separator() + v))
    } else {
        t.push((k, v))
    }
}

proof fn lemma_index_unique(t: FieldTable, k: Seq<u8>, i: int)
    requires
        table_wf(t),
        0 <= i < t.len(),
        t[i].0 == k,
    ensures
        has_field(t, k),
        field_index(t, k) == i,
{
    let j = field_index(t, k);
    if j != i {
        if j < i {
            assert(t[j].0 != t[i].0);
        } else {
            assert(t[i].0 != t[j].0);
        }
    }
}

/// Folding a field keeps the table well formed, and changes only the entry of its name.
pub proof fn lemma_fold_field(t: FieldTable, k: Seq<u8>, v: Seq<char>)
    requires
        table_wf(t),
        is_token(k),
        ascii_lower(k) == k,
    ensures
        table_wf(fold_field(t, k, v)),
        lookup(fold_field(t, k, v), k) == Some(
            match lookup(t, k) {
                Some(old) => old + list_separator() + v,
                None => v,
            },
        ),
        forall|k2: Seq<u8>| k2 != k ==> lookup(fold_field(t, k, v), k2) == lookup(t, k2),
{
    let r = fold_field(t, k, v);
    if has_field(t, k) {
        let i = field_index(t, k);
        lemma_index_unique(t, k, i);
        lemma_index_unique(r, k, i);
        assert forall|k2: Seq<u8>| k2 != k implies lookup(r, k2) == lookup(t, k2) by {
            if has_field(t, k2) {
                let j = field_index(t, k2);
                lemma_index_unique(r, k2, j);
            }
            if has_field(r, k2) {
                let j = field_index(r, k2);
                lemma_index_unique(t, k2, j);
            }
        }
    } else {
        let n = t.len() as int;
        assert(r[n].0 == k);
        lemma_index_unique(r, k, n);
        assert forall|k2: Seq<u8>| k2 != k implies lookup(r, k2) == lookup(t, k2) by {
            if has_field(t, k2) {
                let j = field_index(t, k2);
                lemma_index_unique(r, k2, j);
            }
            if has_field(r, k2) {
                let j = field_index(r, k2);
                lemma_index_unique(t, k2, j);
            }
        }
    }
}

/// Two field lines with one name fold into one value, joined with `", "` in
/// order of arrival.
pub proof fn lemma_repeated_field_folds(t: FieldTable, k: Seq<u8>, v1: Seq<char>, v2: Seq<char>)
    requires
        table_wf(t),
        is_token(k),
        ascii_lower(k) == k,
        !has_field(t, k),
    ensures
        lookup(fold_field(fold_field(t, k, v1), k, v2), k) == Some(v1 + list_separator() + v2),
{
    lemma_fold_field(t, k, v1);
    lemma_fold_field(fold_field(t, k, v1), k, v2);
}

/// A case-insensitive header table whose names are stored lowercased.
#[derive(Debug, Clone)]
pub struct Headers {
    fields: Vec<(Vec<u8>, String)>,
}

pub open spec fn field_view(p: (Vec<u8>, String)) -> (Seq<u8>, Seq<char>) {
    (p.0@, p.1@)
}

impl View for Headers {
    type V = FieldTable;

    closed spec fn view(&self) -> FieldTable {
        self.fields@.map_values(|p: (Vec<u8>, String)| field_view(p))
    }
}

impl Headers {
    pub open spec fn wf(&self) -> bool {
        table_wf(self@)
    }

    /// An empty table.
    pub fn new() -> (r: Headers)
        ensures
            r@ == Seq::<(Seq<u8>, Seq<char>)>::empty(),
            r.wf(),
    {
        let r = Headers { fields: Vec::new() };
        assert(r@ =~= Seq::<(Seq<u8>, Seq<char>)>::empty());
        r
    }

    fn position(&self, k: &[u8]) -> (r: Option<usize>)
        requires
            self.wf(),
        ensures
            r is Some <==> has_field(self@, k@),
            r matches Some(i) ==> i < self@.len() && field_index(self@, k@) == i,
    {
        let mut i: usize = 0;
        while i < self.fields.len()
            invariant
                i <= self.fields@.len(),
                self.wf(),
                forall|j: int| 0 <= j < i ==> self@[j].0 != k@,
            decreases self.fields@.len() - i,
        {
            if bytes_eq(self.fields[i].0.as_slice(), k) {
                proof {
                    assert(self@[i as int].0 == k@);
                    lemma_index_unique(self@, k@, i as int);
                }
                return Some(i);
            }
            i = i + 1;
        }
        None
    }

    /// The value stored under `k`, whose ASCII letters are matched case-insensitively.
    pub fn get(&self, k: &str) -> (r: Option<&str>)
        requires
            self.wf(),
        ensures
            r is Some <==> lookup(self@, ascii_lower(k.spec_bytes())) is Some,
            r matches Some(s) ==> lookup(self@, ascii_lower(k.spec_bytes())) == Some(s@),
    {
        let lower = lowercase(k.as_bytes());
        match self.position(lower.as_slice()) {
            Some(i) => Some(self.fields[i].1.as_str()),
            None => None,
        }
    }

    /// The value stored under the name `k`, matched exactly.
    pub(crate) fn get_exact(&self, k: &[u8]) -> (r: Option<&str>)
        requires
            self.wf(),
        ensures
            r is Some <==> lookup(self@, k@) is Some,
            r matches Some(s) ==> lookup(self@, k@) == Some(s@),
    {
        match self.position(k) {
            Some(i) => Some(self.fields[i].1.as_str()),
            None => None,
        }
    }

    /// Adds a field line whose name is a token: the name is stored lowercased,
    /// and a repeated name has the new value folded into the old one.
    pub fn set(&mut self, k: &[u8], v: &str)
        requires
            old(self).wf(),
            is_token(k@),
        ensures
            final(self).wf(),
            final(self)@ == fold_field(old(self)@, ascii_lower(k@), v@),
    {
        let lower = lowercase(k);
        proof {
            assert(is_token(lower@)) by {
                assert forall|j: int| 0 <= j < lower@.len() implies is_tchar(#[trigger] lower@[j]) by {
                    assert(is_tchar(k@[j]));
                }
            }
            assert(ascii_lower(lower@) =~= lower@);
            lemma_fold_field(self@, lower@, v@);
        }
        let ghost t = self@;
        match self.position(lower.as_slice()) {
            Some(i) => {
                let mut value = self.fields[i].1.clone();
                proof {
                    reveal_strlit(", ");
                    assert(", "@ =~= list_separator());
                    assert(value@ == t[i as int].1);
                }
                value.append(", ");
                value.append(v);
                self.fields.set(i, (lower, value));
                assert(self@ =~= fold_field(t, lower@, v@));
            },
            None => {
                let value = v.to_owned();
                self.fields.push((lower, value));
                assert(self@ =~= fold_field(t, lower@, v@));
            },
        }
    }

    /// The fields, in order of first arrival.
    pub fn iter(&self) -> (r: &Vec<(Vec<u8>, String)>)
        ensures
            r@.map_values(|p: (Vec<u8>, String)| field_view(p)) == self@,
    {
        &self.fields
    }
}

pub(crate) fn lowercase(s: &[u8]) -> (r: Vec<u8>)
    ensures
        r@ == ascii_lower(s@),
{
    let mut r: Vec<u8> = Vec::new();
    let mut i: usize = 0;
    while i < s.len()
        invariant
            i <= s@.len(),
            r@ == ascii_lower(s@.subrange(0, i as int)),
        decreases s@.len() - i,
    {
        let b = s[i];
        let l = if 65 <= b && b <= 90 { b + 32 } else { b };
        r.push(l);
        i = i + 1;
        assert(ascii_lower(s@.subrange(0, i as int)) =~= ascii_lower(s@.subrange(0, i - 1)).push(l));
    }
    assert(s@.subrange(0, i as int) =~= s@);
    r
}

/// Optional whitespace: a space or a horizontal tab.
pub open spec fn is_ows(b: u8) -> bool {
    b == SP || b == HTAB
}

pub open spec fn trim_start(s: Seq<u8>) -> Seq<u8>
    decreases s.len(),
{
    if s.len() > 0 && is_ows(s[0]) {
        trim_start(s.drop_first())
    } else {
        s
    }
}

pub open spec fn trim_end(s: Seq<u8>) -> Seq<u8>
    decreases s.len(),
{
    if s.len() > 0 && is_ows(s.last()) {
        trim_end(s.drop_last())
    } else {
        s
    }
}

/// `s` without leading and trailing optional whitespace.
pub open spec fn trim_ows(s: Seq<u8>) -> Seq<u8> {
    trim_end(trim_start(s))
}

/// What one field line (without its terminator) parses to: a lowercased name and a trimmed value.
pub open spec fn spec_field_line(line: Seq<u8>) -> Result<(Seq<u8>, Seq<char>), HttpError> {
    match index_of(line, COLON, 0) {
        None => Err(HttpError::InvalidFieldLine),
        Some(c) => {
            let name = line.subrange(0, c);
            let value = trim_ows(line.subrange(c + 1, line.len() as int));
            if !is_token(name) {
                Err(HttpError::InvalidFieldLine)
            } else if !valid_utf8(value) {
                Err(HttpError::InvalidUtf8(Utf8Field::FieldValue))
            } else {
                Ok((ascii_lower(name), decode_utf8(value)))
            }
        },
    }
}

/// The field lines of `s` from `pos` on, folded into `t`: the table, the position
/// after the last line read, and whether the blank line that ends the section was read.
pub open spec fn spec_fields_from(s: Seq<u8>, pos: int, t: FieldTable) -> Result<
    (FieldTable, int, bool),
    HttpError,
>
    decreases s.len() - pos,
    via spec_fields_from_decreases
{
    if pos < 0 || pos > s.len() {
        Ok((t, pos, false))
    } else {
        match crlf_from(s, pos) {
            None => Ok((t, pos, false)),
            Some(k) => if k == 0 {
                Ok((t, pos + 2, true))
            } else {
                match spec_field_line(s.subrange(pos, pos + k)) {
                    Err(e) => Err(e),
                    Ok((n, v)) => spec_fields_from(s, pos + k + 2, fold_field(t, n, v)),
                }
            },
        }
    }
}

#[via_fn]
proof fn spec_fields_from_decreases(s: Seq<u8>, pos: int, t: FieldTable) {
    if 0 <= pos {
        lemma_crlf_from(s, pos);
    }
}

/// A field line whose name holds a `/` is refused.
pub proof fn lemma_slash_in_name_rejected(line: Seq<u8>, j: int)
    requires
        0 <= j < line.len(),
        line[j] == 47,
        forall|i: int| 0 <= i < j ==> line[i] != COLON,
    ensures
        spec_field_line(line) == Err::<(Seq<u8>, Seq<char>), HttpError>(HttpError::InvalidFieldLine),
{
    lemma_index_of(line, COLON, 0);
    if let Some(c) = index_of(line, COLON, 0) {
        assert(line.subrange(0, c)[j] == 47);
    }
}

/// The field line `name: value`.
pub open spec fn field_line_of(name: Seq<u8>, value: Seq<u8>) -> Seq<u8> {
    name + seq![COLON, SP] + value
}

/// A value that a field line can carry as written: valid UTF-8, no CR, and no
/// optional whitespace at either end.
pub open spec fn is_plain_value(v: Seq<u8>) -> bool {
    &&& v.len() > 0
    &&& valid_utf8(v)
    &&& forall|j: int| 0 <= j < v.len() ==> v[j] != CR
    &&& !is_ows(v[0])
    &&& !is_ows(v.last())
}

proof fn lemma_field_line_of(name: Seq<u8>, value: Seq<u8>)
    requires
        is_token(name),
        is_plain_value(value),
    ensures
        spec_field_line(field_line_of(name, value)) == Ok::<(Seq<u8>, Seq<char>), HttpError>(
            (ascii_lower(name), decode_utf8(value)),
        ),
        forall|j: int| 0 <= j < field_line_of(name, value).len() ==> field_line_of(name, value)[j] != CR,
{
    let line = field_line_of(name, value);
    let c = name.len() as int;
    assert forall|j: int| 0 <= j < c implies line[j] != COLON by {
        assert(line[j] == name[j]);
        assert(is_tchar(name[j]));
    }
    lemma_index_of_at(line, COLON, 0, c);
    assert(line.subrange(0, c) =~= name);
    let raw = line.subrange(c + 1, line.len() as int);
    assert(raw.drop_first() =~= value);
    assert(trim_start(raw) == trim_start(value));
    assert(trim_ows(raw) == value);
    assert forall|j: int| 0 <= j < line.len() implies line[j] != CR by {
        if j < c {
            assert(is_tchar(name[j]));
        } else if j >= c + 2 {
            assert(line[j] == value[j - c - 2]);
        }
    }
}

proof fn lemma_no_crlf_before(s: Seq<u8>, start: int, k: int)
    requires
        0 <= start,
        0 <= k,
        start + k + 1 < s.len(),
        forall|j: int| start <= j < start + k ==> s[j] != CR,
        s[start + k] == CR,
        s[start + k + 1] == LF,
    ensures
        crlf_from(s, start) == Some(k),
{
    lemma_crlf_from_at(s, start, k);
}

/// Two field lines whose names differ only in ASCII case, followed by the blank
/// line, parse to a table with one entry: the lowercased name, and both values
/// joined with `", "` in order of arrival.
pub proof fn lemma_field_section_folds(n1: Seq<u8>, v1: Seq<u8>, n2: Seq<u8>, v2: Seq<u8>)
    requires
        is_token(n1),
        is_token(n2),
        ascii_lower(n1) == ascii_lower(n2),
        is_plain_value(v1),
        is_plain_value(v2),
    ensures
        ({
            let l1 = field_line_of(n1, v1);
            let l2 = field_line_of(n2, v2);
            let s = l1 + seq![CR, LF] + l2 + seq![CR, LF] + seq![CR, LF];
            spec_field_section(s) == Ok::<(FieldTable, int, bool), HttpError>(
                (
                    seq![(ascii_lower(n1), decode_utf8(v1) + list_separator() + decode_utf8(v2))],
                    s.len() as int,
                    true,
                ),
            )
        }),
{
    let l1 = field_line_of(n1, v1);
    let l2 = field_line_of(n2, v2);
    let s = l1 + seq![CR, LF] + l2 + seq![CR, LF] + seq![CR, LF];
    lemma_field_line_of(n1, v1);
    lemma_field_line_of(n2, v2);
    let p1: int = l1.len() as int + 2;
    let p2: int = p1 + l2.len() + 2;
    assert forall|j: int| 0 <= j < l1.len() implies s[j] != CR by {
        assert(s[j] == l1[j]);
    }
    lemma_no_crlf_before(s, 0, l1.len() as int);
    assert(s.subrange(0, l1.len() as int) =~= l1);
    assert forall|j: int| p1 <= j < p1 + l2.len() implies s[j] != CR by {
        assert(s[j] == l2[j - p1]);
    }
    lemma_no_crlf_before(s, p1, l2.len() as int);
    assert(s.subrange(p1, p1 + l2.len()) =~= l2);
    lemma_crlf_from_at(s, p2, 0);
    let ln = ascii_lower(n1);
    let t0 = Seq::<(Seq<u8>, Seq<char>)>::empty();
    let t1 = fold_field(t0, ln, decode_utf8(v1));
    assert(!has_field(t0, ln));
    assert(t1 == seq![(ln, decode_utf8(v1))]);
    assert(t1[0].0 == ln);
    assert(has_field(t1, ln));
    let t2 = fold_field(t1, ln, decode_utf8(v2));
    assert(field_index(t1, ln) == 0);
    assert(t2 =~= seq![(ln, decode_utf8(v1) + list_separator() + decode_utf8(v2))]);
    assert(spec_fields_from(s, p2, t2) == Ok::<(FieldTable, int, bool), HttpError>((t2, p2 + 2, true)));
    assert(spec_fields_from(s, p1, t1) == spec_fields_from(s, p2, t2));
    assert(spec_fields_from(s, 0, t0) == spec_fields_from(s, p1, t1));
}

/// The position the field lines stop at lies between the start and the end of the input.
pub proof fn lemma_fields_from_bounds(s: Seq<u8>, pos: int, t: FieldTable)
    requires
        0 <= pos <= s.len(),
    ensures
        spec_fields_from(s, pos, t) matches Ok((_, n, _)) ==> pos <= n <= s.len(),
    decreases s.len() - pos,
{
    lemma_crlf_from(s, pos);
    if let Some(k) = crlf_from(s, pos) {
        if k != 0 {
            if let Ok((n, v)) = spec_field_line(s.subrange(pos, pos + k)) {
                lemma_fields_from_bounds(s, pos + k + 2, fold_field(t, n, v));
            }
        }
    }
}

/// The header section at the start of `s`.
pub open spec fn spec_field_section(s: Seq<u8>) -> Result<(FieldTable, int, bool), HttpError> {
    spec_fields_from(s, 0, Seq::empty())
}

/// Whether `byte` may stand in a field name.
pub fn is_token_char(byte: &u8) -> (r: bool)
    ensures
        r == is_tchar(*byte),
{
    let b = *byte;
    (97 <= b && b <= 122) || (65 <= b && b <= 90) || (48 <= b && b <= 57) || b == 33 || b == 35
        || b == 36 || b == 37 || b == 38 || b == 39 || b == 42 || b == 43 || b == 45 || b == 46
        || b == 94 || b == 95 || b == 96 || b == 124 || b == 126
}

/// Parses one field line; returns the length of its name and its trimmed value.
fn parse_field_line(line: &[u8]) -> (r: Result<(usize, String), HttpError>)
    ensures
        match spec_field_line(line@) {
            Err(e) => r == Err::<(usize, String), HttpError>(e),
            Ok((n, v)) => r matches Ok((c, s)) && c <= line@.len() && is_token(
                line@.subrange(0, c as int),
            ) && ascii_lower(line@.subrange(0, c as int)) == n && s@ == v,
        },
{
    let n = line.len();
    proof {
        lemma_index_of(line@, COLON, 0);
    }
    let mut c: usize = 0;
    while c < n && line[c] != COLON
        invariant
            c <= n == line@.len(),
            forall|j: int| 0 <= j < c ==> line@[j] != COLON,
        decreases n - c,
    {
        c = c + 1;
    }
    if c == n {
        return Err(HttpError::InvalidFieldLine);
    }
    assert(index_of(line@, COLON, 0) == Some(c as int));
    if c == 0 {
        assert(!is_token(line@.subrange(0, 0)));
        return Err(HttpError::InvalidFieldLine);
    }
    let mut i: usize = 0;
    while i < c
        invariant
            c <= n == line@.len(),
            i <= c,
            index_of(line@, COLON, 0) == Some(c as int),
            forall|j: int| 0 <= j < i ==> is_tchar(#[trigger] line@[j]),
        decreases c - i,
    {
        if !is_token_char(&line[i]) {
            proof {
                assert(!is_tchar(line@.subrange(0, c as int)[i as int]));
            }
            return Err(HttpError::InvalidFieldLine);
        }
        i = i + 1;
    }
    assert(is_token(line@.subrange(0, c as int)));
    let ghost raw = line@.subrange(c + 1, n as int);
    let mut lo: usize = c + 1;
    while lo < n && (line[lo] == SP || line[lo] == HTAB)
        invariant
            c + 1 <= lo <= n == line@.len(),
            index_of(line@, COLON, 0) == Some(c as int),
            is_token(line@.subrange(0, c as int)),
            raw == line@.subrange(c + 1, n as int),
            trim_start(raw) == trim_start(line@.subrange(lo as int, n as int)),
        decreases n - lo,
    {
        assert(line@.subrange(lo as int, n as int).drop_first() =~= line@.subrange(lo + 1, n as int));
        lo = lo + 1;
    }
    assert(trim_start(raw) == line@.subrange(lo as int, n as int));
    let mut hi: usize = n;
    while hi > lo && (line[hi - 1] == SP || line[hi - 1] == HTAB)
        invariant
            c + 1 <= lo <= hi <= n == line@.len(),
            index_of(line@, COLON, 0) == Some(c as int),
            is_token(line@.subrange(0, c as int)),
            raw == line@.subrange(c + 1, n as int),
            trim_ows(raw) == trim_end(line@.subrange(lo as int, hi as int)),
        decreases hi - lo,
    {
        assert(line@.subrange(lo as int, hi as int).drop_last() =~= line@.subrange(lo as int, hi - 1));
        hi = hi - 1;
    }
    assert(trim_ows(raw) == line@.subrange(lo as int, hi as int));
    match utf8_to_string(slice_subrange(line, lo, hi)) {
        Some(v) => Ok((c, v)),
        None => Err(HttpError::InvalidUtf8(Utf8Field::FieldValue)),
    }
}

/// Parses the header section at the start of `bytes`.
///
/// Returns the table, the bytes consumed and whether the blank line that ends
/// the section was reached; where the input ends before it, the lines read so
/// far are returned with `false`.
pub fn parse_field_section(bytes: &[u8]) -> (r: Result<(Headers, usize, bool), HttpError>)
    requires
        bytes@.len() + 2 <= usize::MAX,
    ensures
        match spec_field_section(bytes@) {
            Err(e) => r == Err::<(Headers, usize, bool), HttpError>(e),
            Ok((t, n, done)) => r matches Ok((h, rn, rdone)) && h.wf() && h@ == t && rn == n
                && rdone == done,
        },
        r matches Ok((_, n, _)) ==> n <= bytes@.len(),
{
    let mut h = Headers::new();
    let mut pos: usize = 0;
    loop
        invariant
            pos <= bytes@.len(),
            bytes@.len() + 2 <= usize::MAX,
            h.wf(),
            spec_field_section(bytes@) == spec_fields_from(bytes@, pos as int, h@),
        decreases bytes@.len() - pos,
    {
        match find_crlf(bytes, pos) {
            None => {
                return Ok((h, pos, false));
            },
            Some(k) => {
                if k == 0 {
                    return Ok((h, pos + 2, true));
                }
                let line = slice_subrange(bytes, pos, pos + k);
                match parse_field_line(line) {
                    Err(e) => {
                        return Err(e);
                    },
                    Ok((c, v)) => {
                        let name = slice_subrange(line, 0, c);
                        h.set(name, v.as_str());
                        pos = pos + k + 2;
                    },
                }
            },
        }
    }
}

/// Parses the header section at the start of `bytes`: the table and the bytes consumed.
pub fn parse_field_lines(bytes: &[u8]) -> (r: Result<(Headers, usize), HttpError>)
    requires
        bytes@.len() + 2 <= usize::MAX,
    ensures
        match spec_field_section(bytes@) {
            Err(e) => r == Err::<(Headers, usize), HttpError>(e),
            Ok((t, n, _)) => r matches Ok((h, rn)) && h.wf() && h@ == t && rn == n,
        },
{
    match parse_field_section(bytes) {
        Ok((h, n, _)) => Ok((h, n)),
        Err(e) => Err(e),
    }
}

} // verus!
