//! The response parser: decomposes raw response text into status line,
//! headers and body. Both line-ending conventions (line feed alone, or
//! carriage return and line feed) are tolerated when splitting lines and
//! when finding the blank-line separator; the body is taken verbatim.

use vstd::prelude::*;

use crate::error::Error;
use crate::text::digits_value;
use crate::text::find_char_from;
use crate::text::is_digit;
use crate::text::is_digits;
use crate::text::lemma_digits_value_grows;
use crate::text::lemma_index_of_first_is;
use crate::text::lemma_index_of_first_none;
use crate::text::trim_spec;
use crate::text::trim_str;

verus! {

/// One header field: the name with its original casing, and the value
/// with surrounding blanks trimmed. Wire order and duplicates are kept by
/// the sequence that holds these.
#[derive(Debug)]
pub struct Header {
    name: String,
    value: String,
}

/// The mathematical content of a `Header`: name and value as character
/// sequences.
pub ghost struct HeaderView {
    pub name: Seq<char>,
    pub value: Seq<char>,
}

impl View for Header {
    type V = HeaderView;

    closed spec fn view(&self) -> HeaderView {
        HeaderView { name: self.name@, value: self.value@ }
    }
}

impl Header {
    /// A header field from its two parts.
    pub fn new(name: String, value: String) -> (r: Self)
        ensures
            r@.name == name@,
            r@.value == value@,
    {
        Self { name, value }
    }

    /// The field name, with its original casing.
    pub fn name(&self) -> (r: String)
        ensures
            r@ == self@.name,
    {
        self.name.clone()
    }

    /// The field value, trimmed of surrounding blanks at parse time.
    pub fn value(&self) -> (r: String)
        ensures
            r@ == self@.value,
    {
        self.value.clone()
    }
}

impl Clone for Header {
    /// An exact copy: both fields of the clone equal the original's.
    fn clone(&self) -> (r: Self)
        ensures
            r == *self,
    {
        Header { name: self.name.clone(), value: self.value.clone() }
    }
}

/// The views of a sequence of header fields, in the same order.
pub open spec fn header_views(hs: Seq<Header>) -> Seq<HeaderView> {
    Seq::new(hs.len(), |i: int| hs[i]@)
}

/// Where the line starting at `pos` ends: the index of its `'\n'`
/// terminator, or the end of the text for an unterminated final line.
pub open spec fn line_end(s: Seq<char>, pos: int) -> int {
    match s.subrange(pos, s.len() as int).index_of_first('\n') {
        Some(i) => pos + i,
        None => s.len() as int,
    }
}

/// Where the next line starts: one past the `'\n'` terminator, or the end
/// of the text.
pub open spec fn next_line_start(s: Seq<char>, pos: int) -> int {
    if line_end(s, pos) == s.len() {
        s.len() as int
    } else {
        line_end(s, pos) + 1
    }
}

/// The line starting at `pos`, without its terminator; a carriage return
/// standing right before the terminator is dropped too.
pub open spec fn line_at(s: Seq<char>, pos: int) -> Seq<char> {
    let e = line_end(s, pos);
    if pos < e && s[e - 1] == '\r' {
        s.subrange(pos, e - 1)
    } else {
        s.subrange(pos, e)
    }
}

/// The status line: the first line of the response.
pub open spec fn status_line_of(raw: Seq<char>) -> Seq<char> {
    line_at(raw, 0)
}

/// The first token of the status line: the version.
pub open spec fn version_of(line: Seq<char>) -> Seq<char> {
    match line.index_of_first(' ') {
        Some(i) => line.subrange(0, i),
        None => line,
    }
}

/// What follows the first space of the status line.
pub open spec fn after_version(line: Seq<char>) -> Seq<char> {
    match line.index_of_first(' ') {
        Some(i) => line.subrange(i + 1, line.len() as int),
        None => Seq::empty(),
    }
}

/// The second token of the status line: the status code text.
pub open spec fn status_text_of(line: Seq<char>) -> Seq<char> {
    let rest = after_version(line);
    match rest.index_of_first(' ') {
        Some(i) => rest.subrange(0, i),
        None => rest,
    }
}

/// What follows the second space of the status line: the reason phrase,
/// which may itself contain spaces and may be empty.
pub open spec fn reason_of(line: Seq<char>) -> Seq<char> {
    let rest = after_version(line);
    match rest.index_of_first(' ') {
        Some(i) => rest.subrange(i + 1, rest.len() as int),
        None => Seq::empty(),
    }
}

/// A status code text is valid when it is numeric and names a code in the
/// range 100 to 599 that a response can carry.
pub open spec fn valid_status(t: Seq<char>) -> bool {
    is_digits(t) && 100 <= digits_value(t) <= 599
}

/// The header field, if any, that one head line yields: the line is split
/// on its first `:` and the value trimmed; a line without `:` is skipped.
pub open spec fn line_header(l: Seq<char>) -> Seq<HeaderView> {
    match l.index_of_first(':') {
        Some(i) => seq![
            (HeaderView { name: l.subrange(0, i), value: trim_spec(l.subrange(i + 1, l.len() as int)) }),
        ],
        None => seq![],
    }
}

/// The skip policy: a head line without `:` yields no header field, so it
/// neither aborts the parse nor disturbs the fields around it.
pub proof fn lemma_line_without_colon_skipped(l: Seq<char>)
    requires
        forall|i: int| 0 <= i < l.len() ==> l[i] != ':',
    ensures
        line_header(l) == Seq::<HeaderView>::empty(),
{
    lemma_index_of_first_none(l, ':');
    assert(line_header(l) =~= Seq::<HeaderView>::empty());
}

/// A head line `name:value` whose name holds no `:` yields exactly one
/// field: the name as written, the value trimmed.
pub proof fn lemma_header_line(name: Seq<char>, value: Seq<char>)
    requires
        forall|i: int| 0 <= i < name.len() ==> name[i] != ':',
    ensures
        ({
            let l = name + seq![':'] + value;
            line_header(l) == seq![(HeaderView { name: name, value: trim_spec(value) })]
        }),
{
    let l = name + seq![':'] + value;
    let nl = name.len() as int;
    assert(l[nl] == ':');
    assert forall|j: int| 0 <= j < nl implies l[j] != ':' by {
        assert(l[j] == name[j]);
    }
    lemma_index_of_first_is(l, ':', nl);
    assert(l.subrange(0, nl) =~= name);
    assert(l.subrange(nl + 1, l.len() as int) =~= value);
    assert(line_header(l) =~= seq![(HeaderView { name: name, value: trim_spec(value) })]);
}

/// The header fields of the lines from `pos` up to the first blank line
/// or the end of the text, in wire order.
pub open spec fn headers_from(s: Seq<char>, pos: int) -> Seq<HeaderView>
    decreases s.len() - pos,
{
    if pos < 0 || pos >= s.len() {
        seq![]
    } else if line_at(s, pos).len() == 0 {
        seq![]
    } else {
        let next = next_line_start(s, pos);
        if pos < next <= s.len() {
            line_header(line_at(s, pos)) + headers_from(s, next)
        } else {
            seq![]
        }
    }
}

/// Where the body begins when the head is scanned from `pos`: right after
/// the first blank line, or the end of the text when there is none.
pub open spec fn body_start(s: Seq<char>, pos: int) -> int
    decreases s.len() - pos,
{
    if pos < 0 || pos >= s.len() {
        s.len() as int
    } else if line_at(s, pos).len() == 0 {
        next_line_start(s, pos)
    } else {
        let next = next_line_start(s, pos);
        if pos < next <= s.len() {
            body_start(s, next)
        } else {
            s.len() as int
        }
    }
}

/// The header fields of the whole response: those of the lines between
/// the status line and the blank-line separator.
pub open spec fn headers_of(raw: Seq<char>) -> Seq<HeaderView> {
    headers_from(raw, next_line_start(raw, 0))
}

/// The body of the whole response: everything after the blank-line
/// separator, verbatim; empty when there is no separator.
pub open spec fn body_of(raw: Seq<char>) -> Seq<char> {
    raw.subrange(body_start(raw, next_line_start(raw, 0)), raw.len() as int)
}

/// When parsing succeeds: the response is non-empty, its status line has
/// at least two whitespace-separated tokens, and the second is a valid
/// status code.
pub open spec fn response_ok(raw: Seq<char>) -> bool {
    &&& raw.len() > 0
    &&& status_line_of(raw).index_of_first(' ') is Some
    &&& valid_status(status_text_of(status_line_of(raw)))
}

/// The error returned when parsing fails, checked in this order: empty
/// response, malformed status line, invalid status code.
pub open spec fn response_err(raw: Seq<char>) -> Error {
    if raw.len() == 0 {
        Error::EmptyResponse
    } else if status_line_of(raw).index_of_first(' ') is None {
        Error::MalformedStatusLine
    } else {
        Error::InvalidStatusCode
    }
}

/// The law of the response parser: a response assembled from a version
/// free of spaces and line breaks, a numeric status code text in range, a
/// reason free of line breaks, and an arbitrary body — with an empty head
/// block — parses back to exactly those parts, the body verbatim.
pub proof fn lemma_response_components(
    version: Seq<char>,
    code: Seq<char>,
    reason: Seq<char>,
    body: Seq<char>,
)
    requires
        forall|i: int|
            0 <= i < version.len() ==> version[i] != ' ' && version[i] != '\r' && version[i]
                != '\n',
        is_digits(code),
        100 <= digits_value(code) <= 599,
        forall|i: int| 0 <= i < reason.len() ==> reason[i] != '\r' && reason[i] != '\n',
    ensures
        ({
            let raw = version + seq![' '] + code + seq![' '] + reason + seq!['\r', '\n', '\r', '\n']
                + body;
            &&& response_ok(raw)
            &&& version_of(status_line_of(raw)) == version
            &&& status_text_of(status_line_of(raw)) == code
            &&& reason_of(status_line_of(raw)) == reason
            &&& headers_of(raw) == Seq::<HeaderView>::empty()
            &&& body_of(raw) == body
        }),
{
    let sl = version + seq![' '] + code + seq![' '] + reason;
    let raw = version + seq![' '] + code + seq![' '] + reason + seq!['\r', '\n', '\r', '\n'] + body;
    let vl = version.len() as int;
    let cl = code.len() as int;
    let p = sl.len() as int;
    assert(raw =~= sl + seq!['\r', '\n', '\r', '\n'] + body);
    assert(raw[p] == '\r');
    assert(raw[p + 1] == '\n');
    assert(raw[p + 2] == '\r');
    assert(raw[p + 3] == '\n');
    assert forall|j: int| 0 <= j < p implies raw[j] == sl[j] && sl[j] != '\n' && sl[j] != '\r' by {
        if j < vl {
            assert(sl[j] == version[j]);
        } else if j == vl {
            assert(sl[j] == ' ');
        } else if j < vl + 1 + cl {
            assert(sl[j] == code[j - vl - 1]);
            assert(is_digit(code[j - vl - 1]));
        } else if j == vl + 1 + cl {
            assert(sl[j] == ' ');
        } else {
            assert(sl[j] == reason[j - vl - 2 - cl]);
        }
    }
    assert(raw.subrange(0, raw.len() as int) =~= raw);
    lemma_index_of_first_is(raw, '\n', p + 1);
    assert(line_end(raw, 0) == p + 1);
    assert(line_at(raw, 0) =~= sl);
    assert(next_line_start(raw, 0) == p + 2);
    assert(sl[vl] == ' ');
    assert forall|j: int| 0 <= j < vl implies sl[j] != ' ' by {
        assert(sl[j] == version[j]);
    }
    lemma_index_of_first_is(sl, ' ', vl);
    assert(version_of(sl) =~= version);
    let rest = sl.subrange(vl + 1, p);
    assert(rest =~= code + seq![' '] + reason);
    assert(after_version(sl) == rest);
    assert(rest[cl] == ' ');
    assert forall|j: int| 0 <= j < cl implies rest[j] != ' ' by {
        assert(rest[j] == code[j]);
        assert(is_digit(code[j]));
    }
    lemma_index_of_first_is(rest, ' ', cl);
    assert(status_text_of(sl) =~= code);
    assert(reason_of(sl) =~= reason);
    assert(status_line_of(raw) == line_at(raw, 0));
    assert(response_ok(raw));
    let sub2 = raw.subrange(p + 2, raw.len() as int);
    assert(sub2[0] == '\r');
    assert(sub2[1] == '\n');
    lemma_index_of_first_is(sub2, '\n', 1);
    assert(line_end(raw, p + 2) == p + 3);
    assert(line_at(raw, p + 2) =~= Seq::<char>::empty());
    assert(headers_of(raw) =~= Seq::<HeaderView>::empty());
    assert(next_line_start(raw, p + 2) == p + 4);
    assert(body_start(raw, p + 2) == p + 4);
    assert(body_of(raw) =~= body);
}

/// The line starting at `pos` (terminator stripped) and the start of the
/// next line.
fn read_line(s: &str, pos: usize) -> (r: (String, usize))
    requires
        pos < s@.len(),
    ensures
        r.0@ == line_at(s@, pos as int),
        r.1 as int == next_line_start(s@, pos as int),
        pos < r.1 <= s@.len(),
{
    let n = s.unicode_len();
    let ghost sub = s@.subrange(pos as int, n as int);
    let e: usize = match find_char_from(s, pos, '\n') {
        Some(i) => {
            proof {
                assert(sub[i - pos] == s@[i as int]);
                assert forall|k: int| 0 <= k < i - pos implies sub[k] != '\n' by {
                    assert(sub[k] == s@[pos + k]);
                }
                lemma_index_of_first_is(sub, '\n', i as int - pos as int);
            }
            i
        },
        None => {
            proof {
                assert forall|k: int| 0 <= k < sub.len() implies sub[k] != '\n' by {
                    assert(sub[k] == s@[pos + k]);
                }
                lemma_index_of_first_none(sub, '\n');
            }
            n
        },
    };
    let next = if e == n {
        n
    } else {
        e + 1
    };
    let ce = if e > pos && s.get_char(e - 1) == '\r' {
        e - 1
    } else {
        e
    };
    (String::from_str(s.substring_char(pos, ce)), next)
}

/// The status code named by `t`, when `t` is numeric and in range.
fn parse_status_code(t: &str) -> (r: Option<u32>)
    ensures
        match r {
            Some(v) => valid_status(t@) && v as nat == digits_value(t@),
            None => !valid_status(t@),
        },
{
    let n = t.unicode_len();
    if n == 0 {
        return None;
    }
    let mut acc: u32 = 0;
    let mut i: usize = 0;
    while i < n
        invariant
            0 <= i <= n,
            n == t@.len(),
            acc <= 599,
            acc as nat == digits_value(t@.subrange(0, i as int)),
            forall|j: int| 0 <= j < i ==> is_digit(#[trigger] t@[j]),
        decreases n - i,
    {
        let c = t.get_char(i);
        if !('0' <= c && c <= '9') {
            return None;
        }
        let d = c as u32 - '0' as u32;
        let next = acc * 10 + d;
        proof {
            let p = t@.subrange(0, i as int + 1);
            assert(p.drop_last() =~= t@.subrange(0, i as int));
            assert(p.last() == t@[i as int]);
            assert(digits_value(p) == acc * 10 + d);
        }
        if next > 599 {
            proof {
                lemma_digits_value_grows(t@, i as int + 1, 599);
            }
            return None;
        }
        acc = next;
        i += 1;
    }
    proof {
        assert(t@.subrange(0, n as int) =~= t@);
    }
    if acc < 100 {
        return None;
    }
    Some(acc)
}

/// A structured response: version, status code, reason phrase, headers in
/// wire order (duplicates kept), and the body verbatim.
#[derive(Debug)]
pub struct HttpResponse {
    version: String,
    status_code: u32,
    reason: String,
    headers: Vec<Header>,
    body: String,
}

/// The mathematical content of an `HttpResponse`.
pub ghost struct ResponseView {
    pub version: Seq<char>,
    pub status_code: nat,
    pub reason: Seq<char>,
    pub headers: Seq<HeaderView>,
    pub body: Seq<char>,
}

impl View for HttpResponse {
    type V = ResponseView;

    closed spec fn view(&self) -> ResponseView {
        ResponseView {
            version: self.version@,
            status_code: self.status_code as nat,
            reason: self.reason@,
            headers: header_views(self.headers@),
            body: self.body@,
        }
    }
}

/// An element-wise copy of a header sequence.
fn clone_headers(hs: &Vec<Header>) -> (r: Vec<Header>)
    ensures
        r@ == hs@,
{
    let mut r: Vec<Header> = Vec::new();
    let mut i: usize = 0;
    while i < hs.len()
        invariant
            0 <= i <= hs@.len(),
            r@ == hs@.subrange(0, i as int),
        decreases hs@.len() - i,
    {
        r.push(hs[i].clone());
        proof {
            assert(r@ =~= hs@.subrange(0, i as int + 1));
        }
        i += 1;
    }
    proof {
        assert(hs@.subrange(0, hs@.len() as int) =~= hs@);
    }
    r
}

impl HttpResponse {
    /// Parses raw response text in one atomic step: either every field of
    /// the result is derived from it, or an error names what was wrong.
    ///
    /// The status line must carry at least two whitespace-separated
    /// tokens, and its second token a numeric code in the range 100 to
    /// 599 (the range a response's status can lie in). Head lines without
    /// a `:` are skipped rather than failing the parse; the body is taken
    /// verbatim and never decoded.
    pub fn new(raw_response: String) -> (r: Result<Self, Error>)
        ensures
            match r {
                Ok(resp) => {
                    &&& response_ok(raw_response@)
                    &&& resp@.version == version_of(status_line_of(raw_response@))
                    &&& resp@.status_code == digits_value(
                        status_text_of(status_line_of(raw_response@)),
                    )
                    &&& resp@.reason == reason_of(status_line_of(raw_response@))
                    &&& resp@.headers == headers_of(raw_response@)
                    &&& resp@.body == body_of(raw_response@)
                },
                Err(e) => {
                    &&& !response_ok(raw_response@)
                    &&& e == response_err(raw_response@)
                },
            },
    {
        let s = raw_response.as_str();
        let n = s.unicode_len();
        if n == 0 {
            return Err(Error::EmptyResponse);
        }
        let (status_line, after_status) = read_line(s, 0);
        let sl = status_line.as_str();
        let slen = sl.unicode_len();
        let i: usize = match find_char_from(sl, 0, ' ') {
            None => {
                proof {
                    lemma_index_of_first_none(sl@, ' ');
                }
                return Err(Error::MalformedStatusLine);
            },
            Some(i) => {
                proof {
                    lemma_index_of_first_is(sl@, ' ', i as int);
                }
                i
            },
        };
        let version = String::from_str(sl.substring_char(0, i));
        let rest = sl.substring_char(i + 1, slen);
        let rlen = rest.unicode_len();
        let (status_text, reason) = match find_char_from(rest, 0, ' ') {
            Some(j) => {
                proof {
                    lemma_index_of_first_is(rest@, ' ', j as int);
                }
                (
                    String::from_str(rest.substring_char(0, j)),
                    String::from_str(rest.substring_char(j + 1, rlen)),
                )
            },
            None => {
                proof {
                    lemma_index_of_first_none(rest@, ' ');
                }
                (String::from_str(rest), String::new())
            },
        };
        let status_code: u32 = match parse_status_code(status_text.as_str()) {
            None => {
                return Err(Error::InvalidStatusCode);
            },
            Some(v) => v,
        };
        let mut headers: Vec<Header> = Vec::new();
        let mut pos: usize = after_status;
        let mut body_lo: usize = n;
        let mut done = false;
        let ghost start: int = after_status as int;
        while !done && pos < n
            invariant
                after_status <= pos <= n,
                n == s@.len(),
                start == after_status as int,
                body_lo <= n,
                !done ==> header_views(headers@) + headers_from(s@, pos as int) == headers_from(
                    s@,
                    start,
                ),
                !done ==> body_start(s@, start) == body_start(s@, pos as int),
                !done ==> body_lo == n,
                done ==> header_views(headers@) == headers_from(s@, start),
                done ==> body_lo as int == body_start(s@, start),
            decreases (if done { 0int } else { 1int }), n - pos,
        {
            let (line, next) = read_line(s, pos);
            if line.as_str().unicode_len() == 0 {
                proof {
                    assert(line_at(s@, pos as int).len() == 0);
                    assert(headers_from(s@, pos as int) =~= Seq::<HeaderView>::empty());
                    assert(header_views(headers@) =~= header_views(headers@) + Seq::<
                        HeaderView,
                    >::empty());
                    assert(body_start(s@, pos as int) == next_line_start(s@, pos as int));
                }
                body_lo = next;
                done = true;
            } else {
                let ll = line.as_str();
                let lm = ll.unicode_len();
                let ghost hs0 = headers@;
                let ghost lh = line_header(line_at(s@, pos as int));
                match find_char_from(ll, 0, ':') {
                    Some(ci) => {
                        proof {
                            lemma_index_of_first_is(ll@, ':', ci as int);
                        }
                        let name = String::from_str(ll.substring_char(0, ci));
                        let value = trim_str(ll.substring_char(ci + 1, lm));
                        let h = Header::new(name, value);
                        headers.push(h);
                        proof {
                            assert(header_views(headers@) =~= header_views(hs0) + seq![h@]);
                            assert(lh =~= seq![h@]);
                        }
                    },
                    None => {
                        proof {
                            lemma_index_of_first_none(ll@, ':');
                            assert(lh =~= Seq::<HeaderView>::empty());
                            assert(header_views(headers@) =~= header_views(hs0) + lh);
                        }
                    },
                }
                proof {
                    assert(line_at(s@, pos as int).len() != 0);
                    assert(headers_from(s@, pos as int) == lh + headers_from(s@, next as int));
                    assert(header_views(headers@) + headers_from(s@, next as int)
                        =~= header_views(hs0) + headers_from(s@, pos as int));
                    assert(body_start(s@, pos as int) == body_start(s@, next as int));
                }
                pos = next;
            }
        }
        proof {
            if !done {
                assert(pos == n);
                assert(headers_from(s@, pos as int) =~= Seq::<HeaderView>::empty());
                assert(header_views(headers@) =~= header_views(headers@) + Seq::<
                    HeaderView,
                >::empty());
                assert(body_start(s@, pos as int) == n);
            }
        }
        let body = String::from_str(s.substring_char(body_lo, n));
        Ok(HttpResponse { version, status_code, reason, headers, body })
    }

    /// The version token of the status line.
    pub fn version(&self) -> (r: String)
        ensures
            r@ == self@.version,
    {
        self.version.clone()
    }

    /// The numeric status code, between 100 and 599 once parsed.
    pub fn status_code(&self) -> (r: u32)
        ensures
            r as nat == self@.status_code,
    {
        self.status_code
    }

    /// The reason phrase; may be empty.
    pub fn reason(&self) -> (r: String)
        ensures
            r@ == self@.reason,
    {
        self.reason.clone()
    }

    /// The header fields, in wire order, duplicates kept.
    pub fn headers(&self) -> (r: Vec<Header>)
        ensures
            header_views(r@) == self@.headers,
    {
        clone_headers(&self.headers)
    }

    /// The body, verbatim.
    pub fn body(&self) -> (r: String)
        ensures
            r@ == self@.body,
    {
        self.body.clone()
    }
}

impl Clone for HttpResponse {
    /// An exact copy: every part of the view is preserved.
    fn clone(&self) -> (r: Self)
        ensures
            r@ == self@,
    {
        HttpResponse {
            version: self.version.clone(),
            status_code: self.status_code,
            reason: self.reason.clone(),
            headers: clone_headers(&self.headers),
            body: self.body.clone(),
        }
    }
}

} // verus!
