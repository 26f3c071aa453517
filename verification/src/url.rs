//! The address parser: decomposes a raw `http://host:port/path?query`
//! string into host, port, path and search part.

use vstd::prelude::*;

use crate::error::Error;
use crate::text::all_digits;
use crate::text::find_char_from;
use crate::text::is_digits;
use crate::text::lemma_index_of_first_is;
use crate::text::lemma_index_of_first_none;

verus! {

/// An address: the raw string it was built from and, once `parse` has
/// succeeded, the host, port, path and search part derived from it. The
/// derived fields are empty until `parse` fills all four in one step.
#[derive(Debug, PartialEq)]
pub struct Url {
    url: String,
    host: String,
    port: String,
    path: String,
    searchpart: String,
}

/// The mathematical content of a `Url`: its five fields as character
/// sequences.
pub ghost struct UrlView {
    pub url: Seq<char>,
    pub host: Seq<char>,
    pub port: Seq<char>,
    pub path: Seq<char>,
    pub searchpart: Seq<char>,
}

impl View for Url {
    type V = UrlView;

    closed spec fn view(&self) -> UrlView {
        UrlView {
            url: self.url@,
            host: self.host@,
            port: self.port@,
            path: self.path@,
            searchpart: self.searchpart@,
        }
    }
}

/// True when the raw address begins with the one supported scheme prefix.
pub open spec fn is_http_url(s: Seq<char>) -> bool {
    s.len() >= 7 && s.subrange(0, 7) == "http://"@
}

/// The raw address with the scheme prefix stripped once; unchanged when
/// the prefix is absent.
pub open spec fn scheme_rest(s: Seq<char>) -> Seq<char> {
    if is_http_url(s) {
        s.subrange(7, s.len() as int)
    } else {
        s
    }
}

/// The authority part, `host[:port]`: what stands before the first `/` of
/// the prefix-stripped address, or all of it when there is no `/`.
pub open spec fn authority_part(s: Seq<char>) -> Seq<char> {
    let rem = scheme_rest(s);
    match rem.index_of_first('/') {
        Some(i) => rem.subrange(0, i),
        None => rem,
    }
}

/// The resource part, `path[?query]`: what follows the first `/` of the
/// prefix-stripped address; empty when there is no `/`.
pub open spec fn resource_part(s: Seq<char>) -> Seq<char> {
    let rem = scheme_rest(s);
    match rem.index_of_first('/') {
        Some(i) => rem.subrange(i + 1, rem.len() as int),
        None => Seq::empty(),
    }
}

/// The host: the authority part up to its first `:`, or all of it when no
/// port is given.
pub open spec fn host_part(s: Seq<char>) -> Seq<char> {
    let a = authority_part(s);
    match a.index_of_first(':') {
        Some(i) => a.subrange(0, i),
        None => a,
    }
}

/// The port text: what follows the first `:` of the authority part, or
/// `80` when no port is given.
pub open spec fn port_part(s: Seq<char>) -> Seq<char> {
    let a = authority_part(s);
    match a.index_of_first(':') {
        Some(i) => a.subrange(i + 1, a.len() as int),
        None => "80"@,
    }
}

/// The path: the resource part up to its first `?`, or all of it when no
/// search part is given.
pub open spec fn path_part(s: Seq<char>) -> Seq<char> {
    let r = resource_part(s);
    match r.index_of_first('?') {
        Some(i) => r.subrange(0, i),
        None => r,
    }
}

/// The search part: what follows the first `?` of the resource part, or
/// empty when there is none.
pub open spec fn query_part(s: Seq<char>) -> Seq<char> {
    let r = resource_part(s);
    match r.index_of_first('?') {
        Some(i) => r.subrange(i + 1, r.len() as int),
        None => Seq::empty(),
    }
}

/// When `parse` succeeds: the scheme prefix is present, the port text is
/// numeric (the default `80` always is), and the host is non-empty.
pub open spec fn parse_ok(s: Seq<char>) -> bool {
    is_http_url(s) && is_digits(port_part(s)) && host_part(s).len() > 0
}

/// The error `parse` returns when it fails, checked in this order: scheme,
/// then port, then host.
pub open spec fn parse_err(s: Seq<char>) -> Error {
    if !is_http_url(s) {
        Error::UnsupportedScheme
    } else if !is_digits(port_part(s)) {
        Error::InvalidPort
    } else {
        Error::MissingHost
    }
}

/// The law of the address parser: for any raw address
/// `http://host:port/path?query` whose host is non-empty and free of `/`
/// and `:`, whose port text is numeric, and whose path is free of `?`,
/// parsing succeeds and derives exactly those four components. The
/// outcome is a function of the raw string alone, so repeated parses of
/// one address agree.
pub proof fn lemma_parse_components(
    host: Seq<char>,
    port: Seq<char>,
    path: Seq<char>,
    query: Seq<char>,
)
    requires
        host.len() > 0,
        forall|i: int| 0 <= i < host.len() ==> host[i] != '/' && host[i] != ':',
        is_digits(port),
        forall|i: int| 0 <= i < path.len() ==> path[i] != '?',
    ensures
        ({
            let raw = "http://"@ + host + seq![':'] + port + seq!['/'] + path + seq!['?'] + query;
            &&& parse_ok(raw)
            &&& host_part(raw) == host
            &&& port_part(raw) == port
            &&& path_part(raw) == path
            &&& query_part(raw) == query
        }),
{
    reveal_strlit("http://");
    let pre = "http://"@;
    assert(pre.len() == 7);
    let auth = host + seq![':'] + port;
    let res = path + seq!['?'] + query;
    let rest = auth + seq!['/'] + res;
    let raw = pre + host + seq![':'] + port + seq!['/'] + path + seq!['?'] + query;
    assert(raw =~= pre + rest);
    assert(raw.subrange(0, 7) =~= pre);
    assert(is_http_url(raw));
    let rem = raw.subrange(7, raw.len() as int);
    assert(rem =~= rest);
    assert(scheme_rest(raw) == rem);
    let p1 = auth.len() as int;
    assert(rest[p1] == '/');
    assert forall|j: int| 0 <= j < p1 implies rest[j] != '/' by {
        assert(rest[j] == auth[j]);
        if j < host.len() {
            assert(auth[j] == host[j]);
        } else if j == host.len() {
            assert(auth[j] == ':');
        } else {
            assert(auth[j] == port[j - host.len() - 1]);
            assert(crate::text::is_digit(port[j - host.len() - 1]));
        }
    }
    lemma_index_of_first_is(rem, '/', p1);
    assert(authority_part(raw) =~= auth);
    assert(resource_part(raw) =~= res);
    let p2 = host.len() as int;
    assert(auth[p2] == ':');
    assert forall|j: int| 0 <= j < p2 implies auth[j] != ':' by {
        assert(auth[j] == host[j]);
    }
    lemma_index_of_first_is(auth, ':', p2);
    assert(host_part(raw) =~= host);
    assert(port_part(raw) =~= port);
    let p3 = path.len() as int;
    assert(res[p3] == '?');
    assert forall|j: int| 0 <= j < p3 implies res[j] != '?' by {
        assert(res[j] == path[j]);
    }
    lemma_index_of_first_is(res, '?', p3);
    assert(path_part(raw) =~= path);
    assert(query_part(raw) =~= query);
}

/// True when `s` begins with the scheme prefix of an HTTP address.
fn http_prefix_check(s: &str) -> (r: bool)
    ensures
        r == is_http_url(s@),
{
    let p = "http://";
    proof {
        reveal_strlit("http://");
    }
    let n = s.unicode_len();
    if n < 7 {
        return false;
    }
    let mut i: usize = 0;
    while i < 7
        invariant
            0 <= i <= 7,
            n == s@.len(),
            n >= 7,
            p@ == "http://"@,
            p@.len() == 7,
            forall|j: int| 0 <= j < i ==> s@[j] == p@[j],
        decreases 7 - i,
    {
        if s.get_char(i) != p.get_char(i) {
            proof {
                assert(s@.subrange(0, 7)[i as int] == s@[i as int]);
            }
            return false;
        }
        i += 1;
    }
    proof {
        assert(s@.subrange(0, 7) =~= p@);
    }
    true
}

/// The prefix-stripped remainder of `s`.
fn strip_scheme(s: &str) -> (r: &str)
    ensures
        r@ == scheme_rest(s@),
{
    let n = s.unicode_len();
    if http_prefix_check(s) {
        s.substring_char(7, n)
    } else {
        s
    }
}

/// The authority part of `s` as its own string.
fn authority_str(s: &str) -> (r: String)
    ensures
        r@ == authority_part(s@),
{
    let rem = strip_scheme(s);
    match find_char_from(rem, 0, '/') {
        Some(i) => {
            proof {
                lemma_index_of_first_is(rem@, '/', i as int);
            }
            String::from_str(rem.substring_char(0, i))
        },
        None => {
            proof {
                lemma_index_of_first_none(rem@, '/');
            }
            String::from_str(rem)
        },
    }
}

/// The resource part of `s` as its own string.
fn resource_str(s: &str) -> (r: String)
    ensures
        r@ == resource_part(s@),
{
    let rem = strip_scheme(s);
    let m = rem.unicode_len();
    match find_char_from(rem, 0, '/') {
        Some(i) => {
            proof {
                lemma_index_of_first_is(rem@, '/', i as int);
            }
            String::from_str(rem.substring_char(i + 1, m))
        },
        None => {
            proof {
                lemma_index_of_first_none(rem@, '/');
            }
            String::new()
        },
    }
}

impl Url {
    /// A fresh address around `url`, with all derived fields still empty.
    pub fn new(url: String) -> (r: Self)
        ensures
            r@.url == url@,
            r@.host == Seq::<char>::empty(),
            r@.port == Seq::<char>::empty(),
            r@.path == Seq::<char>::empty(),
            r@.searchpart == Seq::<char>::empty(),
    {
        Self {
            url,
            host: String::new(),
            port: String::new(),
            path: String::new(),
            searchpart: String::new(),
        }
    }

    /// The host field as last derived by `parse`.
    pub fn get_host(&self) -> (r: String)
        ensures
            r@ == self@.host,
    {
        self.host.clone()
    }

    /// The port field as last derived by `parse`.
    pub fn get_port(&self) -> (r: String)
        ensures
            r@ == self@.port,
    {
        self.port.clone()
    }

    /// The path field as last derived by `parse`.
    pub fn get_path(&self) -> (r: String)
        ensures
            r@ == self@.path,
    {
        self.path.clone()
    }

    /// The search part field as last derived by `parse`.
    pub fn get_searchpart(&self) -> (r: String)
        ensures
            r@ == self@.searchpart,
    {
        self.searchpart.clone()
    }

    /// True when the raw address begins with the supported scheme prefix.
    pub fn is_http(&mut self) -> (r: bool)
        ensures
            *final(self) == *old(self),
            r == is_http_url(old(self)@.url),
    {
        http_prefix_check(self.url.as_str())
    }

    /// The host derived afresh from the raw address.
    pub fn extract_host(&mut self) -> (r: String)
        ensures
            *final(self) == *old(self),
            r@ == host_part(old(self)@.url),
    {
        let a = authority_str(self.url.as_str());
        let astr = a.as_str();
        match find_char_from(astr, 0, ':') {
            Some(i) => {
                proof {
                    lemma_index_of_first_is(a@, ':', i as int);
                }
                String::from_str(astr.substring_char(0, i))
            },
            None => {
                proof {
                    lemma_index_of_first_none(a@, ':');
                }
                a
            },
        }
    }

    /// The port text derived afresh from the raw address; `80` when the
    /// authority part names no port.
    pub fn extract_port(&mut self) -> (r: String)
        ensures
            *final(self) == *old(self),
            r@ == port_part(old(self)@.url),
    {
        let a = authority_str(self.url.as_str());
        let astr = a.as_str();
        let m = astr.unicode_len();
        match find_char_from(astr, 0, ':') {
            Some(i) => {
                proof {
                    lemma_index_of_first_is(a@, ':', i as int);
                }
                String::from_str(astr.substring_char(i + 1, m))
            },
            None => {
                proof {
                    lemma_index_of_first_none(a@, ':');
                }
                String::from_str("80")
            },
        }
    }

    /// The path derived afresh from the raw address.
    pub fn extract_path(&mut self) -> (r: String)
        ensures
            *final(self) == *old(self),
            r@ == path_part(old(self)@.url),
    {
        let res = resource_str(self.url.as_str());
        let rstr = res.as_str();
        match find_char_from(rstr, 0, '?') {
            Some(i) => {
                proof {
                    lemma_index_of_first_is(res@, '?', i as int);
                }
                String::from_str(rstr.substring_char(0, i))
            },
            None => {
                proof {
                    lemma_index_of_first_none(res@, '?');
                }
                res
            },
        }
    }

    /// The search part derived afresh from the raw address.
    pub fn extract_searchpart(&mut self) -> (r: String)
        ensures
            *final(self) == *old(self),
            r@ == query_part(old(self)@.url),
    {
        let res = resource_str(self.url.as_str());
        let rstr = res.as_str();
        let m = rstr.unicode_len();
        match find_char_from(rstr, 0, '?') {
            Some(i) => {
                proof {
                    lemma_index_of_first_is(res@, '?', i as int);
                }
                String::from_str(rstr.substring_char(i + 1, m))
            },
            None => {
                proof {
                    lemma_index_of_first_none(res@, '?');
                }
                String::new()
            },
        }
    }

    /// Derives host, port, path and search part from the raw address in
    /// one pass, filling the fields and returning the completed value.
    ///
    /// The outcome is a function of the raw string alone, and the raw
    /// string is never changed, so repeating the call returns the same
    /// result: parsing is idempotent.
    ///
    /// Policies, stated here because the wire format leaves them open: an
    /// address whose port text (after `:`) is empty or not all digits is
    /// rejected with `InvalidPort` rather than defaulted; an address with
    /// an empty host, such as `http:///path` or `http://:8080`, is
    /// rejected with `MissingHost`.
    pub fn parse(&mut self) -> (r: Result<Url, Error>)
        ensures
            final(self)@.url == old(self)@.url,
            match r {
                Ok(u) => {
                    &&& parse_ok(old(self)@.url)
                    &&& u == *final(self)
                    &&& u@.url == old(self)@.url
                    &&& u@.host == host_part(old(self)@.url)
                    &&& u@.port == port_part(old(self)@.url)
                    &&& u@.path == path_part(old(self)@.url)
                    &&& u@.searchpart == query_part(old(self)@.url)
                },
                Err(e) => {
                    &&& !parse_ok(old(self)@.url)
                    &&& e == parse_err(old(self)@.url)
                    &&& *final(self) == *old(self)
                },
            },
    {
        if !self.is_http() {
            return Err(Error::UnsupportedScheme);
        }
        let host = self.extract_host();
        let port = self.extract_port();
        let path = self.extract_path();
        let searchpart = self.extract_searchpart();
        if !all_digits(port.as_str()) {
            return Err(Error::InvalidPort);
        }
        if host.as_str().unicode_len() == 0 {
            return Err(Error::MissingHost);
        }
        self.host = host;
        self.port = port;
        self.path = path;
        self.searchpart = searchpart;
        Ok(self.clone())
    }
}

impl Clone for Url {
    /// An exact copy: every field of the clone equals the original's.
    fn clone(&self) -> (r: Self)
        ensures
            r == *self,
    {
        Url {
            url: self.url.clone(),
            host: self.host.clone(),
            port: self.port.clone(),
            path: self.path.clone(),
            searchpart: self.searchpart.clone(),
        }
    }
}

} // verus!
