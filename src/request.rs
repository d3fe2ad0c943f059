use vstd::prelude::*;

use crate::cli::pairs_view;
use crate::json::{compact_text_of, json_of_text, json_set, parse_json, to_compact_text, Json, JsonV};
use crate::ExtraArgs;

verus! {

/// The HTTP method of a request.
#[derive(Debug, Clone, Copy, PartialEq, Eq, Structural)]
pub enum Method {
    Get,
    Post,
    Put,
    Delete,
    Patch,
    Head,
    Options,
}

/// One request to make: method, URL, query parameters and body (each a JSON
/// object when present) and headers, in order, duplicates allowed.
pub struct RequestProfile {
    pub method: Method,
    pub url: String,
    pub params: Option<Json>,
    pub headers: Vec<(String, String)>,
    pub body: Option<Json>,
}

/// A request with its overrides applied, ready to be sent.
pub struct RequestParts {
    pub headers: Vec<(String, String)>,
    pub query: Json,
    pub body: String,
}

/// Why a request profile is not usable.
#[derive(Debug, Clone, Copy, PartialEq, Eq, Structural)]
pub enum ConfigError {
    ParamsNotObject,
    BodyNotObject,
}

/// Why a request could not be prepared.
#[derive(Debug, Clone, Copy, PartialEq, Eq, Structural)]
pub enum RequestError {
    /// An override header has a name or a value that HTTP does not allow.
    InvalidHeader,
    /// The query parameters are neither an object nor absent.
    ParamsNotObject,
    /// The body is neither an object nor absent.
    BodyNotObject,
    /// The text is not a URL.
    InvalidUrl,
}

/// Whether `http` accepts `s` as a header name.
pub uninterp spec fn valid_header_name(s: Seq<char>) -> bool;

/// The query pairs of a URL, decoded, in order; `None` when `s` is not a URL.
pub uninterp spec fn url_query_of(s: Seq<char>) -> Option<Seq<(Seq<char>, Seq<char>)>>;

/// Whether `http` accepts `c` in a header value: visible ASCII, tab, or any
/// character beyond ASCII.
pub open spec fn valid_header_value_char(c: char) -> bool {
    ((c as u32) >= 32 && (c as u32) != 127) || c == '\t'
}

pub open spec fn valid_header_value(s: Seq<char>) -> bool {
    forall|i: int| 0 <= i < s.len() ==> valid_header_value_char(#[trigger] s[i])
}

pub open spec fn valid_header(h: (Seq<char>, Seq<char>)) -> bool {
    valid_header_name(h.0) && valid_header_value(h.1)
}

/// Relies on http's HeaderName::from_str (through reqwest): whether the name
/// is accepted.
#[verifier::external_body]
fn header_name_ok(s: &str) -> (r: bool)
    ensures
        r == valid_header_name(s@),
{
    <reqwest::header::HeaderName as std::str::FromStr>::from_str(s).is_ok()
}

/// Relies on http's HeaderValue::from_str (through reqwest): it accepts a
/// value exactly when every byte is visible ASCII, a tab, or beyond ASCII.
#[verifier::external_body]
fn header_value_ok(s: &str) -> (r: bool)
    ensures
        r == valid_header_value(s@),
{
    reqwest::header::HeaderValue::from_str(s).is_ok()
}

/// Relies on url's Url::parse and Url::query_pairs (through reqwest): the
/// decoded query pairs of a URL.
#[verifier::external_body]
fn url_query_pairs(s: &str) -> (r: Option<Vec<(String, String)>>)
    ensures
        match r {
            Some(v) => url_query_of(s@) == Some(pairs_view(v@)),
            None => url_query_of(s@).is_none(),
        },
{
    let url = reqwest::Url::parse(s).ok()?;
    Some(url.query_pairs().map(|(k, v)| (k.into_owned(), v.into_owned())).collect())
}

/// An override's value: its JSON reading, or the text itself when it is not JSON.
pub open spec fn value_of_text(s: Seq<char>) -> JsonV {
    match json_of_text(s) {
        Some(j) => j,
        None => JsonV::Str(s),
    }
}

/// The JSON reading of `s`, or the text itself as a JSON string.
pub fn json_or_string(s: &String) -> (r: Json)
    ensures
        r@ == value_of_text(s@),
{
    match parse_json(s.as_str()) {
        Ok(j) => j,
        Err(_) => Json::Str(s.clone()),
    }
}

/// `j` with each pair set in turn, `j[key] = value_of_text(value)`: a later
/// pair wins over an earlier one with the same key.
pub open spec fn apply_pairs(j: JsonV, pairs: Seq<(Seq<char>, Seq<char>)>) -> Option<JsonV>
    decreases pairs.len(),
{
    if pairs.len() == 0 {
        Some(j)
    } else {
        match apply_pairs(j, pairs.drop_last()) {
            Some(m) => json_set(m, pairs.last().0, value_of_text(pairs.last().1)),
            None => None,
        }
    }
}

proof fn lemma_apply_none(j: JsonV, pairs: Seq<(Seq<char>, Seq<char>)>, n: int)
    requires
        0 <= n <= pairs.len(),
        apply_pairs(j, pairs.take(n)) is None,
    ensures
        apply_pairs(j, pairs) is None,
    decreases pairs.len(),
{
    if n < pairs.len() {
        assert(pairs.drop_last().take(n) =~= pairs.take(n));
        lemma_apply_none(j, pairs.drop_last(), n);
    } else {
        assert(pairs.take(n) =~= pairs);
    }
}

/// Sets each pair in `j`, in order. Fails when `j` is neither an object nor
/// null and there is a pair to set.
pub fn apply_overrides(j: &mut Json, pairs: &Vec<(String, String)>) -> (r: Result<(), ()>)
    ensures
        match apply_pairs(old(j)@, pairs_view(pairs@)) {
            Some(m) => r is Ok && final(j)@ == m,
            None => r is Err,
        },
{
    let ghost start = j@;
    let ghost ps = pairs_view(pairs@);
    let n = pairs.len();
    let mut i: usize = 0;
    assert(ps.take(0) =~= Seq::<(Seq<char>, Seq<char>)>::empty());
    while i < n
        invariant
            n == pairs@.len(),
            ps == pairs_view(pairs@),
            start == old(j)@,
            0 <= i <= n,
            apply_pairs(start, ps.take(i as int)) == Some(j@),
        decreases n - i,
    {
        assert(ps.take(i + 1).drop_last() =~= ps.take(i as int));
        let v = json_or_string(&pairs[i].1);
        if j.set_key(&pairs[i].0, v).is_err() {
            proof {
                lemma_apply_none(start, ps, i + 1);
            }
            return Err(());
        }
        i = i + 1;
    }
    assert(ps.take(n as int) =~= ps);
    Ok(())
}

/// The stored JSON value, or an empty object when there is none.
pub open spec fn or_empty_object(j: Option<Json>) -> JsonV {
    match j {
        Some(v) => v@,
        None => JsonV::Object(Seq::empty()),
    }
}

pub open spec fn is_object_or_absent(j: Option<Json>) -> bool {
    match j {
        Some(v) => v@ is Object,
        None => true,
    }
}

/// What `generate` owes: the headers with the override headers appended, and
/// the query and body with their overrides set.
pub open spec fn generate_spec(p: RequestProfile, args: ExtraArgs) -> Result<(Seq<(Seq<char>, Seq<char>)>, JsonV, JsonV), RequestError> {
    if !(forall|i: int| 0 <= i < args.headers@.len() ==> valid_header(#[trigger] pairs_view(args.headers@)[i])) {
        Err(RequestError::InvalidHeader)
    } else {
        match apply_pairs(or_empty_object(p.params), pairs_view(args.query@)) {
            None => Err(RequestError::ParamsNotObject),
            Some(q) => match apply_pairs(or_empty_object(p.body), pairs_view(args.body@)) {
                None => Err(RequestError::BodyNotObject),
                Some(b) => Ok((pairs_view(p.headers@) + pairs_view(args.headers@), q, b)),
            },
        }
    }
}

fn copy_or_empty(j: &Option<Json>) -> (r: Json)
    ensures
        r@ == or_empty_object(*j),
{
    match j {
        Some(v) => v.copy(),
        None => {
            let r = Json::Object(Vec::new());
            proof {
                crate::json::lemma_entries_view(Seq::<(String, Json)>::empty());
            }
            assert(r@ == JsonV::Object(Seq::empty()));
            r
        },
    }
}

fn copy_pairs(v: &Vec<(String, String)>) -> (r: Vec<(String, String)>)
    ensures
        pairs_view(r@) == pairs_view(v@),
{
    let mut r: Vec<(String, String)> = Vec::new();
    let n = v.len();
    let mut i: usize = 0;
    while i < n
        invariant
            n == v@.len(),
            0 <= i <= n,
            r@ == v@.take(i as int),
        decreases n - i,
    {
        r.push((v[i].0.clone(), v[i].1.clone()));
        assert(r@ =~= v@.take(i + 1));
        i = i + 1;
    }
    assert(v@.take(n as int) =~= v@);
    r
}

impl RequestProfile {
    pub fn new(
        method: Method,
        url: String,
        params: Option<Json>,
        headers: Vec<(String, String)>,
        body: Option<Json>,
    ) -> (r: Self)
        ensures
            r.method == method,
            r.url@ == url@,
            r.params == params,
            r.headers@ == headers@,
            r.body == body,
    {
        RequestProfile { method, url, params, headers, body }
    }

    /// Fails when the query parameters or the body are present but not a JSON
    /// object.
    pub fn validate(&self) -> (r: Result<(), ConfigError>)
        ensures
            !is_object_or_absent(self.params) ==> r == Err::<(), ConfigError>(ConfigError::ParamsNotObject),
            is_object_or_absent(self.params) && !is_object_or_absent(self.body) ==> r == Err::<(), ConfigError>(ConfigError::BodyNotObject),
            is_object_or_absent(self.params) && is_object_or_absent(self.body) ==> r is Ok,
    {
        if let Some(p) = &self.params {
            if !p.is_object() {
                return Err(ConfigError::ParamsNotObject);
            }
        }
        if let Some(b) = &self.body {
            if !b.is_object() {
                return Err(ConfigError::BodyNotObject);
            }
        }
        Ok(())
    }

    /// The request with `args` merged into a working copy: override headers
    /// appended, query and body keys set (a value that is not JSON is taken as
    /// a string), and the body written as compact JSON. The profile itself is
    /// left as it is.
    pub fn generate(&self, args: &ExtraArgs) -> (r: Result<RequestParts, RequestError>)
        ensures
            match generate_spec(*self, *args) {
                Err(e) => r == Err::<RequestParts, RequestError>(e),
                Ok((h, q, b)) => r is Ok && pairs_view(r->Ok_0.headers@) == h && r->Ok_0.query@ == q
                    && r->Ok_0.body@ == compact_text_of(b),
            },
    {
        let n = args.headers.len();
        let mut i: usize = 0;
        while i < n
            invariant
                n == args.headers@.len(),
                0 <= i <= n,
                forall|j: int| 0 <= j < i ==> valid_header(#[trigger] pairs_view(args.headers@)[j]),
            decreases n - i,
        {
            if !header_name_ok(args.headers[i].0.as_str()) || !header_value_ok(args.headers[i].1.as_str()) {
                assert(!valid_header(pairs_view(args.headers@)[i as int]));
                return Err(RequestError::InvalidHeader);
            }
            i = i + 1;
        }
        let mut headers = copy_pairs(&self.headers);
        let extra = copy_pairs(&args.headers);
        let ghost h0 = headers@;
        let mut k: usize = 0;
        while k < n
            invariant
                n == extra@.len(),
                0 <= k <= n,
                headers@ == h0 + extra@.take(k as int),
            decreases n - k,
        {
            headers.push((extra[k].0.clone(), extra[k].1.clone()));
            assert(headers@ =~= h0 + extra@.take(k + 1));
            k = k + 1;
        }
        assert(extra@.take(n as int) =~= extra@);
        assert(pairs_view(headers@) =~= pairs_view(h0) + pairs_view(extra@));
        let mut query = copy_or_empty(&self.params);
        if apply_overrides(&mut query, &args.query).is_err() {
            return Err(RequestError::ParamsNotObject);
        }
        let mut body = copy_or_empty(&self.body);
        if apply_overrides(&mut body, &args.body).is_err() {
            return Err(RequestError::BodyNotObject);
        }
        let body = to_compact_text(&body);
        Ok(RequestParts { headers, query, body })
    }

    /// A GET request for a URL, with its query pairs as parameters (each read
    /// as JSON, or kept as a string) and no headers or body.
    pub fn from_url(s: &str) -> (r: Result<Self, RequestError>)
        ensures
            match url_query_of(s@) {
                None => r == Err::<Self, RequestError>(RequestError::InvalidUrl),
                Some(q) => r is Ok && r->Ok_0.method == Method::Get && r->Ok_0.url@ == s@
                    && r->Ok_0.params is Some && Some(r->Ok_0.params->Some_0@) == apply_pairs(JsonV::Object(Seq::empty()), q)
                    && r->Ok_0.headers@.len() == 0 && r->Ok_0.body is None,
            },
    {
        let pairs = match url_query_pairs(s) {
            Some(v) => v,
            None => return Err(RequestError::InvalidUrl),
        };
        let mut params = Json::Object(Vec::new());
        proof {
            crate::json::lemma_entries_view(Seq::<(String, Json)>::empty());
        }
        assert(params@ == JsonV::Object(Seq::empty()));
        let applied = apply_overrides(&mut params, &pairs);
        proof {
            lemma_apply_on_object(Seq::empty(), pairs_view(pairs@));
        }
        assert(applied is Ok);
        Ok(RequestProfile {
            method: Method::Get,
            url: String::from_str(s),
            params: Some(params),
            headers: Vec::new(),
            body: None,
        })
    }
}

/// Setting keys in an object always succeeds and leaves an object.
pub proof fn lemma_apply_on_object(e: Seq<(Seq<char>, JsonV)>, pairs: Seq<(Seq<char>, Seq<char>)>)
    ensures
        apply_pairs(JsonV::Object(e), pairs) matches Some(m) && m is Object,
    decreases pairs.len(),
{
    if pairs.len() > 0 {
        lemma_apply_on_object(e, pairs.drop_last());
    }
}

} // verus!
