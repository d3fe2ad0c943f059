use vstd::prelude::*;
use vstd::string::*;

use crate::config::ResponseProfile;
use crate::json::{mask_keys, mask_spec, parse_json, json_of_text, pretty_text_of, strings_view, to_pretty_text, Json, JsonV};
use crate::text::{before_first, decimal, prefix_before, push_char, push_decimal};

verus! {

/// A received HTTP response, as plain values: the protocol version as the
/// client names it (`HTTP/1.1`), the numeric status and its reason phrase, the
/// headers in the order they came, and the body text.
pub struct ResponseExt {
    pub version: String,
    pub status: u16,
    pub reason: String,
    pub headers: Vec<(String, String)>,
    pub body: String,
}

/// Why a response could not be brought to its canonical text.
#[derive(Debug, PartialEq, Eq, Structural)]
pub enum FilterError {
    /// The response says it is JSON, but its body does not parse.
    BodyParse,
    /// Keys are to be masked, but the JSON body is neither an object nor null.
    BodyNotObject,
}

/// The code of `c` with ASCII upper case taken to lower case.
pub open spec fn lower_ascii(c: char) -> int {
    if 'A' <= c && c <= 'Z' {
        (c as u32) + 32int
    } else {
        c as int
    }
}

pub open spec fn same_ignoring_ascii_case(a: Seq<char>, b: Seq<char>) -> bool {
    a.len() == b.len() && forall|i: int| 0 <= i < a.len() ==> lower_ascii(#[trigger] a[i]) == lower_ascii(b[i])
}

pub open spec fn content_type_name() -> Seq<char> {
    seq!['c', 'o', 'n', 't', 'e', 'n', 't', '-', 't', 'y', 'p', 'e']
}

pub open spec fn json_media_type() -> Seq<char> {
    seq!['a', 'p', 'p', 'l', 'i', 'c', 'a', 't', 'i', 'o', 'n', '/', 'j', 's', 'o', 'n']
}

pub open spec fn is_content_type(h: (String, String)) -> bool {
    same_ignoring_ascii_case(h.0@, content_type_name())
}

/// The media type of the first `Content-Type` header (its name matched without
/// regard to ASCII case), without the parameters after `;`.
pub open spec fn content_type_spec(hs: Seq<(String, String)>) -> Option<Seq<char>> {
    if exists|i: int| 0 <= i < hs.len() && is_content_type(#[trigger] hs[i]) {
        let i = choose|i: int|
            0 <= i < hs.len() && is_content_type(#[trigger] hs[i]) && forall|j: int| 0 <= j < i ==> !is_content_type(#[trigger] hs[j]);
        Some(before_first(hs[i].1@, ';'))
    } else {
        None
    }
}

pub open spec fn is_json_response(hs: Seq<(String, String)>) -> bool {
    content_type_spec(hs) == Some(json_media_type())
}

/// The header names of `hs`, each once, in the order in which they first
/// appear.
pub open spec fn distinct_names(hs: Seq<(String, String)>) -> Seq<Seq<char>>
    decreases hs.len(),
{
    if hs.len() == 0 {
        Seq::empty()
    } else {
        let prev = distinct_names(hs.drop_last());
        if prev.contains(hs.last().0@) {
            prev
        } else {
            prev.push(hs.last().0@)
        }
    }
}

/// The distinct names hold no name twice, and every header's name is among
/// them.
pub proof fn lemma_distinct_names(hs: Seq<(String, String)>)
    ensures
        distinct_names(hs).no_duplicates(),
        forall|i: int| 0 <= i < hs.len() ==> distinct_names(hs).contains(#[trigger] hs[i].0@),
    decreases hs.len(),
{
    if hs.len() > 0 {
        let t = hs.drop_last();
        lemma_distinct_names(t);
        let prev = distinct_names(t);
        assert forall|i: int| 0 <= i < hs.len() implies distinct_names(hs).contains(#[trigger] hs[i].0@) by {
            if i < hs.len() - 1 {
                assert(t[i] == hs[i]);
                assert(prev.contains(t[i].0@));
                let k = choose|k: int| 0 <= k < prev.len() && prev[k] == t[i].0@;
                assert(distinct_names(hs)[k] == prev[k]);
            } else {
                if !prev.contains(hs.last().0@) {
                    assert(distinct_names(hs)[prev.len() as int] == hs.last().0@);
                }
            }
        }
    }
}

pub open spec fn status_line(r: ResponseExt) -> Seq<char> {
    r.version@ + seq![' '] + decimal(r.status as nat) + seq![' '] + r.reason@ + seq!['\n']
}

/// A header as it stands in the canonical text: `name: "value"`.
pub open spec fn header_line(h: (String, String)) -> Seq<char> {
    h.0@ + seq![':', ' ', '"'] + h.1@ + seq!['"', '\n']
}

/// The header lines of `hs`, in order, but for those named in `skip`.
pub open spec fn kept_header_lines(hs: Seq<(String, String)>, skip: Seq<Seq<char>>) -> Seq<char>
    decreases hs.len(),
{
    if hs.len() == 0 {
        Seq::empty()
    } else {
        kept_header_lines(hs.drop_last(), skip) + if skip.contains(hs.last().0@) {
            Seq::empty()
        } else {
            header_line(hs.last())
        }
    }
}

/// The status line, then, under a profile, the headers that it keeps.
pub open spec fn canonical_head(r: ResponseExt, profile: Option<ResponseProfile>) -> Seq<char> {
    status_line(r) + match profile {
        Some(p) => kept_header_lines(r.headers@, strings_view(p.skip_headers@)),
        None => Seq::empty(),
    }
}

/// The canonical text of a response, as far as it does not rest on serde_json
/// failing to print a document.
pub open spec fn canonical_spec(r: ResponseExt, profile: Option<ResponseProfile>) -> Result<Seq<char>, FilterError> {
    if !is_json_response(r.headers@) {
        Ok(canonical_head(r, profile) + r.body@)
    } else {
        match masked_body(r.body@, profile) {
            Err(e) => Err(e),
            Ok(m) => Ok(canonical_head(r, profile) + pretty_text_of(m)),
        }
    }
}

/// What a JSON body becomes before it is printed: parsed, then under a profile
/// with each of its `skip_body` keys set to null.
pub open spec fn masked_body(text: Seq<char>, profile: Option<ResponseProfile>) -> Result<JsonV, FilterError> {
    match json_of_text(text) {
        None => Err(FilterError::BodyParse),
        Some(j) => match profile {
            None => Ok(j),
            Some(p) => match mask_spec(j, strings_view(p.skip_body@)) {
                Some(m) => Ok(m),
                None => Err(FilterError::BodyNotObject),
            },
        },
    }
}


fn eq_ignoring_ascii_case(a: &str, b: &str) -> (r: bool)
    ensures
        r == same_ignoring_ascii_case(a@, b@),
{
    let n = a.unicode_len();
    if n != b.unicode_len() {
        return false;
    }
    let mut i: usize = 0;
    while i < n
        invariant
            n == a@.len(),
            n == b@.len(),
            0 <= i <= n,
            forall|j: int| 0 <= j < i ==> lower_ascii(#[trigger] a@[j]) == lower_ascii(b@[j]),
        decreases n - i,
    {
        let x = a.get_char(i);
        let y = b.get_char(i);
        let lx: u32 = if 'A' <= x && x <= 'Z' { (x as u32) + 32 } else { x as u32 };
        let ly: u32 = if 'A' <= y && y <= 'Z' { (y as u32) + 32 } else { y as u32 };
        if lx != ly {
            return false;
        }
        i = i + 1;
    }
    true
}

/// The media type of the response's `Content-Type` header, parameters left out.
pub fn get_content_type(headers: &Vec<(String, String)>) -> (r: Option<String>)
    ensures
        match r {
            Some(t) => content_type_spec(headers@) == Some(t@),
            None => content_type_spec(headers@).is_none(),
        },
{
    let n = headers.len();
    let mut i: usize = 0;
    while i < n
        invariant
            n == headers@.len(),
            0 <= i <= n,
            forall|j: int| 0 <= j < i ==> !is_content_type(#[trigger] headers@[j]),
        decreases n - i,
    {
        proof {
            reveal_strlit("content-type");
        }
        if eq_ignoring_ascii_case(headers[i].0.as_str(), "content-type") {
            assert(is_content_type(headers@[i as int]));
            let ghost k = choose|k: int|
                0 <= k < headers@.len() && is_content_type(#[trigger] headers@[k]) && forall|j: int| 0 <= j < k ==> !is_content_type(#[trigger] headers@[j]);
            assert(k == i) by {
                if k < i {
                    assert(!is_content_type(headers@[k]));
                } else if k > i {
                    assert(!is_content_type(headers@[i as int]));
                }
            }
            return Some(prefix_before(headers[i].1.as_str(), ';'));
        }
        i = i + 1;
    }
    None
}

/// Parses a JSON body, sets the profile's `skip_body` keys to null and prints
/// it again, indented, with serde_json's key order.
pub fn filter_json(text: &str, profile: &Option<ResponseProfile>) -> (r: Result<String, FilterError>)
    ensures
        match masked_body(text@, *profile) {
            Err(e) => r == Err::<String, FilterError>(e),
            Ok(m) => r is Ok && r->Ok_0@ == pretty_text_of(m),
        },
{
    let mut json = match parse_json(text) {
        Ok(j) => j,
        Err(_) => return Err(FilterError::BodyParse),
    };
    if let Some(p) = profile {
        if mask_keys(&mut json, &p.skip_body).is_err() {
            return Err(FilterError::BodyNotObject);
        }
    }
    Ok(to_pretty_text(&json))
}

fn contains_string(v: &Vec<String>, s: &String) -> (r: bool)
    ensures
        r == strings_view(v@).contains(s@),
{
    let n = v.len();
    let mut i: usize = 0;
    while i < n
        invariant
            n == v@.len(),
            0 <= i <= n,
            forall|j: int| 0 <= j < i ==> v@[j]@ != s@,
        decreases n - i,
    {
        if v[i] == *s {
            assert(strings_view(v@)[i as int] == s@);
            return true;
        }
        i = i + 1;
    }
    assert(!strings_view(v@).contains(s@)) by {
        if strings_view(v@).contains(s@) {
            let k = choose|k: int| 0 <= k < strings_view(v@).len() && strings_view(v@)[k] == s@;
            assert(v@[k]@ == s@);
        }
    }
    false
}

fn push_kept_headers(output: &mut String, headers: &Vec<(String, String)>, skip_headers: &Vec<String>)
    ensures
        final(output)@ == old(output)@ + kept_header_lines(headers@, strings_view(skip_headers@)),
{
    let ghost hs = headers@;
    let ghost skip = strings_view(skip_headers@);
    let ghost start = output@;
    let n = headers.len();
    let mut i: usize = 0;
    assert(hs.take(0) =~= Seq::<(String, String)>::empty());
    assert(output@ =~= start + kept_header_lines(hs.take(0), skip));
    while i < n
        invariant
            n == hs.len(),
            hs == headers@,
            skip == strings_view(skip_headers@),
            start == old(output)@,
            0 <= i <= n,
            output@ == start + kept_header_lines(hs.take(i as int), skip),
        decreases n - i,
    {
        assert(hs.take(i + 1).drop_last() =~= hs.take(i as int));
        let name = &headers[i].0;
        let value = &headers[i].1;
        if !contains_string(skip_headers, name) {
            output.append(name.as_str());
            push_char(output, ':');
            push_char(output, ' ');
            push_char(output, '"');
            output.append(value.as_str());
            push_char(output, '"');
            push_char(output, '\n');
        }
        assert(output@ =~= start + kept_header_lines(hs.take(i + 1), skip));
        i = i + 1;
    }
    assert(hs.take(n as int) =~= hs);
}

impl ResponseExt {
    /// The canonical text of the response: the status line; under a profile,
    /// the headers it does not skip, in their order; then the body, which for
    /// JSON is masked and pretty-printed, and otherwise kept as it is.
    pub fn filter_text(&self, profile: &Option<ResponseProfile>) -> (r: Result<String, FilterError>)
        ensures
            !is_json_response(self.headers@) ==> r is Ok,
            match canonical_spec(*self, *profile) {
                Err(e) => r == Err::<String, FilterError>(e),
                Ok(x) => r is Ok && r->Ok_0@ == x,
            },
    {
        let mut output = String::new();
        output.append(self.version.as_str());
        push_char(&mut output, ' ');
        push_decimal(&mut output, self.status);
        push_char(&mut output, ' ');
        output.append(self.reason.as_str());
        push_char(&mut output, '\n');
        assert(output@ =~= status_line(*self));
        if let Some(p) = profile {
            push_kept_headers(&mut output, &self.headers, &p.skip_headers);
        }
        assert(output@ == canonical_head(*self, *profile));
        let content_type = get_content_type(&self.headers);
        let json = match content_type {
            Some(t) => {
                proof {
                    reveal_strlit("application/json");
                }
                let j = String::from_str("application/json");
                assert(j@ =~= json_media_type());
                t == j
            },
            None => false,
        };
        if json {
            let text = filter_json(self.body.as_str(), profile)?;
            output.append(text.as_str());
        } else {
            output.append(self.body.as_str());
        }
        Ok(output)
    }

    /// The distinct names of the response's headers, each once, in the order
    /// in which they first appear.
    pub fn get_header_keys(&self) -> (r: Vec<String>)
        ensures
            strings_view(r@) == distinct_names(self.headers@),
    {
        let ghost hs = self.headers@;
        let mut keys: Vec<String> = Vec::new();
        let n = self.headers.len();
        let mut i: usize = 0;
        assert(hs.take(0) =~= Seq::<(String, String)>::empty());
        assert(strings_view(keys@) =~= Seq::<Seq<char>>::empty());
        while i < n
            invariant
                n == hs.len(),
                hs == self.headers@,
                0 <= i <= n,
                strings_view(keys@) == distinct_names(hs.take(i as int)),
            decreases n - i,
        {
            assert(hs.take(i + 1).drop_last() =~= hs.take(i as int));
            let ghost before = keys@;
            if !contains_string(&keys, &self.headers[i].0) {
                keys.push(self.headers[i].0.clone());
                assert(strings_view(keys@) =~= strings_view(before).push(hs[i as int].0@));
            }
            i = i + 1;
        }
        assert(hs.take(n as int) =~= hs);
        keys
    }
}

proof fn lemma_kept_concat(a: Seq<(String, String)>, b: Seq<(String, String)>, skip: Seq<Seq<char>>)
    ensures
        kept_header_lines(a + b, skip) == kept_header_lines(a, skip) + kept_header_lines(b, skip),
    decreases b.len(),
{
    if b.len() == 0 {
        assert(a + b =~= a);
        assert(kept_header_lines(a, skip) + kept_header_lines(b, skip) =~= kept_header_lines(a, skip));
    } else {
        assert((a + b).drop_last() =~= a + b.drop_last());
        lemma_kept_concat(a, b.drop_last(), skip);
        assert(kept_header_lines(a + b, skip) =~= kept_header_lines(a, skip) + kept_header_lines(b, skip));
    }
}

/// A header whose name is skipped leaves no trace in the canonical text: the
/// header lines are those of the same response without it, wherever it stands.
pub proof fn lemma_skipped_header_absent(
    before: Seq<(String, String)>,
    h: (String, String),
    after: Seq<(String, String)>,
    skip: Seq<Seq<char>>,
)
    requires
        skip.contains(h.0@),
    ensures
        kept_header_lines(before + seq![h] + after, skip) == kept_header_lines(before + after, skip),
{
    lemma_kept_concat(before + seq![h], after, skip);
    lemma_kept_concat(before, seq![h], skip);
    lemma_kept_concat(before, after, skip);
    assert(seq![h].drop_last() =~= Seq::<(String, String)>::empty());
    assert(seq![h].last() == h);
    assert(kept_header_lines(seq![h].drop_last(), skip) =~= Seq::<char>::empty());
    assert(kept_header_lines(seq![h], skip) =~= Seq::<char>::empty());
    assert(kept_header_lines(before, skip) + kept_header_lines(seq![h], skip) =~= kept_header_lines(before, skip));
}

/// Parameters of the content type do not matter: a response whose first
/// `Content-Type` value is `t;params` is JSON exactly when one whose value is
/// `t` is.
pub proof fn lemma_content_type_parameters_ignored(
    before: Seq<(String, String)>,
    h1: (String, String),
    h2: (String, String),
    after: Seq<(String, String)>,
    params: Seq<char>,
)
    requires
        forall|j: int| 0 <= j < before.len() ==> !is_content_type(#[trigger] before[j]),
        is_content_type(h1),
        h2.0@ == h1.0@,
        !h1.1@.contains(';'),
        h2.1@ == h1.1@ + seq![';'] + params,
    ensures
        content_type_spec(before + seq![h2] + after) == content_type_spec(before + seq![h1] + after),
        content_type_spec(before + seq![h1] + after) == Some(h1.1@),
{
    crate::text::lemma_parameters_ignored(h1.1@, params);
    let s1 = before + seq![h1] + after;
    let s2 = before + seq![h2] + after;
    let n = before.len() as int;
    assert(is_content_type(s1[n]));
    assert(is_content_type(s2[n]));
    let i1 = choose|i: int|
        0 <= i < s1.len() && is_content_type(#[trigger] s1[i]) && forall|j: int| 0 <= j < i ==> !is_content_type(#[trigger] s1[j]);
    let i2 = choose|i: int|
        0 <= i < s2.len() && is_content_type(#[trigger] s2[i]) && forall|j: int| 0 <= j < i ==> !is_content_type(#[trigger] s2[j]);
    assert(forall|j: int| 0 <= j < n ==> !is_content_type(#[trigger] s1[j]) && s1[j] == before[j]);
    assert(forall|j: int| 0 <= j < n ==> !is_content_type(#[trigger] s2[j]) && s2[j] == before[j]);
    assert(i1 == n) by {
        if i1 < n { assert(!is_content_type(s1[i1])); } else if i1 > n { assert(!is_content_type(s1[n])); }
    }
    assert(i2 == n) by {
        if i2 < n { assert(!is_content_type(s2[i2])); } else if i2 > n { assert(!is_content_type(s2[n])); }
    }
}

/// A masked key is in the JSON body that gets printed, with the value null,
/// whether or not the response had it.
pub proof fn lemma_masked_body_key_null(text: Seq<char>, p: ResponseProfile, k: Seq<char>)
    requires
        masked_body(text, Some(p)) is Ok,
        strings_view(p.skip_body@).contains(k),
    ensures
        masked_body(text, Some(p))->Ok_0 is Object,
        exists|i: int| 0 <= i < masked_body(text, Some(p))->Ok_0->Object_0.len()
            && #[trigger] masked_body(text, Some(p))->Ok_0->Object_0[i] == (k, JsonV::Null),
{
    let j = json_of_text(text).unwrap();
    crate::json::lemma_masked_key_is_null(j, strings_view(p.skip_body@), k);
}

} // verus!
