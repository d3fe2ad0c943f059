use vstd::prelude::*;

verus! {

/// serde_json's document type, seen only inside the wrappers below.
#[verifier::external_type_specification]
#[verifier::external_body]
pub struct ExJsonValue(serde_json::Value);

/// serde_json's number, carried through documents as it is.
#[verifier::external_type_specification]
#[verifier::external_body]
pub struct ExJsonNumber(serde_json::Number);

/// serde_json's error, returned by the wrappers below.
#[verifier::external_type_specification]
#[verifier::external_body]
pub struct ExJsonError(serde_json::Error);

/// Relies on serde_json::Number's derived `Clone`, which copies its one field.
pub assume_specification[ <serde_json::Number as Clone>::clone ](n: &serde_json::Number) -> (r: serde_json::Number)
    ensures
        r == *n,
;

/// A JSON document. Object members are kept as an ordered list of
/// (key, value) pairs; numbers are carried through untouched.
#[derive(Debug)]
pub enum Json {
    Null,
    Bool(bool),
    Number(serde_json::Number),
    Str(String),
    Array(Vec<Json>),
    Object(Vec<(String, Json)>),
}

/// A JSON document seen as a mathematical value.
pub enum JsonV {
    Null,
    Bool(bool),
    Number(serde_json::Number),
    Str(Seq<char>),
    Array(Seq<JsonV>),
    Object(Seq<(Seq<char>, JsonV)>),
}

pub open spec fn items_view(a: Seq<Json>) -> Seq<JsonV>
    decreases a,
{
    if a.len() == 0 {
        Seq::empty()
    } else {
        items_view(a.drop_last()).push(a.last().view())
    }
}

pub open spec fn entries_view(e: Seq<(String, Json)>) -> Seq<(Seq<char>, JsonV)>
    decreases e,
{
    if e.len() == 0 {
        Seq::empty()
    } else {
        entries_view(e.drop_last()).push((e.last().0@, e.last().1.view()))
    }
}

pub proof fn lemma_entries_view(e: Seq<(String, Json)>)
    ensures
        entries_view(e).len() == e.len(),
        forall|i: int| 0 <= i < e.len() ==> #[trigger] entries_view(e)[i] == (e[i].0@, e[i].1@),
    decreases e.len(),
{
    if e.len() > 0 {
        lemma_entries_view(e.drop_last());
        assert(entries_view(e) == entries_view(e.drop_last()).push((e.last().0@, e.last().1@)));
    } else {
        assert(entries_view(e) == Seq::<(Seq<char>, JsonV)>::empty());
    }
}

pub proof fn lemma_items_view(a: Seq<Json>)
    ensures
        items_view(a).len() == a.len(),
        forall|i: int| 0 <= i < a.len() ==> #[trigger] items_view(a)[i] == a[i]@,
    decreases a.len(),
{
    if a.len() > 0 {
        lemma_items_view(a.drop_last());
        assert(items_view(a) == items_view(a.drop_last()).push(a.last()@));
    } else {
        assert(items_view(a) == Seq::<JsonV>::empty());
    }
}

impl View for Json {
    type V = JsonV;

    open spec fn view(&self) -> JsonV
        decreases self,
    {
        match self {
            Json::Null => JsonV::Null,
            Json::Bool(b) => JsonV::Bool(*b),
            Json::Number(n) => JsonV::Number(*n),
            Json::Str(s) => JsonV::Str(s@),
            Json::Array(a) => JsonV::Array(items_view(a@)),
            Json::Object(e) => JsonV::Object(entries_view(e@)),
        }
    }
}

/// The document that serde_json reads from a text, or `None` when the text is
/// not valid JSON.
pub uninterp spec fn json_of_text(s: Seq<char>) -> Option<JsonV>;

/// The pretty-printed text that serde_json writes for a document.
pub uninterp spec fn pretty_text_of(j: JsonV) -> Seq<char>;

/// The compact text that serde_json writes for a document.
pub uninterp spec fn compact_text_of(j: JsonV) -> Seq<char>;

pub open spec fn has_key(e: Seq<(Seq<char>, Json)>, k: Seq<char>) -> bool {
    exists|i: int| 0 <= i < e.len() && #[trigger] e[i].0 == k
}

/// Object members after `obj[k] = v`: the first member named `k` takes the
/// value `v`; when there is none, the member is appended.
pub open spec fn set_entry(e: Seq<(Seq<char>, JsonV)>, k: Seq<char>, v: JsonV) -> Seq<(Seq<char>, JsonV)>
    decreases e.len(),
{
    if e.len() == 0 {
        seq![(k, v)]
    } else if e[0].0 == k {
        e.update(0, (k, v))
    } else {
        seq![e[0]] + set_entry(e.drop_first(), k, v)
    }
}

proof fn lemma_set_entry_at(e: Seq<(Seq<char>, JsonV)>, k: Seq<char>, v: JsonV, i: int)
    requires
        0 <= i < e.len(),
        e[i].0 == k,
        forall|j: int| 0 <= j < i ==> #[trigger] e[j].0 != k,
    ensures
        set_entry(e, k, v) == e.update(i, (k, v)),
    decreases i,
{
    if i > 0 {
        let t = e.drop_first();
        assert forall|j: int| 0 <= j < i - 1 implies #[trigger] t[j].0 != k by {
            assert(e[j + 1].0 != k);
        }
        lemma_set_entry_at(t, k, v, i - 1);
        assert(set_entry(e, k, v) =~= e.update(i, (k, v)));
    } else {
        assert(set_entry(e, k, v) =~= e.update(i, (k, v)));
    }
}

proof fn lemma_set_entry_absent(e: Seq<(Seq<char>, JsonV)>, k: Seq<char>, v: JsonV)
    requires
        forall|j: int| 0 <= j < e.len() ==> #[trigger] e[j].0 != k,
    ensures
        set_entry(e, k, v) == e.push((k, v)),
    decreases e.len(),
{
    if e.len() > 0 {
        let t = e.drop_first();
        assert forall|j: int| 0 <= j < t.len() implies #[trigger] t[j].0 != k by {
            assert(e[j + 1].0 != k);
        }
        lemma_set_entry_absent(t, k, v);
        assert(set_entry(e, k, v) =~= e.push((k, v)));
    } else {
        assert(set_entry(e, k, v) =~= e.push((k, v)));
    }
}

/// After `obj[k] = v` the object has a member `k` whose value is `v`.
pub proof fn lemma_set_entry_present(e: Seq<(Seq<char>, JsonV)>, k: Seq<char>, v: JsonV)
    ensures
        exists|i: int| 0 <= i < set_entry(e, k, v).len() && #[trigger] set_entry(e, k, v)[i] == (k, v),
    decreases e.len(),
{
    if e.len() == 0 {
        assert(set_entry(e, k, v)[0] == (k, v));
    } else if e[0].0 == k {
        assert(set_entry(e, k, v)[0] == (k, v));
    } else {
        let t = e.drop_first();
        lemma_set_entry_present(t, k, v);
        let i = choose|i: int| 0 <= i < set_entry(t, k, v).len() && #[trigger] set_entry(t, k, v)[i] == (k, v);
        assert(set_entry(e, k, v)[i + 1] == (k, v));
    }
}

/// `doc[k] = v`: null becomes an object first; arrays and scalars cannot be
/// indexed by a key.
pub open spec fn json_set(j: JsonV, k: Seq<char>, v: JsonV) -> Option<JsonV> {
    match j {
        JsonV::Null => Some(JsonV::Object(seq![(k, v)])),
        JsonV::Object(e) => Some(JsonV::Object(set_entry(e, k, v))),
        _ => None,
    }
}

/// Every key of `keys`, in order, set to null.
pub open spec fn mask_spec(j: JsonV, keys: Seq<Seq<char>>) -> Option<JsonV>
    decreases keys.len(),
{
    if keys.len() == 0 {
        Some(j)
    } else {
        match mask_spec(j, keys.drop_last()) {
            Some(m) => json_set(m, keys.last(), JsonV::Null),
            None => None,
        }
    }
}

pub open spec fn strings_view(v: Seq<String>) -> Seq<Seq<char>> {
    v.map_values(|s: String| s@)
}

/// Relies on serde_json::Value: its variants moved one for one into `Json`.
#[verifier::external_body]
fn json_of_value(v: serde_json::Value) -> Json {
    match v {
        serde_json::Value::Null => Json::Null,
        serde_json::Value::Bool(b) => Json::Bool(b),
        serde_json::Value::Number(n) => Json::Number(n),
        serde_json::Value::String(s) => Json::Str(s),
        serde_json::Value::Array(a) => Json::Array(a.into_iter().map(json_of_value).collect()),
        serde_json::Value::Object(m) => Json::Object(m.into_iter().map(|(k, v)| (k, json_of_value(v))).collect()),
    }
}

/// Relies on serde_json::Value: each variant of `Json` moved one for one into it.
#[verifier::external_body]
fn value_of_json(j: &Json) -> serde_json::Value {
    match j {
        Json::Null => serde_json::Value::Null,
        Json::Bool(b) => serde_json::Value::Bool(*b),
        Json::Number(n) => serde_json::Value::Number(n.clone()),
        Json::Str(s) => serde_json::Value::String(s.clone()),
        Json::Array(a) => serde_json::Value::Array(a.iter().map(value_of_json).collect()),
        Json::Object(e) => serde_json::Value::Object(e.iter().map(|(k, v)| (k.clone(), value_of_json(v))).collect()),
    }
}

/// Relies on serde_json::from_str: reads a JSON text, or fails when it is not
/// valid JSON.
#[verifier::external_body]
pub(crate) fn parse_json(s: &str) -> (r: Result<Json, serde_json::Error>)
    ensures
        match r {
            Ok(j) => json_of_text(s@) == Some(j@),
            Err(_) => json_of_text(s@).is_none(),
        },
{
    serde_json::from_str::<serde_json::Value>(s).map(json_of_value)
}

/// Relies on serde_json::to_string_pretty: the indented text of a document.
/// Writing a `Value` cannot fail (its map keys are strings and the text goes
/// to a `Vec`), so the empty fallback is never taken.
#[verifier::external_body]
pub(crate) fn to_pretty_text(j: &Json) -> (r: String)
    ensures
        r@ == pretty_text_of(j@),
{
    serde_json::to_string_pretty(&value_of_json(j)).unwrap_or_default()
}

/// Relies on serde_json::to_string: the compact text of a document. Writing a
/// `Value` cannot fail, so the empty fallback is never taken.
#[verifier::external_body]
pub(crate) fn to_compact_text(j: &Json) -> (r: String)
    ensures
        r@ == compact_text_of(j@),
{
    serde_json::to_string(&value_of_json(j)).unwrap_or_default()
}

/// A text that is not valid JSON.
#[derive(Debug, Clone, Copy, PartialEq, Eq, Structural)]
pub struct JsonError;

impl Json {
    /// Reads a JSON text.
    pub fn from_text(s: &str) -> (r: Result<Json, JsonError>)
        ensures
            match json_of_text(s@) {
                Some(j) => r matches Ok(d) && d@ == j,
                None => r is Err,
            },
    {
        match parse_json(s) {
            Ok(j) => Ok(j),
            Err(_) => Err(JsonError),
        }
    }

    /// The compact JSON text of the document.
    pub fn to_text(&self) -> (r: String)
        ensures
            r@ == compact_text_of(self@),
    {
        to_compact_text(self)
    }

    /// A copy of the whole document.
    pub fn copy(&self) -> (r: Json)
        ensures
            r@ == self@,
        decreases self,
    {
        match self {
            Json::Null => Json::Null,
            Json::Bool(b) => Json::Bool(*b),
            Json::Number(n) => Json::Number(n.clone()),
            Json::Str(s) => Json::Str(s.clone()),
            Json::Array(a) => {
                assert(decreases_to!(*self => *a));
                let mut out: Vec<Json> = Vec::new();
                let n = a.len();
                let mut i: usize = 0;
                while i < n
                    invariant
                        n == a@.len(),
                        0 <= i <= n,
                        out@.len() == i,
                        decreases_to!(*self => *a),
                        forall|j: int| 0 <= j < i ==> #[trigger] out@[j]@ == a@[j]@,
                    decreases n - i,
                {
                    proof {
                        vstd::std_specs::vec::axiom_vec_index_decreases(*a, i as int);
                        assert(decreases_to!(*self => a[i as int]));
                    }
                    out.push(a[i].copy());
                    i = i + 1;
                }
                proof {
                    lemma_items_view(out@);
                    lemma_items_view(a@);
                }
                assert(items_view(out@) =~= items_view(a@));
                Json::Array(out)
            },
            Json::Object(e) => {
                assert(decreases_to!(*self => *e));
                let mut out: Vec<(String, Json)> = Vec::new();
                let n = e.len();
                let mut i: usize = 0;
                while i < n
                    invariant
                        n == e@.len(),
                        0 <= i <= n,
                        out@.len() == i,
                        decreases_to!(*self => *e),
                        forall|j: int| 0 <= j < i ==> #[trigger] out@[j].0@ == e@[j].0@ && out@[j].1@ == e@[j].1@,
                    decreases n - i,
                {
                    proof {
                        vstd::std_specs::vec::axiom_vec_index_decreases(*e, i as int);
                        assert(decreases_to!(*self => e[i as int].1));
                    }
                    out.push((e[i].0.clone(), e[i].1.copy()));
                    i = i + 1;
                }
                proof {
                    lemma_entries_view(out@);
                    lemma_entries_view(e@);
                }
                assert(entries_view(out@) =~= entries_view(e@));
                Json::Object(out)
            },
        }
    }

    pub fn is_object(&self) -> (r: bool)
        ensures
            r <==> self@ is Object,
    {
        match self {
            Json::Object(_) => true,
            _ => false,
        }
    }

    /// `self[key] = v`. Fails, leaving the document as it was, when it is
    /// neither null nor an object.
    pub fn set_key(&mut self, key: &String, v: Json) -> (r: Result<(), ()>)
        ensures
            match json_set(old(self)@, key@, v@) {
                Some(n) => r is Ok && final(self)@ == n,
                None => r is Err && *final(self) == *old(self),
            },
    {
        match self {
            Json::Null => {
                let mut e: Vec<(String, Json)> = Vec::new();
                e.push((key.clone(), v));
                *self = Json::Object(e);
                proof { lemma_entries_view(e@); }
                assert(entries_view(e@) =~= seq![(key@, v@)]);
                Ok(())
            },
            Json::Object(e) => {
                set_in_entries(e, key, v);
                Ok(())
            },
            _ => Err(()),
        }
    }
}

fn set_in_entries(e: &mut Vec<(String, Json)>, key: &String, v: Json)
    ensures
        entries_view(final(e)@) == set_entry(entries_view(old(e)@), key@, v@),
{
    let ghost ev = entries_view(e@);
    let n = e.len();
    let mut i: usize = 0;
    while i < n
        invariant
            n == e@.len(),
            0 <= i <= n,
            ev == entries_view(e@),
            ev == entries_view(old(e)@),
            forall|j: int| 0 <= j < i ==> #[trigger] ev[j].0 != key@,
        decreases n - i,
    {
        proof {
            lemma_entries_view(e@);
        }
        if e[i].0 == *key {
            proof {
                lemma_set_entry_at(ev, key@, v@, i as int);
                lemma_entries_view(e@);
            }
            let ghost vv = v@;
            e.set(i, (key.clone(), v));
            proof {
                lemma_entries_view(e@);
            }
            assert(entries_view(e@) =~= ev.update(i as int, (key@, vv)));
            return;
        }
        i = i + 1;
    }
    proof {
        lemma_entries_view(e@);
        lemma_set_entry_absent(ev, key@, v@);
        lemma_entries_view(e@);
    }
    let ghost vv = v@;
    e.push((key.clone(), v));
    proof {
        lemma_entries_view(e@);
    }
    assert(entries_view(e@) =~= ev.push((key@, vv)));
}


proof fn lemma_mask_none(j: JsonV, keys: Seq<Seq<char>>, n: int)
    requires
        0 <= n <= keys.len(),
        mask_spec(j, keys.take(n)) is None,
    ensures
        mask_spec(j, keys) is None,
    decreases keys.len(),
{
    if n < keys.len() {
        assert(keys.drop_last().take(n) =~= keys.take(n));
        lemma_mask_none(j, keys.drop_last(), n);
    } else {
        assert(keys.take(n) =~= keys);
    }
}

/// Sets each of `keys`, in order, to null. Fails when the document is neither
/// an object nor null and there is a key to set.
pub fn mask_keys(j: &mut Json, keys: &Vec<String>) -> (r: Result<(), ()>)
    ensures
        match mask_spec(old(j)@, strings_view(keys@)) {
            Some(m) => r is Ok && final(j)@ == m,
            None => r is Err,
        },
{
    let ghost start = j@;
    let ghost ks = strings_view(keys@);
    let n = keys.len();
    let mut i: usize = 0;
    assert(ks.take(0) =~= Seq::<Seq<char>>::empty());
    while i < n
        invariant
            n == keys@.len(),
            ks == strings_view(keys@),
            start == old(j)@,
            0 <= i <= n,
            mask_spec(start, ks.take(i as int)) == Some(j@),
        decreases n - i,
    {
        assert(ks.take(i + 1).drop_last() =~= ks.take(i as int));
        assert(ks.take(i + 1).last() == keys@[i as int]@);
        if j.set_key(&keys[i], Json::Null).is_err() {
            proof {
                lemma_mask_none(start, ks, i + 1);
            }
            return Err(());
        }
        i = i + 1;
    }
    assert(ks.take(n as int) =~= ks);
    Ok(())
}

proof fn lemma_set_entry_keeps(e: Seq<(Seq<char>, JsonV)>, k: Seq<char>, v: JsonV, i: int)
    requires
        0 <= i < e.len(),
        e[i].0 != k,
    ensures
        i < set_entry(e, k, v).len(),
        set_entry(e, k, v)[i] == e[i],
    decreases e.len(),
{
    if e.len() > 0 && e[0].0 != k && i > 0 {
        lemma_set_entry_keeps(e.drop_first(), k, v, i - 1);
    }
}

/// Once a key is masked it stays in the document, with the value null: masking
/// never removes a key, and masking other keys after it leaves it alone.
pub proof fn lemma_masked_key_is_null(j: JsonV, keys: Seq<Seq<char>>, k: Seq<char>)
    requires
        keys.contains(k),
        mask_spec(j, keys) is Some,
    ensures
        mask_spec(j, keys).unwrap() is Object,
        exists|i: int| 0 <= i < mask_spec(j, keys).unwrap()->Object_0.len()
            && #[trigger] mask_spec(j, keys).unwrap()->Object_0[i] == (k, JsonV::Null),
    decreases keys.len(),
{
    let prev = mask_spec(j, keys.drop_last());
    let last = keys.last();
    if last == k {
        match prev.unwrap() {
            JsonV::Null => {
                assert(mask_spec(j, keys).unwrap()->Object_0[0] == (k, JsonV::Null));
            },
            JsonV::Object(e) => {
                lemma_set_entry_present(e, k, JsonV::Null);
                assert(mask_spec(j, keys).unwrap()->Object_0 == set_entry(e, k, JsonV::Null));
                let i = choose|i: int| 0 <= i < set_entry(e, k, JsonV::Null).len() && #[trigger] set_entry(e, k, JsonV::Null)[i] == (k, JsonV::Null);
                assert(mask_spec(j, keys).unwrap()->Object_0[i] == (k, JsonV::Null));
            },
            _ => {},
        }
    } else {
        let t = choose|t: int| 0 <= t < keys.len() && keys[t] == k;
        assert(keys.drop_last()[t] == k);
        lemma_masked_key_is_null(j, keys.drop_last(), k);
        let e = prev.unwrap()->Object_0;
        let i = choose|i: int| 0 <= i < e.len() && #[trigger] e[i] == (k, JsonV::Null);
        lemma_set_entry_keeps(e, last, JsonV::Null, i);
        assert(mask_spec(j, keys).unwrap()->Object_0[i] == (k, JsonV::Null));
    }
}

} // verus!
