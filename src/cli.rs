use vstd::prelude::*;
use vstd::string::*;

use crate::text::{find_char, first_index_of, trim, trim_spec};
use crate::ExtraArgs;

verus! {

/// The command line: one action.
pub struct Args {
    pub action: Action,
}

/// What the command line asks for.
#[non_exhaustive]
pub enum Action {
    /// Diff the two responses of a profile.
    Run(RunArgs),
    /// Build a profile from two URLs.
    Parse,
}

/// Arguments of a run: the profile's name, overrides and the configuration file.
pub struct RunArgs {
    pub profile: String,
    pub extra_params: Vec<KeyVal>,
    pub config: Option<String>,
}

/// Where an override goes: the query, a header or the body.
#[derive(Debug, Clone, Copy, PartialEq, Eq, Structural)]
pub enum KeyValType {
    Query,
    Header,
    Body,
}

/// One override: `key=value` for the query, `%key=value` for a header,
/// `#key=value` for the body.
#[derive(Debug, Clone, PartialEq, Eq)]
pub struct KeyVal {
    pub key_type: KeyValType,
    pub key: String,
    pub val: String,
}

/// Why an override could not be read.
#[derive(Debug, Clone, Copy, PartialEq, Eq, Structural)]
pub enum KeyValError {
    /// There is no `=`.
    MissingValue,
    /// The key is empty or starts with neither `%`, `#` nor an ASCII letter.
    InvalidKey,
}

pub open spec fn is_ascii_letter(c: char) -> bool {
    ('a' <= c && c <= 'z') || ('A' <= c && c <= 'Z')
}

/// What `parse_key_val` reads from `s`: the text before the first `=` and the
/// text after it, each trimmed; a leading `%` or `#` on the key names the
/// target and is dropped.
pub open spec fn key_val_spec(s: Seq<char>) -> Result<(KeyValType, Seq<char>, Seq<char>), KeyValError> {
    match first_index_of(s, '=') {
        None => Err(KeyValError::MissingValue),
        Some(i) => {
            let key = trim_spec(s.subrange(0, i));
            let val = trim_spec(s.subrange(i + 1, s.len() as int));
            if key.len() == 0 {
                Err(KeyValError::InvalidKey)
            } else if key[0] == '%' {
                Ok((KeyValType::Header, key.drop_first(), val))
            } else if key[0] == '#' {
                Ok((KeyValType::Body, key.drop_first(), val))
            } else if is_ascii_letter(key[0]) {
                Ok((KeyValType::Query, key, val))
            } else {
                Err(KeyValError::InvalidKey)
            }
        },
    }
}

/// Reads one override from the command line.
pub fn parse_key_val(s: &str) -> (r: Result<KeyVal, KeyValError>)
    ensures
        match key_val_spec(s@) {
            Ok((t, k, v)) => r matches Ok(kv) && kv.key_type == t && kv.key@ == k && kv.val@ == v,
            Err(e) => r == Err::<KeyVal, KeyValError>(e),
        },
{
    let eq = match find_char(s, '=') {
        Some(i) => i,
        None => return Err(KeyValError::MissingValue),
    };
    let n = s.unicode_len();
    let key = trim(s.substring_char(0, eq));
    let val = trim(s.substring_char(eq + 1, n));
    let klen = key.unicode_len();
    if klen == 0 {
        return Err(KeyValError::InvalidKey);
    }
    let first = key.get_char(0);
    let (key_type, key) = if first == '%' {
        (KeyValType::Header, key.substring_char(1, klen))
    } else if first == '#' {
        (KeyValType::Body, key.substring_char(1, klen))
    } else if ('a' <= first && first <= 'z') || ('A' <= first && first <= 'Z') {
        (KeyValType::Query, key)
    } else {
        return Err(KeyValError::InvalidKey);
    };
    assert(key@ =~= if first == '%' || first == '#' { trim_spec(s@.subrange(0, eq as int)).drop_first() } else { trim_spec(s@.subrange(0, eq as int)) });
    Ok(KeyVal { key_type, key: String::from_str(key), val: String::from_str(val) })
}

/// The (key, value) pairs of the overrides of one target, in order.
pub open spec fn pairs_of(args: Seq<KeyVal>, t: KeyValType) -> Seq<(Seq<char>, Seq<char>)>
    decreases args.len(),
{
    if args.len() == 0 {
        Seq::empty()
    } else if args.last().key_type == t {
        pairs_of(args.drop_last(), t).push((args.last().key@, args.last().val@))
    } else {
        pairs_of(args.drop_last(), t)
    }
}

pub open spec fn pairs_view(v: Seq<(String, String)>) -> Seq<(Seq<char>, Seq<char>)> {
    v.map_values(|p: (String, String)| (p.0@, p.1@))
}

impl ExtraArgs {
    /// Sorts overrides by target, keeping their order within each target.
    pub fn from(args: Vec<KeyVal>) -> (r: ExtraArgs)
        ensures
            pairs_view(r.query@) == pairs_of(args@, KeyValType::Query),
            pairs_view(r.headers@) == pairs_of(args@, KeyValType::Header),
            pairs_view(r.body@) == pairs_of(args@, KeyValType::Body),
    {
        let mut r = ExtraArgs { headers: Vec::new(), query: Vec::new(), body: Vec::new() };
        let n = args.len();
        let mut i: usize = 0;
        assert(args@.take(0) =~= Seq::<KeyVal>::empty());
        assert(pairs_view(r.query@) =~= Seq::<(Seq<char>, Seq<char>)>::empty());
        assert(pairs_view(r.headers@) =~= Seq::<(Seq<char>, Seq<char>)>::empty());
        assert(pairs_view(r.body@) =~= Seq::<(Seq<char>, Seq<char>)>::empty());
        while i < n
            invariant
                n == args@.len(),
                0 <= i <= n,
                pairs_view(r.query@) == pairs_of(args@.take(i as int), KeyValType::Query),
                pairs_view(r.headers@) == pairs_of(args@.take(i as int), KeyValType::Header),
                pairs_view(r.body@) == pairs_of(args@.take(i as int), KeyValType::Body),
            decreases n - i,
        {
            assert(args@.take(i + 1).drop_last() =~= args@.take(i as int));
            let arg = &args[i];
            let item = (arg.key.clone(), arg.val.clone());
            match arg.key_type {
                KeyValType::Query => r.query.push(item),
                KeyValType::Header => r.headers.push(item),
                KeyValType::Body => r.body.push(item),
            }
            assert(pairs_view(r.query@) =~= pairs_of(args@.take(i + 1), KeyValType::Query));
            assert(pairs_view(r.headers@) =~= pairs_of(args@.take(i + 1), KeyValType::Header));
            assert(pairs_view(r.body@) =~= pairs_of(args@.take(i + 1), KeyValType::Body));
            i = i + 1;
        }
        assert(args@.take(n as int) =~= args@);
        r
    }
}

} // verus!
