use vstd::prelude::*;
use vstd::string::*;

use crate::diff::{diff_text, is_line_diff};
use crate::request::{generate_spec, is_object_or_absent, ConfigError, RequestError, RequestParts, RequestProfile};
use crate::response::{canonical_spec, FilterError, ResponseExt};
use crate::cli::pairs_view;
use crate::json::compact_text_of;
use crate::ExtraArgs;

verus! {

/// What to leave out of a response before it is compared: headers by exact
/// name, and top-level body keys, which are set to null.
pub struct ResponseProfile {
    pub skip_headers: Vec<String>,
    pub skip_body: Vec<String>,
}

impl ResponseProfile {
    pub fn new(skip_headers: Vec<String>, skip_body: Vec<String>) -> (r: Self)
        ensures
            r.skip_headers@ == skip_headers@,
            r.skip_body@ == skip_body@,
    {
        ResponseProfile { skip_headers, skip_body }
    }
}

/// Two requests to compare, and what to leave out of their responses.
pub struct DiffProfile {
    pub request_first: RequestProfile,
    pub request_second: RequestProfile,
    pub response: Option<ResponseProfile>,
}

/// Which request of a profile is not usable, and why.
#[derive(Debug, Clone, Copy, PartialEq, Eq, Structural)]
pub enum ProfileError {
    RequestFirst(ConfigError),
    RequestSecond(ConfigError),
}

/// A profile of a configuration that is not usable.
pub struct InvalidProfile {
    pub name: String,
    pub error: ProfileError,
}

/// All profiles, by name.
pub struct DiffConfig {
    pub profiles: Vec<(String, DiffProfile)>,
}

pub open spec fn request_check(p: RequestProfile) -> Option<ConfigError> {
    if !is_object_or_absent(p.params) {
        Some(ConfigError::ParamsNotObject)
    } else if !is_object_or_absent(p.body) {
        Some(ConfigError::BodyNotObject)
    } else {
        None
    }
}

/// The first fault of a profile: in its first request, then in its second.
pub open spec fn profile_check(p: DiffProfile) -> Option<ProfileError> {
    match request_check(p.request_first) {
        Some(e) => Some(ProfileError::RequestFirst(e)),
        None => match request_check(p.request_second) {
            Some(e) => Some(ProfileError::RequestSecond(e)),
            None => None,
        },
    }
}

/// `parts` is what `generate` owes for a profile whose overrides apply.
pub open spec fn prepared(p: RequestProfile, args: ExtraArgs, parts: RequestParts) -> bool {
    match generate_spec(p, args) {
        Ok((h, q, b)) => pairs_view(parts.headers@) == h && parts.query@ == q && parts.body@ == compact_text_of(b),
        Err(_) => false,
    }
}

impl DiffProfile {
    pub fn new(req1: RequestProfile, req2: RequestProfile, response_profile: ResponseProfile) -> (r: Self)
        ensures
            r.request_first == req1,
            r.request_second == req2,
            r.response == Some(response_profile),
    {
        DiffProfile { request_first: req1, request_second: req2, response: Some(response_profile) }
    }

    /// Fails on the first request that is not usable.
    pub fn validate(&self) -> (r: Result<(), ProfileError>)
        ensures
            match profile_check(*self) {
                Some(e) => r == Err::<(), ProfileError>(e),
                None => r is Ok,
            },
    {
        if let Err(e) = self.request_first.validate() {
            return Err(ProfileError::RequestFirst(e));
        }
        if let Err(e) = self.request_second.validate() {
            return Err(ProfileError::RequestSecond(e));
        }
        Ok(())
    }

    /// Both requests with the same overrides merged in; fails when either
    /// cannot be prepared.
    pub fn prepare(&self, args: &ExtraArgs) -> (r: Result<(RequestParts, RequestParts), RequestError>)
        ensures
            generate_spec(self.request_first, *args) matches Err(e) ==> r == Err::<(RequestParts, RequestParts), RequestError>(e),
            generate_spec(self.request_first, *args) is Ok && generate_spec(self.request_second, *args) is Err
                ==> r == Err::<(RequestParts, RequestParts), RequestError>(generate_spec(self.request_second, *args)->Err_0),
            generate_spec(self.request_first, *args) is Ok && generate_spec(self.request_second, *args) is Ok ==> r is Ok
                && prepared(self.request_first, *args, r->Ok_0.0) && prepared(self.request_second, *args, r->Ok_0.1),
    {
        let p1 = self.request_first.generate(args)?;
        let p2 = self.request_second.generate(args)?;
        Ok((p1, p2))
    }

    /// Brings both responses to their canonical text under the profile's
    /// filter and diffs them; fails when either cannot be brought to text.
    pub fn diff(&self, res1: &ResponseExt, res2: &ResponseExt) -> (r: Result<String, FilterError>)
        ensures
            canonical_spec(*res1, self.response) matches Err(e) ==> r == Err::<String, FilterError>(e),
            canonical_spec(*res1, self.response) is Ok && canonical_spec(*res2, self.response) is Err
                ==> r == Err::<String, FilterError>(canonical_spec(*res2, self.response)->Err_0),
            canonical_spec(*res1, self.response) is Ok && canonical_spec(*res2, self.response) is Ok ==> r is Ok
                && is_line_diff(canonical_spec(*res1, self.response)->Ok_0, canonical_spec(*res2, self.response)->Ok_0, r->Ok_0@),
    {
        let text1 = res1.filter_text(&self.response)?;
        let text2 = res2.filter_text(&self.response)?;
        Ok(diff_text(text1.as_str(), text2.as_str()))
    }
}

impl DiffConfig {
    /// The first profile of that name.
    pub fn get_profile(&self, name: &str) -> (r: Option<&DiffProfile>)
        ensures
            r is None <==> forall|i: int| 0 <= i < self.profiles@.len() ==> #[trigger] self.profiles@[i].0@ != name@,
            r matches Some(p) ==> exists|i: int|
                0 <= i < self.profiles@.len() && #[trigger] self.profiles@[i].0@ == name@ && *p == self.profiles@[i].1,
    {
        let key = String::from_str(name);
        let n = self.profiles.len();
        let mut i: usize = 0;
        while i < n
            invariant
                n == self.profiles@.len(),
                0 <= i <= n,
                key@ == name@,
                forall|j: int| 0 <= j < i ==> #[trigger] self.profiles@[j].0@ != name@,
            decreases n - i,
        {
            if self.profiles[i].0 == key {
                return Some(&self.profiles[i].1);
            }
            i = i + 1;
        }
        None
    }

    /// Fails on the first profile that is not usable, naming it.
    pub fn validate(&self) -> (r: Result<(), InvalidProfile>)
        ensures
            r is Ok <==> forall|i: int| 0 <= i < self.profiles@.len() ==> profile_check(#[trigger] self.profiles@[i].1) is None,
            r matches Err(e) ==> exists|i: int|
                0 <= i < self.profiles@.len() && #[trigger] self.profiles@[i].0@ == e.name@
                && profile_check(self.profiles@[i].1) == Some(e.error),
    {
        let n = self.profiles.len();
        let mut i: usize = 0;
        while i < n
            invariant
                n == self.profiles@.len(),
                0 <= i <= n,
                forall|j: int| 0 <= j < i ==> profile_check(#[trigger] self.profiles@[j].1) is None,
            decreases n - i,
        {
            if let Err(e) = self.profiles[i].1.validate() {
                let name = self.profiles[i].0.clone();
                assert(self.profiles@[i as int].0@ == name@);
                return Err(InvalidProfile { name, error: e });
            }
            i = i + 1;
        }
        Ok(())
    }
}

} // verus!
