//! Bearer API key authentication.
use std::sync::Arc;
use vstd::prelude::*;

use crate::config::AppConfig;
use crate::text::{chars_of, chars_eq, has_prefix, slice_chars, starts_with};

verus! {

broadcast use vstd::string::group_string_axioms;

pub struct Authenticator {
    expected_key: Option<String>,
}

/// Whether a request with the given `Authorization` header is let through
/// when the expected key is `key`: always without a key, otherwise exactly
/// when the header is `Bearer ` followed by the key.
pub open spec fn accepts(key: Option<Seq<char>>, header: Option<Seq<char>>) -> bool {
    match key {
        None => true,
        Some(k) => match header {
            Some(h) => has_prefix(h, "Bearer "@) && h.skip("Bearer "@.len() as int) == k,
            None => false,
        },
    }
}

impl Authenticator {
    /// The expected key, as the contracts see it.
    pub closed spec fn key(&self) -> Option<Seq<char>> {
        match self.expected_key {
            Some(k) => Some(k@),
            None => None,
        }
    }

    /// An authenticator for `cfg`.  `env_key` is the value of the environment
    /// variable that `cfg.auth.api_key_env` names, when it is set; the key is
    /// only expected when the configuration names such a variable.
    pub fn new(cfg: &Arc<AppConfig>, env_key: Option<String>) -> (a: Self)
        ensures
            a.key() == (match cfg.auth.api_key_env {
                Some(_) => match env_key {
                    Some(k) => Some(k@),
                    None => None,
                },
                None => None::<Seq<char>>,
            }),
    {
        let expected_key = match &cfg.auth.api_key_env {
            Some(_) => env_key,
            None => None,
        };
        Authenticator { expected_key }
    }

    /// Whether a request carrying `header` is let through (see `accepts`).
    pub fn validate(&self, header: Option<&str>) -> (b: bool)
        ensures
            b == accepts(
                self.key(),
                match header {
                    Some(h) => Some(h@),
                    None => None,
                },
            ),
    {
        let key = match &self.expected_key {
            Some(k) => k,
            None => return true,
        };
        match header {
            Some(h) => {
                let hv = chars_of(h);
                let bearer = chars_of("Bearer ");
                if starts_with(&hv, &bearer) {
                    let token = slice_chars(&hv, bearer.len(), hv.len());
                    let kv = chars_of(key.as_str());
                    assert(token@ == hv@.skip(bearer@.len() as int));
                    chars_eq(&token, &kv)
                } else {
                    false
                }
            },
            None => false,
        }
    }

    /// Whether a key is expected.
    pub fn is_enabled(&self) -> (b: bool)
        ensures
            b == self.key() is Some,
    {
        self.expected_key.is_some()
    }
}

/// With a key, exactly one header is accepted: `Bearer ` followed by the key.
pub proof fn lemma_only_bearer_key_accepted(key: Seq<char>, header: Seq<char>)
    ensures
        accepts(Some(key), Some(header)) <==> header == "Bearer "@ + key,
{
    let b = "Bearer "@;
    if accepts(Some(key), Some(header)) {
        assert(header =~= b + key) by {
            assert(header.take(b.len() as int) == b);
        }
    }
    if header == b + key {
        assert(header.take(b.len() as int) =~= b);
        assert(header.skip(b.len() as int) =~= key);
    }
}

/// Without a key every request is accepted.
pub proof fn lemma_disabled_accepts_all(header: Option<Seq<char>>)
    ensures
        accepts(None, header),
{
}

} // verus!
