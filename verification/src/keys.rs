//! The OIDC provider's published keys and the key chosen to check a token.
use vstd::prelude::*;
use crate::config::opt_view;

verus! {

/// `jsonwebtoken::jwk::JwkSet`: the provider's published keys.
#[verifier::external_type_specification]
#[verifier::external_body]
pub struct ExJwkSet(jsonwebtoken::jwk::JwkSet);

/// `jsonwebtoken::DecodingKey`: a key to check a token's signature with.
#[verifier::external_type_specification]
#[verifier::external_body]
pub struct ExDecodingKey(jsonwebtoken::DecodingKey);

/// The name for the key ids of a `JwkSet`: `keys[i].common.key_id` for each
/// key, in the order of `keys`.
pub uninterp spec fn jwk_key_ids(set: jsonwebtoken::jwk::JwkSet) -> Seq<Option<Seq<char>>>;

/// The name for which keys of a `JwkSet` `DecodingKey::from_jwk` accepts: for
/// each key, in the order of `keys`, whether it gives `Ok`.
pub uninterp spec fn jwk_usable(set: jsonwebtoken::jwk::JwkSet) -> Seq<bool>;

/// The name for what `DecodingKey::from_jwk` reports of the keys of a
/// `JwkSet`: for each key, in the order of `keys`, the text its error writes
/// by `Display` where it gives one.
pub uninterp spec fn jwk_errors(set: jsonwebtoken::jwk::JwkSet) -> Seq<Seq<char>>;

/// Reads `JwkSet::keys` and returns its length, claimed to be the number of
/// entries each of `jwk_key_ids`, `jwk_usable` and `jwk_errors` names.
#[verifier::external_body]
pub(crate) fn key_count(set: &jsonwebtoken::jwk::JwkSet) -> (r: usize)
    ensures
        r == jwk_key_ids(*set).len(),
        r == jwk_usable(*set).len(),
        r == jwk_errors(*set).len(),
{
    set.keys.len()
}

/// Reads `JwkSet::keys[i].common.key_id`, claimed to be the `i`-th of the key
/// ids `jwk_key_ids` names.
#[verifier::external_body]
pub(crate) fn key_id_at(set: &jsonwebtoken::jwk::JwkSet, i: usize) -> (r: Option<String>)
    requires
        i < jwk_key_ids(*set).len(),
    ensures
        opt_view(r) == jwk_key_ids(*set)[i as int],
{
    set.keys[i].common.key_id.clone()
}

/// A key of the provider made ready to check signatures, with its place in
/// the key set.
pub struct SelectedKey {
    index: usize,
    key: jsonwebtoken::DecodingKey,
}

impl SelectedKey {
    /// The place in the key set of the key this was made from.
    pub closed spec fn index_view(&self) -> nat {
        self.index as nat
    }

    /// The place in the key set of the key this was made from.
    pub fn index(&self) -> (r: usize)
        ensures
            r == self.index_view(),
    {
        self.index
    }

    /// The key to check a signature with.
    pub fn key(&self) -> &jsonwebtoken::DecodingKey {
        &self.key
    }
}

/// Calls `DecodingKey::from_jwk` on the `i`-th key of a key set, its error
/// written by `Display`. Claimed: it succeeds exactly where `jwk_usable`
/// says, what it gives is marked with `i`, and its error's text is the one
/// `jwk_errors` names.
#[verifier::external_body]
pub(crate) fn decoding_key_at(set: &jsonwebtoken::jwk::JwkSet, i: usize) -> (r: Result<
    SelectedKey,
    String,
>)
    requires
        i < jwk_key_ids(*set).len(),
        i < jwk_usable(*set).len(),
        i < jwk_errors(*set).len(),
    ensures
        r is Ok <==> jwk_usable(*set)[i as int],
        r matches Ok(k) ==> k.index_view() == i,
        r matches Err(e) ==> e@ == jwk_errors(*set)[i as int],
{
    jsonwebtoken::DecodingKey::from_jwk(&set.keys[i])
        .map(|key| SelectedKey { index: i, key })
        .map_err(|e| e.to_string())
}

} // verus!
