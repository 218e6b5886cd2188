//! What decoding a token checks: `jsonwebtoken::Validation`, described by
//! the values of its fields that this server sets.
use vstd::prelude::*;

verus! {

/// `jsonwebtoken::Validation`: what decoding a token checks.
#[verifier::external_type_specification]
#[verifier::external_body]
pub struct ExValidation(jsonwebtoken::Validation);

/// The name for `Validation::leeway`: the seconds of clock skew allowed.
pub uninterp spec fn validation_leeway(v: jsonwebtoken::Validation) -> u64;

/// The name for `Validation::validate_aud`: whether the audience is checked.
pub uninterp spec fn validation_checks_audience(v: jsonwebtoken::Validation) -> bool;

/// The name for `Validation::aud`: the accepted audiences, if any are set.
pub uninterp spec fn validation_audience(v: jsonwebtoken::Validation) -> Option<Set<Seq<char>>>;

/// The name for `Validation::iss`: the accepted issuers, if any are set.
pub uninterp spec fn validation_issuer(v: jsonwebtoken::Validation) -> Option<Set<Seq<char>>>;

/// The name for: the other fields of `v` (`algorithms`, `required_spec_claims`,
/// `validate_exp`, `validate_nbf`, `reject_tokens_expiring_in_less_than`,
/// `sub`) hold what `Validation::new(Algorithm::RS256)` gives them: tokens
/// signed with RS256 only, `exp` required and checked.
pub uninterp spec fn validation_rs256_rest(v: jsonwebtoken::Validation) -> bool;

/// Calls `Validation::new(Algorithm::RS256)`. Claimed, as its source sets
/// them: RS256 only, 60 seconds of leeway, the audience checked, no audience
/// and no issuer set.
#[verifier::external_body]
pub(crate) fn rs256_validation() -> (r: jsonwebtoken::Validation)
    ensures
        validation_rs256_rest(r),
        validation_leeway(r) == 60,
        validation_checks_audience(r),
        validation_audience(r) is None,
        validation_issuer(r) is None,
{
    jsonwebtoken::Validation::new(jsonwebtoken::Algorithm::RS256)
}

/// Writes the field `Validation::leeway`; claimed to change nothing else.
#[verifier::external_body]
pub(crate) fn set_leeway(v: &mut jsonwebtoken::Validation, secs: u64)
    ensures
        validation_leeway(*final(v)) == secs,
        validation_checks_audience(*final(v)) == validation_checks_audience(*old(v)),
        validation_audience(*final(v)) == validation_audience(*old(v)),
        validation_issuer(*final(v)) == validation_issuer(*old(v)),
        validation_rs256_rest(*final(v)) == validation_rs256_rest(*old(v)),
{
    v.leeway = secs;
}

/// Writes the field `Validation::validate_aud`; claimed to change nothing else.
#[verifier::external_body]
pub(crate) fn set_validate_aud(v: &mut jsonwebtoken::Validation, on: bool)
    ensures
        validation_checks_audience(*final(v)) == on,
        validation_leeway(*final(v)) == validation_leeway(*old(v)),
        validation_audience(*final(v)) == validation_audience(*old(v)),
        validation_issuer(*final(v)) == validation_issuer(*old(v)),
        validation_rs256_rest(*final(v)) == validation_rs256_rest(*old(v)),
{
    v.validate_aud = on;
}

/// Calls `Validation::set_audience` with one audience; claimed, as its source
/// does, to set `aud` to just that audience and change nothing else.
#[verifier::external_body]
pub(crate) fn set_audience(v: &mut jsonwebtoken::Validation, audience: &str)
    ensures
        validation_audience(*final(v)) == Some(Set::<Seq<char>>::empty().insert(audience@)),
        validation_leeway(*final(v)) == validation_leeway(*old(v)),
        validation_checks_audience(*final(v)) == validation_checks_audience(*old(v)),
        validation_issuer(*final(v)) == validation_issuer(*old(v)),
        validation_rs256_rest(*final(v)) == validation_rs256_rest(*old(v)),
{
    v.set_audience(&[audience]);
}

/// Calls `Validation::set_issuer` with one issuer; claimed, as its source
/// does, to set `iss` to just that issuer and change nothing else.
#[verifier::external_body]
pub(crate) fn set_issuer(v: &mut jsonwebtoken::Validation, issuer: &str)
    ensures
        validation_issuer(*final(v)) == Some(Set::<Seq<char>>::empty().insert(issuer@)),
        validation_leeway(*final(v)) == validation_leeway(*old(v)),
        validation_checks_audience(*final(v)) == validation_checks_audience(*old(v)),
        validation_audience(*final(v)) == validation_audience(*old(v)),
        validation_rs256_rest(*final(v)) == validation_rs256_rest(*old(v)),
{
    v.set_issuer(&[issuer]);
}

} // verus!
