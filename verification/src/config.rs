//! Credential store: the per-service token record and the decisions of the
//! acquisition flow.
//!
//! The record holds one optional token per supported service. Reading and
//! writing the persisted file, and the interactive or browser-based
//! acquisition itself, belong to the surrounding application; the library
//! decides when acquisition is needed and how its outcome changes the
//! record.

use vstd::prelude::*;
use crate::errors::LocketError;
use crate::remote::LocketGitService;

verus! {

/// Per-service optional tokens. An absent field means "not yet
/// authenticated", a recoverable condition, not an error.
#[derive(Clone, Debug)]
pub struct LocketConfig {
    pub github_token: Option<String>,
    pub gitlab_token: Option<String>,
    pub bitbucket_token: Option<String>,
}

/// The token the record stores for a service.
pub open spec fn spec_token_for(c: LocketConfig, s: LocketGitService) -> Option<String> {
    match s {
        LocketGitService::Github => c.github_token,
        LocketGitService::Gitlab => c.gitlab_token,
        LocketGitService::Bitbucket => c.bitbucket_token,
    }
}

/// The stored token for a service, if any.
pub fn token_for(conf: &LocketConfig, service: &LocketGitService) -> (r: Option<String>)
    ensures
        r == spec_token_for(*conf, *service),
{
    match service {
        LocketGitService::Github => match &conf.github_token {
            Some(t) => Some(t.clone()),
            None => None,
        },
        LocketGitService::Gitlab => match &conf.gitlab_token {
            Some(t) => Some(t.clone()),
            None => None,
        },
        LocketGitService::Bitbucket => match &conf.bitbucket_token {
            Some(t) => Some(t.clone()),
            None => None,
        },
    }
}

/// Store a token for a service, leaving every other service's token as it
/// was. Entries are created lazily on first successful authentication and
/// never implicitly destroyed.
pub fn set_token(conf: &mut LocketConfig, service: &LocketGitService, token: String)
    ensures
        spec_token_for(*final(conf), *service) == Some(token),
        forall|s2: LocketGitService| s2 != *service ==> spec_token_for(*final(conf), s2)
            == spec_token_for(*old(conf), s2),
{
    match service {
        LocketGitService::Github => {
            conf.github_token = Some(token);
        },
        LocketGitService::Gitlab => {
            conf.gitlab_token = Some(token);
        },
        LocketGitService::Bitbucket => {
            conf.bitbucket_token = Some(token);
        },
    }
}

/// The next step of the acquisition flow for one service.
pub enum AuthStep {
    /// A token is stored: use it, no interaction needed.
    UseToken(String),
    /// No token is stored: the application must run its interactive or
    /// browser-based acquisition and report the outcome to
    /// [`apply_acquisition`].
    AcquireToken,
}

/// Decide whether a stored token can be used or acquisition is needed.
pub fn next_auth_step(conf: &LocketConfig, service: &LocketGitService) -> (r: AuthStep)
    ensures
        spec_token_for(*conf, *service) is Some ==> r is UseToken && r->0 == spec_token_for(
            *conf,
            *service,
        )->0,
        spec_token_for(*conf, *service) is None ==> r is AcquireToken,
{
    match token_for(conf, service) {
        Some(t) => AuthStep::UseToken(t),
        None => AuthStep::AcquireToken,
    }
}

/// Fold the outcome of an acquisition back into the record: a token is
/// persisted in the record and returned; a declined or cancelled
/// acquisition fails with `AuthenticationRequired` and changes nothing.
pub fn apply_acquisition(
    conf: &mut LocketConfig,
    service: &LocketGitService,
    outcome: Option<String>,
) -> (r: Result<String, LocketError>)
    ensures
        outcome is None ==> r == Err::<String, LocketError>(LocketError::AuthenticationRequired)
            && *final(conf) == *old(conf),
        outcome is Some ==> r is Ok && r->Ok_0 == outcome->0 && spec_token_for(
            *final(conf),
            *service,
        ) == Some(outcome->0) && forall|s2: LocketGitService|
            s2 != *service ==> spec_token_for(*final(conf), s2) == spec_token_for(
                *old(conf),
                s2,
            ),
{
    match outcome {
        None => Err(LocketError::AuthenticationRequired),
        Some(t) => {
            set_token(conf, service, t.clone());
            Ok(t)
        },
    }
}

/// The credential record a fresh environment starts from: no token stored
/// for any service, which is what loading a missing persisted file yields.
/// The application overlays what it actually read from disk.
pub fn read_locket_config() -> (r: Result<LocketConfig, LocketError>)
    ensures
        r is Ok,
        r->Ok_0.github_token is None,
        r->Ok_0.gitlab_token is None,
        r->Ok_0.bitbucket_token is None,
{
    Ok(LocketConfig { github_token: None, gitlab_token: None, bitbucket_token: None })
}

/// Resolve a usable token for a service from the default record alone. The
/// default record stores no token, so this always asks for acquisition by
/// failing with `AuthenticationRequired`; the application then runs the flow
/// through [`next_auth_step`] and [`apply_acquisition`] on the record it
/// actually loaded.
pub fn validate_user(service: &LocketGitService) -> (r: Result<String, LocketError>)
    ensures
        r == Err::<String, LocketError>(LocketError::AuthenticationRequired),
{
    let conf = match read_locket_config() {
        Err(e) => {
            return Err(e);
        },
        Ok(conf) => conf,
    };
    match token_for(&conf, service) {
        Some(t) => Ok(t),
        None => Err(LocketError::AuthenticationRequired),
    }
}

} // verus!
