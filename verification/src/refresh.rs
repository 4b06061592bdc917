//! The decisions of the refresh pipeline: how a successful token
//! exchange mutates a credential, how onboarding adopts a discovered
//! project, and the pipeline's concurrency bound. The HTTP exchange
//! itself is the I/O layer's; it hands the parsed token fields in and
//! carries the mutated credential out.

use vstd::prelude::*;
use vstd::string::StringSliceAdditionalSpecFns;

use crate::CredentialId;
use crate::credentials::GoogleCredential;
use crate::errors::NexusError;
use crate::jwt::{email_from_id_token, spec_email_of_id_token};
use crate::manager::{clamp_secs, sat_add64};

verus! {

/// One unit of work for the refresh pipeline. `Maintain` refreshes
/// tokens only; `Onboard` refreshes and then discovers the companion
/// project before first persistence.
pub enum JobInstruction {
    Maintain { id: CredentialId, cred: GoogleCredential },
    Onboard { cred: GoogleCredential },
}

/// What a finished job reports back to the coordinator, carrying the
/// (possibly mutated) instruction.
pub enum RefreshOutcome {
    Success(JobInstruction),
    Failed(JobInstruction, NexusError),
}

/// Apply a successful token response: the new access token, the
/// expiry `now + expires_in` (saturating), and — when the response
/// carried an `id_token` whose email can be lifted — the email.
/// Identity fields are untouched.
pub fn apply_token_response(
    cred: &mut GoogleCredential,
    access_token: String,
    expires_in: u64,
    id_token: Option<&String>,
    now: i64,
)
    ensures
        final(cred).project_id == old(cred).project_id,
        final(cred).refresh_token == old(cred).refresh_token,
        final(cred).access_token == Some(access_token),
        final(cred)@.expiry == sat_add64(now as int, clamp_secs(expires_in as int)),
        final(cred)@.email == match id_token {
            Some(t) => match spec_email_of_id_token(vstd::utf8::encode_utf8(t@)) {
                Some(e) => Some(e),
                None => old(cred)@.email,
            },
            None => old(cred)@.email,
        },
{
    cred.access_token = Some(access_token);
    let d: i64 = if expires_in > (i64::MAX as u64) {
        i64::MAX
    } else {
        expires_in as i64
    };
    cred.expiry = if now > i64::MAX - d {
        i64::MAX
    } else {
        now + d
    };
    if id_token.is_some() {
        let t = id_token.unwrap();
        match email_from_id_token(t.as_str()) {
            Some(e) => {
                cred.email = Some(e);
            },
            None => {},
        }
    }
}

/// Onboarding adopts the discovered companion project as the
/// credential's identity; without one the identity stays.
pub fn adopt_project(cred: &mut GoogleCredential, discovered: Option<String>)
    ensures
        final(cred).email == old(cred).email,
        final(cred).refresh_token == old(cred).refresh_token,
        final(cred).access_token == old(cred).access_token,
        final(cred).expiry == old(cred).expiry,
        final(cred).project_id == match discovered {
            Some(p) => p,
            None => old(cred).project_id,
        },
{
    match discovered {
        Some(p) => {
            cred.project_id = p;
        },
        None => {},
    }
}

/// The pipeline runs at least one job at a time, whatever the
/// configuration says.
pub fn effective_concurrency(configured: usize) -> (r: usize)
    ensures
        r == if configured >= 1 {
            configured as int
        } else {
            1
        },
{
    if configured >= 1 {
        configured
    } else {
        1
    }
}

} // verus!
