//! The refreshable identity: an OAuth2 refresh-token-bearing credential
//! for one cloud project, and the immutable snapshot handed to request
//! handlers.

use vstd::prelude::*;

verus! {

/// Mathematical image of a credential: every string as a sequence of
/// characters, the expiry as an unbounded instant (seconds since the
/// Unix epoch).
pub struct CredV {
    pub email: Option<Seq<char>>,
    pub project_id: Seq<char>,
    pub refresh_token: Seq<char>,
    pub access_token: Option<Seq<char>>,
    pub expiry: int,
}

/// A refreshable identity for one cloud project. `project_id` is the
/// unique identity; only a refresh mutates `access_token`, `expiry`
/// and (optionally) `email`. Instants are seconds since the Unix epoch.
pub struct GoogleCredential {
    pub email: Option<String>,
    pub project_id: String,
    pub refresh_token: String,
    pub access_token: Option<String>,
    pub expiry: i64,
}

impl View for GoogleCredential {
    type V = CredV;

    open spec fn view(&self) -> CredV {
        CredV {
            email: match self.email {
                Some(e) => Some(e@),
                None => None,
            },
            project_id: self.project_id@,
            refresh_token: self.refresh_token@,
            access_token: match self.access_token {
                Some(t) => Some(t@),
                None => None,
            },
            expiry: self.expiry as int,
        }
    }
}

/// A credential is well formed when its identity and its refresh token
/// are present.
pub open spec fn cred_wf(c: CredV) -> bool {
    c.project_id.len() > 0 && c.refresh_token.len() > 0
}

impl Clone for GoogleCredential {
    fn clone(&self) -> (res: Self)
        ensures
            res == *self,
    {
        GoogleCredential {
            email: match &self.email {
                Some(e) => Some(e.clone()),
                None => None,
            },
            project_id: self.project_id.clone(),
            refresh_token: self.refresh_token.clone(),
            access_token: match &self.access_token {
                Some(t) => Some(t.clone()),
                None => None,
            },
            expiry: self.expiry,
        }
    }
}

impl GoogleCredential {
    /// A credential with no access token is not assignable; one whose
    /// token has outlived `expiry` (less the clock-skew allowance) is
    /// not either.
    pub open spec fn spec_usable_at(&self, now: int, skew: int) -> bool {
        self.access_token is Some && now < self@.expiry - skew
    }
}

/// Mathematical image of an assignment snapshot.
pub struct AssignV {
    pub id: i64,
    pub project_id: Seq<char>,
    pub access_token: Seq<char>,
    pub target_model: Seq<char>,
}

/// Short-lived, immutable snapshot returned to a handler. It confers
/// no ownership: the coordinator remains authoritative.
pub struct AssignedCredential {
    pub id: i64,
    pub project_id: String,
    pub access_token: String,
    pub target_model: String,
}

impl View for AssignedCredential {
    type V = AssignV;

    open spec fn view(&self) -> AssignV {
        AssignV {
            id: self.id,
            project_id: self.project_id@,
            access_token: self.access_token@,
            target_model: self.target_model@,
        }
    }
}

impl Clone for AssignedCredential {
    fn clone(&self) -> (res: Self)
        ensures
            res == *self,
    {
        AssignedCredential {
            id: self.id,
            project_id: self.project_id.clone(),
            access_token: self.access_token.clone(),
            target_model: self.target_model.clone(),
        }
    }
}

} // verus!
