//! Credential references and the authentication that an API surface declares.
use crate::api_contract::page::optional_text;
use crate::text::texts;
use vstd::prelude::*;

verus! {

/// Reference to secret material owned by a product credential store.
///
/// This is intentionally a handle, not a token or secret value. Consumers may
/// resolve it through a vault, a database secret table, an OS keychain, or a
/// per-request session store.
#[derive(Clone, Debug, PartialEq, Eq)]
pub struct CredentialRef {
    /// Store-local credential identifier.
    pub id: String,
    /// Optional stable version, revision, or generation.
    pub version: Option<String>,
}

impl CredentialRef {
    pub fn new(id: &str) -> (credential: Self)
        ensures
            credential.id@ == id@,
            credential.version is None,
    {
        CredentialRef { id: id.to_owned(), version: None }
    }

    pub fn with_version(self, version: &str) -> (credential: Self)
        ensures
            credential.id == self.id,
            optional_text(credential.version) == Some(version@),
    {
        CredentialRef { id: self.id, version: Some(version.to_owned()) }
    }
}

/// API authentication scheme required by a connection or endpoint.
#[derive(Clone, Debug, PartialEq, Eq)]
pub enum AuthScheme {
    /// No authentication.
    Open,
    BearerToken,
    ApiKey { location: ApiKeyLocation, name: String },
    OAuth2 { flows: Vec<OAuth2Flow>, scopes: Vec<String> },
}

/// Location for API-key injection.
#[derive(Clone, Copy, Debug, PartialEq, Eq, Structural)]
pub enum ApiKeyLocation {
    Header,
    Query,
    Cookie,
}

/// Supported OAuth2 flow labels. The actual token exchange remains in the product
/// adapter because it depends on provider endpoints and policy.
#[derive(Clone, Copy, Debug, PartialEq, Eq, Structural)]
pub enum OAuth2Flow {
    AuthorizationCode,
    ClientCredentials,
    DeviceCode,
    RefreshToken,
}

/// Declared auth requirement for an API surface.
#[derive(Clone, Debug, PartialEq, Eq)]
pub struct AuthRequirement {
    pub scheme: AuthScheme,
    pub scopes: Vec<String>,
}

impl AuthRequirement {
    pub fn new(scheme: AuthScheme) -> (requirement: Self)
        ensures
            requirement.scheme == scheme,
            requirement.scopes@.len() == 0,
    {
        AuthRequirement { scheme, scopes: Vec::new() }
    }

    pub fn with_scopes(self, scopes: &[&str]) -> (requirement: Self)
        ensures
            requirement.scheme == self.scheme,
            texts(requirement.scopes@) == scopes@.map_values(|scope: &str| scope@),
    {
        let mut names: Vec<String> = Vec::new();
        let mut i: usize = 0;
        while i < scopes.len()
            invariant
                i <= scopes@.len(),
                names@.len() == i,
                forall|k: int| 0 <= k < i ==> (#[trigger] names@[k])@ == scopes@[k]@,
            decreases scopes@.len() - i,
        {
            names.push(scopes[i].to_owned());
            i += 1;
        }
        assert(texts(names@) =~= scopes@.map_values(|scope: &str| scope@));
        AuthRequirement { scheme: self.scheme, scopes: names }
    }
}

/// Binding between an auth requirement and a credential reference.
#[derive(Clone, Debug, PartialEq, Eq)]
pub enum ConnectionAuth {
    /// No authentication.
    Open,
    Credential { requirement: AuthRequirement, credential: CredentialRef },
}

} // verus!
