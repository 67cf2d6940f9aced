//! Key credentials and the authorization header that carries them.

use vstd::prelude::*;
use vstd::string::StringExecFns;

verus! {

/// The name of the header that carries a credential.
pub open spec fn authorization() -> Seq<char> {
    "authorization"@
}

/// A key for a deployment of the service on Azure.
pub struct AzureKeyCredential {
    secret: String,
}

/// A key for the service as OpenAI hosts it.
pub struct OpenAIKeyCredential {
    secret: String,
}

impl AzureKeyCredential {
    /// The key itself.
    pub closed spec fn secret(&self) -> Seq<char> {
        self.secret@
    }

    /// A credential that holds `api_key`.
    pub fn new(api_key: String) -> (credential: AzureKeyCredential)
        ensures
            credential.secret() == api_key@,
    {
        AzureKeyCredential { secret: api_key }
    }

    /// The name of the header that carries the key.
    pub fn name(&self) -> (name: &'static str)
        ensures
            name@ == authorization(),
    {
        "authorization"
    }

    /// The header's value: `api-key`, a space and the key.
    pub fn value(&self) -> (value: String)
        ensures
            value@ == "api-key "@ + self.secret(),
    {
        "api-key ".to_owned().concat(self.secret.as_str())
    }
}

impl OpenAIKeyCredential {
    /// The key itself.
    pub closed spec fn secret(&self) -> Seq<char> {
        self.secret@
    }

    /// A credential that holds `access_token`.
    pub fn new(access_token: String) -> (credential: OpenAIKeyCredential)
        ensures
            credential.secret() == access_token@,
    {
        OpenAIKeyCredential { secret: access_token }
    }

    /// The name of the header that carries the key.
    pub fn name(&self) -> (name: &'static str)
        ensures
            name@ == authorization(),
    {
        "authorization"
    }

    /// The header's value: `Bearer`, a space and the key.
    pub fn value(&self) -> (value: String)
        ensures
            value@ == "Bearer "@ + self.secret(),
    {
        "Bearer ".to_owned().concat(self.secret.as_str())
    }
}

} // verus!
