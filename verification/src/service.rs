//! The versions of the service and the addresses of its operations.

use vstd::prelude::*;
use vstd::string::StringExecFns;

verus! {

/// A version of the service's interface.
#[derive(Debug, Clone, Copy, PartialEq, Eq, Structural)]
pub enum AzureServiceVersion {
    V2023_09_01Preview,
    V2023_12_01Preview,
}

impl AzureServiceVersion {
    /// The version as the service spells it.
    pub open spec fn spec_str(self) -> Seq<char> {
        match self {
            AzureServiceVersion::V2023_09_01Preview => "2023-09-01-preview"@,
            AzureServiceVersion::V2023_12_01Preview => "2023-12-01-preview"@,
        }
    }

    /// The version as the service spells it.
    pub fn as_str(&self) -> (text: &'static str)
        ensures
            text@ == self.spec_str(),
    {
        match self {
            AzureServiceVersion::V2023_09_01Preview => "2023-09-01-preview",
            AzureServiceVersion::V2023_12_01Preview => "2023-12-01-preview",
        }
    }
}

/// The address of the chat completions of the service as OpenAI hosts it.
pub open spec fn openai_chat_completions() -> Seq<char> {
    "https://api.openai.com/v1/chat/completions"@
}

/// The address of the transcriptions of the service as OpenAI hosts it.
pub open spec fn openai_audio_transcriptions() -> Seq<char> {
    "https://api.openai.com/v1/audio/transcriptions"@
}

/// The address of an operation of a deployment: the endpoint, the
/// deployment's path, the operation, and the version as a query.
pub open spec fn deployment_address(
    endpoint: Seq<char>,
    deployment_name: Seq<char>,
    operation: Seq<char>,
    api_version: AzureServiceVersion,
) -> Seq<char> {
    endpoint + "/openai/deployments/"@ + deployment_name + operation + "?api-version="@
        + api_version.spec_str()
}

/// The address of the chat completions of the service as OpenAI hosts it.
pub fn openai_chat_completions_url() -> (url: &'static str)
    ensures
        url@ == openai_chat_completions(),
{
    "https://api.openai.com/v1/chat/completions"
}

/// The address of the transcriptions of the service as OpenAI hosts it.
pub fn openai_audio_transcriptions_url() -> (url: &'static str)
    ensures
        url@ == openai_audio_transcriptions(),
{
    "https://api.openai.com/v1/audio/transcriptions"
}

/// The address of an operation of a deployment.
fn deployment_url(
    endpoint: &str,
    deployment_name: &str,
    operation: &str,
    api_version: AzureServiceVersion,
) -> (url: String)
    ensures
        url@ == deployment_address(endpoint@, deployment_name@, operation@, api_version),
{
    let mut url = endpoint.to_owned();
    url.append("/openai/deployments/");
    url.append(deployment_name);
    url.append(operation);
    url.append("?api-version=");
    url.append(api_version.as_str());
    url
}

/// The address of the chat completions of a deployment on Azure.
pub fn chat_completions_url(
    endpoint: &str,
    deployment_name: &str,
    api_version: AzureServiceVersion,
) -> (url: String)
    ensures
        url@ == deployment_address(
            endpoint@,
            deployment_name@,
            "/chat/completions"@,
            api_version,
        ),
{
    deployment_url(endpoint, deployment_name, "/chat/completions", api_version)
}

/// The address of the transcriptions of a deployment on Azure.
pub fn audio_transcriptions_url(
    endpoint: &str,
    deployment_name: &str,
    api_version: AzureServiceVersion,
) -> (url: String)
    ensures
        url@ == deployment_address(
            endpoint@,
            deployment_name@,
            "/audio/transcriptions"@,
            api_version,
        ),
{
    deployment_url(endpoint, deployment_name, "/audio/transcriptions", api_version)
}

/// What a request asks the server for: the path and, behind a question
/// mark, the query, where there is one.
pub open spec fn spec_path_and_query(path: Seq<char>, query: Option<Seq<char>>) -> Seq<char> {
    match query {
        Some(query) => path + "?"@ + query,
        None => path,
    }
}

/// What a request asks the server for: the path and, behind a question
/// mark, the query, where there is one.
pub fn path_and_query(path: &str, query: Option<&str>) -> (result: String)
    ensures
        result@ == spec_path_and_query(
            path@,
            match query {
                Some(query) => Some(query@),
                None => None,
            },
        ),
{
    let mut result = path.to_owned();
    if let Some(query) = query {
        result.append("?");
        result.append(query);
    }
    result
}

} // verus!
