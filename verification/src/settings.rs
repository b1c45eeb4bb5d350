//! Where the queue service is reached, and with which credentials.

use vstd::prelude::*;
use vstd::string::*;
use crate::text::copied;

verus! {

broadcast use vstd::string::group_string_axioms;

/// Where a queue service for local development listens.
pub const LOCAL_ENDPOINT: &'static str = "http://localhost:4566";

/// The region that is used where none is configured.
pub const DEFAULT_REGION: &'static str = "us-east-1";

/// Both the key and the secret of the credentials for local development.
pub const TEST_CREDENTIAL: &'static str = "test";

/// What is set on top of the standard configuration.
#[derive(Debug)]
pub struct AwsSettings {
    /// The endpoint, where it is not the standard one.
    pub endpoint: Option<String>,
    /// Whether to use the credentials for local development.
    pub test_credentials: bool,
}

impl Clone for AwsSettings {
    fn clone(&self) -> (r: Self)
        ensures
            r.endpoint.deep_view() == self.endpoint.deep_view(),
            r.test_credentials == self.test_credentials,
    {
        AwsSettings {
            endpoint: copied(&self.endpoint),
            test_credentials: self.test_credentials,
        }
    }
}

/// The first of two texts that is there.
pub open spec fn first_of(a: Option<Seq<char>>, b: Option<Seq<char>>) -> Option<Seq<char>> {
    match a {
        Some(_) => a,
        None => b,
    }
}

/// The endpoint: the one that was asked for, else the local one in local mode, else none.
pub open spec fn effective_endpoint(local: bool, endpoint: Option<Seq<char>>) -> Option<Seq<char>> {
    first_of(
        endpoint,
        if local {
            Some(LOCAL_ENDPOINT@)
        } else {
            None
        },
    )
}

/// Works the settings out from the flags.
pub fn load_aws_config(local: bool, endpoint: &Option<String>) -> (r: AwsSettings)
    ensures
        r.endpoint.deep_view() == effective_endpoint(local, endpoint.deep_view()),
        r.test_credentials == local,
{
    let endpoint = match endpoint {
        Some(url) => Some(url.clone()),
        None => if local {
            Some(LOCAL_ENDPOINT.to_string())
        } else {
            None
        },
    };
    AwsSettings { endpoint, test_credentials: local }
}

/// The region: the one that is configured, else the default one.
pub fn effective_region(configured: Option<String>) -> (r: String)
    ensures
        Some(r@) == first_of(configured.deep_view(), Some(DEFAULT_REGION@)),
{
    match configured {
        Some(region) => region,
        None => DEFAULT_REGION.to_string(),
    }
}

/// The queue to poll: the one that was asked for, else the one of the environment.
pub fn poll_url(argument: Option<String>, environment: Option<String>) -> (r: Option<String>)
    ensures
        r.deep_view() == first_of(argument.deep_view(), environment.deep_view()),
{
    match argument {
        Some(url) => Some(url),
        None => environment,
    }
}

/// A queue, and how it is reached.
#[derive(Debug)]
pub struct SqsBatch {
    pub aws_config: AwsSettings,
    pub aws_sqs_queue_url: String,
}

impl SqsBatch {
    /// A queue for local development. The endpoint is the one that was asked for, else the one of
    /// the environment, else the local one.
    pub fn local(
        aws_sqs_queue_url: &str,
        aws_endpoint: &Option<String>,
        environment: &Option<String>,
    ) -> (r: Self)
        ensures
            r.aws_config.endpoint.deep_view() == first_of(
                aws_endpoint.deep_view(),
                first_of(environment.deep_view(), Some(LOCAL_ENDPOINT@)),
            ),
            r.aws_config.test_credentials,
            r.aws_sqs_queue_url@ == aws_sqs_queue_url@,
    {
        let endpoint = match aws_endpoint {
            Some(url) => url.clone(),
            None => match environment {
                Some(url) => url.clone(),
                None => LOCAL_ENDPOINT.to_string(),
            },
        };
        SqsBatch {
            aws_config: AwsSettings { endpoint: Some(endpoint), test_credentials: true },
            aws_sqs_queue_url: aws_sqs_queue_url.to_string(),
        }
    }
}

/// An endpoint that was asked for is the one that is used, whatever else is set. Without one, local
/// mode uses the local endpoint, and nothing is set outside it.
pub proof fn asked_for_endpoint_wins(local: bool, endpoint: Option<Seq<char>>)
    ensures
        endpoint is Some ==> effective_endpoint(local, endpoint) == endpoint,
        endpoint is None && local ==> effective_endpoint(local, endpoint) == Some(LOCAL_ENDPOINT@),
        endpoint is None && !local ==> effective_endpoint(local, endpoint) is None,
{
}

/// Of two texts the first counts where it is there, and else the second.
pub proof fn the_first_that_is_there_counts(first: Seq<char>, second: Option<Seq<char>>)
    ensures
        first_of(Some(first), second) == Some(first),
        first_of(None, second) == second,
{
}

/// Local mode is the service on this machine: its endpoint is that of port 4566, unless another was
/// asked for.
pub proof fn local_mode_is_this_machine(endpoint: Option<Seq<char>>)
    ensures
        endpoint is None ==> effective_endpoint(true, endpoint) == Some("http://localhost:4566"@),
        endpoint is Some ==> effective_endpoint(true, endpoint) == effective_endpoint(
            false,
            endpoint,
        ),
        effective_endpoint(false, endpoint) == endpoint,
        LOCAL_ENDPOINT@ == "http://localhost:4566"@,
        DEFAULT_REGION@ == "us-east-1"@,
        TEST_CREDENTIAL@ == "test"@,
{
}

} // verus!
