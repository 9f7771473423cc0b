//! The request-context records of API Gateway events (payload versions 1
//! and 2), as plain data.

use vstd::prelude::*;

verus! {

/// The request context of a REST API (payload version 1) event.
#[derive(Debug, Clone, PartialEq)]
pub struct ApiGatewayEventV1RequestContext {
    pub account_id: Option<String>,
    pub apiid: Option<String>,
    pub authorizer: Option<ApiGatewayEventV1Authorizer>,
    pub domain_name: Option<String>,
    pub domain_prefix: Option<String>,
    pub extended_request_id: Option<String>,
    pub http_method: Option<String>,
    pub identity: Option<ApiGatewayEventV1Identity>,
    pub path: Option<String>,
    pub protocol: Option<String>,
    pub request_id: Option<String>,
    pub request_time: Option<String>,
    pub request_time_epoch: Option<i64>,
    pub resource_id: Option<String>,
    pub resource_path: Option<String>,
    pub stage: Option<String>,
}

/// What the authorizer of a version 1 event passed on.
#[derive(Debug, Clone, PartialEq)]
pub struct ApiGatewayEventV1Authorizer {
    pub claims: Option<std::collections::HashMap<String, String>>,
    pub scopes: Option<Vec<String>>,
}

/// The caller identity of a version 1 event.
#[derive(Debug, Clone, PartialEq)]
pub struct ApiGatewayEventV1Identity {
    pub access_key: Option<String>,
    pub account_id: Option<String>,
    pub caller: Option<String>,
    pub cognito_authentication_provider: Option<String>,
    pub cognito_authentication_type: Option<String>,
    pub cognito_identity_id: Option<String>,
    pub cognito_identity_pool_id: Option<String>,
    pub principal_org_id: Option<String>,
    pub source_ip: Option<String>,
    pub user: Option<String>,
    pub user_agent: Option<String>,
    pub user_arn: Option<String>,
    pub client_cert: Option<ApiGatewayEventV1ClientCert>,
}

/// The client certificate of a version 1 event.
#[derive(Debug, Clone, PartialEq)]
pub struct ApiGatewayEventV1ClientCert {
    pub client_cert_pem: Option<String>,
    pub subject_dn: Option<String>,
    pub issuer_dn: Option<String>,
    pub serial_number: Option<String>,
    pub validity: Option<ApiGatewayEventV1Validity>,
}

/// The validity period of a version 1 client certificate.
#[derive(Debug, Clone, PartialEq)]
pub struct ApiGatewayEventV1Validity {
    pub not_before: Option<String>,
    pub not_after: Option<String>,
}

/// The request context of an HTTP API (payload version 2) event.
#[derive(Debug, Clone, PartialEq)]
pub struct ApiGatewayEventV2RequestContext<Auth> {
    pub account_id: Option<String>,
    pub apiid: Option<String>,
    pub authentication: Option<ApiGatewayEventV2Authentication>,
    pub authorizer: Option<ApiGatewayEventV2Authorizer<Auth>>,
    pub domain_name: Option<String>,
    pub domain_prefix: Option<String>,
    pub http: Option<ApiGatewayEventV2Http>,
    pub request_id: Option<String>,
    pub route_key: Option<String>,
    pub stage: Option<String>,
    pub time: Option<String>,
    pub time_epoch: Option<i64>,
}

/// What the authorizer of a version 2 event passed on.
#[derive(Debug, Clone, PartialEq)]
pub struct ApiGatewayEventV2Authorizer<Auth> {
    pub jwt: Option<ApiGatewayEventV2Jwt>,
    pub lambda: Option<std::collections::HashMap<String, Auth>>,
    pub iam: Option<ApiGatewayEventV2Iam>,
}

/// The JWT claims and scopes of a version 2 authorizer.
#[derive(Debug, Clone, PartialEq)]
pub struct ApiGatewayEventV2Jwt {
    pub claims: Option<std::collections::HashMap<String, String>>,
    pub scopes: Option<Vec<String>>,
}

/// The IAM identity of a version 2 authorizer.
#[derive(Debug, Clone, PartialEq)]
pub struct ApiGatewayEventV2Iam {
    pub access_key: Option<String>,
    pub account_id: Option<String>,
    pub caller_id: Option<String>,
    pub cognito_identity: Option<ApiGatewayEventV2CognitoIdentity>,
    pub principal_org_id: Option<String>,
    pub user_arn: Option<String>,
    pub user_id: Option<String>,
}

/// The Cognito identity of a version 2 IAM authorizer.
#[derive(Debug, Clone, PartialEq)]
pub struct ApiGatewayEventV2CognitoIdentity {
    pub amr: Option<Vec<String>>,
    pub identity_id: Option<String>,
    pub identity_pool_id: Option<String>,
}

/// The HTTP details of a version 2 event.
#[derive(Debug, Clone, PartialEq)]
pub struct ApiGatewayEventV2Http {
    pub method: Option<String>,
    pub path: Option<String>,
    pub protocol: Option<String>,
    pub source_ip: Option<String>,
    pub user_agent: Option<String>,
}

/// The authentication details of a version 2 event.
#[derive(Debug, Clone, PartialEq)]
pub struct ApiGatewayEventV2Authentication {
    pub client_cert: Option<ApiGatewayEventV2ClientCert>,
}

/// The client certificate of a version 2 event.
#[derive(Debug, Clone, PartialEq)]
pub struct ApiGatewayEventV2ClientCert {
    pub client_cert_pem: Option<String>,
    pub subject_dn: Option<String>,
    pub issuer_dn: Option<String>,
    pub serial_number: Option<String>,
    pub validity: Option<ApiGatewayEventV2Validity>,
}

/// The validity period of a version 2 client certificate.
#[derive(Debug, Clone, PartialEq)]
pub struct ApiGatewayEventV2Validity {
    pub not_before: Option<String>,
    pub not_after: Option<String>,
}

} // verus!
