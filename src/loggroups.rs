//! Which CloudWatch log groups are left over from deleted Lambda functions
//! or CodeBuild projects.

use crate::lookup::{contains_string, strings_contain};
use crate::text::{is_prefix, strip_prefix};
use vstd::prelude::*;

verus! {

/// The log group prefix of Lambda functions.
pub const LAMBDA_PREFIX: &'static str = "/aws/lambda/";

/// The log group prefix of CodeBuild projects.
pub const CODEBUILD_PREFIX: &'static str = "/aws/codebuild/";

/// A log group is deleted when it belongs to a Lambda function or a
/// CodeBuild project that no longer exists; other groups are kept.
pub open spec fn log_group_unused(
    group: Seq<char>,
    lambda_prefix: Seq<char>,
    codebuild_prefix: Seq<char>,
    lambdas: Seq<String>,
    projects: Seq<String>,
) -> bool {
    if is_prefix(lambda_prefix, group) {
        !strings_contain(lambdas, group.subrange(lambda_prefix.len() as int, group.len() as int))
    } else if is_prefix(codebuild_prefix, group) {
        !strings_contain(projects, group.subrange(codebuild_prefix.len() as int, group.len() as int))
    } else {
        false
    }
}

/// Whether the log group `group` is to be deleted, given the names of the
/// existing Lambda functions and CodeBuild projects.
pub fn should_delete_log_group(group: &str, lambdas: &Vec<String>, projects: &Vec<String>) -> (r: bool)
    ensures
        r == log_group_unused(group@, LAMBDA_PREFIX@, CODEBUILD_PREFIX@, lambdas@, projects@),
{
    match strip_prefix(group, LAMBDA_PREFIX) {
        Some(name) => !contains_string(lambdas, &String::from_str(name)),
        None => match strip_prefix(group, CODEBUILD_PREFIX) {
            Some(name) => !contains_string(projects, &String::from_str(name)),
            None => false,
        },
    }
}

} // verus!
