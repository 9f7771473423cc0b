//! Reconciles the groups, users and group memberships of a source directory
//! into a provisioning endpoint that may cap the size of its listings
//! (`sync`, over `model`, `lookup` and `diff`), together with the decisions
//! of a few AWS maintenance functions: which log groups to export or delete,
//! whether a Slack webhook request is genuinely signed, and how remote
//! answers are read.

pub mod apigw;
pub mod diff;
pub mod export;
pub mod loggroups;
pub mod lookup;
pub mod model;
pub mod remote;
pub mod slack;
pub mod sync;
pub mod text;
