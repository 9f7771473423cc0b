use dirsync::export::{
    budget_step, generate_task_name, group_prefix, has_new_events, parse_tags, render_prefix,
    tags_allow, Budget, ExportTask, ExportTaskInfo,
    Tag, EXPORT_TASK_PREFIX,
};
use dirsync::loggroups::should_delete_log_group;
use dirsync::remote::{
    add_user_members, classify_reply, contains_window, is_throttled, Member, MemberType, ScimReply,
};
use dirsync::slack::{parse_u64, signature_valid};
use dirsync::text::{replace_all, strip_prefix, trim_start_char};
use hmac::Mac;

fn s(v: &[&str]) -> Vec<String> {
    v.iter().map(|x| x.to_string()).collect()
}

fn tag(n: &str, v: &str) -> Tag {
    Tag { name: n.to_string(), value: v.to_string() }
}

fn task(from: i64, to: i64, name: &str, code: &str, group: &str) -> ExportTaskInfo {
    ExportTaskInfo {
        from: Some(from),
        to: Some(to),
        task_name: Some(name.to_string()),
        status_code: Some(code.to_string()),
        log_group_name: Some(group.to_string()),
    }
}

#[test]
fn log_groups_of_missing_functions_are_deleted() {
    let lambdas = s(&["fn-a"]);
    let projects = s(&["proj-a"]);
    assert!(!should_delete_log_group("/aws/lambda/fn-a", &lambdas, &projects));
    assert!(should_delete_log_group("/aws/lambda/fn-b", &lambdas, &projects));
    assert!(!should_delete_log_group("/aws/codebuild/proj-a", &lambdas, &projects));
    assert!(should_delete_log_group("/aws/codebuild/proj-b", &lambdas, &projects));
    assert!(!should_delete_log_group("/custom/group", &lambdas, &projects));
    assert!(!should_delete_log_group("/aws/lambda", &lambdas, &projects));
}

#[test]
fn export_task_in_window_is_counted() {
    let t = ExportTask::try_convert(task(100, 200, "AUTO-EXPORT-abc", "COMPLETED", "/g"), 100, 200);
    assert_eq!(t.map(|t| t.log_group_name), Some("/g".to_string()));
    let t = ExportTask::try_convert(task(100, 200, "AUTO-EXPORT-abc", "RUNNING", "/g"), 50, 250);
    assert!(t.is_some());
}

#[test]
fn export_task_outside_window_or_failed_is_not_counted() {
    assert!(ExportTask::try_convert(task(99, 200, "AUTO-EXPORT-a", "COMPLETED", "/g"), 100, 200).is_none());
    assert!(ExportTask::try_convert(task(100, 201, "AUTO-EXPORT-a", "COMPLETED", "/g"), 100, 200).is_none());
    assert!(ExportTask::try_convert(task(100, 200, "manual", "COMPLETED", "/g"), 100, 200).is_none());
    assert!(ExportTask::try_convert(task(100, 200, "AUTO-EXPORT-a", "FAILED", "/g"), 100, 200).is_none());
    assert!(ExportTask::try_convert(task(100, 200, "AUTO-EXPORT-a", "CANCELLED", "/g"), 100, 200).is_none());
    assert!(ExportTask::try_convert(task(100, 200, "AUTO-EXPORT-a", "PENDING_CANCEL", "/g"), 100, 200).is_none());
    assert!(ExportTask::try_convert(task(100, 200, "AUTO-EXPORT-a", "bogus", "/g"), 100, 200).is_none());
    let mut t = task(100, 200, "AUTO-EXPORT-a", "PENDING", "/g");
    t.log_group_name = None;
    assert!(ExportTask::try_convert(t, 100, 200).is_none());
}

#[test]
fn tag_filters() {
    let tags = vec![tag("team", "ops"), tag("env", "prod")];
    assert!(tags_allow(&tags, &None, &None));
    assert!(tags_allow(&tags, &Some(vec![tag("env", "prod")]), &None));
    assert!(!tags_allow(&tags, &Some(vec![tag("env", "dev")]), &None));
    assert!(!tags_allow(&tags, &Some(vec![]), &None));
    assert!(!tags_allow(&tags, &None, &Some(vec![tag("team", "ops")])));
    assert!(tags_allow(&tags, &None, &Some(vec![tag("team", "dev")])));
    assert!(!tags_allow(&tags, &Some(vec![tag("env", "prod")]), &Some(vec![tag("team", "ops")])));
}

#[test]
fn new_events_and_budget() {
    assert!(has_new_events(Some(10), 10));
    assert!(!has_new_events(Some(9), 10));
    assert!(!has_new_events(None, 10));
    assert_eq!(budget_step(100, 100, 50), Budget::Stop);
    assert_eq!(budget_step(60, 100, 50), Budget::Reinvoke);
    assert_eq!(budget_step(40, 100, 50), Budget::Work);
}

#[test]
fn task_names_have_prefix_and_random_suffix() {
    let a = generate_task_name();
    assert!(a.starts_with(EXPORT_TASK_PREFIX));
    assert_eq!(a.len(), EXPORT_TASK_PREFIX.len() + 7);
    assert!(a[EXPORT_TASK_PREFIX.len()..].chars().all(|c| c.is_ascii_alphanumeric()));
}

#[test]
fn scim_statuses() {
    assert_eq!(classify_reply(429, true, true), ScimReply::Retry);
    assert_eq!(classify_reply(409, true, false), ScimReply::Conflict);
    assert_eq!(classify_reply(409, false, false), ScimReply::Failed);
    assert_eq!(classify_reply(404, false, true), ScimReply::NotFound);
    assert_eq!(classify_reply(404, false, false), ScimReply::Failed);
    assert_eq!(classify_reply(500, true, true), ScimReply::Failed);
    assert_eq!(classify_reply(200, true, true), ScimReply::Success);
    assert_eq!(classify_reply(201, false, false), ScimReply::Success);
}

#[test]
fn only_people_are_members() {
    let mut emails = s(&["x@example.org"]);
    add_user_members(
        &mut emails,
        vec![
            Member { email: "a@example.org".to_string(), kind: MemberType::User },
            Member { email: "group@example.org".to_string(), kind: MemberType::Other },
            Member { email: "b@example.org".to_string(), kind: MemberType::User },
        ],
    );
    emails.sort();
    assert_eq!(emails, s(&["a@example.org", "b@example.org", "x@example.org"]));
}

#[test]
fn decimal_parsing() {
    assert_eq!(parse_u64(b"1531420618"), Some(1531420618));
    assert_eq!(parse_u64(b"+5"), Some(5));
    assert_eq!(parse_u64(b"0"), Some(0));
    assert_eq!(parse_u64(b"18446744073709551615"), Some(u64::MAX));
    assert_eq!(parse_u64(b"18446744073709551616"), None);
    assert_eq!(parse_u64(b"+"), None);
    assert_eq!(parse_u64(b""), None);
    assert_eq!(parse_u64(b"-1"), None);
    assert_eq!(parse_u64(b"12a"), None);
}

fn sign(secret: &str, ts: &str, body: &str) -> String {
    let mut mac = hmac::Hmac::<sha2::Sha256>::new_from_slice(secret.as_bytes()).unwrap();
    mac.update(format!("v0:{}:{}", ts, body).as_bytes());
    format!("v0={}", hex::encode(mac.finalize().into_bytes()))
}

#[test]
fn valid_signature_is_accepted() {
    let sig = sign("secret", "1000", "payload=1");
    assert_eq!(signature_valid("secret", Some(&sig), Some("1000"), "payload=1", 1200), Some(()));
    let upper = format!("v0={}", sig[3..].to_uppercase());
    assert_eq!(signature_valid("secret", Some(&upper), Some("1000"), "payload=1", 1200), Some(()));
}

#[test]
fn bad_signatures_are_refused() {
    let sig = sign("secret", "1000", "payload=1");
    assert_eq!(signature_valid("other", Some(&sig), Some("1000"), "payload=1", 1200), None);
    assert_eq!(signature_valid("secret", Some(&sig), Some("1000"), "payload=2", 1200), None);
    assert_eq!(signature_valid("secret", Some(&sig), Some("1000"), "payload=1", 1301), None);
    assert_eq!(signature_valid("secret", Some(&sig), None, "payload=1", 1200), None);
    assert_eq!(signature_valid("secret", None, Some("1000"), "payload=1", 1200), None);
    assert_eq!(signature_valid("secret", Some("v0"), Some("1000"), "payload=1", 1200), None);
    let wrong_prefix = format!("v1={}", &sig[3..]);
    assert_eq!(signature_valid("secret", Some(&wrong_prefix), Some("1000"), "payload=1", 1200), None);
    let odd = format!("{}0", sig);
    assert_eq!(signature_valid("secret", Some(&odd), Some("1000"), "payload=1", 1200), None);
    assert_eq!(signature_valid("secret", Some(&sig), Some("abc"), "payload=1", 1200), None);
}

#[test]
fn timestamp_at_leeway_is_accepted() {
    let sig = sign("k", "1000", "");
    assert_eq!(signature_valid("k", Some(&sig), Some("1000"), "", 1300), Some(()));
    assert_eq!(signature_valid("k", Some(&sig), Some("1000"), "", 10), Some(()));
}

#[test]
fn throttling_responses_are_recognised() {
    assert!(is_throttled(400, b"{\"__type\":\"ThrottlingException\"}"));
    assert!(!is_throttled(400, b"{\"__type\":\"ValidationException\"}"));
    assert!(is_throttled(429, b"Too Many Requests"));
    assert!(!is_throttled(429, b"Too Many"));
    assert!(!is_throttled(500, b"ThrottlingException"));
    assert!(contains_window(b"abc", b""));
    assert!(contains_window(b"abc", b"bc"));
    assert!(!contains_window(b"ab", b"abc"));
}

#[test]
fn tag_filters_are_parsed() {
    let tags = parse_tags("team=ops,env=prod").expect("valid tags");
    assert_eq!(tags, vec![tag("team", "ops"), tag("env", "prod")]);
    assert_eq!(parse_tags("a=b=c"), Some(vec![tag("a", "b=c")]));
    assert_eq!(parse_tags("=x"), Some(vec![tag("", "x")]));
    assert_eq!(parse_tags("k="), Some(vec![tag("k", "")]));
}

#[test]
fn malformed_tag_filters_are_refused() {
    assert_eq!(parse_tags(""), None);
    assert_eq!(parse_tags("a"), None);
    assert_eq!(parse_tags("a=b,"), None);
    assert_eq!(parse_tags("a=b,c"), None);
    assert_eq!(parse_tags(",a=b"), None);
}

#[test]
fn prefix_templates_are_filled() {
    assert_eq!(
        render_prefix("logs/{region}/{year}/{month}/{day}/", 2024, 3, 7, "eu-west-1"),
        "logs/eu-west-1/2024/03/07/"
    );
    assert_eq!(render_prefix("{year}-{year}", 5, 10, 31, "r"), "05-05");
    assert_eq!(render_prefix("plain", 2024, 1, 1, "r"), "plain");
    assert_eq!(group_prefix("x/{group}/{group}", "//aws/lambda/f"), "x/aws/lambda/f/aws/lambda/f");
    assert_eq!(group_prefix("{group}", "g"), "g");
}

#[test]
fn text_helpers() {
    assert_eq!(replace_all("aaa", "aa", "b"), "ba");
    assert_eq!(replace_all("", "a", "b"), "");
    assert_eq!(replace_all("xäy", "ä", "ae"), "xaey");
    assert_eq!(trim_start_char("///a/b", '/'), "a/b");
    assert_eq!(trim_start_char("///", '/'), "");
    assert_eq!(strip_prefix("/aws/lambda/f", "/aws/lambda/"), Some("f"));
    assert_eq!(strip_prefix("/aws/lam", "/aws/lambda/"), None);
}
