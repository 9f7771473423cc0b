use dirsync::model::{
    create_group, create_user, SourceGroup, SourceUser, SourceUserMail, SourceUserName,
    SyncStrategie, TargetGroup, TargetUser,
};
use dirsync::sync::{AfterCreate, AfterFetch, MemberAction, SyncOp};

fn sgroup(email: &str) -> SourceGroup {
    SourceGroup { id: format!("gid-{}", email), email: email.to_string() }
}

fn suser(email: &str) -> SourceUser {
    SourceUser {
        id: format!("uid-{}", email),
        primary_email: email.to_string(),
        suspended: None,
        name: SourceUserName {
            full_name: format!("Full {}", email),
            family_name: "Family".to_string(),
            given_name: "Given".to_string(),
        },
        emails: vec![SourceUserMail {
            address: email.to_string(),
            primary: Some(true),
            kind: Some("work".to_string()),
        }],
        thumbnail_photo_url: None,
    }
}

fn tgroup(name: &str, id: Option<&str>) -> TargetGroup {
    TargetGroup { id: id.map(|s| s.to_string()), display_name: name.to_string() }
}

fn tuser(name: &str, id: Option<&str>) -> TargetUser {
    let mut u = create_user(&suser(name));
    u.id = id.map(|s| s.to_string());
    u
}

fn keys_of_users(v: &[SourceUser]) -> Vec<String> {
    let mut k: Vec<String> = v.iter().map(|u| u.primary_email.clone()).collect();
    k.sort();
    k
}

fn strs(v: &[&str]) -> Vec<String> {
    v.iter().map(|s| s.to_string()).collect()
}

#[test]
fn group_scenario_creates_missing_and_keeps_existing() {
    let op = SyncOp::new(
        50,
        vec![],
        vec![tgroup("eng", Some("1"))],
        vec![sgroup("eng"), sgroup("sales")],
        vec![],
    );
    assert!(op.groups_to_delete().is_empty());
    let create = op.groups_to_create();
    assert_eq!(create.len(), 1);
    assert_eq!(create[0].display_name, "sales");
    assert!(create[0].id.is_none());
}

#[test]
fn group_diff_deletes_only_groups_with_ids_missing_at_source() {
    let op = SyncOp::new(
        50,
        vec![],
        vec![tgroup("a", Some("1")), tgroup("b", Some("2")), tgroup("c", None), tgroup("d", Some("4"))],
        vec![sgroup("a"), sgroup("e")],
        vec![],
    );
    let mut del: Vec<(String, String)> =
        op.groups_to_delete().into_iter().map(|d| (d.key, d.id)).collect();
    del.sort();
    assert_eq!(del, vec![("b".to_string(), "2".to_string()), ("d".to_string(), "4".to_string())]);
    let create: Vec<String> = op.groups_to_create().into_iter().map(|g| g.display_name).collect();
    assert_eq!(create, strs(&["e"]));
}

#[test]
fn group_deleted_removes_from_target_lookup() {
    let mut op = SyncOp::new(
        50,
        vec![],
        vec![tgroup("a", Some("1")), tgroup("b", Some("2"))],
        vec![sgroup("a")],
        vec![],
    );
    op.group_deleted(&"b".to_string());
    assert_eq!(op.target_groups.len(), 1);
    assert_eq!(op.target_groups[0].display_name, "a");
    assert!(op.groups_to_delete().is_empty());
}

#[test]
fn group_conflict_asks_for_one_fetch_and_stores_its_result() {
    let mut op = SyncOp::new(50, vec![], vec![], vec![sgroup("sales")], vec![]);
    let key = "sales".to_string();
    match op.group_created(None, &key) {
        AfterCreate::FetchExisting(k) => assert_eq!(k, "sales"),
        AfterCreate::Stored => panic!("a conflict must lead to a fetch"),
    }
    assert!(op.target_groups.is_empty());
    assert!(matches!(op.group_fetched(Some(tgroup("sales", Some("9"))), &key), AfterFetch::Stored));
    assert!(op.groups_to_create().is_empty());
    assert_eq!(op.target_groups[0].id.as_deref(), Some("9"));
}

#[test]
fn group_created_is_stored() {
    let mut op = SyncOp::new(50, vec![], vec![], vec![sgroup("sales")], vec![]);
    let r = op.group_created(Some(tgroup("sales", Some("7"))), &"sales".to_string());
    assert!(matches!(r, AfterCreate::Stored));
    assert!(op.groups_to_create().is_empty());
}

#[test]
fn user_conflict_fetch_missing_is_skipped() {
    let mut op = SyncOp::new(50, vec![tuser("other", Some("3"))], vec![], vec![], vec![suser("u1")]);
    let key = "u1".to_string();
    assert!(matches!(op.user_created(None, &key), AfterCreate::FetchExisting(ref k) if k == "u1"));
    match op.user_fetched(None, &key) {
        AfterFetch::Skipped(k) => assert_eq!(k, "u1"),
        AfterFetch::Stored => panic!("nothing was found"),
    }
    assert_eq!(op.target_users.len(), 1);
    assert_eq!(op.target_users[0].user_name, "other");
    assert!(matches!(op.user_fetched(Some(tuser("u1", Some("5"))), &key), AfterFetch::Stored));
    assert!(op.users_to_create().is_empty());
}

#[test]
fn group_conflict_fetch_missing_is_skipped() {
    let mut op = SyncOp::new(50, vec![], vec![tgroup("eng", Some("1"))], vec![sgroup("eng"), sgroup("sales")], vec![]);
    let key = "sales".to_string();
    assert!(matches!(op.group_created(None, &key), AfterCreate::FetchExisting(_)));
    assert!(matches!(op.group_fetched(None, &key), AfterFetch::Skipped(ref k) if k == "sales"));
    assert_eq!(op.target_groups.len(), 1);
    assert_eq!(op.target_groups[0].id.as_deref(), Some("1"));
}

#[test]
fn creating_a_group_keeps_the_others() {
    let mut op = SyncOp::new(50, vec![], vec![tgroup("eng", Some("1"))], vec![sgroup("eng"), sgroup("sales")], vec![]);
    let r = op.group_created(Some(tgroup("sales", Some("2"))), &"sales".to_string());
    assert!(matches!(r, AfterCreate::Stored));
    let mut got: Vec<(String, Option<String>)> =
        op.target_groups.iter().map(|g| (g.display_name.clone(), g.id.clone())).collect();
    got.sort();
    assert_eq!(
        got,
        vec![("eng".to_string(), Some("1".to_string())), ("sales".to_string(), Some("2".to_string()))]
    );
}

#[test]
fn advanced_path_lists_each_key_once() {
    let op = SyncOp::new(50, vec![], vec![], vec![], vec![]);
    let check = op.users_to_check_deleted(&vec![suser("gone"), suser("gone"), suser("other")]);
    assert_eq!(check, strs(&["gone", "other"]));
}

fn narrowing_op() -> SyncOp {
    let mut op = SyncOp::new(
        50,
        vec![],
        vec![],
        vec![sgroup("A"), sgroup("B")],
        vec![suser("u1"), suser("u2"), suser("u3"), suser("u4")],
    );
    op.set_members(&"A".to_string(), strs(&["u1", "u2"]));
    op.set_members(&"B".to_string(), strs(&["u2", "u3"]));
    op
}

#[test]
fn group_members_only_narrows_to_members() {
    let mut op = narrowing_op();
    op.select_users(SyncStrategie::GroupMembersOnly);
    assert_eq!(keys_of_users(&op.source_users), strs(&["u1", "u2", "u3"]));
}

#[test]
fn all_users_mode_keeps_every_user() {
    let mut op = narrowing_op();
    op.select_users(SyncStrategie::AllUsers);
    assert_eq!(keys_of_users(&op.source_users), strs(&["u1", "u2", "u3", "u4"]));
}

#[test]
fn members_of_unknown_group_are_ignored() {
    let mut op = narrowing_op();
    op.set_members(&"Z".to_string(), strs(&["u4"]));
    assert_eq!(op.memberships.len(), 2);
    op.modify_google_user_lookup_by_membership();
    assert_eq!(keys_of_users(&op.source_users), strs(&["u1", "u2", "u3"]));
}

#[test]
fn narrowed_out_user_is_deleted_at_target() {
    let mut op = SyncOp::new(
        50,
        vec![tuser("u1", Some("1")), tuser("u4", Some("4"))],
        vec![],
        vec![sgroup("A")],
        vec![suser("u1"), suser("u4")],
    );
    op.set_members(&"A".to_string(), strs(&["u1"]));
    op.select_users(SyncStrategie::GroupMembersOnly);
    let del = op.users_to_delete();
    assert_eq!(del.len(), 1);
    assert_eq!(del[0].key, "u4");
    assert_eq!(del[0].id, "4");
}

#[test]
fn membership_convergence_scenario() {
    let mut op = SyncOp::new(
        50,
        vec![tuser("u1", Some("t1")), tuser("u2", Some("t2"))],
        vec![tgroup("A", Some("gA"))],
        vec![sgroup("A")],
        vec![suser("u1"), suser("u2")],
    );
    op.set_members(&"A".to_string(), strs(&["u2"]));
    let checks = op.membership_checks();
    assert_eq!(checks.len(), 2);
    let target_bit = |user: &str| user == "u1";
    let mut actions: Vec<(String, String, MemberAction)> = checks
        .iter()
        .map(|c| {
            assert_eq!(c.group_id, "gA");
            (c.group.clone(), c.user.clone(), SyncOp::membership_action(c.in_source, target_bit(&c.user)))
        })
        .collect();
    actions.sort_by(|a, b| a.1.cmp(&b.1));
    assert_eq!(
        actions,
        vec![
            ("A".to_string(), "u1".to_string(), MemberAction::Remove),
            ("A".to_string(), "u2".to_string(), MemberAction::Add),
        ]
    );
}

#[test]
fn membership_action_table() {
    assert_eq!(SyncOp::membership_action(true, true), MemberAction::Keep);
    assert_eq!(SyncOp::membership_action(true, false), MemberAction::Add);
    assert_eq!(SyncOp::membership_action(false, true), MemberAction::Remove);
    assert_eq!(SyncOp::membership_action(false, false), MemberAction::Keep);
}

#[test]
fn membership_checks_skip_entries_without_ids() {
    let mut op = SyncOp::new(
        50,
        vec![tuser("u1", Some("t1")), tuser("u2", None)],
        vec![tgroup("A", Some("gA")), tgroup("B", None)],
        vec![sgroup("A"), sgroup("B"), sgroup("C")],
        vec![],
    );
    op.set_members(&"A".to_string(), strs(&["u1"]));
    op.set_members(&"B".to_string(), strs(&["u1"]));
    op.set_members(&"C".to_string(), strs(&["u1"]));
    let checks = op.membership_checks();
    assert_eq!(checks.len(), 1);
    assert_eq!(checks[0].group, "A");
    assert_eq!(checks[0].user, "u1");
    assert_eq!(checks[0].user_id, "t1");
    assert!(checks[0].in_source);
}

#[test]
fn cap_triggers_advanced_deletion() {
    let mut target: Vec<TargetUser> = (0..50).map(|i| tuser(&format!("k{}", i), Some("x"))).collect();
    target[0] = tuser("kept", Some("x"));
    let sources: Vec<SourceUser> = (0..50).map(|i| suser(&format!("k{}", i))).collect();
    let mut op = SyncOp::new(50, target, vec![], vec![], sources);
    assert!(op.require_advanced());
    assert!(op.cap_warnings().users);
    assert!(!op.cap_warnings().groups);
    let simple = op.users_to_delete();
    assert_eq!(simple.len(), 1);
    assert_eq!(simple[0].key, "kept");
    op.user_deleted(&simple[0].key);
    // "gone" was truncated out of the target listing and is now deleted at the source.
    let deleted_at_source = vec![suser("gone"), suser("kept"), suser("k3")];
    let check = op.users_to_check_deleted(&deleted_at_source);
    assert_eq!(check, strs(&["gone"]));
    let found = Some(tuser("gone", Some("t-gone")));
    assert_eq!(SyncOp::advanced_deletion_id(found).as_deref(), Some("t-gone"));
    assert_eq!(SyncOp::advanced_deletion_id(Some(tuser("gone", None))), None);
    assert_eq!(SyncOp::advanced_deletion_id(None), None);
}

#[test]
fn below_cap_no_advanced_deletion() {
    let target: Vec<TargetUser> = (0..49).map(|i| tuser(&format!("k{}", i), Some("x"))).collect();
    let op = SyncOp::new(50, target, vec![], vec![], vec![]);
    assert!(!op.require_advanced());
    assert!(!op.cap_warnings().users);
}

#[test]
fn duplicate_listing_keys_collapse() {
    let op = SyncOp::new(
        50,
        vec![tuser("u1", Some("a")), tuser("u1", Some("b"))],
        vec![],
        vec![],
        vec![],
    );
    assert_eq!(op.target_users.len(), 1);
    assert_eq!(op.initial_target_users, 1);
}

#[test]
fn create_group_maps_email() {
    let g = create_group(&sgroup("eng@example.org"));
    assert_eq!(g.display_name, "eng@example.org");
    assert!(g.id.is_none());
}

#[test]
fn create_user_maps_fields() {
    let mut u = suser("a@example.org");
    u.suspended = Some(true);
    u.thumbnail_photo_url = Some("http://photo".to_string());
    u.emails = vec![
        SourceUserMail { address: "alias@example.org".to_string(), primary: Some(false), kind: None },
        SourceUserMail { address: "a@example.org".to_string(), primary: Some(true), kind: Some("work".to_string()) },
        SourceUserMail { address: "b@example.org".to_string(), primary: Some(true), kind: None },
    ];
    let t = create_user(&u);
    assert!(t.id.is_none());
    assert_eq!(t.user_name, "a@example.org");
    assert_eq!(t.external_id.as_deref(), Some("uid-a@example.org"));
    assert_eq!(t.display_name, "Full a@example.org");
    assert_eq!(t.name.formatted.as_deref(), Some("Full a@example.org"));
    assert_eq!(t.name.family_name, "Family");
    assert_eq!(t.name.given_name, "Given");
    assert_eq!(t.profile_url.as_deref(), Some("http://photo"));
    assert!(!t.active);
    let emails = t.emails.expect("one primary mail");
    assert_eq!(emails.len(), 1);
    assert_eq!(emails[0].value, "a@example.org");
    assert_eq!(emails[0].kind.as_deref(), Some("work"));
    assert_eq!(emails[0].primary, Some(true));
}

#[test]
fn create_user_without_primary_mail_and_not_suspended() {
    let mut u = suser("a@example.org");
    u.emails = vec![SourceUserMail { address: "x@example.org".to_string(), primary: None, kind: None }];
    let t = create_user(&u);
    assert!(t.emails.is_none());
    assert!(t.active);
    u.suspended = Some(false);
    assert!(create_user(&u).active);
}

/// Runs the engine against an in-memory target, the way a driver would.
fn run_once(
    target_users: &mut Vec<TargetUser>,
    target_groups: &mut Vec<TargetGroup>,
    bits: &mut Vec<(String, String)>,
    sgroups: &[(&str, &[&str])],
    susers: &[&str],
) -> usize {
    let mut calls = 0usize;
    let mut op = SyncOp::new(
        50,
        target_users.clone_list(),
        target_groups.clone_list(),
        sgroups.iter().map(|(g, _)| sgroup(g)).collect(),
        susers.iter().map(|u| suser(u)).collect(),
    );
    for (g, members) in sgroups {
        op.set_members(&g.to_string(), strs(members));
    }
    for d in op.groups_to_delete() {
        calls += 1;
        target_groups.retain(|g| g.id.as_deref() != Some(d.id.as_str()));
        op.group_deleted(&d.key);
    }
    for g in op.groups_to_create() {
        calls += 1;
        let id = format!("g-{}", g.display_name);
        let created = tgroup(&g.display_name, Some(&id));
        target_groups.push(tgroup(&g.display_name, Some(&id)));
        let key = g.display_name.clone();
        assert!(matches!(op.group_created(Some(created), &key), AfterCreate::Stored));
    }
    op.select_users(SyncStrategie::GroupMembersOnly);
    for d in op.users_to_delete() {
        calls += 1;
        target_users.retain(|u| u.id.as_deref() != Some(d.id.as_str()));
        op.user_deleted(&d.key);
    }
    for u in op.users_to_create() {
        calls += 1;
        let key = u.user_name.clone();
        let mut stored = tuser(&key, Some(&format!("u-{}", key)));
        stored.emails = None;
        target_users.push(tuser(&key, Some(&format!("u-{}", key))));
        assert!(matches!(op.user_created(Some(stored), &key), AfterCreate::Stored));
    }
    for c in op.membership_checks() {
        let pair = (c.group_id.clone(), c.user_id.clone());
        let in_target = bits.contains(&pair);
        match SyncOp::membership_action(c.in_source, in_target) {
            MemberAction::Keep => {}
            MemberAction::Add => {
                calls += 1;
                bits.push(pair);
            }
            MemberAction::Remove => {
                calls += 1;
                bits.retain(|p| *p != pair);
            }
        }
    }
    calls
}

trait CloneList<T> {
    fn clone_list(&self) -> Vec<T>;
}

impl CloneList<TargetUser> for Vec<TargetUser> {
    fn clone_list(&self) -> Vec<TargetUser> {
        self.iter().map(|u| {
            let mut c = tuser(&u.user_name, u.id.as_deref());
            c.emails = None;
            c
        }).collect()
    }
}

impl CloneList<TargetGroup> for Vec<TargetGroup> {
    fn clone_list(&self) -> Vec<TargetGroup> {
        self.iter().map(|g| tgroup(&g.display_name, g.id.as_deref())).collect()
    }
}

#[test]
fn second_run_issues_no_mutation() {
    let mut users = vec![tuser("old", Some("u-old")), tuser("u1", Some("u-u1"))];
    let mut groups = vec![tgroup("gone", Some("g-gone")), tgroup("eng", Some("g-eng"))];
    let mut bits = vec![("g-eng".to_string(), "u-u1".to_string())];
    let sgroups: &[(&str, &[&str])] = &[("eng", &["u2"]), ("sales", &["u1", "u2"])];
    let susers = &["u1", "u2", "u3"];
    let first = run_once(&mut users, &mut groups, &mut bits, sgroups, susers);
    assert!(first > 0);
    let second = run_once(&mut users, &mut groups, &mut bits, sgroups, susers);
    assert_eq!(second, 0);
}
