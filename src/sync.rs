//! The reconciliation engine: the lookup tables of one run, and the
//! decisions that drive the target into agreement with the source.
//!
//! The engine makes no remote call itself. Each phase hands out what is to be
//! done (deletions, creations, membership queries), and the caller reports
//! back what the target answered, so that later phases see the current
//! target state.

use crate::diff::{deletable, deletion_from, deletion_keys, to_create, to_delete};
use crate::lookup::{
    contains_key, contains_string, find_key, insert_keyed, key_set, lemma_key_set_empty, lookup_of,
    remove_keyed, strings_contain, unique_keys, Keyed,
};
use crate::model::{
    create_group, create_user, target_group_of, user_shaped, Deletion, GroupMembers, SourceGroup,
    SourceUser, SyncStrategie, TargetGroup, TargetUser,
};
use vstd::prelude::*;

verus! {

/// What follows a create call.
pub enum AfterCreate {
    /// The created entity was stored in the target lookup.
    Stored,
    /// The target reported a conflict: the entity with this key exists but
    /// was not listed, and is to be fetched in place of a second create.
    FetchExisting(String),
}

/// What follows the lookup made after a conflict.
pub enum AfterFetch {
    /// The entity found was stored in the target lookup.
    Stored,
    /// The lookup found nothing under this key: there is no match, and the
    /// entity is skipped.
    Skipped(String),
}

/// Which listings met the target's result cap when the run started.
#[derive(Clone, Copy, Debug, PartialEq, Eq, Structural)]
pub struct CapWarnings {
    pub users: bool,
    pub groups: bool,
}

/// The lookup tables of one reconciliation run.
pub struct SyncOp {
    /// The most entries that a target listing returns.
    pub cap: usize,
    /// The number of target users listed when the run started.
    pub initial_target_users: usize,
    /// The number of target groups listed when the run started.
    pub initial_target_groups: usize,
    pub target_groups: Vec<TargetGroup>,
    pub target_users: Vec<TargetUser>,
    pub source_groups: Vec<SourceGroup>,
    pub source_users: Vec<SourceUser>,
    /// The members of each source group, keyed by the group's email.
    pub memberships: Vec<GroupMembers>,
    /// The keys of the target users that the simple deletion path removed.
    pub deleted_users: Vec<String>,
}

/// `m` lists `u` among its members.
pub open spec fn members_contain(m: GroupMembers, u: Seq<char>) -> bool {
    exists|j: int| 0 <= j < m.members@.len() && #[trigger] m.members@[j]@ == u
}

/// The keys of the users that belong to at least one of the groups.
pub open spec fn member_keys(memberships: Seq<GroupMembers>) -> Set<Seq<char>> {
    Set::new(
        |u: Seq<char>|
            exists|i: int| 0 <= i < memberships.len() && members_contain(#[trigger] memberships[i], u),
    )
}

/// `t` is shaped from some user of `src`.
pub open spec fn shaped_from_some(src: Seq<SourceUser>, t: TargetUser) -> bool {
    exists|i: int| 0 <= i < src.len() && user_shaped(t, #[trigger] src[i])
}

/// Whether some group lists `u` among its members.
fn is_member_anywhere(memberships: &Vec<GroupMembers>, u: &String) -> (r: bool)
    ensures
        r == member_keys(memberships@).contains(u@),
{
    let mut i: usize = 0;
    while i < memberships.len()
        invariant
            i <= memberships@.len(),
            forall|j: int| 0 <= j < i ==> !members_contain(#[trigger] memberships@[j], u@),
        decreases memberships@.len() - i,
    {
        if contains_string(&memberships[i].members, u) {
            return true;
        }
        i = i + 1;
    }
    false
}

/// Keeps the users that belong to at least one of the groups.
fn keep_members(users: Vec<SourceUser>, memberships: &Vec<GroupMembers>) -> (r: Vec<SourceUser>)
    requires
        unique_keys(users@),
    ensures
        unique_keys(r@),
        key_set(r@) == key_set(users@).intersect(member_keys(memberships@)),
        forall|e: SourceUser| #[trigger] r@.contains(e) ==> users@.contains(e),
{
    let ghost all = users@;
    let ghost mk = member_keys(memberships@);
    let mut rest = users;
    let mut kept: Vec<SourceUser> = Vec::new();
    while rest.len() > 0
        invariant
            unique_keys(rest@),
            unique_keys(kept@),
            rest@.len() <= all.len(),
            rest@ == all.subrange(0, rest@.len() as int),
            mk == member_keys(memberships@),
            forall|j: int| 0 <= j < kept@.len() ==> !key_set(rest@).contains(#[trigger] kept@[j].key_of()),
            key_set(kept@).union(key_set(rest@).intersect(mk)) == key_set(all).intersect(mk),
            forall|e: SourceUser| #[trigger] kept@.contains(e) ==> all.contains(e),
        decreases rest@.len(),
    {
        let ghost pre = rest@;
        let x = rest.pop().unwrap();
        assert(pre == rest@.push(x));
        proof {
            crate::lookup::lemma_key_set_push(rest@, x);
            assert(rest@ =~= all.subrange(0, rest@.len() as int));
            assert(all.contains(x)) by {
                assert(pre[rest@.len() as int] == all[rest@.len() as int]);
                assert(all[rest@.len() as int] == x);
            }
            assert(!key_set(rest@).contains(x.key_of())) by {
                if key_set(rest@).contains(x.key_of()) {
                    let j = choose|j: int| 0 <= j < rest@.len() && #[trigger] rest@[j].key_of() == x.key_of();
                    assert(pre[j] == rest@[j]);
                    assert(pre[pre.len() - 1] == x);
                }
            }
        }
        if is_member_anywhere(memberships, x.key()) {
            let ghost pre_kept = kept@;
            proof {
                assert forall|j: int| 0 <= j < pre_kept.len() implies #[trigger] pre_kept[j].key_of()
                    != x.key_of() by {
                    assert(!key_set(pre).contains(pre_kept[j].key_of()));
                    assert(pre[pre.len() - 1] == x);
                }
            }
            kept.push(x);
            proof {
                crate::lookup::lemma_key_set_push(pre_kept, x);
                assert forall|a: int, b: int| 0 <= a < kept@.len() && 0 <= b < kept@.len() && a != b
                    implies #[trigger] kept@[a].key_of() != #[trigger] kept@[b].key_of() by {
                    if a < pre_kept.len() && b < pre_kept.len() {
                        assert(kept@[a] == pre_kept[a] && kept@[b] == pre_kept[b]);
                    } else if a < pre_kept.len() {
                        assert(kept@[a] == pre_kept[a]);
                    } else {
                        assert(kept@[b] == pre_kept[b]);
                    }
                }
                assert forall|j: int| 0 <= j < kept@.len() implies !key_set(rest@).contains(
                    #[trigger] kept@[j].key_of(),
                ) by {
                    if j < pre_kept.len() {
                        assert(kept@[j] == pre_kept[j]);
                        assert(!key_set(pre).contains(pre_kept[j].key_of()));
                    }
                }
                assert forall|e: SourceUser| #[trigger] kept@.contains(e) implies all.contains(e) by {
                    let j = choose|j: int| 0 <= j < kept@.len() && kept@[j] == e;
                    if j < pre_kept.len() {
                        assert(pre_kept[j] == e);
                        assert(pre_kept.contains(e));
                    }
                }
            }
            assert(key_set(kept@).union(key_set(rest@).intersect(mk)) =~= key_set(all).intersect(mk));
        } else {
            proof {
                assert forall|j: int| 0 <= j < kept@.len() implies !key_set(rest@).contains(
                    #[trigger] kept@[j].key_of(),
                ) by {
                    assert(!key_set(pre).contains(kept@[j].key_of()));
                }
            }
            assert(key_set(kept@).union(key_set(rest@).intersect(mk)) =~= key_set(all).intersect(mk));
        }
    }
    assert(key_set(rest@) =~= Set::empty());
    assert(key_set(kept@) =~= key_set(all).intersect(mk));
    kept
}

/// One (group, user) pair whose target membership is to be queried, with
/// whether the source lists the user in the group.
pub struct MembershipCheck {
    pub group: String,
    pub group_id: String,
    pub user: String,
    pub user_id: String,
    pub in_source: bool,
}

/// What to do about one (group, user) pair once both membership bits are known.
#[derive(Clone, Copy, Debug, PartialEq, Eq, Structural)]
pub enum MemberAction {
    Keep,
    Add,
    Remove,
}

/// The target group keyed `k` has id `id`.
pub open spec fn group_has_id(target_groups: Seq<TargetGroup>, k: Seq<char>, id: String) -> bool {
    exists|i: int| 0 <= i < target_groups.len() && #[trigger] target_groups[i].key_of() == k && target_groups[i].id == Some(id)
}

/// The target group keyed `k` has an id.
pub open spec fn group_resolved(target_groups: Seq<TargetGroup>, k: Seq<char>) -> bool {
    exists|i: int| 0 <= i < target_groups.len() && #[trigger] target_groups[i].key_of() == k && target_groups[i].id is Some
}

/// The target user keyed `k` has id `id`.
pub open spec fn user_has_id(target_users: Seq<TargetUser>, k: Seq<char>, id: String) -> bool {
    exists|i: int| 0 <= i < target_users.len() && #[trigger] target_users[i].key_of() == k && target_users[i].id == Some(id)
}

/// Some check of `r` is for group `g` and user `u`.
pub open spec fn pair_checked(r: Seq<MembershipCheck>, g: Seq<char>, u: Seq<char>) -> bool {
    exists|k: int| 0 <= k < r.len() && #[trigger] r[k].group@ == g && r[k].user@ == u
}

/// The action for a pair: add where only the source has it, remove where
/// only the target has it, keep it as it is otherwise.
pub open spec fn action_of(in_source: bool, in_target: bool) -> MemberAction {
    if in_source && !in_target {
        MemberAction::Add
    } else if !in_source && in_target {
        MemberAction::Remove
    } else {
        MemberAction::Keep
    }
}

/// Once a pair's action has been applied, a second run keeps the pair as it
/// is: the action leaves the target's bit equal to the source's.
pub proof fn lemma_membership_second_run_keeps(in_source: bool, in_target: bool)
    ensures
        bit_after(in_target, action_of(in_source, in_target)) == in_source,
        action_of(in_source, bit_after(in_target, action_of(in_source, in_target)))
            == MemberAction::Keep,
{
}

/// In group-members-only mode a target user with an id that belongs to no
/// source group is deleted, whether or not the source lists it: narrowing
/// treats it as absent from the source.
pub proof fn lemma_non_member_is_deleted(
    target: Seq<TargetUser>,
    source: Seq<SourceUser>,
    memberships: Seq<GroupMembers>,
    narrowed: Seq<SourceUser>,
    i: int,
)
    requires
        key_set(narrowed) == key_set(source).intersect(member_keys(memberships)),
        0 <= i < target.len(),
        target[i].id is Some,
        !member_keys(memberships).contains(target[i].key_of()),
    ensures
        deletion_keys(target, key_set(narrowed)).contains(target[i].key_of()),
{
    assert(!key_set(narrowed).contains(target[i].key_of()));
    assert(deletable(target[i], key_set(narrowed)));
}

/// The membership bit after `a` is applied to a pair whose bit was `in_target`.
pub open spec fn bit_after(in_target: bool, a: MemberAction) -> bool {
    match a {
        MemberAction::Keep => in_target,
        MemberAction::Add => true,
        MemberAction::Remove => false,
    }
}

/// No two checks of `r` are for the same group and user.
pub open spec fn distinct_pairs(r: Seq<MembershipCheck>) -> bool {
    forall|a: int, b: int|
        0 <= a < b < r.len() ==> !(#[trigger] r[a].group@ == #[trigger] r[b].group@ && r[a].user@ == r[b].user@)
}

/// Some user of `users` before position `i` is keyed `u`.
pub open spec fn user_before(users: Seq<TargetUser>, i: int, u: Seq<char>) -> bool {
    exists|j: int| 0 <= j < i && #[trigger] users[j].key_of() == u
}

/// Some group of `memberships` before position `g` is keyed `k`.
pub open spec fn group_before(memberships: Seq<GroupMembers>, g: int, k: Seq<char>) -> bool {
    exists|j: int| 0 <= j < g && #[trigger] memberships[j].key_of() == k
}

/// The checks for the group `m`, whose target id is `group_id`: one for each
/// target user with an id.
fn checks_for_group(m: &GroupMembers, group_id: &String, users: &Vec<TargetUser>) -> (r: Vec<
    MembershipCheck,
>)
    requires
        unique_keys(users@),
    ensures
        forall|a: int, b: int| 0 <= a < b < r@.len() ==> (#[trigger] r@[a]).user@ != (#[trigger] r@[b]).user@,
        forall|k: int|
            0 <= k < r@.len() ==> {
                &&& (#[trigger] r@[k]).group == m.group
                &&& r@[k].group_id == *group_id
                &&& user_has_id(users@, r@[k].user@, r@[k].user_id)
                &&& r@[k].in_source == members_contain(*m, r@[k].user@)
            },
        forall|i: int|
            0 <= i < users@.len() && (#[trigger] users@[i]).id is Some ==> pair_checked(
                r@,
                m.group@,
                users@[i].key_of(),
            ),
{
    let mut out: Vec<MembershipCheck> = Vec::new();
    let mut i: usize = 0;
    while i < users.len()
        invariant
            i <= users@.len(),
            unique_keys(users@),
            forall|a: int, b: int| 0 <= a < b < out@.len() ==> (#[trigger] out@[a]).user@ != (#[trigger] out@[b]).user@,
            forall|k: int| 0 <= k < out@.len() ==> user_before(users@, i as int, (#[trigger] out@[k]).user@),
            forall|k: int|
                0 <= k < out@.len() ==> {
                    &&& (#[trigger] out@[k]).group == m.group
                    &&& out@[k].group_id == *group_id
                    &&& user_has_id(users@, out@[k].user@, out@[k].user_id)
                    &&& out@[k].in_source == members_contain(*m, out@[k].user@)
                },
            forall|j: int|
                0 <= j < i && (#[trigger] users@[j]).id is Some ==> pair_checked(
                    out@,
                    m.group@,
                    users@[j].key_of(),
                ),
        decreases users@.len() - i,
    {
        let u = &users[i];
        match &u.id {
            Some(uid) => {
                let in_source = contains_string(&m.members, &u.user_name);
                let c = MembershipCheck {
                    group: m.group.clone(),
                    group_id: group_id.clone(),
                    user: u.user_name.clone(),
                    user_id: uid.clone(),
                    in_source,
                };
                let ghost pre = out@;
                out.push(c);
                proof {
                    assert(users@[i as int].key_of() == c.user@);
                    assert(user_has_id(users@, c.user@, c.user_id));
                    assert forall|k: int| 0 <= k < out@.len() implies user_before(
                        users@,
                        i + 1,
                        (#[trigger] out@[k]).user@,
                    ) by {
                        if k < pre.len() {
                            assert(out@[k] == pre[k]);
                            let j = choose|j: int| 0 <= j < i && #[trigger] users@[j].key_of() == pre[k].user@;
                            assert(users@[j].key_of() == out@[k].user@);
                        } else {
                            assert(users@[i as int].key_of() == out@[k].user@);
                        }
                    }
                    assert forall|a: int, b: int| 0 <= a < b < out@.len() implies (#[trigger] out@[a]).user@
                        != (#[trigger] out@[b]).user@ by {
                        if b < pre.len() {
                            assert(out@[a] == pre[a] && out@[b] == pre[b]);
                        } else {
                            assert(out@[a] == pre[a]);
                            assert(user_before(users@, i as int, pre[a].user@));
                            let j = choose|j: int| 0 <= j < i && #[trigger] users@[j].key_of() == pre[a].user@;
                            assert(users@[j].key_of() != users@[i as int].key_of());
                        }
                    }
                    assert forall|k: int| 0 <= k < out@.len() implies {
                        &&& (#[trigger] out@[k]).group == m.group
                        &&& out@[k].group_id == *group_id
                        &&& user_has_id(users@, out@[k].user@, out@[k].user_id)
                        &&& out@[k].in_source == members_contain(*m, out@[k].user@)
                    } by {
                        if k < pre.len() {
                            assert(out@[k] == pre[k]);
                        }
                    }
                    assert forall|j: int|
                        0 <= j < i + 1 && (#[trigger] users@[j]).id is Some implies pair_checked(
                            out@,
                            m.group@,
                            users@[j].key_of(),
                        ) by {
                        if j < i {
                            let k = choose|k: int| 0 <= k < pre.len() && #[trigger] pre[k].group@ == m.group@ && pre[k].user@ == users@[j].key_of();
                            assert(out@[k] == pre[k]);
                        } else {
                            assert(out@[pre.len() as int] == c);
                        }
                    }
                }
            },
            None => {},
        }
        i = i + 1;
    }
    out
}

impl SyncOp {
    /// Every table has unique keys, and memberships are kept only for source
    /// groups.
    pub open spec fn wf(&self) -> bool {
        &&& unique_keys(self.target_groups@)
        &&& unique_keys(self.target_users@)
        &&& unique_keys(self.source_groups@)
        &&& unique_keys(self.source_users@)
        &&& unique_keys(self.memberships@)
        &&& key_set(self.memberships@).subset_of(key_set(self.source_groups@))
    }

    /// Builds the lookup tables from the four listings of a run; the
    /// memberships are added afterwards, one source group at a time.
    pub fn new(
        cap: usize,
        target_users: Vec<TargetUser>,
        target_groups: Vec<TargetGroup>,
        source_groups: Vec<SourceGroup>,
        source_users: Vec<SourceUser>,
    ) -> (r: SyncOp)
        ensures
            r.wf(),
            r.cap == cap,
            key_set(r.target_users@) == key_set(target_users@),
            key_set(r.target_groups@) == key_set(target_groups@),
            key_set(r.source_groups@) == key_set(source_groups@),
            key_set(r.source_users@) == key_set(source_users@),
            forall|e: TargetUser| #[trigger] r.target_users@.contains(e) ==> target_users@.contains(e),
            forall|e: TargetGroup| #[trigger] r.target_groups@.contains(e) ==> target_groups@.contains(e),
            forall|e: SourceGroup| #[trigger] r.source_groups@.contains(e) ==> source_groups@.contains(e),
            forall|e: SourceUser| #[trigger] r.source_users@.contains(e) ==> source_users@.contains(e),
            r.initial_target_users == r.target_users@.len(),
            r.initial_target_groups == r.target_groups@.len(),
            r.memberships@.len() == 0,
            r.deleted_users@.len() == 0,
    {
        let target_users = lookup_of(target_users);
        let target_groups = lookup_of(target_groups);
        let source_groups = lookup_of(source_groups);
        let source_users = lookup_of(source_users);
        let memberships: Vec<GroupMembers> = Vec::new();
        assert(key_set(memberships@) =~= Set::empty());
        SyncOp {
            cap,
            initial_target_users: target_users.len(),
            initial_target_groups: target_groups.len(),
            target_groups,
            target_users,
            source_groups,
            source_users,
            memberships,
            deleted_users: Vec::new(),
        }
    }

    /// Records the members of the source group keyed `group`; members of a
    /// group that is not a source group are not kept.
    pub fn set_members(&mut self, group: &String, members: Vec<String>)
        requires
            old(self).wf(),
        ensures
            final(self).wf(),
            final(self).target_groups == old(self).target_groups,
            final(self).target_users == old(self).target_users,
            final(self).source_groups == old(self).source_groups,
            final(self).source_users == old(self).source_users,
            final(self).deleted_users == old(self).deleted_users,
            final(self).cap == old(self).cap,
            final(self).initial_target_users == old(self).initial_target_users,
            final(self).initial_target_groups == old(self).initial_target_groups,
            key_set(old(self).source_groups@).contains(group@) ==> {
                &&& key_set(final(self).memberships@) == key_set(old(self).memberships@).insert(group@)
                &&& final(self).memberships@.contains(GroupMembers { group: *group, members })
                &&& forall|e: GroupMembers|
                    #[trigger] final(self).memberships@.contains(e) ==> e.group@ == group@
                        || old(self).memberships@.contains(e)
                &&& forall|e: GroupMembers|
                    #[trigger] old(self).memberships@.contains(e) && e.group@ != group@
                        ==> final(self).memberships@.contains(e)
            },
            !key_set(old(self).source_groups@).contains(group@) ==> final(self).memberships
                == old(self).memberships,
    {
        if contains_key(&self.source_groups, group) {
            let entry = GroupMembers { group: group.clone(), members };
            insert_keyed(&mut self.memberships, entry);
        }
    }

    /// Which warnings the start of the run calls for: a listing that met the
    /// cap may have been truncated.
    pub fn cap_warnings(&self) -> (r: CapWarnings)
        ensures
            r.users == (self.initial_target_users >= self.cap),
            r.groups == (self.initial_target_groups >= self.cap),
    {
        CapWarnings {
            users: self.initial_target_users >= self.cap,
            groups: self.initial_target_groups >= self.cap,
        }
    }

    /// The group deletions: each target group with an id whose key is not a
    /// source group's key, with that id.
    pub fn groups_to_delete(&self) -> (r: Vec<Deletion>)
        requires
            self.wf(),
        ensures
            unique_keys(r@),
            key_set(r@) == deletion_keys(self.target_groups@, key_set(self.source_groups@)),
            forall|j: int| 0 <= j < r@.len() ==> deletion_from(self.target_groups@, #[trigger] r@[j]),
            r@.len() == 0 <==> deletion_keys(self.target_groups@, key_set(self.source_groups@)) == Set::<
                Seq<char>,
            >::empty(),
    {
        let r = to_delete(&self.target_groups, &self.source_groups);
        proof {
            lemma_key_set_empty(r@);
        }
        r
    }

    /// Removes a deleted group from the target lookup.
    pub fn group_deleted(&mut self, key: &String)
        requires
            old(self).wf(),
        ensures
            final(self).wf(),
            key_set(final(self).target_groups@) == key_set(old(self).target_groups@).remove(key@),
            forall|e: TargetGroup| #[trigger] final(self).target_groups@.contains(e)
                ==> old(self).target_groups@.contains(e),
            forall|e: TargetGroup| #[trigger] old(self).target_groups@.contains(e) && e.key_of() != key@
                ==> final(self).target_groups@.contains(e),
            final(self).target_users == old(self).target_users,
            final(self).source_groups == old(self).source_groups,
            final(self).source_users == old(self).source_users,
            final(self).memberships == old(self).memberships,
            final(self).deleted_users == old(self).deleted_users,
            final(self).cap == old(self).cap,
            final(self).initial_target_users == old(self).initial_target_users,
            final(self).initial_target_groups == old(self).initial_target_groups,
    {
        remove_keyed(&mut self.target_groups, key);
    }

    /// The groups to create: one for each source group whose key the target
    /// lookup lacks, shaped from it.
    pub fn groups_to_create(&self) -> (r: Vec<TargetGroup>)
        requires
            self.wf(),
        ensures
            unique_keys(r@),
            key_set(r@) == key_set(self.source_groups@).difference(key_set(self.target_groups@)),
            r@.len() == 0 <==> key_set(self.source_groups@).difference(key_set(self.target_groups@)) == Set::<
                Seq<char>,
            >::empty(),
            forall|j: int|
                0 <= j < r@.len() ==> exists|i: int|
                    0 <= i < self.source_groups@.len() && #[trigger] r@[j] == target_group_of(
                        self.source_groups@[i],
                    ),
    {
        let idx = to_create(&self.source_groups, &self.target_groups);
        let ghost src = self.source_groups@;
        let mut out: Vec<TargetGroup> = Vec::new();
        let mut j: usize = 0;
        while j < idx.len()
            invariant
                j <= idx@.len(),
                src == self.source_groups@,
                self.wf(),
                out@.len() == j,
                forall|a: int| 0 <= a < j ==> #[trigger] out@[a] == target_group_of(src[idx@[a] as int]),
                forall|a: int| 0 <= a < idx@.len() ==> #[trigger] idx@[a] < src.len(),
                forall|a: int, b: int| 0 <= a < b < idx@.len() ==> #[trigger] idx@[a] < #[trigger] idx@[b],
            decreases idx@.len() - j,
        {
            let g = create_group(&self.source_groups[idx[j]]);
            out.push(g);
            j = j + 1;
        }
        proof {
            assert forall|a: int, b: int|
                0 <= a < out@.len() && 0 <= b < out@.len() && a != b implies #[trigger] out@[a].key_of()
                != #[trigger] out@[b].key_of() by {
                assert(out@[a] == target_group_of(src[idx@[a] as int]));
                assert(out@[b] == target_group_of(src[idx@[b] as int]));
                if a < b {
                    assert(idx@[a] < idx@[b]);
                } else {
                    assert(idx@[b] < idx@[a]);
                }
            }
            let want = key_set(src).difference(key_set(self.target_groups@));
            assert forall|k: Seq<char>| key_set(out@).contains(k) implies want.contains(k) by {
                let a = choose|a: int| 0 <= a < out@.len() && #[trigger] out@[a].key_of() == k;
                assert(out@[a] == target_group_of(src[idx@[a] as int]));
                assert(src[idx@[a] as int].key_of() == k);
            }
            assert forall|k: Seq<char>| want.contains(k) implies key_set(out@).contains(k) by {
                let i = choose|i: int| 0 <= i < src.len() && #[trigger] src[i].key_of() == k;
                let a = choose|a: int| 0 <= a < idx@.len() && idx@[a] == i;
                assert(out@[a] == target_group_of(src[i]));
                assert(out@[a].key_of() == k);
            }
            assert(key_set(out@) =~= want);
            lemma_key_set_empty(out@);
            assert forall|a: int| 0 <= a < out@.len() implies exists|i: int|
                0 <= i < src.len() && #[trigger] out@[a] == target_group_of(src[i]) by {
                assert(out@[a] == target_group_of(src[idx@[a] as int]));
            }
        }
        out
    }

    /// Records the answer of a group create call: the created group is
    /// stored; on a conflict the existing group is to be fetched by its key.
    pub fn group_created(&mut self, created: Option<TargetGroup>, key: &String) -> (r: AfterCreate)
        requires
            old(self).wf(),
        ensures
            final(self).wf(),
            created matches Some(g) ==> {
                &&& r is Stored
                &&& key_set(final(self).target_groups@) == key_set(old(self).target_groups@).insert(g.key_of())
                &&& final(self).target_groups@.contains(g)
                &&& forall|e: TargetGroup| #[trigger] final(self).target_groups@.contains(e) ==> e == g
                    || old(self).target_groups@.contains(e)
                &&& forall|e: TargetGroup| #[trigger] old(self).target_groups@.contains(e) && e.key_of() != g.key_of()
                    ==> final(self).target_groups@.contains(e)
            },
            created is None ==> r == AfterCreate::FetchExisting(*key) && final(self).target_groups
                == old(self).target_groups,
            final(self).target_users == old(self).target_users,
            final(self).source_groups == old(self).source_groups,
            final(self).source_users == old(self).source_users,
            final(self).memberships == old(self).memberships,
            final(self).deleted_users == old(self).deleted_users,
            final(self).cap == old(self).cap,
            final(self).initial_target_users == old(self).initial_target_users,
            final(self).initial_target_groups == old(self).initial_target_groups,
    {
        match created {
            Some(g) => {
                insert_keyed(&mut self.target_groups, g);
                AfterCreate::Stored
            },
            None => AfterCreate::FetchExisting(key.clone()),
        }
    }

    /// Records the answer of the lookup made after a group conflict: the
    /// group found is stored; when nothing is found the group is skipped and
    /// the target lookup stays as it was.
    pub fn group_fetched(&mut self, found: Option<TargetGroup>, key: &String) -> (r: AfterFetch)
        requires
            old(self).wf(),
        ensures
            final(self).wf(),
            found matches Some(g) ==> {
                &&& r is Stored
                &&& key_set(final(self).target_groups@) == key_set(old(self).target_groups@).insert(g.key_of())
                &&& final(self).target_groups@.contains(g)
                &&& forall|e: TargetGroup| #[trigger] final(self).target_groups@.contains(e) ==> e == g
                    || old(self).target_groups@.contains(e)
                &&& forall|e: TargetGroup| #[trigger] old(self).target_groups@.contains(e) && e.key_of() != g.key_of()
                    ==> final(self).target_groups@.contains(e)
            },
            found is None ==> r == AfterFetch::Skipped(*key) && final(self).target_groups
                == old(self).target_groups,
            final(self).target_users == old(self).target_users,
            final(self).source_groups == old(self).source_groups,
            final(self).source_users == old(self).source_users,
            final(self).memberships == old(self).memberships,
            final(self).deleted_users == old(self).deleted_users,
            final(self).cap == old(self).cap,
            final(self).initial_target_users == old(self).initial_target_users,
            final(self).initial_target_groups == old(self).initial_target_groups,
    {
        match found {
            Some(g) => {
                insert_keyed(&mut self.target_groups, g);
                AfterFetch::Stored
            },
            None => AfterFetch::Skipped(key.clone()),
        }
    }

    /// `self` and `o` hold the same source tables, cap and initial counts.
    pub open spec fn same_source(&self, o: SyncOp) -> bool {
        &&& self.cap == o.cap
        &&& self.initial_target_users == o.initial_target_users
        &&& self.initial_target_groups == o.initial_target_groups
        &&& self.source_groups == o.source_groups
        &&& self.source_users == o.source_users
        &&& self.memberships == o.memberships
    }

    /// The advanced deletion path runs when the target user listing met the
    /// cap at the start of the run.
    pub fn require_advanced(&self) -> (r: bool)
        ensures
            r == (self.initial_target_users >= self.cap),
    {
        self.initial_target_users >= self.cap
    }

    /// Narrows the source users to the members of the source groups.
    pub fn modify_google_user_lookup_by_membership(&mut self)
        requires
            old(self).wf(),
        ensures
            final(self).wf(),
            key_set(final(self).source_users@) == key_set(old(self).source_users@).intersect(
                member_keys(old(self).memberships@),
            ),
            forall|e: SourceUser| #[trigger] final(self).source_users@.contains(e)
                ==> old(self).source_users@.contains(e),
            final(self).target_groups == old(self).target_groups,
            final(self).target_users == old(self).target_users,
            final(self).source_groups == old(self).source_groups,
            final(self).memberships == old(self).memberships,
            final(self).deleted_users == old(self).deleted_users,
            final(self).cap == old(self).cap,
            final(self).initial_target_users == old(self).initial_target_users,
            final(self).initial_target_groups == old(self).initial_target_groups,
    {
        let mut users: Vec<SourceUser> = Vec::new();
        std::mem::swap(&mut users, &mut self.source_users);
        self.source_users = keep_members(users, &self.memberships);
    }

    /// Selects the source users that take part in the user diff: all of them,
    /// or only the members of the source groups.
    pub fn select_users(&mut self, strategie: SyncStrategie)
        requires
            old(self).wf(),
        ensures
            final(self).wf(),
            strategie == SyncStrategie::AllUsers ==> final(self).source_users == old(self).source_users,
            strategie == SyncStrategie::GroupMembersOnly ==> key_set(final(self).source_users@)
                == key_set(old(self).source_users@).intersect(member_keys(old(self).memberships@)),
            forall|e: SourceUser| #[trigger] final(self).source_users@.contains(e)
                ==> old(self).source_users@.contains(e),
            final(self).target_groups == old(self).target_groups,
            final(self).target_users == old(self).target_users,
            final(self).source_groups == old(self).source_groups,
            final(self).memberships == old(self).memberships,
            final(self).deleted_users == old(self).deleted_users,
            final(self).cap == old(self).cap,
            final(self).initial_target_users == old(self).initial_target_users,
            final(self).initial_target_groups == old(self).initial_target_groups,
    {
        match strategie {
            SyncStrategie::AllUsers => {},
            SyncStrategie::GroupMembersOnly => self.modify_google_user_lookup_by_membership(),
        }
    }

    /// The simple user deletions: each target user with an id whose key is
    /// not a (selected) source user's key, with that id.
    pub fn users_to_delete(&self) -> (r: Vec<Deletion>)
        requires
            self.wf(),
        ensures
            unique_keys(r@),
            key_set(r@) == deletion_keys(self.target_users@, key_set(self.source_users@)),
            forall|j: int| 0 <= j < r@.len() ==> deletion_from(self.target_users@, #[trigger] r@[j]),
            r@.len() == 0 <==> deletion_keys(self.target_users@, key_set(self.source_users@)) == Set::<
                Seq<char>,
            >::empty(),
    {
        let r = to_delete(&self.target_users, &self.source_users);
        proof {
            lemma_key_set_empty(r@);
        }
        r
    }

    /// Removes a user deleted by the simple path from the target lookup, and
    /// notes its key.
    pub fn user_deleted(&mut self, key: &String)
        requires
            old(self).wf(),
        ensures
            final(self).wf(),
            key_set(final(self).target_users@) == key_set(old(self).target_users@).remove(key@),
            forall|e: TargetUser| #[trigger] final(self).target_users@.contains(e)
                ==> old(self).target_users@.contains(e),
            forall|e: TargetUser| #[trigger] old(self).target_users@.contains(e) && e.key_of() != key@
                ==> final(self).target_users@.contains(e),
            final(self).deleted_users@ == old(self).deleted_users@.push(*key),
            final(self).target_groups == old(self).target_groups,
            final(self).same_source(*old(self)),
    {
        remove_keyed(&mut self.target_users, key);
        self.deleted_users.push(key.clone());
    }

    /// The keys to look up at the target on the advanced deletion path: those
    /// of the users that the source lists as deleted, that are not selected
    /// source users, and that the simple path has not deleted.
    pub fn users_to_check_deleted(&self, deleted: &Vec<SourceUser>) -> (r: Vec<String>)
        ensures
            forall|j: int|
                0 <= j < r@.len() ==> {
                    &&& key_set(deleted@).contains(#[trigger] r@[j]@)
                    &&& !key_set(self.source_users@).contains(r@[j]@)
                    &&& !strings_contain(self.deleted_users@, r@[j]@)
                },
            forall|i: int|
                0 <= i < deleted@.len() && !key_set(self.source_users@).contains(
                    #[trigger] deleted@[i].key_of(),
                ) && !strings_contain(self.deleted_users@, deleted@[i].key_of()) ==> strings_contain(
                    r@,
                    deleted@[i].key_of(),
                ),
            forall|a: int, b: int| 0 <= a < b < r@.len() ==> (#[trigger] r@[a])@ != (#[trigger] r@[b])@,
    {
        let mut out: Vec<String> = Vec::new();
        let mut i: usize = 0;
        while i < deleted.len()
            invariant
                i <= deleted@.len(),
                forall|a: int, b: int| 0 <= a < b < out@.len() ==> (#[trigger] out@[a])@ != (#[trigger] out@[b])@,
                forall|j: int|
                    0 <= j < out@.len() ==> {
                        &&& key_set(deleted@).contains(#[trigger] out@[j]@)
                        &&& !key_set(self.source_users@).contains(out@[j]@)
                        &&& !strings_contain(self.deleted_users@, out@[j]@)
                    },
                forall|m: int|
                    0 <= m < i && !key_set(self.source_users@).contains(#[trigger] deleted@[m].key_of())
                        && !strings_contain(self.deleted_users@, deleted@[m].key_of())
                        ==> strings_contain(out@, deleted@[m].key_of()),
            decreases deleted@.len() - i,
        {
            let key = deleted[i].key();
            if !contains_key(&self.source_users, key) && !contains_string(&self.deleted_users, key)
                && !contains_string(&out, key) {
                let ghost pre = out@;
                out.push(key.clone());
                proof {
                    assert(key_set(deleted@).contains(deleted@[i as int].key_of()));
                    assert forall|a: int, b: int| 0 <= a < b < out@.len() implies (#[trigger] out@[a])@
                        != (#[trigger] out@[b])@ by {
                        if b < pre.len() {
                            assert(out@[a] == pre[a] && out@[b] == pre[b]);
                        } else {
                            assert(out@[a] == pre[a]);
                        }
                    }
                    assert forall|m: int|
                        0 <= m < i + 1 && !key_set(self.source_users@).contains(
                            #[trigger] deleted@[m].key_of(),
                        ) && !strings_contain(self.deleted_users@, deleted@[m].key_of())
                        implies strings_contain(out@, deleted@[m].key_of()) by {
                        if m < i {
                            let j = choose|j: int| 0 <= j < pre.len() && #[trigger] pre[j]@ == deleted@[m].key_of();
                            assert(out@[j] == pre[j]);
                        } else {
                            assert(out@[pre.len() as int]@ == deleted@[m].key_of());
                        }
                    }
                    assert forall|j: int| 0 <= j < out@.len() implies {
                        &&& key_set(deleted@).contains(#[trigger] out@[j]@)
                        &&& !key_set(self.source_users@).contains(out@[j]@)
                        &&& !strings_contain(self.deleted_users@, out@[j]@)
                    } by {
                        if j < pre.len() {
                            assert(out@[j] == pre[j]);
                        }
                    }
                }
            }
            i = i + 1;
        }
        out
    }

    /// The id to delete after a target lookup on the advanced path: that of
    /// the user found, if it has one.
    pub fn advanced_deletion_id(found: Option<TargetUser>) -> (r: Option<String>)
        ensures
            r == match found {
                Some(u) => u.id,
                None => None,
            },
    {
        match found {
            Some(u) => u.id,
            None => None,
        }
    }

    /// The users to create: one for each selected source user whose key the
    /// target lookup lacks, shaped from it.
    pub fn users_to_create(&self) -> (r: Vec<TargetUser>)
        requires
            self.wf(),
        ensures
            unique_keys(r@),
            key_set(r@) == key_set(self.source_users@).difference(key_set(self.target_users@)),
            r@.len() == 0 <==> key_set(self.source_users@).difference(key_set(self.target_users@)) == Set::<
                Seq<char>,
            >::empty(),
            forall|j: int| 0 <= j < r@.len() ==> shaped_from_some(self.source_users@, #[trigger] r@[j]),
    {
        let idx = to_create(&self.source_users, &self.target_users);
        let ghost src = self.source_users@;
        let mut out: Vec<TargetUser> = Vec::new();
        let mut j: usize = 0;
        while j < idx.len()
            invariant
                j <= idx@.len(),
                src == self.source_users@,
                self.wf(),
                out@.len() == j,
                forall|a: int| 0 <= a < j ==> user_shaped(#[trigger] out@[a], src[idx@[a] as int]),
                forall|a: int| 0 <= a < idx@.len() ==> #[trigger] idx@[a] < src.len(),
                forall|a: int, b: int| 0 <= a < b < idx@.len() ==> #[trigger] idx@[a] < #[trigger] idx@[b],
            decreases idx@.len() - j,
        {
            let u = create_user(&self.source_users[idx[j]]);
            let ghost pre = out@;
            out.push(u);
            proof {
                assert forall|a: int| 0 <= a < j + 1 implies user_shaped(
                    #[trigger] out@[a],
                    src[idx@[a] as int],
                ) by {
                    if a < j {
                        assert(out@[a] == pre[a]);
                    }
                }
            }
            j = j + 1;
        }
        proof {
            assert forall|a: int, b: int|
                0 <= a < out@.len() && 0 <= b < out@.len() && a != b implies #[trigger] out@[a].key_of()
                != #[trigger] out@[b].key_of() by {
                assert(user_shaped(out@[a], src[idx@[a] as int]));
                assert(user_shaped(out@[b], src[idx@[b] as int]));
                if a < b {
                    assert(idx@[a] < idx@[b]);
                } else {
                    assert(idx@[b] < idx@[a]);
                }
            }
            let want = key_set(src).difference(key_set(self.target_users@));
            assert forall|k: Seq<char>| key_set(out@).contains(k) implies want.contains(k) by {
                let a = choose|a: int| 0 <= a < out@.len() && #[trigger] out@[a].key_of() == k;
                assert(user_shaped(out@[a], src[idx@[a] as int]));
                assert(src[idx@[a] as int].key_of() == k);
            }
            assert forall|k: Seq<char>| want.contains(k) implies key_set(out@).contains(k) by {
                let i = choose|i: int| 0 <= i < src.len() && #[trigger] src[i].key_of() == k;
                let a = choose|a: int| 0 <= a < idx@.len() && idx@[a] == i;
                assert(user_shaped(out@[a], src[i]));
                assert(out@[a].key_of() == k);
            }
            assert(key_set(out@) =~= want);
            lemma_key_set_empty(out@);
            assert forall|a: int| 0 <= a < out@.len() implies shaped_from_some(src, #[trigger] out@[a]) by {
                assert(user_shaped(out@[a], src[idx@[a] as int]));
            }
        }
        out
    }

    /// Records the answer of a user create call: the created user is stored;
    /// on a conflict the existing user is to be fetched by its key.
    pub fn user_created(&mut self, created: Option<TargetUser>, key: &String) -> (r: AfterCreate)
        requires
            old(self).wf(),
        ensures
            final(self).wf(),
            created matches Some(u) ==> {
                &&& r is Stored
                &&& key_set(final(self).target_users@) == key_set(old(self).target_users@).insert(u.key_of())
                &&& final(self).target_users@.contains(u)
                &&& forall|e: TargetUser| #[trigger] final(self).target_users@.contains(e) ==> e == u
                    || old(self).target_users@.contains(e)
                &&& forall|e: TargetUser| #[trigger] old(self).target_users@.contains(e) && e.key_of() != u.key_of()
                    ==> final(self).target_users@.contains(e)
            },
            created is None ==> r == AfterCreate::FetchExisting(*key) && final(self).target_users
                == old(self).target_users,
            final(self).target_groups == old(self).target_groups,
            final(self).deleted_users == old(self).deleted_users,
            final(self).same_source(*old(self)),
    {
        match created {
            Some(u) => {
                insert_keyed(&mut self.target_users, u);
                AfterCreate::Stored
            },
            None => AfterCreate::FetchExisting(key.clone()),
        }
    }

    /// Records the answer of the lookup made after a user conflict: the user
    /// found is stored; when nothing is found the user is skipped and the
    /// target lookup stays as it was.
    pub fn user_fetched(&mut self, found: Option<TargetUser>, key: &String) -> (r: AfterFetch)
        requires
            old(self).wf(),
        ensures
            final(self).wf(),
            found matches Some(u) ==> {
                &&& r is Stored
                &&& key_set(final(self).target_users@) == key_set(old(self).target_users@).insert(u.key_of())
                &&& final(self).target_users@.contains(u)
                &&& forall|e: TargetUser| #[trigger] final(self).target_users@.contains(e) ==> e == u
                    || old(self).target_users@.contains(e)
                &&& forall|e: TargetUser| #[trigger] old(self).target_users@.contains(e) && e.key_of() != u.key_of()
                    ==> final(self).target_users@.contains(e)
            },
            found is None ==> r == AfterFetch::Skipped(*key) && final(self).target_users
                == old(self).target_users,
            final(self).target_groups == old(self).target_groups,
            final(self).deleted_users == old(self).deleted_users,
            final(self).same_source(*old(self)),
    {
        match found {
            Some(u) => {
                insert_keyed(&mut self.target_users, u);
                AfterFetch::Stored
            },
            None => AfterFetch::Skipped(key.clone()),
        }
    }

    /// `c` is a check of a source group with a target id and a target user
    /// with an id, and carries the source's membership bit for the pair.
    pub open spec fn check_sound(&self, c: MembershipCheck) -> bool {
        &&& exists|g: int|
            0 <= g < self.memberships@.len() && (#[trigger] self.memberships@[g]).group == c.group
                && c.in_source == members_contain(self.memberships@[g], c.user@)
        &&& group_has_id(self.target_groups@, c.group@, c.group_id)
        &&& user_has_id(self.target_users@, c.user@, c.user_id)
    }

    /// The membership queries: one for each source group with a target id
    /// and each target user with an id.
    pub fn membership_checks(&self) -> (r: Vec<MembershipCheck>)
        requires
            self.wf(),
        ensures
            distinct_pairs(r@),
            forall|k: int| 0 <= k < r@.len() ==> self.check_sound(#[trigger] r@[k]),
            forall|g: int, i: int|
                0 <= g < self.memberships@.len() && 0 <= i < self.target_users@.len()
                    && group_resolved(self.target_groups@, (#[trigger] self.memberships@[g]).group@)
                    && (#[trigger] self.target_users@[i]).id is Some ==> pair_checked(
                    r@,
                    self.memberships@[g].group@,
                    self.target_users@[i].key_of(),
                ),
    {
        let mut out: Vec<MembershipCheck> = Vec::new();
        let mut g: usize = 0;
        while g < self.memberships.len()
            invariant
                g <= self.memberships@.len(),
                self.wf(),
                distinct_pairs(out@),
                forall|k: int| 0 <= k < out@.len() ==> group_before(self.memberships@, g as int, (#[trigger] out@[k]).group@),
                forall|k: int| 0 <= k < out@.len() ==> self.check_sound(#[trigger] out@[k]),
                forall|gg: int, i: int|
                    0 <= gg < g && 0 <= i < self.target_users@.len() && group_resolved(
                        self.target_groups@,
                        (#[trigger] self.memberships@[gg]).group@,
                    ) && (#[trigger] self.target_users@[i]).id is Some ==> pair_checked(
                        out@,
                        self.memberships@[gg].group@,
                        self.target_users@[i].key_of(),
                    ),
            decreases self.memberships@.len() - g,
        {
            let m = &self.memberships[g];
            let ghost pre = out@;
            match find_key(&self.target_groups, &m.group) {
                Some(ti) => {
                    match &self.target_groups[ti].id {
                        Some(gid) => {
                            let mut part = checks_for_group(m, gid, &self.target_users);
                            let ghost part0 = part@;
                            out.append(&mut part);
                            proof {
                                assert(group_has_id(self.target_groups@, m.group@, *gid)) by {
                                    assert(self.target_groups@[ti as int].key_of() == m.group@);
                                }
                                assert(self.memberships@[g as int] == *m);
                                assert forall|k: int| 0 <= k < out@.len() implies group_before(
                                    self.memberships@,
                                    g + 1,
                                    (#[trigger] out@[k]).group@,
                                ) by {
                                    if k < pre.len() {
                                        assert(out@[k] == pre[k]);
                                        let j = choose|j: int| 0 <= j < g && #[trigger] self.memberships@[j].key_of() == pre[k].group@;
                                        assert(self.memberships@[j].key_of() == out@[k].group@);
                                    } else {
                                        assert(out@[k] == part0[k - pre.len()]);
                                        assert(self.memberships@[g as int].key_of() == out@[k].group@);
                                    }
                                }
                                assert forall|x: int, y: int| 0 <= x < y < out@.len() implies !(
                                #[trigger] out@[x].group@ == #[trigger] out@[y].group@ && out@[x].user@
                                    == out@[y].user@) by {
                                    if y < pre.len() {
                                        assert(out@[x] == pre[x] && out@[y] == pre[y]);
                                    } else if x >= pre.len() {
                                        assert(out@[x] == part0[x - pre.len()]);
                                        assert(out@[y] == part0[y - pre.len()]);
                                    } else {
                                        assert(out@[x] == pre[x]);
                                        assert(out@[y] == part0[y - pre.len()]);
                                        assert(group_before(self.memberships@, g as int, pre[x].group@));
                                        let j = choose|j: int| 0 <= j < g && #[trigger] self.memberships@[j].key_of() == pre[x].group@;
                                        assert(self.memberships@[j].key_of() != self.memberships@[g as int].key_of());
                                    }
                                }
                                assert forall|k: int| 0 <= k < out@.len() implies self.check_sound(
                                    #[trigger] out@[k],
                                ) by {
                                    if k < pre.len() {
                                        assert(out@[k] == pre[k]);
                                    } else {
                                        assert(out@[k] == part0[k - pre.len()]);
                                        assert(part0[k - pre.len()].group == m.group);
                                        assert(self.memberships@[g as int] == *m);
                                    }
                                }
                                assert forall|gg: int, i: int|
                                    0 <= gg < g + 1 && 0 <= i < self.target_users@.len() && group_resolved(
                                        self.target_groups@,
                                        (#[trigger] self.memberships@[gg]).group@,
                                    ) && (#[trigger] self.target_users@[i]).id is Some implies pair_checked(
                                        out@,
                                        self.memberships@[gg].group@,
                                        self.target_users@[i].key_of(),
                                    ) by {
                                    if gg < g {
                                        let k = choose|k: int| 0 <= k < pre.len() && #[trigger] pre[k].group@ == self.memberships@[gg].group@ && pre[k].user@ == self.target_users@[i].key_of();
                                        assert(out@[k] == pre[k]);
                                    } else {
                                        assert(pair_checked(part0, m.group@, self.target_users@[i].key_of()));
                                        let k = choose|k: int| 0 <= k < part0.len() && #[trigger] part0[k].group@ == m.group@ && part0[k].user@ == self.target_users@[i].key_of();
                                        assert(out@[pre.len() + k] == part0[k]);
                                    }
                                }
                            }
                        },
                        None => {
                            proof {
                                assert forall|gg: int, i: int|
                                    0 <= gg < g + 1 && 0 <= i < self.target_users@.len() && group_resolved(
                                        self.target_groups@,
                                        (#[trigger] self.memberships@[gg]).group@,
                                    ) && (#[trigger] self.target_users@[i]).id is Some implies pair_checked(
                                        out@,
                                        self.memberships@[gg].group@,
                                        self.target_users@[i].key_of(),
                                    ) by {
                                    if gg == g {
                                        let t = choose|t: int| 0 <= t < self.target_groups@.len() && #[trigger] self.target_groups@[t].key_of() == m.group@ && self.target_groups@[t].id is Some;
                                        assert(t == ti);
                                    }
                                }
                            }
                        },
                    }
                },
                None => {
                    proof {
                        assert forall|gg: int, i: int|
                            0 <= gg < g + 1 && 0 <= i < self.target_users@.len() && group_resolved(
                                self.target_groups@,
                                (#[trigger] self.memberships@[gg]).group@,
                            ) && (#[trigger] self.target_users@[i]).id is Some implies pair_checked(
                                out@,
                                self.memberships@[gg].group@,
                                self.target_users@[i].key_of(),
                            ) by {
                            if gg == g {
                                let t = choose|t: int| 0 <= t < self.target_groups@.len() && #[trigger] self.target_groups@[t].key_of() == m.group@ && self.target_groups@[t].id is Some;
                                assert(key_set(self.target_groups@).contains(m.group@));
                            }
                        }
                    }
                },
            }
            g = g + 1;
        }
        out
    }

    /// Compares the source's and the target's membership bit of a pair: add
    /// where only the source has it, remove where only the target has it.
    pub fn membership_action(in_source: bool, in_target: bool) -> (r: MemberAction)
        ensures
            r == action_of(in_source, in_target),
    {
        if in_source && !in_target {
            MemberAction::Add
        } else if !in_source && in_target {
            MemberAction::Remove
        } else {
            MemberAction::Keep
        }
    }
}

} // verus!
