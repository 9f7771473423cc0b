//! The entities of both directories and how a source entity is shaped into a
//! target entity.

use crate::lookup::{Identified, Keyed};
use vstd::prelude::*;

verus! {

/// A group of the source directory; its email is its key.
pub struct SourceGroup {
    pub id: String,
    pub email: String,
}

/// The name parts of a source user.
pub struct SourceUserName {
    pub full_name: String,
    pub family_name: String,
    pub given_name: String,
}

/// One email address of a source user.
pub struct SourceUserMail {
    pub address: String,
    pub primary: Option<bool>,
    pub kind: Option<String>,
}

/// A user of the source directory; its primary email is its key.
pub struct SourceUser {
    pub id: String,
    pub primary_email: String,
    pub suspended: Option<bool>,
    pub name: SourceUserName,
    pub emails: Vec<SourceUserMail>,
    pub thumbnail_photo_url: Option<String>,
}

/// A group of the target endpoint; its display name is its key.
pub struct TargetGroup {
    pub id: Option<String>,
    pub display_name: String,
}

/// The name parts of a target user.
pub struct TargetUserName {
    pub formatted: Option<String>,
    pub family_name: String,
    pub given_name: String,
}

/// One email address of a target user.
pub struct TargetUserMail {
    pub value: String,
    pub kind: Option<String>,
    pub primary: Option<bool>,
}

/// A user of the target endpoint; its user name is its key.
pub struct TargetUser {
    pub id: Option<String>,
    pub external_id: Option<String>,
    pub user_name: String,
    pub name: TargetUserName,
    pub display_name: String,
    pub profile_url: Option<String>,
    pub emails: Option<Vec<TargetUserMail>>,
    pub active: bool,
}

/// The members of one source group, keyed by the group's email.
pub struct GroupMembers {
    pub group: String,
    pub members: Vec<String>,
}

/// A deletion to issue at the target: the entity's key and its target id.
pub struct Deletion {
    pub key: String,
    pub id: String,
}

impl Keyed for SourceGroup {
    open spec fn key_of(&self) -> Seq<char> {
        self.email@
    }

    fn key(&self) -> (r: &String) {
        &self.email
    }
}

impl Keyed for SourceUser {
    open spec fn key_of(&self) -> Seq<char> {
        self.primary_email@
    }

    fn key(&self) -> (r: &String) {
        &self.primary_email
    }
}

impl Keyed for TargetGroup {
    open spec fn key_of(&self) -> Seq<char> {
        self.display_name@
    }

    fn key(&self) -> (r: &String) {
        &self.display_name
    }
}

impl Keyed for TargetUser {
    open spec fn key_of(&self) -> Seq<char> {
        self.user_name@
    }

    fn key(&self) -> (r: &String) {
        &self.user_name
    }
}

impl Keyed for GroupMembers {
    open spec fn key_of(&self) -> Seq<char> {
        self.group@
    }

    fn key(&self) -> (r: &String) {
        &self.group
    }
}

impl Keyed for Deletion {
    open spec fn key_of(&self) -> Seq<char> {
        self.key@
    }

    fn key(&self) -> (r: &String) {
        &self.key
    }
}

impl Identified for TargetGroup {
    open spec fn id_of(&self) -> Option<String> {
        self.id
    }

    fn id(&self) -> (r: &Option<String>) {
        &self.id
    }
}

impl Identified for TargetUser {
    open spec fn id_of(&self) -> Option<String> {
        self.id
    }

    fn id(&self) -> (r: &Option<String>) {
        &self.id
    }
}

/// Which source users take part in the user diff.
#[derive(Clone, Copy, Debug, PartialEq, Eq, Structural)]
pub enum SyncStrategie {
    AllUsers,
    GroupMembersOnly,
}

/// Copies an optional string.
pub fn copy_opt_string(o: &Option<String>) -> (r: Option<String>)
    ensures
        r == *o,
{
    match o {
        Some(s) => Some(s.clone()),
        None => None,
    }
}

/// A mail entry is the primary one when its flag says so.
pub open spec fn is_primary_mail(m: SourceUserMail) -> bool {
    m.primary == Some(true)
}

/// The target mail that stands for a source mail.
pub open spec fn target_mail_of(m: SourceUserMail) -> TargetUserMail {
    TargetUserMail { value: m.address, kind: m.kind, primary: m.primary }
}

/// The index of the first primary mail of `s`, if there is one.
pub open spec fn first_primary(s: Seq<SourceUserMail>, i: int) -> bool {
    &&& 0 <= i < s.len()
    &&& is_primary_mail(s[i])
    &&& forall|j: int| 0 <= j < i ==> !is_primary_mail(#[trigger] s[j])
}

/// The target group that a source group becomes: its key is the source email,
/// and it has no target id until the target assigns one.
pub open spec fn target_group_of(g: SourceGroup) -> TargetGroup {
    TargetGroup { id: None, display_name: g.email }
}

/// Shapes a source group into the target group to create.
pub fn create_group(group: &SourceGroup) -> (r: TargetGroup)
    ensures
        r == target_group_of(*group),
{
    TargetGroup { id: None, display_name: group.email.clone() }
}

/// The sole target mail list of a user: the first mail marked primary, if
/// any; the other mails are dropped.
fn primary_mails(emails: &Vec<SourceUserMail>) -> (r: Option<Vec<TargetUserMail>>)
    ensures
        r is None <==> forall|i: int|
            0 <= i < emails@.len() ==> !is_primary_mail(#[trigger] emails@[i]),
        r matches Some(v) ==> v@.len() == 1 && exists|i: int|
            first_primary(emails@, i) && v@[0] == target_mail_of(emails@[i]),
{
    let mut i: usize = 0;
    while i < emails.len()
        invariant
            i <= emails@.len(),
            forall|j: int| 0 <= j < i ==> !is_primary_mail(#[trigger] emails@[j]),
        decreases emails@.len() - i,
    {
        let m = &emails[i];
        if m.primary == Some(true) {
            let mut v: Vec<TargetUserMail> = Vec::new();
            v.push(
                TargetUserMail {
                    value: m.address.clone(),
                    kind: copy_opt_string(&m.kind),
                    primary: m.primary,
                },
            );
            assert(first_primary(emails@, i as int));
            return Some(v);
        }
        i = i + 1;
    }
    None
}

/// `r` is the target user that source user `u` becomes: keyed by the primary
/// email, with the source id as external id, the full name as display name,
/// active unless suspended, the photo as profile, and as sole mail the first
/// one marked primary; it has no target id until the target assigns one.
pub open spec fn user_shaped(r: TargetUser, u: SourceUser) -> bool {
    &&& r.id is None
    &&& r.external_id == Some(u.id)
    &&& r.user_name == u.primary_email
    &&& r.name.formatted == Some(u.name.full_name)
    &&& r.name.family_name == u.name.family_name
    &&& r.name.given_name == u.name.given_name
    &&& r.display_name == u.name.full_name
    &&& r.profile_url == u.thumbnail_photo_url
    &&& r.active == !(u.suspended == Some(true))
    &&& (r.emails is None <==> forall|i: int|
        0 <= i < u.emails@.len() ==> !is_primary_mail(#[trigger] u.emails@[i]))
    &&& (r.emails matches Some(v) ==> v@.len() == 1 && exists|i: int|
        first_primary(u.emails@, i) && v@[0] == target_mail_of(u.emails@[i]))
}

/// Shapes a source user into the target user to create.
pub fn create_user(user: &SourceUser) -> (r: TargetUser)
    ensures
        user_shaped(r, *user),
{
    let emails = primary_mails(&user.emails);
    let active = match user.suspended {
        Some(s) => !s,
        None => true,
    };
    TargetUser {
        id: None,
        external_id: Some(user.id.clone()),
        user_name: user.primary_email.clone(),
        name: TargetUserName {
            formatted: Some(user.name.full_name.clone()),
            family_name: user.name.family_name.clone(),
            given_name: user.name.given_name.clone(),
        },
        display_name: user.name.full_name.clone(),
        profile_url: copy_opt_string(&user.thumbnail_photo_url),
        emails,
        active,
    }
}

} // verus!
