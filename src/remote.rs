//! How the answers of the two directories' HTTP services are read: the status
//! of a provisioning call, and which group members are people.

use crate::lookup::strings_contain;
use vstd::prelude::*;
use vstd::string::StringSliceAdditionalSpecFns;

verus! {

/// The status by which the provisioning endpoint asks to slow down.
pub const STATUS_TOO_MANY_REQUESTS: u16 = 429;

/// The status of a create call whose entity already exists.
pub const STATUS_CONFLICT: u16 = 409;

/// The status of a lookup that found nothing.
pub const STATUS_NOT_FOUND: u16 = 404;

/// How a provisioning call goes on after a response.
#[derive(Clone, Copy, Debug, PartialEq, Eq, Structural)]
pub enum ScimReply {
    /// Throttled: wait briefly and send the same request again.
    Retry,
    /// A create call found the entity already there.
    Conflict,
    /// A lookup found nothing.
    NotFound,
    /// A client or server error: the run is aborted.
    Failed,
    /// The body holds the answer.
    Success,
}

/// Reads the status of a provisioning response. A conflict is an answer only
/// to create calls, and not-found only to lookups that may find nothing;
/// every other status from 400 to 599 fails the call.
pub fn classify_reply(status: u16, conflict_is_answer: bool, not_found_is_answer: bool) -> (r: ScimReply)
    ensures
        r == (if status == STATUS_TOO_MANY_REQUESTS {
            ScimReply::Retry
        } else if status == STATUS_CONFLICT && conflict_is_answer {
            ScimReply::Conflict
        } else if status == STATUS_NOT_FOUND && not_found_is_answer {
            ScimReply::NotFound
        } else if 400 <= status < 600 {
            ScimReply::Failed
        } else {
            ScimReply::Success
        }),
{
    if status == STATUS_TOO_MANY_REQUESTS {
        ScimReply::Retry
    } else if status == STATUS_CONFLICT && conflict_is_answer {
        ScimReply::Conflict
    } else if status == STATUS_NOT_FOUND && not_found_is_answer {
        ScimReply::NotFound
    } else if 400 <= status && status < 600 {
        ScimReply::Failed
    } else {
        ScimReply::Success
    }
}

/// The kind of a member of a source group.
#[derive(Clone, Copy, Debug, PartialEq, Eq, Structural)]
pub enum MemberType {
    /// A person.
    User,
    /// A nested group, a customer or anything else.
    Other,
}

/// A member of a source group, as the directory lists it.
pub struct Member {
    pub email: String,
    pub kind: MemberType,
}

/// Some person among `members` has email `e`.
pub open spec fn user_member(members: Seq<Member>, e: Seq<char>) -> bool {
    exists|i: int| 0 <= i < members.len() && #[trigger] members[i].email@ == e && members[i].kind == MemberType::User
}

/// Appends the emails of the people among one page of members to `emails`.
pub fn add_user_members(emails: &mut Vec<String>, page: Vec<Member>)
    ensures
        forall|e: Seq<char>| strings_contain(final(emails)@, e) <==> strings_contain(old(emails)@, e)
            || user_member(page@, e),
{
    let ghost start = emails@;
    let ghost all = page@;
    let mut rest = page;
    while rest.len() > 0
        invariant
            rest@.len() <= all.len(),
            rest@ == all.subrange(0, rest@.len() as int),
            forall|e: Seq<char>| strings_contain(emails@, e) <==> strings_contain(start, e)
                || exists|i: int| rest@.len() <= i < all.len() && #[trigger] all[i].email@ == e && all[i].kind == MemberType::User,
        decreases rest@.len(),
    {
        let ghost pre_rest = rest@;
        let ghost pre = emails@;
        let m = rest.pop().unwrap();
        let ghost n = rest@.len() as int;
        assert(rest@ =~= all.subrange(0, n));
        assert(all[n] == m) by {
            assert(pre_rest[n] == all[n]);
        }
        if m.kind == MemberType::User {
            emails.push(m.email);
            assert forall|e: Seq<char>| strings_contain(emails@, e) <==> strings_contain(start, e)
                || exists|i: int| n <= i < all.len() && #[trigger] all[i].email@ == e && all[i].kind == MemberType::User by {
                if strings_contain(emails@, e) {
                    let j = choose|j: int| 0 <= j < emails@.len() && #[trigger] emails@[j]@ == e;
                    if j < pre.len() {
                        assert(pre[j]@ == e);
                        assert(strings_contain(pre, e));
                        if !strings_contain(start, e) {
                            let i = choose|i: int| n + 1 <= i < all.len() && #[trigger] all[i].email@ == e && all[i].kind == MemberType::User;
                            assert(n <= i);
                        }
                    } else {
                        assert(all[n].email@ == e);
                    }
                }
                if strings_contain(start, e) {
                    assert(strings_contain(pre, e));
                    let j = choose|j: int| 0 <= j < pre.len() && #[trigger] pre[j]@ == e;
                    assert(emails@[j]@ == e);
                }
                if exists|i: int| n <= i < all.len() && #[trigger] all[i].email@ == e && all[i].kind == MemberType::User {
                    let i = choose|i: int| n <= i < all.len() && #[trigger] all[i].email@ == e && all[i].kind == MemberType::User;
                    if i == n {
                        assert(emails@[pre.len() as int]@ == e);
                    } else {
                        assert(strings_contain(pre, e));
                        let j = choose|j: int| 0 <= j < pre.len() && #[trigger] pre[j]@ == e;
                        assert(emails@[j]@ == e);
                    }
                }
            }
        } else {
            assert forall|e: Seq<char>| strings_contain(emails@, e) <==> strings_contain(start, e)
                || exists|i: int| n <= i < all.len() && #[trigger] all[i].email@ == e && all[i].kind == MemberType::User by {
                if exists|i: int| n <= i < all.len() && #[trigger] all[i].email@ == e && all[i].kind == MemberType::User {
                    let i = choose|i: int| n <= i < all.len() && #[trigger] all[i].email@ == e && all[i].kind == MemberType::User;
                    assert(i != n);
                    assert(n + 1 <= i);
                }
                if strings_contain(emails@, e) && !strings_contain(start, e) {
                    let i = choose|i: int| n + 1 <= i < all.len() && #[trigger] all[i].email@ == e && all[i].kind == MemberType::User;
                    assert(n <= i);
                }
            }
        }
    }
}

/// Some window of `hay` as long as `needle` equals it.
pub open spec fn has_window(hay: Seq<u8>, needle: Seq<u8>) -> bool {
    exists|i: int| 0 <= i && i + needle.len() <= hay.len() && #[trigger] hay.subrange(i, i + needle.len()) == needle
}

/// Whether a window of `hay` as long as `needle` equals it.
pub fn contains_window(hay: &[u8], needle: &[u8]) -> (r: bool)
    ensures
        r == has_window(hay@, needle@),
{
    let len = hay.len();
    let n = needle.len();
    if n > len {
        return false;
    }
    let last = len - n;
    let mut i: usize = 0;
    loop
        invariant
            len == hay@.len(),
            n == needle@.len(),
            n <= len,
            last == len - n,
            i <= last,
            forall|j: int| 0 <= j < i ==> #[trigger] hay@.subrange(j, j + n) != needle@,
        decreases last - i,
    {
        let mut k: usize = 0;
        let mut same = true;
        while k < n
            invariant
                len == hay@.len(),
                n == needle@.len(),
                k <= n,
                i <= last,
                last == len - n,
                same == (forall|m: int| 0 <= m < k ==> hay@[i + m] == needle@[m]),
            decreases n - k,
        {
            if hay[i + k] != needle[k] {
                same = false;
            }
            k = k + 1;
        }
        if same {
            assert(hay@.subrange(i as int, i + n) =~= needle@);
            return true;
        }
        assert(hay@.subrange(i as int, i + n) != needle@) by {
            let m = choose|m: int| 0 <= m < n && hay@[i + m] != needle@[m];
            assert(hay@.subrange(i as int, i + n)[m] == hay@[i + m]);
        }
        if i == last {
            assert forall|j: int| 0 <= j && j + n <= hay@.len() implies #[trigger] hay@.subrange(
                j,
                j + n,
            ) != needle@ by {
                assert(j <= i);
            }
            return false;
        }
        i = i + 1;
    }
}

/// The marker of a throttled AWS call answered with status 400.
pub const THROTTLING_MARKER: &'static str = "ThrottlingException";

/// The marker of a throttled AWS call answered with status 429.
pub const TOO_MANY_REQUESTS_MARKER: &'static str = "Too Many Requests";

/// Whether an AWS error response asks the caller to cool down and try again:
/// status 400 naming a throttling exception, or 429 saying so in its body.
pub fn is_throttled(status: u16, body: &[u8]) -> (r: bool)
    ensures
        r == ((status == 400 && has_window(body@, THROTTLING_MARKER.spec_bytes())) || (status == 429
            && has_window(body@, TOO_MANY_REQUESTS_MARKER.spec_bytes()))),
{
    if status == 400 {
        contains_window(body, THROTTLING_MARKER.as_bytes())
    } else if status == 429 {
        contains_window(body, TOO_MANY_REQUESTS_MARKER.as_bytes())
    } else {
        false
    }
}

} // verus!
