//! Which CloudWatch log groups get a daily export: the status of existing
//! export tasks, which of them cover the export window, and tag filters.

use crate::text::{is_prefix, replace_all, replaced, starts_with, trim_start_char, trimmed_start};
use rand::Rng;
use vstd::prelude::*;

verus! {

/// A tag of a log group, or a tag filter: a name and a value.
#[derive(Debug, Clone, PartialEq)]
pub struct Tag {
    pub name: String,
    pub value: String,
}

/// The status codes of an export task.
#[derive(Clone, Copy, Debug, PartialEq, Eq, Structural)]
pub enum ExportTaskStatus {
    Cancelled,
    Completed,
    Failed,
    Pending,
    PendingCancel,
    Running,
}

/// The status that a status code names, if it names one.
pub open spec fn status_of(s: Seq<char>) -> Option<ExportTaskStatus> {
    if s == "CANCELLED"@ {
        Some(ExportTaskStatus::Cancelled)
    } else if s == "COMPLETED"@ {
        Some(ExportTaskStatus::Completed)
    } else if s == "FAILED"@ {
        Some(ExportTaskStatus::Failed)
    } else if s == "PENDING"@ {
        Some(ExportTaskStatus::Pending)
    } else if s == "PENDING_CANCEL"@ {
        Some(ExportTaskStatus::PendingCancel)
    } else if s == "RUNNING"@ {
        Some(ExportTaskStatus::Running)
    } else {
        None
    }
}

/// Whether `s` reads the same as the literal `lit`.
fn same_text(s: &str, lit: &str) -> (r: bool)
    ensures
        r == (s@ == lit@),
{
    let a = String::from_str(s);
    let b = String::from_str(lit);
    a.eq(&b)
}

impl ExportTaskStatus {
    /// Reads a status code.
    pub fn try_convert(s: &str) -> (r: Option<Self>)
        ensures
            r == status_of(s@),
    {
        if same_text(s, "CANCELLED") {
            Some(Self::Cancelled)
        } else if same_text(s, "COMPLETED") {
            Some(Self::Completed)
        } else if same_text(s, "FAILED") {
            Some(Self::Failed)
        } else if same_text(s, "PENDING") {
            Some(Self::Pending)
        } else if same_text(s, "PENDING_CANCEL") {
            Some(Self::PendingCancel)
        } else if same_text(s, "RUNNING") {
            Some(Self::Running)
        } else {
            None
        }
    }
}

/// The prefix of the names of the export tasks that this tool creates.
pub const EXPORT_TASK_PREFIX: &'static str = "AUTO-EXPORT-";

/// The number of random characters after the prefix of a task name.
pub const TASK_NAME_RANDOM_LEN: usize = 7;

/// What an export task listing says of one task.
pub struct ExportTaskInfo {
    /// Start of the exported range, in milliseconds since the epoch.
    pub from: Option<i64>,
    /// End of the exported range, in milliseconds since the epoch.
    pub to: Option<i64>,
    pub task_name: Option<String>,
    pub status_code: Option<String>,
    pub log_group_name: Option<String>,
}

/// An export task of this tool that covers the export window and has not
/// failed or been cancelled.
pub struct ExportTask {
    pub log_group_name: String,
}

/// A status that leaves the export done or under way.
pub open spec fn status_counts(s: ExportTaskStatus) -> bool {
    !(s == ExportTaskStatus::Cancelled || s == ExportTaskStatus::Failed || s
        == ExportTaskStatus::PendingCancel)
}

/// The log group of `t` if `t` is one of this tool's export tasks, within
/// the window from `not_before` to `not_after`, and neither failed nor
/// cancelled; every field it reads must be present.
pub open spec fn counted_task(t: ExportTaskInfo, not_before: i64, not_after: i64) -> Option<String> {
    match (t.from, t.to, t.task_name, t.status_code, t.log_group_name) {
        (Some(from), Some(to), Some(name), Some(code), Some(group)) => {
            if not_before <= from && to <= not_after && is_prefix(EXPORT_TASK_PREFIX@, name@) && (
            match status_of(code@) {
                Some(st) => status_counts(st),
                None => false,
            }) {
                Some(group)
            } else {
                None
            }
        },
        _ => None,
    }
}

impl ExportTask {
    /// Keeps an export task that already covers the window, so that its log
    /// group is not exported again.
    pub fn try_convert(task: ExportTaskInfo, not_before: i64, not_after: i64) -> (r: Option<Self>)
        ensures
            r matches Some(t) ==> counted_task(task, not_before, not_after) == Some(t.log_group_name),
            r is None ==> counted_task(task, not_before, not_after) is None,
    {
        let from = match task.from {
            Some(v) => v,
            None => return None,
        };
        if from < not_before {
            return None;
        }
        let to = match task.to {
            Some(v) => v,
            None => return None,
        };
        if to > not_after {
            return None;
        }
        let name = match task.task_name {
            Some(v) => v,
            None => return None,
        };
        if !starts_with(name.as_str(), EXPORT_TASK_PREFIX) {
            return None;
        }
        let code = match task.status_code {
            Some(v) => v,
            None => return None,
        };
        match ExportTaskStatus::try_convert(code.as_str()) {
            None
            | Some(ExportTaskStatus::Cancelled)
            | Some(ExportTaskStatus::Failed)
            | Some(ExportTaskStatus::PendingCancel) => return None,
            _ => {},
        }
        match task.log_group_name {
            Some(log_group_name) => Some(ExportTask { log_group_name }),
            None => None,
        }
    }
}

/// Some tag of `tags` has the name and value of `t`.
pub open spec fn has_tag(tags: Seq<Tag>, t: Tag) -> bool {
    exists|i: int| 0 <= i < tags.len() && #[trigger] tags[i].name@ == t.name@ && tags[i].value@ == t.value@
}

/// A log group passes the tag filters when it has one of the included tags
/// (if any are given) and none of the excluded ones.
pub open spec fn tags_pass(tags: Seq<Tag>, required: Option<Vec<Tag>>, excluded: Option<Vec<Tag>>) -> bool {
    &&& (required matches Some(inc) ==> exists|i: int| 0 <= i < inc@.len() && has_tag(tags, #[trigger] inc@[i]))
    &&& (excluded matches Some(exc) ==> forall|i: int| 0 <= i < exc@.len() ==> !has_tag(tags, #[trigger] exc@[i]))
}

/// Whether `tags` has a tag with the name and value of `t`.
fn find_tag(tags: &Vec<Tag>, t: &Tag) -> (r: bool)
    ensures
        r == has_tag(tags@, *t),
{
    let mut i: usize = 0;
    while i < tags.len()
        invariant
            i <= tags@.len(),
            forall|j: int| 0 <= j < i ==> !(#[trigger] tags@[j].name@ == t.name@ && tags@[j].value@ == t.value@),
        decreases tags@.len() - i,
    {
        if tags[i].name.eq(&t.name) && tags[i].value.eq(&t.value) {
            return true;
        }
        i = i + 1;
    }
    false
}

/// Whether some filter of `filters` is among `tags`.
fn any_tag(tags: &Vec<Tag>, filters: &Vec<Tag>) -> (r: bool)
    ensures
        r == exists|i: int| 0 <= i < filters@.len() && has_tag(tags@, #[trigger] filters@[i]),
{
    let mut i: usize = 0;
    while i < filters.len()
        invariant
            i <= filters@.len(),
            forall|j: int| 0 <= j < i ==> !has_tag(tags@, #[trigger] filters@[j]),
        decreases filters@.len() - i,
    {
        if find_tag(tags, &filters[i]) {
            return true;
        }
        i = i + 1;
    }
    false
}

/// Applies the required and excluded tag filters to the tags of a log group.
pub fn tags_allow(tags: &Vec<Tag>, required: &Option<Vec<Tag>>, excluded: &Option<Vec<Tag>>) -> (r: bool)
    ensures
        r == tags_pass(tags@, *required, *excluded),
{
    match required {
        Some(inc) => {
            if !any_tag(tags, inc) {
                return false;
            }
        },
        None => {},
    }
    match excluded {
        Some(exc) => !any_tag(tags, exc),
        None => true,
    }
}

/// A log group is exported only when its last event is at or after the
/// start of the export window; one without events is skipped.
pub fn has_new_events(last_event: Option<i64>, window_start: i64) -> (r: bool)
    ensures
        r == (last_event matches Some(t) && t >= window_start),
{
    match last_event {
        Some(t) => t >= window_start,
        None => false,
    }
}

/// What the export loop does next, by the clock.
#[derive(Clone, Copy, Debug, PartialEq, Eq, Structural)]
pub enum Budget {
    /// The backup day is over: stop.
    Stop,
    /// This invocation's time is up: hand the rest to a new invocation.
    Reinvoke,
    /// Go on with the next log group.
    Work,
}

/// Decides by the time `now` whether the loop stops, hands over or goes on.
pub fn budget_step(now: i64, end_backup: i64, end_local: i64) -> (r: Budget)
    ensures
        r == (if now >= end_backup {
            Budget::Stop
        } else if now >= end_local {
            Budget::Reinvoke
        } else {
            Budget::Work
        }),
{
    if now >= end_backup {
        Budget::Stop
    } else if now >= end_local {
        Budget::Reinvoke
    } else {
        Budget::Work
    }
}

/// An ASCII letter or digit.
pub open spec fn is_alphanumeric(c: char) -> bool {
    ('A' <= c && c <= 'Z') || ('a' <= c && c <= 'z') || ('0' <= c && c <= '9')
}

/// Relies on rand's `Alphanumeric` distribution, sampled from the thread's
/// generator: `n` characters drawn from the ASCII letters and digits.
#[verifier::external_body]
fn random_alphanumeric(n: usize) -> (r: String)
    ensures
        r@.len() == n,
        forall|i: int| 0 <= i < r@.len() ==> is_alphanumeric(#[trigger] r@[i]),
{
    rand::thread_rng().sample_iter(&rand::distributions::Alphanumeric).take(n).map(char::from).collect()
}

/// A fresh export task name: the task prefix and random letters and digits.
pub fn generate_task_name() -> (r: String)
    ensures
        is_prefix(EXPORT_TASK_PREFIX@, r@),
        r@.len() == EXPORT_TASK_PREFIX@.len() + TASK_NAME_RANDOM_LEN,
        forall|i: int|
            EXPORT_TASK_PREFIX@.len() <= i < r@.len() ==> is_alphanumeric(#[trigger] r@[i]),
{
    let suffix = random_alphanumeric(TASK_NAME_RANDOM_LEN);
    let name = String::from_str(EXPORT_TASK_PREFIX).concat(suffix.as_str());
    assert(name@.subrange(0, EXPORT_TASK_PREFIX@.len() as int) =~= EXPORT_TASK_PREFIX@);
    name
}

/// The comma-separated pieces of `s` from `j` on, the current piece having
/// begun at `start`.
pub open spec fn pieces_from(s: Seq<char>, start: int, j: int) -> Seq<Seq<char>>
    decreases s.len() - j,
{
    if j >= s.len() {
        seq![s.subrange(start, s.len() as int)]
    } else if s[j] == ',' {
        seq![s.subrange(start, j)] + pieces_from(s, j + 1, j + 1)
    } else {
        pieces_from(s, start, j + 1)
    }
}

/// The pieces of `s` between commas; an empty text is one empty piece.
pub open spec fn comma_pieces(s: Seq<char>) -> Seq<Seq<char>> {
    pieces_from(s, 0, 0)
}

/// `e` is the position of the first `=` of `piece`.
pub open spec fn first_equals(piece: Seq<char>, e: int) -> bool {
    &&& 0 <= e < piece.len()
    &&& piece[e] == '='
    &&& forall|k: int| 0 <= k < e ==> piece[k] != '='
}

/// A piece `name=value`, split at its first `=`.
pub open spec fn piece_tag(piece: Seq<char>, name: Seq<char>, value: Seq<char>) -> bool {
    exists|e: int|
        first_equals(piece, e) && name == piece.subrange(0, e) && value == piece.subrange(e + 1, piece.len() as int)
}

/// Parses tag filters written `name=value,name=value`; a piece without `=`
/// makes the whole text invalid.
pub fn parse_tags(s: &str) -> (r: Option<Vec<Tag>>)
    ensures
        r is Some <==> forall|i: int|
            0 <= i < comma_pieces(s@).len() ==> #[trigger] comma_pieces(s@)[i].contains('='),
        r matches Some(v) ==> v@.len() == comma_pieces(s@).len() && forall|i: int|
            0 <= i < v@.len() ==> piece_tag(comma_pieces(s@)[i], #[trigger] v@[i].name@, v@[i].value@),
{
    let n = s.unicode_len();
    let mut tags: Vec<Tag> = Vec::new();
    let ghost mut done: Seq<Seq<char>> = Seq::empty();
    let mut start: usize = 0;
    let mut eq: Option<usize> = None;
    let mut j: usize = 0;
    while j < n
        invariant
            n == s@.len(),
            start <= j <= n,
            comma_pieces(s@) == done + pieces_from(s@, start as int, j as int),
            forall|k: int| start <= k < j ==> s@[k] != ',',
            eq matches Some(e) ==> start <= e < j && first_equals(s@.subrange(start as int, j as int), e - start),
            eq is None ==> forall|k: int| start <= k < j ==> s@[k] != '=',
            tags@.len() == done.len(),
            forall|i: int| 0 <= i < done.len() ==> #[trigger] done[i].contains('='),
            forall|i: int| 0 <= i < tags@.len() ==> piece_tag(done[i], #[trigger] tags@[i].name@, tags@[i].value@),
        decreases n - j,
    {
        let c = s.get_char(j);
        if c == ',' {
            let ghost piece = s@.subrange(start as int, j as int);
            assert(pieces_from(s@, start as int, j as int) == seq![piece] + pieces_from(s@, j + 1, j + 1));
            match eq {
                None => {
                    assert(!piece.contains('=')) by {
                        if piece.contains('=') {
                            let k = choose|k: int| 0 <= k < piece.len() && piece[k] == '=';
                            assert(s@[start + k] == '=');
                        }
                    }
                    assert((done + pieces_from(s@, start as int, j as int))[done.len() as int] == piece);
                    return None;
                },
                Some(e) => {
                    let name = String::from_str(s.substring_char(start, e));
                    let value = String::from_str(s.substring_char(e + 1, j));
                    proof {
                        assert(name@ =~= piece.subrange(0, e - start));
                        assert(value@ =~= piece.subrange(e - start + 1, piece.len() as int));
                        assert(piece[e - start] == '=');
                    }
                    let ghost pre = tags@;
                    tags.push(Tag { name, value });
                    proof {
                        assert(piece_tag(piece, name@, value@));
                        let ghost old_done = done;
                        done = done.push(piece);
                        assert(comma_pieces(s@) =~= done + pieces_from(s@, j + 1, j + 1));
                        assert forall|i: int| 0 <= i < done.len() implies #[trigger] done[i].contains('=') by {
                            if i < old_done.len() {
                                assert(done[i] == old_done[i]);
                            } else {
                                assert(piece[e - start] == '=');
                            }
                        }
                        assert forall|i: int| 0 <= i < tags@.len() implies piece_tag(
                            done[i],
                            #[trigger] tags@[i].name@,
                            tags@[i].value@,
                        ) by {
                            if i < pre.len() {
                                assert(tags@[i] == pre[i]);
                                assert(done[i] == old_done[i]);
                            }
                        }
                    }
                },
            }
            start = j + 1;
            eq = None;
        } else {
            assert(pieces_from(s@, start as int, j as int) == pieces_from(s@, start as int, j + 1));
            if eq.is_none() && c == '=' {
                eq = Some(j);
                assert(s@.subrange(start as int, j + 1)[j - start] == '=');
                assert forall|k: int| 0 <= k < j - start implies #[trigger] s@.subrange(start as int, j + 1)[k] != '=' by {
                    assert(s@.subrange(start as int, j + 1)[k] == s@[start + k]);
                }
            } else {
                match eq {
                    Some(e) => {
                        assert forall|k: int| 0 <= k < e - start implies #[trigger] s@.subrange(start as int, j + 1)[k] != '=' by {
                            assert(s@.subrange(start as int, j as int)[k] != '=');
                            assert(s@.subrange(start as int, j + 1)[k] == s@[start + k]);
                        }
                        assert(s@.subrange(start as int, j + 1)[e - start] == s@.subrange(start as int, j as int)[e - start]);
                    },
                    None => {},
                }
            }
        }
        j = j + 1;
    }
    let ghost piece = s@.subrange(start as int, n as int);
    assert(pieces_from(s@, start as int, n as int) == seq![piece]);
    assert(comma_pieces(s@) == done.push(piece)) by {
        assert(done + seq![piece] =~= done.push(piece));
    }
    match eq {
        None => {
            assert(!piece.contains('=')) by {
                if piece.contains('=') {
                    let k = choose|k: int| 0 <= k < piece.len() && piece[k] == '=';
                    assert(s@[start + k] == '=');
                }
            }
            assert(comma_pieces(s@)[done.len() as int] == piece);
            None
        },
        Some(e) => {
            let name = String::from_str(s.substring_char(start, e));
            let value = String::from_str(s.substring_char(e + 1, n));
            proof {
                assert(name@ =~= piece.subrange(0, e - start));
                assert(value@ =~= piece.subrange(e - start + 1, piece.len() as int));
                assert(piece_tag(piece, name@, value@));
            }
            let ghost pre = tags@;
            tags.push(Tag { name, value });
            proof {
                let ghost all = done.push(piece);
                assert forall|i: int| 0 <= i < all.len() implies #[trigger] all[i].contains('=') by {
                    if i < done.len() {
                        assert(all[i] == done[i]);
                    } else {
                        assert(piece[e - start] == '=');
                    }
                }
                assert forall|i: int| 0 <= i < tags@.len() implies piece_tag(
                    all[i],
                    #[trigger] tags@[i].name@,
                    tags@[i].value@,
                ) by {
                    if i < pre.len() {
                        assert(tags@[i] == pre[i]);
                        assert(all[i] == done[i]);
                    }
                }
            }
            Some(tags)
        },
    }
}

/// The character of a decimal digit.
pub open spec fn digit_char(d: nat) -> char {
    seq!['0', '1', '2', '3', '4', '5', '6', '7', '8', '9'][d as int]
}

/// The decimal digits of `n`, without leading zeros.
pub open spec fn decimal(n: nat) -> Seq<char>
    decreases n,
{
    if n < 10 {
        seq![digit_char(n)]
    } else {
        decimal(n / 10).push(digit_char(n % 10))
    }
}

/// The decimal digits of `n`, padded on the left with zeros to `width`.
pub open spec fn zero_padded(n: nat, width: nat) -> Seq<char> {
    let d = decimal(n);
    if d.len() < width {
        Seq::new((width - d.len()) as nat, |i: int| '0') + d
    } else {
        d
    }
}

/// Relies on std's `format!` with the `{:02}` specifier: the decimal digits
/// of `n`, padded on the left with zeros to at least two characters.
#[verifier::external_body]
fn two_digits(n: u32) -> (r: String)
    ensures
        r@ == zero_padded(n as nat, 2),
{
    format!("{:02}", n)
}

/// The object prefix of the exports of one day: the date placeholders and
/// the region filled in, in this order.
pub open spec fn prefix_for_day(template: Seq<char>, year: nat, month: nat, day: nat, region: Seq<char>) -> Seq<char> {
    replaced(
        replaced(
            replaced(replaced(template, "{year}"@, zero_padded(year, 2)), "{month}"@, zero_padded(month, 2)),
            "{day}"@,
            zero_padded(day, 2),
        ),
        "{region}"@,
        region,
    )
}

/// Fills the date and region placeholders of an export prefix template.
pub fn render_prefix(template: &str, year: u32, month: u32, day: u32, region: &str) -> (r: String)
    ensures
        r@ == prefix_for_day(template@, year as nat, month as nat, day as nat, region@),
{
    proof {
        reveal_strlit("{year}");
        reveal_strlit("{month}");
        reveal_strlit("{day}");
        reveal_strlit("{region}");
    }
    let y = two_digits(year);
    let with_year = replace_all(template, "{year}", y.as_str());
    let m = two_digits(month);
    let with_month = replace_all(with_year.as_str(), "{month}", m.as_str());
    let d = two_digits(day);
    let with_day = replace_all(with_month.as_str(), "{day}", d.as_str());
    replace_all(with_day.as_str(), "{region}", region)
}

/// Fills the log group placeholder of an export prefix, with the group's
/// name stripped of its leading slashes.
pub fn group_prefix(prefix: &str, group: &str) -> (r: String)
    ensures
        r@ == replaced(prefix@, "{group}"@, trimmed_start(group@, '/')),
{
    proof {
        reveal_strlit("{group}");
    }
    replace_all(prefix, "{group}", trim_start_char(group, '/'))
}

} // verus!
