//! The state of a family of worktrees, and how its keeper answers requests.

use vstd::prelude::*;
use vstd::utf8::*;

use crate::capture::optional_text;
use crate::error::{ErrorView, GitAiError};
use crate::order::Key;
use crate::sorted_map::{entry, holds, keyed_at, lemma_drop_last, lemma_entry_at, lemma_put};
use crate::sorted_map::{lemma_put_all_sorted, lemma_sorted_unique, put, sorted, text_key, Entries};
use crate::sorted_map::{values_are_found_by_text, SortedMap};

verus! {

/// The name of a family of worktrees.
pub struct FamilyKey {
    pub name: String,
}

impl View for FamilyKey {
    type V = Seq<char>;

    open spec fn view(&self) -> Seq<char> {
        self.name@
    }
}

impl FamilyKey {
    /// The key with the given name.
    pub fn new(name: &str) -> (key: FamilyKey)
        ensures
            key@ == name@,
    {
        FamilyKey { name: name.to_owned() }
    }

    /// A key with the same name.
    pub fn copy(&self) -> (key: FamilyKey)
        ensures
            key@ == self@,
    {
        FamilyKey { name: self.name.as_str().to_owned() }
    }
}

/// The part of a family's state that its keeper answers from.
pub struct FamilyState {
    pub family_key: FamilyKey,
    pub last_error: Option<String>,
    pub applied_seq: u64,
    pub file_snapshot_watermarks: SortedMap<String, u128>,
}

/// The state of a family by its contents.
pub struct FamilyView {
    pub family_key: Seq<char>,
    pub last_error: Option<Seq<char>>,
    pub applied_seq: u64,
    pub watermarks: Entries<u128>,
}

impl View for FamilyState {
    type V = FamilyView;

    open spec fn view(&self) -> FamilyView {
        FamilyView {
            family_key: self.family_key@,
            last_error: optional_text(self.last_error),
            applied_seq: self.applied_seq,
            watermarks: self.file_snapshot_watermarks@,
        }
    }
}

/// A command that was applied, under its number.
#[derive(Debug, Clone, Copy, PartialEq, Eq, Structural)]
pub struct AppliedCommand {
    pub seq: u64,
}

/// The acknowledgement of a checkpoint.
#[derive(Debug, Clone, Copy, PartialEq, Eq, Structural)]
pub struct ApplyAck {
    pub seq: u64,
    pub applied: bool,
}

/// The status of a family.
pub struct FamilyStatus {
    pub family_key: FamilyKey,
    pub applied_seq: u64,
    pub last_error: Option<String>,
}

/// What the reduction of a command or a checkpoint leaves in the state.
pub struct Reduction {
    pub applied_seq: u64,
    pub last_error: Option<String>,
}

/// A request to the keeper of a family. A command or a checkpoint comes with what its reduction
/// gave.
pub enum FamilyRequest {
    Apply(Reduction, Result<AppliedCommand, GitAiError>),
    ApplyCheckpoint(Reduction),
    Status,
    GetWatermarks,
    UpdateWatermarks(SortedMap<String, u128>),
    Shutdown,
}

/// The keeper's reply.
pub enum FamilyReply {
    Applied(Result<AppliedCommand, GitAiError>),
    Acknowledged(ApplyAck),
    Status(FamilyStatus),
    Watermarks(SortedMap<String, u128>),
    /// There is nothing to reply.
    Nothing,
    /// The keeper stops.
    Stopped,
}

/// A reply by its contents.
pub enum ReplyView {
    Applied(Result<AppliedCommand, ErrorView>),
    Acknowledged(ApplyAck),
    Status(Seq<char>, u64, Option<Seq<char>>),
    Watermarks(Entries<u128>),
    Nothing,
    Stopped,
}

impl View for FamilyReply {
    type V = ReplyView;

    open spec fn view(&self) -> ReplyView {
        match self {
            FamilyReply::Applied(Ok(applied)) => ReplyView::Applied(Ok(*applied)),
            FamilyReply::Applied(Err(error)) => ReplyView::Applied(Err(error@)),
            FamilyReply::Acknowledged(ack) => ReplyView::Acknowledged(*ack),
            FamilyReply::Status(status) => ReplyView::Status(
                status.family_key@,
                status.applied_seq,
                optional_text(status.last_error),
            ),
            FamilyReply::Watermarks(marks) => ReplyView::Watermarks(marks@),
            FamilyReply::Nothing => ReplyView::Nothing,
            FamilyReply::Stopped => ReplyView::Stopped,
        }
    }
}

/// The higher of what is found under a rank in two lists.
pub open spec fn higher(
    a: Option<(Seq<char>, u128)>,
    b: Option<(Seq<char>, u128)>,
) -> Option<(Seq<char>, u128)> {
    match (a, b) {
        (Some(x), Some(y)) => Some(
            (
                x.0,
                if y.1 > x.1 {
                    y.1
                } else {
                    x.1
                },
            ),
        ),
        (Some(x), None) => Some(x),
        (None, _) => b,
    }
}

/// The watermarks after one was reported for `path`: a watermark only rises.
pub open spec fn raised(marks: Entries<u128>, path: Seq<char>, mtime_ns: u128) -> Entries<u128> {
    put::<String, u128>(
        marks,
        path,
        match entry::<String, u128>(marks, text_key(path)) {
            Some(e) => if mtime_ns > e.1 {
                mtime_ns
            } else {
                e.1
            },
            None => mtime_ns,
        },
    )
}

/// The watermarks after all of `news` were reported, one after the other.
pub open spec fn raised_all(marks: Entries<u128>, news: Entries<u128>) -> Entries<u128>
    decreases news.len(),
{
    if news.len() == 0 {
        marks
    } else {
        raised(raised_all(marks, news.drop_last()), news.last().0, news.last().1)
    }
}

/// The state of a family that nothing was applied to.
pub open spec fn fresh_family(name: Seq<char>) -> FamilyView {
    FamilyView { family_key: name, last_error: None, applied_seq: 0, watermarks: Seq::empty() }
}

/// The state after a request.
pub open spec fn state_after(state: FamilyView, request: FamilyRequest) -> FamilyView {
    match request {
        FamilyRequest::Apply(reduction, _) => FamilyView {
            applied_seq: reduction.applied_seq,
            last_error: optional_text(reduction.last_error),
            ..state
        },
        FamilyRequest::ApplyCheckpoint(reduction) => FamilyView {
            applied_seq: reduction.applied_seq,
            last_error: optional_text(reduction.last_error),
            ..state
        },
        FamilyRequest::UpdateWatermarks(news) => FamilyView {
            watermarks: raised_all(state.watermarks, news@),
            ..state
        },
        _ => state,
    }
}

/// The reply to a request, given from the state after it.
pub open spec fn reply_to(state: FamilyView, request: FamilyRequest) -> ReplyView {
    match request {
        FamilyRequest::Apply(_, Ok(applied)) => ReplyView::Applied(Ok(applied)),
        FamilyRequest::Apply(_, Err(error)) => ReplyView::Applied(Err(error@)),
        FamilyRequest::ApplyCheckpoint(_) => ReplyView::Acknowledged(
            ApplyAck { seq: state.applied_seq, applied: true },
        ),
        FamilyRequest::Status => ReplyView::Status(
            state.family_key,
            state.applied_seq,
            state.last_error,
        ),
        FamilyRequest::GetWatermarks => ReplyView::Watermarks(state.watermarks),
        FamilyRequest::UpdateWatermarks(_) => ReplyView::Nothing,
        FamilyRequest::Shutdown => ReplyView::Stopped,
    }
}

fn copy_optional(text: &Option<String>) -> (copy: Option<String>)
    ensures
        optional_text(copy) == optional_text(*text),
{
    match text {
        Some(t) => Some(t.as_str().to_owned()),
        None => None,
    }
}

fn copy_marks(marks: &SortedMap<String, u128>) -> (copy: SortedMap<String, u128>)
    ensures
        copy@ == marks@,
{
    let mut items: Vec<(String, u128)> = Vec::new();
    let n: usize = marks.len();
    let mut i: usize = 0;
    while i < n
        invariant
            i <= n,
            n == marks@.len(),
            items@.len() == i,
            forall|j: int|
                0 <= j < i ==> (#[trigger] items@[j]).0@ == marks@[j].0 && items@[j].1
                    == marks@[j].1,
        decreases n - i,
    {
        items.push((marks.key_at(i).as_str().to_owned(), *marks.value_at(i)));
        i = i + 1;
    }
    assert(items@.map_values(|e: (String, u128)| (e.0@, e.1)) =~= marks@);
    proof {
        lemma_put_all_sorted::<String, u128>(marks@);
    }
    SortedMap::from_entries(items)
}

impl FamilyState {
    /// The state of a family that nothing was applied to.
    pub fn new(family_key: FamilyKey) -> (state: FamilyState)
        ensures
            state@ == fresh_family(family_key@),
    {
        FamilyState {
            family_key,
            last_error: None,
            applied_seq: 0,
            file_snapshot_watermarks: SortedMap::new(),
        }
    }

    /// Takes over the watermarks that were reported; a watermark only rises.
    pub fn update_watermarks(&mut self, news: &SortedMap<String, u128>)
        ensures
            final(self)@ == (FamilyView {
                watermarks: raised_all(old(self)@.watermarks, news@),
                ..old(self)@
            }),
    {
        let ghost before = self@;
        let n: usize = news.len();
        let mut i: usize = 0;
        assert(news@.take(0) =~= Seq::empty());
        while i < n
            invariant
                i <= n,
                n == news@.len(),
                self@ == (FamilyView {
                    watermarks: raised_all(before.watermarks, news@.take(i as int)),
                    ..before
                }),
            decreases n - i,
        {
            let path = news.key_at(i);
            let mtime_ns: u128 = *news.value_at(i);
            proof {
                assert(news@.take(i + 1).drop_last() =~= news@.take(i as int));
                assert(news@.take(i + 1).last() == (path@, mtime_ns));
            }
            let mark: u128 = match self.file_snapshot_watermarks.get(path) {
                Some(mark) => if mtime_ns > *mark {
                    mtime_ns
                } else {
                    *mark
                },
                None => mtime_ns,
            };
            self.file_snapshot_watermarks.insert(path.as_str().to_owned(), mark);
            i = i + 1;
        }
        assert(news@.take(i as int) =~= news@);
    }

    /// The status of the family.
    pub fn status(&self) -> (status: FamilyStatus)
        ensures
            status.family_key@ == self@.family_key,
            status.applied_seq == self@.applied_seq,
            optional_text(status.last_error) == self@.last_error,
    {
        FamilyStatus {
            family_key: self.family_key.copy(),
            applied_seq: self.applied_seq,
            last_error: copy_optional(&self.last_error),
        }
    }

    /// The watermarks of the family's files.
    pub fn watermarks(&self) -> (marks: SortedMap<String, u128>)
        ensures
            marks@ == self@.watermarks,
    {
        copy_marks(&self.file_snapshot_watermarks)
    }

    /// Serves a request.
    pub fn serve(&mut self, request: FamilyRequest) -> (reply: FamilyReply)
        ensures
            final(self)@ == state_after(old(self)@, request),
            reply@ == reply_to(final(self)@, request),
    {
        match request {
            FamilyRequest::Apply(reduction, outcome) => {
                self.applied_seq = reduction.applied_seq;
                self.last_error = reduction.last_error;
                FamilyReply::Applied(outcome)
            },
            FamilyRequest::ApplyCheckpoint(reduction) => {
                self.applied_seq = reduction.applied_seq;
                self.last_error = reduction.last_error;
                FamilyReply::Acknowledged(ApplyAck { seq: self.applied_seq, applied: true })
            },
            FamilyRequest::Status => FamilyReply::Status(self.status()),
            FamilyRequest::GetWatermarks => FamilyReply::Watermarks(self.watermarks()),
            FamilyRequest::UpdateWatermarks(news) => {
                self.update_watermarks(&news);
                FamilyReply::Nothing
            },
            FamilyRequest::Shutdown => FamilyReply::Stopped,
        }
    }
}

/// The state after a sequence of requests, served one after the other; after a shutdown nothing is
/// served.
pub open spec fn state_after_all(state: FamilyView, requests: Seq<FamilyRequest>) -> FamilyView
    decreases requests.len(),
{
    if requests.len() == 0 {
        state
    } else {
        let before = state_after_all(state, requests.drop_last());
        if is_stopped(requests.drop_last()) {
            before
        } else {
            state_after(before, requests.last())
        }
    }
}

/// One of the requests is a shutdown.
pub open spec fn is_stopped(requests: Seq<FamilyRequest>) -> bool {
    exists|i: int| 0 <= i < requests.len() && (#[trigger] requests[i]) is Shutdown
}

/// The reply to the `i`-th of a sequence of requests; none after a shutdown.
pub open spec fn reply_at(state: FamilyView, requests: Seq<FamilyRequest>, i: int) -> Option<
    ReplyView,
> {
    if is_stopped(requests.take(i)) {
        None
    } else {
        Some(reply_to(state_after_all(state, requests.take(i + 1)), requests[i]))
    }
}

/// A reply reflects all requests that came before it and none that came after: whatever follows, it
/// is the same, and it is given from the state that serving the earlier requests and this one leaves.
pub proof fn replies_reflect_what_came_before(
    state: FamilyView,
    requests: Seq<FamilyRequest>,
    later: Seq<FamilyRequest>,
    i: int,
)
    requires
        0 <= i < requests.len(),
    ensures
        reply_at(state, requests + later, i) == reply_at(state, requests, i),
        !is_stopped(requests.take(i)) ==> reply_at(state, requests, i) == Some(
            reply_to(
                state_after(state_after_all(state, requests.take(i)), requests[i]),
                requests[i],
            ),
        ),
        state_after_all(state, Seq::empty()) == state,
{
    assert((requests + later).take(i) =~= requests.take(i));
    assert((requests + later).take(i + 1) =~= requests.take(i + 1));
    assert((requests + later)[i] == requests[i]);
    assert(requests.take(i + 1).drop_last() =~= requests.take(i));
    assert(requests.take(i + 1).last() == requests[i]);
}

/// Serving anything but a report leaves the watermarks and the name of the family as they are.
pub proof fn only_reports_change_the_watermarks(state: FamilyView, request: FamilyRequest)
    requires
        request !is UpdateWatermarks,
    ensures
        state_after(state, request).watermarks == state.watermarks,
        state_after(state, request).family_key == state.family_key,
{
}

proof fn lemma_raised(marks: Entries<u128>, path: Seq<char>, mtime_ns: u128)
    requires
        sorted::<String, u128>(marks),
    ensures
        sorted::<String, u128>(raised(marks, path, mtime_ns)),
        forall|k: Key| #[trigger]
            entry::<String, u128>(raised(marks, path, mtime_ns), k) == if k == text_key(path) {
                higher(entry::<String, u128>(marks, k), Some((path, mtime_ns)))
            } else {
                entry::<String, u128>(marks, k)
            },
{
    let mark = match entry::<String, u128>(marks, text_key(path)) {
        Some(e) => if mtime_ns > e.1 {
            mtime_ns
        } else {
            e.1
        },
        None => mtime_ns,
    };
    lemma_put::<String, u128>(marks, path, mark);
}

/// After a report every file has the higher of the watermark it had and the one that was reported;
/// so no watermark ever falls, and none is lost.
pub proof fn watermarks_only_rise(marks: Entries<u128>, news: Entries<u128>)
    requires
        sorted::<String, u128>(marks),
        sorted::<String, u128>(news),
    ensures
        sorted::<String, u128>(raised_all(marks, news)),
        forall|k: Key| #[trigger]
            entry::<String, u128>(raised_all(marks, news), k) == higher(
                entry::<String, u128>(marks, k),
                entry::<String, u128>(news, k),
            ),
    decreases news.len(),
{
    if news.len() == 0 {
        assert forall|k: Key| #[trigger] entry::<String, u128>(news, k) is None by {
            assert(!holds::<String, u128>(news, k));
        }
    } else {
        let before = news.drop_last();
        let last = news.last();
        lemma_drop_last::<String, u128>(news);
        watermarks_only_rise(marks, before);
        lemma_raised(raised_all(marks, before), last.0, last.1);
        lemma_entry_at::<String, u128>(news, news.len() - 1);
        assert forall|k: Key| #[trigger]
            entry::<String, u128>(raised_all(marks, news), k) == higher(
                entry::<String, u128>(marks, k),
                entry::<String, u128>(news, k),
            ) by {
            let middle = entry::<String, u128>(raised_all(marks, before), k);
            assert(middle == higher(
                entry::<String, u128>(marks, k),
                entry::<String, u128>(before, k),
            ));
        }
    }
}

/// A report that is repeated changes nothing.
pub proof fn repeated_reports_change_nothing(marks: Entries<u128>, news: Entries<u128>)
    requires
        sorted::<String, u128>(marks),
        sorted::<String, u128>(news),
    ensures
        raised_all(raised_all(marks, news), news) == raised_all(marks, news),
{
    let once = raised_all(marks, news);
    watermarks_only_rise(marks, news);
    watermarks_only_rise(once, news);
    assert forall|k: Key| #[trigger]
        entry::<String, u128>(raised_all(once, news), k) == entry::<String, u128>(once, k) by {
        assert(entry::<String, u128>(once, k) == higher(
            entry::<String, u128>(marks, k),
            entry::<String, u128>(news, k),
        ));
    }
    lemma_sorted_unique::<String, u128>(raised_all(once, news), once);
}

proof fn lemma_same_text(a: Entries<u128>, b: Entries<u128>, k: Key)
    requires
        entry::<String, u128>(a, k) is Some,
        entry::<String, u128>(b, k) is Some,
    ensures
        entry::<String, u128>(a, k).unwrap().0 == entry::<String, u128>(b, k).unwrap().0,
{
    let i = choose|i: int| #[trigger] keyed_at::<String, u128>(a, k, i);
    let j = choose|j: int| #[trigger] keyed_at::<String, u128>(b, k, j);
    assert(text_key(a[i].0) == text_key(b[j].0));
    assert(text_key(a[i].0)[0] == text_key(b[j].0)[0]);
    encode_utf8_decode_utf8(a[i].0);
    encode_utf8_decode_utf8(b[j].0);
}

/// It does not matter which of two reports comes first.
pub proof fn reports_commute(marks: Entries<u128>, first: Entries<u128>, second: Entries<u128>)
    requires
        sorted::<String, u128>(marks),
        sorted::<String, u128>(first),
        sorted::<String, u128>(second),
    ensures
        raised_all(raised_all(marks, first), second) == raised_all(
            raised_all(marks, second),
            first,
        ),
{
    let a = raised_all(raised_all(marks, first), second);
    let b = raised_all(raised_all(marks, second), first);
    watermarks_only_rise(marks, first);
    watermarks_only_rise(marks, second);
    watermarks_only_rise(raised_all(marks, first), second);
    watermarks_only_rise(raised_all(marks, second), first);
    assert forall|k: Key| #[trigger] entry::<String, u128>(a, k) == entry::<String, u128>(b, k) by {
        let m = entry::<String, u128>(marks, k);
        let x = entry::<String, u128>(first, k);
        let y = entry::<String, u128>(second, k);
        assert(entry::<String, u128>(raised_all(marks, first), k) == higher(m, x));
        assert(entry::<String, u128>(raised_all(marks, second), k) == higher(m, y));
        assert(entry::<String, u128>(a, k) == higher(higher(m, x), y));
        assert(entry::<String, u128>(b, k) == higher(higher(m, y), x));
        if x is Some && y is Some {
            lemma_same_text(first, second, k);
        }
    }
    lemma_sorted_unique::<String, u128>(a, b);
}

/// After a report a file that had a watermark and was reported has the higher of the two, a file that
/// had one or was reported has that one, and any other file has none.
pub proof fn reports_raise_watermarks(marks: Entries<u128>, news: Entries<u128>, path: Seq<char>)
    requires
        sorted::<String, u128>(marks),
        sorted::<String, u128>(news),
    ensures
        ({
            let after = entry::<String, u128>(raised_all(marks, news), text_key(path));
            let old = exists|i: int| 0 <= i < marks.len() && (#[trigger] marks[i]).0 == path;
            let new = exists|j: int| 0 <= j < news.len() && (#[trigger] news[j]).0 == path;
            &&& forall|i: int, j: int|
                0 <= i < marks.len() && 0 <= j < news.len() && (#[trigger] marks[i]).0 == path && (
                #[trigger] news[j]).0 == path ==> after == Some(
                    (
                        path,
                        if marks[i].1 >= news[j].1 {
                            marks[i].1
                        } else {
                            news[j].1
                        },
                    ),
                )
            &&& forall|i: int|
                0 <= i < marks.len() && (#[trigger] marks[i]).0 == path && !new ==> after == Some(
                    marks[i],
                )
            &&& forall|j: int|
                0 <= j < news.len() && (#[trigger] news[j]).0 == path && !old ==> after == Some(
                    news[j],
                )
            &&& !old && !new ==> after is None
        }),
{
    watermarks_only_rise(marks, news);
    values_are_found_by_text(marks, path);
    values_are_found_by_text(news, path);
    let after = entry::<String, u128>(raised_all(marks, news), text_key(path));
    assert(after == higher(
        entry::<String, u128>(marks, text_key(path)),
        entry::<String, u128>(news, text_key(path)),
    ));
}

/// What each request does: a command or a checkpoint leaves what its reduction gave, a report raises
/// watermarks, and any other request changes nothing.
pub proof fn requests_do_what_they_say(state: FamilyView, request: FamilyRequest)
    ensures
        ({
            let after = state_after(state, request);
            &&& after.family_key == state.family_key
            &&& request matches FamilyRequest::Apply(reduction, _) ==> after.applied_seq
                == reduction.applied_seq && after.last_error == optional_text(reduction.last_error)
                && after.watermarks == state.watermarks
            &&& request matches FamilyRequest::ApplyCheckpoint(reduction) ==> after.applied_seq
                == reduction.applied_seq && after.last_error == optional_text(reduction.last_error)
                && after.watermarks == state.watermarks
            &&& request matches FamilyRequest::UpdateWatermarks(news) ==> after.applied_seq
                == state.applied_seq && after.last_error == state.last_error && after.watermarks
                == raised_all(state.watermarks, news@)
            &&& request is Status || request is GetWatermarks || request is Shutdown ==> after
                == state
        }),
{
}

/// What each request is answered from the state: the outcome of a command, the number of a checkpoint
/// that was applied, the status, the watermarks, nothing to a report, and the end to a shutdown.
pub proof fn requests_get_their_replies(state: FamilyView, request: FamilyRequest)
    ensures
        ({
            let reply = reply_to(state, request);
            &&& request matches FamilyRequest::Apply(_, Ok(applied)) ==> reply == ReplyView::Applied(
                Ok(applied),
            )
            &&& request matches FamilyRequest::Apply(_, Err(error)) ==> reply == ReplyView::Applied(
                Err(error@),
            )
            &&& request is ApplyCheckpoint ==> reply == ReplyView::Acknowledged(
                ApplyAck { seq: state.applied_seq, applied: true },
            )
            &&& request is Status ==> reply == ReplyView::Status(
                state.family_key,
                state.applied_seq,
                state.last_error,
            )
            &&& request is GetWatermarks ==> reply == ReplyView::Watermarks(state.watermarks)
            &&& request is UpdateWatermarks ==> reply is Nothing
            &&& request is Shutdown ==> reply is Stopped
        }),
{
}

/// A family, its state and its replies show what they hold; a new family has nothing but its name.
pub proof fn families_show_what_they_hold(state: FamilyState, reply: FamilyReply, name: Seq<char>)
    ensures
        state@.family_key == state.family_key.name@,
        state@.last_error == optional_text(state.last_error),
        state@.applied_seq == state.applied_seq,
        state@.watermarks == state.file_snapshot_watermarks@,
        reply matches FamilyReply::Applied(Ok(applied)) ==> reply@ == ReplyView::Applied(Ok(applied)),
        reply matches FamilyReply::Applied(Err(error)) ==> reply@ == ReplyView::Applied(Err(error@)),
        reply matches FamilyReply::Acknowledged(ack) ==> reply@ == ReplyView::Acknowledged(ack),
        reply matches FamilyReply::Status(status) ==> reply@ == ReplyView::Status(
            status.family_key.name@,
            status.applied_seq,
            optional_text(status.last_error),
        ),
        reply matches FamilyReply::Watermarks(marks) ==> reply@ == ReplyView::Watermarks(marks@),
        reply is Nothing ==> reply@ is Nothing,
        reply is Stopped ==> reply@ is Stopped,
        fresh_family(name).family_key == name,
        fresh_family(name).last_error is None,
        fresh_family(name).applied_seq == 0,
        fresh_family(name).watermarks.len() == 0,
{
}

} // verus!
