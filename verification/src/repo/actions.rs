//! The queue of pending actions: which are due, who may run them, and how they end.

use crate::files::json::Json;
use crate::sorting::{in_order, kept_was_there, sort_list, sorted_by, sorting_orders_what_is_there};
use crate::text::{is_same_ascii, lit, opt, same, same_ascii};
use vstd::prelude::*;
use vstd::string::*;

verus! {

/// The state of an action.
#[derive(Clone, Copy, Debug, PartialEq, Eq, Structural)]
pub enum ActionState {
    Pending,
    Inflight,
    Done,
    Failed,
    Cancelled,
}

/// How a state is stored.
pub open spec fn state_name(s: ActionState) -> Seq<char> {
    match s {
        ActionState::Pending => "pending"@,
        ActionState::Inflight => "inflight"@,
        ActionState::Done => "done"@,
        ActionState::Failed => "failed"@,
        ActionState::Cancelled => "cancelled"@,
    }
}

impl ActionState {
    pub fn as_str(&self) -> (r: &'static str)
        ensures
            r@ == state_name(*self),
    {
        match self {
            ActionState::Pending => "pending",
            ActionState::Inflight => "inflight",
            ActionState::Done => "done",
            ActionState::Failed => "failed",
            ActionState::Cancelled => "cancelled",
        }
    }

    /// The state of that name.
    pub fn from_name(name: &str) -> (r: Option<ActionState>)
        ensures
            match r {
                Some(s) => state_name(s) == name@,
                None => forall|s: ActionState| #[trigger] state_name(s) != name@,
            },
    {
        if same(name, "pending") {
            Some(ActionState::Pending)
        } else if same(name, "inflight") {
            Some(ActionState::Inflight)
        } else if same(name, "done") {
            Some(ActionState::Done)
        } else if same(name, "failed") {
            Some(ActionState::Failed)
        } else if same(name, "cancelled") {
            Some(ActionState::Cancelled)
        } else {
            None
        }
    }

    /// A state that an action ends in.
    pub open spec fn ended(self) -> bool {
        self == ActionState::Done || self == ActionState::Failed || self == ActionState::Cancelled
    }

    /// A state in which the action may still change the remote side.
    pub open spec fn active(self) -> bool {
        self == ActionState::Pending || self == ActionState::Inflight
    }

    fn is_ended(&self) -> (r: bool)
        ensures
            r == self.ended(),
    {
        matches!(self, ActionState::Done | ActionState::Failed | ActionState::Cancelled)
    }

    fn is_active(&self) -> (r: bool)
        ensures
            r == self.active(),
    {
        matches!(self, ActionState::Pending | ActionState::Inflight)
    }
}

/// An action that waits to be carried out on the remote side.
#[derive(Debug)]
pub struct PendingAction {
    pub id: i64,
    pub account_id: i64,
    pub kind: String,
    pub message_id: Option<i64>,
    pub thread_id: Option<i64>,
    pub payload: Json,
    pub state: ActionState,
    pub attempts: i64,
    pub not_before: Option<i64>,
    pub created_at: i64,
    pub last_error: Option<String>,
    pub finished_at: Option<i64>,
}

/// An action of the calendar, which has a task of its own.
pub open spec fn of_calendar(kind: Seq<char>) -> bool {
    kind.len() >= 4 && same_ascii(kind.take(4), "cal_"@)
}

fn is_calendar(kind: &str) -> (r: bool)
    ensures
        r == of_calendar(kind@),
{
    if kind.unicode_len() < 4 {
        return false;
    }
    let head = kind.substring_char(0, 4);
    proof {
        assert(head@ =~= kind@.take(4));
    }
    is_same_ascii(head, "cal_")
}

/// Who carries actions out.
#[derive(Clone, Copy, Debug, PartialEq, Eq, Structural)]
pub enum Lane {
    /// Everything but the calendar.
    Mail,
    /// Mail but for submissions: they have a worker of their own, so that an Inbox sync can never
    /// hold an interactive send in the queue.
    MailExceptSend,
    /// Submissions.
    Send,
    Calendar,
}

impl Lane {
    /// Whether an action of that kind is carried out here.
    pub open spec fn takes(self, kind: Seq<char>) -> bool {
        match self {
            Lane::Mail => !of_calendar(kind),
            Lane::MailExceptSend => !of_calendar(kind) && kind != "send"@,
            Lane::Send => kind == "send"@,
            Lane::Calendar => of_calendar(kind),
        }
    }

    fn is_for(&self, kind: &str) -> (r: bool)
        ensures
            r == self.takes(kind@),
    {
        match self {
            Lane::Mail => !is_calendar(kind),
            Lane::MailExceptSend => !is_calendar(kind) && !same(kind, "send"),
            Lane::Send => same(kind, "send"),
            Lane::Calendar => is_calendar(kind),
        }
    }
}

impl PendingAction {
    /// Whether the action may be carried out now.
    pub open spec fn due_in(self, lane: Lane, account: i64, now: i64) -> bool {
        &&& self.account_id == account
        &&& self.state == ActionState::Pending
        &&& self.not_before is None || self.not_before->0 <= now
        &&& lane.takes(self.kind@)
    }

    fn is_due(&self, lane: Lane, account: i64, now: i64) -> (r: bool)
        ensures
            r == self.due_in(lane, account, now),
    {
        let ready = match self.not_before {
            Some(t) => t <= now,
            None => true,
        };
        self.account_id == account && matches!(self.state, ActionState::Pending) && ready
            && lane.is_for(self.kind.as_str())
    }
}

/// The oldest action first, and of two of one age the one that was queued first.
pub open spec fn older(a: PendingAction, b: PendingAction) -> bool {
    a.created_at < b.created_at || (a.created_at == b.created_at && a.id < b.id)
}

/// The first items of a list, all where the limit is negative.
pub open spec fn limited<T>(s: Seq<T>, limit: i64) -> Seq<T> {
    if limit < 0 || limit >= s.len() {
        s
    } else {
        s.take(limit as int)
    }
}

/// The actions that are due, oldest first.
pub open spec fn due_list(
    list: Seq<PendingAction>,
    lane: Lane,
    account: i64,
    now: i64,
    limit: i64,
) -> Seq<PendingAction> {
    limited(
        sorted_by(
            list.filter(|a: PendingAction| a.due_in(lane, account, now)),
            |a: PendingAction, b: PendingAction| older(a, b),
        ),
        limit,
    )
}

/// The actions of an account that are due, oldest first.
pub fn due(list: Vec<PendingAction>, lane: Lane, account: i64, now: i64, limit: i64) -> (r: Vec<
    PendingAction,
>)
    ensures
        r@ == due_list(list@, lane, account, now, limit),
{
    let ghost all = list@;
    let ghost ready = |a: PendingAction| a.due_in(lane, account, now);
    let mut kept: Vec<PendingAction> = Vec::new();
    proof {
        reveal(Seq::filter);
        assert(all.take(0) == Seq::<PendingAction>::empty());
        assert(kept@ =~= all.take(0).filter(ready));
    }
    for a in it: list
        invariant
            it.seq() == all,
            ready == (|a: PendingAction| a.due_in(lane, account, now)),
            kept@ == all.take(it.index()).filter(ready),
    {
        proof {
            assert(all.take(it.index() + 1) == all.take(it.index()).push(a));
            crate::text::filter_push(all.take(it.index()), a, ready);
        }
        if a.is_due(lane, account, now) {
            kept.push(a);
        }
    }
    proof {
        assert(all.take(all.len() as int) == all);
    }
    let ahead = |a: &PendingAction, b: &PendingAction| -> (r: bool)
        ensures
            r == older(*a, *b),
        { a.created_at < b.created_at || (a.created_at == b.created_at && a.id < b.id) };
    let mut sorted = sort_list(
        kept,
        ahead,
        Ghost(|a: PendingAction, b: PendingAction| older(a, b)),
    );
    let ghost full = sorted@;
    if limit >= 0 && (limit as u64) < sorted.len() as u64 {
        sorted.truncate(limit as usize);
        proof {
            assert(sorted@ =~= full.take(limit as int));
        }
    }
    sorted
}

/// Whether an account has actions that are due.
pub fn has_due(list: &Vec<PendingAction>, lane: Lane, account: i64, now: i64) -> (r: bool)
    ensures
        r == exists|i: int|
            0 <= i < list@.len() && (#[trigger] list@[i]).due_in(lane, account, now),
{
    let mut i: usize = 0;
    while i < list.len()
        invariant
            i <= list.len(),
            forall|j: int| 0 <= j < i ==> !(#[trigger] list@[j]).due_in(lane, account, now),
        decreases list.len() - i,
    {
        if list[i].is_due(lane, account, now) {
            return true;
        }
        i = i + 1;
    }
    false
}

/// Whether an account has actions of mail that are due, but for submissions.
pub fn has_due_except_send(list: &Vec<PendingAction>, account: i64, now: i64) -> (r: bool)
    ensures
        r == exists|i: int|
            0 <= i < list@.len() && (#[trigger] list@[i]).due_in(
                Lane::MailExceptSend,
                account,
                now,
            ),
{
    has_due(list, Lane::MailExceptSend, account, now)
}

/// Whether an account has submissions that are due.
pub fn has_due_sends(list: &Vec<PendingAction>, account: i64, now: i64) -> (r: bool)
    ensures
        r == exists|i: int|
            0 <= i < list@.len() && (#[trigger] list@[i]).due_in(Lane::Send, account, now),
{
    has_due(list, Lane::Send, account, now)
}

/// Due IMAP/local actions for one account. SMTP submission has a dedicated
/// worker so an Inbox sync can never hold an interactive send in the queue.
pub fn due_except_send(list: Vec<PendingAction>, account: i64, now: i64, limit: i64) -> (r: Vec<
    PendingAction,
>)
    ensures
        r@ == due_list(list@, Lane::MailExceptSend, account, now, limit),
{
    due(list, Lane::MailExceptSend, account, now, limit)
}

/// Due SMTP submissions for one account, oldest first.
pub fn due_sends(list: Vec<PendingAction>, account: i64, now: i64, limit: i64) -> (r: Vec<
    PendingAction,
>)
    ensures
        r@ == due_list(list@, Lane::Send, account, now, limit),
{
    due(list, Lane::Send, account, now, limit)
}

/// Due CalDAV write actions (the calendar task's slice of the queue).
pub fn due_calendar(list: Vec<PendingAction>, account: i64, now: i64, limit: i64) -> (r: Vec<
    PendingAction,
>)
    ensures
        r@ == due_list(list@, Lane::Calendar, account, now, limit),
{
    due(list, Lane::Calendar, account, now, limit)
}

/// The queue hands out what is due and nothing else: every action handed out belongs to the
/// account and the lane, waits no longer, and none comes before an older one.
pub proof fn only_due_actions_are_handed_out(
    list: Seq<PendingAction>,
    lane: Lane,
    account: i64,
    now: i64,
    limit: i64,
)
    ensures
        ({
            let out = due_list(list, lane, account, now, limit);
            &&& forall|i: int|
                0 <= i < out.len() ==> (#[trigger] out[i]).due_in(lane, account, now)
                    && list.contains(out[i])
            &&& in_order(out, |a: PendingAction, b: PendingAction| older(a, b))
            &&& limit >= 0 ==> out.len() <= limit
        }),
{
    broadcast use vstd::seq_lib::group_to_multiset_ensures;

    let ready = |a: PendingAction| a.due_in(lane, account, now);
    let before = |a: PendingAction, b: PendingAction| older(a, b);
    let kept = list.filter(ready);
    let sorted = sorted_by(kept, before);
    let out = due_list(list, lane, account, now, limit);
    sorting_orders_what_is_there(kept, before);
    assert forall|i: int| 0 <= i < out.len() implies (#[trigger] out[i]).due_in(lane, account, now)
        && list.contains(out[i]) by {
        assert(out[i] == sorted[i]);
        assert(sorted.contains(sorted[i]));
        assert(sorted.to_multiset().count(sorted[i]) > 0);
        assert(kept.to_multiset().count(sorted[i]) > 0);
        assert(kept.contains(sorted[i]));
        let k = choose|k: int| 0 <= k < kept.len() && kept[k] == sorted[i];
        kept_was_there(list, ready, k);
    }
    assert(in_order(out, before)) by {
        assert forall|i: int, j: int| 0 <= i < j < out.len() implies !before(
            #[trigger] out[j],
            #[trigger] out[i],
        ) by {
            assert(!before(sorted[j], sorted[i]));
        }
    }
}

/// What the queue hands out: the actions of the account that are pending and whose time has come, of
/// the kinds of the lane, the oldest first; all of them where the limit leaves room.
pub proof fn due_actions_are_handed_out(
    list: Seq<PendingAction>,
    lane: Lane,
    account: i64,
    now: i64,
    limit: i64,
)
    ensures
        ({
            let out = due_list(list, lane, account, now, limit);
            let calendar = |k: Seq<char>| k.len() >= 4 && same_ascii(k.take(4), "cal_"@);
            &&& forall|i: int|
                #![trigger out[i]]
                0 <= i < out.len() ==> {
                    let a = out[i];
                    &&& list.contains(a)
                    &&& a.account_id == account && a.state == ActionState::Pending
                    &&& a.not_before is Some ==> a.not_before->0 <= now
                    &&& lane == Lane::Mail ==> !calendar(a.kind@)
                    &&& lane == Lane::MailExceptSend ==> !calendar(a.kind@) && a.kind@ != "send"@
                    &&& lane == Lane::Send ==> a.kind@ == "send"@
                    &&& lane == Lane::Calendar ==> calendar(a.kind@)
                }
            &&& forall|i: int, j: int|
                #![trigger out[i], out[j]]
                0 <= i < j < out.len() ==> out[i].created_at < out[j].created_at || (
                out[i].created_at == out[j].created_at && out[i].id <= out[j].id)
            &&& (limit < 0 || out.len() < limit) ==> forall|k: int|
                #![trigger list[k]]
                {
                    let a = list[k];
                    let kind = match lane {
                        Lane::Mail => !calendar(a.kind@),
                        Lane::MailExceptSend => !calendar(a.kind@) && a.kind@ != "send"@,
                        Lane::Send => a.kind@ == "send"@,
                        Lane::Calendar => calendar(a.kind@),
                    };
                    0 <= k < list.len() && a.account_id == account && a.state
                        == ActionState::Pending && (a.not_before is None || a.not_before->0 <= now)
                        && kind ==> out.contains(a)
                }
        }),
{
    broadcast use vstd::seq_lib::group_to_multiset_ensures;

    only_due_actions_are_handed_out(list, lane, account, now, limit);
    let ready = |a: PendingAction| a.due_in(lane, account, now);
    let before = |a: PendingAction, b: PendingAction| older(a, b);
    let kept = list.filter(ready);
    let sorted = sorted_by(kept, before);
    let out = due_list(list, lane, account, now, limit);
    sorting_orders_what_is_there(kept, before);
    assert forall|i: int, j: int|
        #![trigger out[i], out[j]]
        0 <= i < j < out.len() implies out[i].created_at < out[j].created_at || (out[i].created_at
        == out[j].created_at && out[i].id <= out[j].id) by {
        assert(!before(out[j], out[i]));
    }
    if limit < 0 || out.len() < limit {
        assert(out == sorted) by {
            if limit >= 0 && limit < sorted.len() {
                assert(out.len() == limit);
            }
        }
        assert forall|k: int|
            #![trigger list[k]]
            0 <= k < list.len() && list[k].account_id == account && list[k].state
                == ActionState::Pending && (list[k].not_before is None || list[k].not_before->0
                <= now) && lane.takes(list[k].kind@) implies out.contains(list[k]) by {
            assert(ready(list[k]));
            list.lemma_filter_contains(ready, k);
            assert(kept.contains(list[k]));
            assert(kept.to_multiset().count(list[k]) > 0);
            assert(sorted.to_multiset().count(list[k]) > 0);
        }
    }
}

/// The lanes share the queue out: an action is carried out by the calendar or by mail and never by
/// both, and of mail either by the submission worker or by the other.
pub proof fn lanes_share_the_queue(kind: Seq<char>)
    ensures
        Lane::Mail.takes(kind) != Lane::Calendar.takes(kind),
        Lane::Mail.takes(kind) == (Lane::MailExceptSend.takes(kind) || Lane::Send.takes(kind)),
        !(Lane::MailExceptSend.takes(kind) && Lane::Send.takes(kind)),
{
    reveal_strlit("send");
    reveal_strlit("cal_");
    if kind == "send"@ {
        assert(kind.take(4) =~= kind);
        if of_calendar(kind) {
            assert(crate::text::ascii_lower(kind.take(4)[0]) == crate::text::ascii_lower(
                "cal_"@[0],
            ));
        }
    }
}

/// The earliest of two moments.
pub open spec fn earliest(a: Option<i64>, b: Option<i64>) -> Option<i64> {
    match (a, b) {
        (Some(x), Some(y)) => Some(
            if x <= y {
                x
            } else {
                y
            },
        ),
        (Some(x), None) => Some(x),
        (None, other) => other,
    }
}

/// The earliest moment at which a pending action that waits is due.
pub open spec fn next_due(list: Seq<PendingAction>, mail_only: bool) -> Option<i64>
    decreases list.len(),
{
    if list.len() == 0 {
        None
    } else {
        let a = list.last();
        let own = if a.state == ActionState::Pending && !(mail_only && of_calendar(a.kind@)) {
            a.not_before
        } else {
            None
        };
        earliest(next_due(list.drop_last(), mail_only), own)
    }
}

fn sooner(a: Option<i64>, b: Option<i64>) -> (r: Option<i64>)
    ensures
        r == earliest(a, b),
{
    match (a, b) {
        (Some(x), Some(y)) => Some(
            if x <= y {
                x
            } else {
                y
            },
        ),
        (Some(x), None) => Some(x),
        (None, other) => other,
    }
}

/// The earliest moment at which a pending action that waits is due, of mail alone where asked.
pub fn next_due_at(list: &Vec<PendingAction>, mail_only: bool) -> (r: Option<i64>)
    ensures
        r == next_due(list@, mail_only),
{
    let mut out: Option<i64> = None;
    let mut i: usize = 0;
    proof {
        assert(list@.take(0) == Seq::<PendingAction>::empty());
    }
    while i < list.len()
        invariant
            i <= list.len(),
            out == next_due(list@.take(i as int), mail_only),
        decreases list.len() - i,
    {
        let a = &list[i];
        proof {
            assert(list@.take(i + 1).drop_last() == list@.take(i as int));
            assert(list@.take(i + 1).last() == *a);
        }
        let counts = matches!(a.state, ActionState::Pending) && !(mail_only && is_calendar(
            a.kind.as_str(),
        ));
        let own = if counts {
            a.not_before
        } else {
            None
        };
        out = sooner(out, own);
        i = i + 1;
    }
    proof {
        assert(list@.take(list@.len() as int) == list@);
    }
    out
}

/// The earliest moment at which a pending action of mail that waits is due.
pub fn next_mail_due_at(list: &Vec<PendingAction>) -> (r: Option<i64>)
    ensures
        r == next_due(list@, true),
{
    next_due_at(list, true)
}

/// The earliest moment at which a submission of an account is due; one that does not wait is due
/// since it was queued.
pub open spec fn next_send(list: Seq<PendingAction>, account: i64) -> Option<i64>
    decreases list.len(),
{
    if list.len() == 0 {
        None
    } else {
        let a = list.last();
        let own = if a.account_id == account && a.state == ActionState::Pending && a.kind@
            == "send"@ {
            Some(
                match a.not_before {
                    Some(t) => t,
                    None => a.created_at,
                },
            )
        } else {
            None
        };
        earliest(next_send(list.drop_last(), account), own)
    }
}

pub fn next_send_due_at(list: &Vec<PendingAction>, account: i64) -> (r: Option<i64>)
    ensures
        r == next_send(list@, account),
{
    let mut out: Option<i64> = None;
    let mut i: usize = 0;
    proof {
        assert(list@.take(0) == Seq::<PendingAction>::empty());
    }
    while i < list.len()
        invariant
            i <= list.len(),
            out == next_send(list@.take(i as int), account),
        decreases list.len() - i,
    {
        let a = &list[i];
        proof {
            assert(list@.take(i + 1).drop_last() == list@.take(i as int));
            assert(list@.take(i + 1).last() == *a);
        }
        let own = if a.account_id == account && matches!(a.state, ActionState::Pending) && same(
            a.kind.as_str(),
            "send",
        ) {
            Some(
                match a.not_before {
                    Some(t) => t,
                    None => a.created_at,
                },
            )
        } else {
            None
        };
        out = sooner(out, own);
        i = i + 1;
    }
    proof {
        assert(list@.take(list@.len() as int) == list@);
    }
    out
}

impl PendingAction {
    /// Whether nobody took the action up yet.
    pub open spec fn waits(self) -> bool {
        self.state == ActionState::Pending
    }

    /// The action once somebody tried to claim it: only one that waits is claimed.
    pub open spec fn claimed(self) -> PendingAction {
        if self.waits() {
            PendingAction { state: ActionState::Inflight, ..self }
        } else {
            self
        }
    }

    /// The action once somebody tried to cancel it: only one that waits is cancelled.
    pub open spec fn cancelled(self, now: i64) -> PendingAction {
        if self.waits() {
            PendingAction { state: ActionState::Cancelled, finished_at: Some(now), ..self }
        } else {
            self
        }
    }

    /// Queue an action.
    pub fn enqueue(
        id: i64,
        account_id: i64,
        kind: &str,
        message_id: Option<i64>,
        thread_id: Option<i64>,
        payload: Json,
        not_before: Option<i64>,
        now: i64,
    ) -> (r: PendingAction)
        ensures
            r.id == id,
            r.account_id == account_id,
            r.kind@ == kind@,
            r.message_id == message_id,
            r.thread_id == thread_id,
            r.payload == payload,
            r.state == ActionState::Pending,
            r.attempts == 0,
            r.not_before == not_before,
            r.created_at == now,
            r.last_error is None,
            r.finished_at is None,
    {
        PendingAction {
            id,
            account_id,
            kind: lit(kind),
            message_id,
            thread_id,
            payload,
            state: ActionState::Pending,
            attempts: 0,
            not_before,
            created_at: now,
            last_error: None,
            finished_at: None,
        }
    }

    /// Set a state; an action that ends in it is finished now.
    pub fn set_state(&mut self, state: ActionState, error: Option<String>, now: i64)
        ensures
            *final(self) == (PendingAction {
                state,
                last_error: error,
                finished_at: if state.ended() {
                    Some(now)
                } else {
                    old(self).finished_at
                },
                ..*old(self)
            }),
    {
        self.state = state;
        self.last_error = error;
        if state.is_ended() {
            self.finished_at = Some(now);
        }
    }

    /// Claim a pending action for execution. Returns false if it was
    /// cancelled (or otherwise transitioned) since being read - the executor must
    /// skip it in that case.
    pub fn try_claim(&mut self) -> (r: bool)
        ensures
            r == old(self).waits(),
            *final(self) == old(self).claimed(),
    {
        if !matches!(self.state, ActionState::Pending) {
            return false;
        }
        self.state = ActionState::Inflight;
        true
    }

    /// Reset an action abandoned mid-flight (the app was killed/crashed while it was
    /// executing) back to pending so it gets retried. Returns whether it was.
    pub fn recover_inflight(&mut self, now: i64) -> (r: bool)
        ensures
            r == (old(self).state == ActionState::Inflight),
            *final(self) == (if r {
                PendingAction {
                    state: ActionState::Pending,
                    not_before: Some(now),
                    ..*old(self)
                }
            } else {
                *old(self)
            }),
    {
        if !matches!(self.state, ActionState::Inflight) {
            return false;
        }
        self.state = ActionState::Pending;
        self.not_before = Some(now);
        true
    }

    /// Make a still-pending action due immediately ("send now" / skip the undo
    /// window). Returns the action's account so the caller can nudge that actor,
    /// or None if it was already claimed/cancelled/sent.
    pub fn expedite(&mut self, now: i64) -> (r: Option<i64>)
        ensures
            if old(self).state == ActionState::Pending {
                r == Some(old(self).account_id) && *final(self) == (PendingAction {
                    not_before: Some(now),
                    ..*old(self)
                })
            } else {
                r is None && *final(self) == *old(self)
            },
    {
        if !matches!(self.state, ActionState::Pending) {
            return None;
        }
        self.not_before = Some(now);
        Some(self.account_id)
    }

    /// Transition pending -> cancelled; returns false if it was no longer pending.
    pub fn try_cancel(&mut self, now: i64) -> (r: bool)
        ensures
            r == old(self).waits(),
            *final(self) == old(self).cancelled(now),
    {
        if !matches!(self.state, ActionState::Pending) {
            return false;
        }
        self.state = ActionState::Cancelled;
        self.finished_at = Some(now);
        true
    }

    /// Put an action that failed back into the queue, and count the attempt.
    pub fn bump_attempt(&mut self, retry_at: i64, error: String)
        requires
            old(self).attempts < i64::MAX,
        ensures
            *final(self) == (PendingAction {
                attempts: (old(self).attempts + 1) as i64,
                state: ActionState::Pending,
                not_before: Some(retry_at),
                last_error: Some(error),
                ..*old(self)
            }),
    {
        self.attempts = self.attempts + 1;
        self.state = ActionState::Pending;
        self.not_before = Some(retry_at);
        self.last_error = Some(error);
    }

    /// Return an action to the pending queue without consuming its retry budget.
    ///
    /// A connection failure says nothing about whether the action itself is
    /// valid. Keeping transport availability separate from delivery attempts lets
    /// offline-first actions wait indefinitely for the network to return.
    pub fn defer_offline(&mut self, retry_at: i64, error: String)
        ensures
            *final(self) == (PendingAction {
                state: ActionState::Pending,
                not_before: Some(retry_at),
                last_error: Some(error),
                ..*old(self)
            }),
    {
        self.state = ActionState::Pending;
        self.not_before = Some(retry_at);
        self.last_error = Some(error);
    }

    /// The state of an action after its account's connection changed.
    pub open spec fn state_after_change(self, identity_changed: bool) -> ActionState {
        let settled = if self.state == ActionState::Inflight {
            if self.kind@ == "send"@ {
                ActionState::Failed
            } else {
                ActionState::Pending
            }
        } else {
            self.state
        };
        if identity_changed && settled.active() {
            ActionState::Cancelled
        } else {
            settled
        }
    }

    /// Settle an action when its account's connection changed. A submission that was interrupted
    /// at that instant is inherently uncertain and must never be replayed automatically; other
    /// operations go back to the queue, or are given up where the remote mailbox is another.
    pub fn connection_changed(&mut self, identity_changed: bool, now: i64)
        ensures
            final(self).state == old(self).state_after_change(identity_changed),
            ({
                let interrupted = old(self).state == ActionState::Inflight && old(self).kind@
                    == "send"@;
                let given_up = identity_changed && old(self).state.active() && !interrupted;
                &&& opt(final(self).last_error) == (if interrupted {
                    Some(
                        "account connection changed during submission; check Sent before retrying"@,
                    )
                } else if given_up {
                    Some("remote mail account changed before this action completed"@)
                } else {
                    opt(old(self).last_error)
                })
                &&& final(self).finished_at == (if interrupted || given_up {
                    Some(now)
                } else {
                    old(self).finished_at
                })
                &&& final(self).not_before == (if old(self).state == ActionState::Inflight
                    && !interrupted {
                    Some(now)
                } else {
                    old(self).not_before
                })
            }),
            *final(self) == (PendingAction {
                state: final(self).state,
                last_error: final(self).last_error,
                finished_at: final(self).finished_at,
                not_before: final(self).not_before,
                ..*old(self)
            }),
    {
        if matches!(self.state, ActionState::Inflight) {
            if same(self.kind.as_str(), "send") {
                self.state = ActionState::Failed;
                self.finished_at = Some(now);
                self.last_error = Some(
                    lit("account connection changed during submission; check Sent before retrying"),
                );
            } else {
                self.state = ActionState::Pending;
                self.not_before = Some(now);
            }
        }
        if identity_changed && self.state.is_active() {
            self.state = ActionState::Cancelled;
            self.finished_at = Some(now);
            self.last_error = Some(
                lit("remote mail account changed before this action completed"),
            );
        }
    }
}

/// A submission that was cut off by a change of the connection is never sent again by itself,
/// and after a change of the remote mailbox nothing queued for the old one is still active.
pub proof fn interrupted_submissions_are_not_replayed(a: PendingAction, identity_changed: bool)
    ensures
        a.kind@ == "send"@ && a.state == ActionState::Inflight ==> a.state_after_change(
            identity_changed,
        ) == ActionState::Failed,
        identity_changed ==> !a.state_after_change(identity_changed).active(),
        a.state.ended() ==> a.state_after_change(identity_changed) == a.state,
        a.state_after_change(identity_changed) != ActionState::Inflight,
{
}

/// The kinds that move a message between folders.
pub open spec fn moves_message(kind: Seq<char>) -> bool {
    kind == "archive"@ || kind == "unarchive"@ || kind == "trash"@ || kind == "spam"@ || kind
        == "not_spam"@ || kind == "move"@
}

/// The kinds that change a message's flags or labels.
pub open spec fn flags_message(kind: Seq<char>) -> bool {
    kind == "mark_read"@ || kind == "mark_unread"@ || kind == "star"@ || kind == "unstar"@ || kind
        == "add_label"@ || kind == "remove_label"@
}

/// The kinds that make a message on the remote side.
pub open spec fn creates_message(kind: Seq<char>) -> bool {
    kind == "save_draft"@ || kind == "send"@ || kind == "append_sent"@
}

/// The kinds that can be undone.
pub open spec fn undoable(kind: Seq<char>) -> bool {
    kind == "archive"@ || kind == "trash"@ || kind == "spam"@ || kind == "mark_read"@ || kind
        == "mark_unread"@ || kind == "star"@ || kind == "unstar"@ || kind == "snooze"@ || kind
        == "send"@ || kind == "move"@ || kind == "add_label"@ || kind == "remove_label"@
}

fn is_move(kind: &str) -> (r: bool)
    ensures
        r == moves_message(kind@),
{
    same(kind, "archive") || same(kind, "unarchive") || same(kind, "trash") || same(kind, "spam")
        || same(kind, "not_spam") || same(kind, "move")
}

fn is_flag(kind: &str) -> (r: bool)
    ensures
        r == flags_message(kind@),
{
    same(kind, "mark_read") || same(kind, "mark_unread") || same(kind, "star") || same(
        kind,
        "unstar",
    ) || same(kind, "add_label") || same(kind, "remove_label")
}

fn is_creation(kind: &str) -> (r: bool)
    ensures
        r == creates_message(kind@),
{
    same(kind, "save_draft") || same(kind, "send") || same(kind, "append_sent")
}

fn is_undoable(kind: &str) -> (r: bool)
    ensures
        r == undoable(kind@),
{
    same(kind, "archive") || same(kind, "trash") || same(kind, "spam") || same(kind, "mark_read")
        || same(kind, "mark_unread") || same(kind, "star") || same(kind, "unstar") || same(
        kind,
        "snooze",
    ) || same(kind, "send") || same(kind, "move") || same(kind, "add_label") || same(
        kind,
        "remove_label",
    )
}

impl PendingAction {
    /// Whether the action is active and about that message.
    pub open spec fn touches(self, message: i64) -> bool {
        self.message_id == Some(message) && self.state.active()
    }

    fn is_about(&self, message: i64) -> (r: bool)
        ensures
            r == self.touches(message),
    {
        let here = match self.message_id {
            Some(m) => m == message,
            None => false,
        };
        here && self.state.is_active()
    }

    /// Whether the action moves that message out of that folder and has not ended.
    pub open spec fn moves_from(self, message: i64, folder: i64) -> bool {
        self.touches(message) && moves_message(self.kind@) && self.payload@.at(
            "srcFolderId"@,
        ).signed() == Some(folder)
    }
}

/// Whether an optimistic move is still in flight from this folder. Header sync
/// uses this to avoid re-linking the old server copy to a row already moved
/// locally while the queued IMAP command is waiting to run.
pub fn has_active_move_from(list: &Vec<PendingAction>, message: i64, folder: i64) -> (r: bool)
    ensures
        r == exists|i: int| 0 <= i < list@.len() && (#[trigger] list@[i]).moves_from(message, folder),
{
    let mut i: usize = 0;
    while i < list.len()
        invariant
            i <= list.len(),
            forall|j: int| 0 <= j < i ==> !(#[trigger] list@[j]).moves_from(message, folder),
        decreases list.len() - i,
    {
        let a = &list[i];
        let from = match a.payload.get("srcFolderId") {
            Some(v) => match v.as_i64() {
                Some(n) => n == folder,
                None => false,
            },
            None => false,
        };
        if a.is_about(message) && is_move(a.kind.as_str()) && from {
            proof {
                assert(list@[i as int].moves_from(message, folder));
            }
            return true;
        }
        i = i + 1;
    }
    false
}

/// What active actions say about a message.
#[derive(Clone, Copy, Debug, PartialEq, Eq, Structural)]
pub struct Guards {
    /// Local intent wins over remote flags.
    pub any: bool,
    /// The message may be recreated or submitted though it disappeared remotely. Ordinary
    /// flag/move actions cannot resurrect a destroyed Email.
    pub creation: bool,
    /// Its flags and labels are being changed.
    pub flags: bool,
    /// Its folder is being changed.
    pub folder: bool,
}

/// What active actions say about a message. Keeping the guards separate prevents a star action
/// from accidentally suppressing an unrelated remote mailbox move.
pub fn reconciliation_guards(list: &Vec<PendingAction>, message: i64) -> (r: Guards)
    ensures
        r.any == exists|i: int| 0 <= i < list@.len() && (#[trigger] list@[i]).touches(message),
        r.creation == exists|i: int|
            0 <= i < list@.len() && (#[trigger] list@[i]).touches(message) && creates_message(
                list@[i].kind@,
            ),
        r.flags == exists|i: int|
            0 <= i < list@.len() && (#[trigger] list@[i]).touches(message) && flags_message(
                list@[i].kind@,
            ),
        r.folder == exists|i: int|
            0 <= i < list@.len() && (#[trigger] list@[i]).touches(message) && moves_message(
                list@[i].kind@,
            ),
{
    let mut g = Guards { any: false, creation: false, flags: false, folder: false };
    let mut i: usize = 0;
    while i < list.len()
        invariant
            i <= list.len(),
            g.any == exists|k: int| 0 <= k < i && (#[trigger] list@[k]).touches(message),
            g.creation == exists|k: int|
                0 <= k < i && (#[trigger] list@[k]).touches(message) && creates_message(
                    list@[k].kind@,
                ),
            g.flags == exists|k: int|
                0 <= k < i && (#[trigger] list@[k]).touches(message) && flags_message(
                    list@[k].kind@,
                ),
            g.folder == exists|k: int|
                0 <= k < i && (#[trigger] list@[k]).touches(message) && moves_message(
                    list@[k].kind@,
                ),
        decreases list.len() - i,
    {
        let a = &list[i];
        if a.is_about(message) {
            g.any = true;
            g.creation = g.creation || is_creation(a.kind.as_str());
            g.flags = g.flags || is_flag(a.kind.as_str());
            g.folder = g.folder || is_move(a.kind.as_str());
            proof {
                assert(list@[i as int].touches(message));
            }
        }
        i = i + 1;
    }
    g
}

/// Is there any pending action referencing this message (local intent wins over remote flags)?
pub fn has_pending_for_message(list: &Vec<PendingAction>, message: i64) -> (r: bool)
    ensures
        r == exists|i: int| 0 <= i < list@.len() && (#[trigger] list@[i]).touches(message),
{
    reconciliation_guards(list, message).any
}

/// Whether local intent may recreate or submit an Email that disappeared remotely.
pub fn has_pending_remote_creation(list: &Vec<PendingAction>, message: i64) -> (r: bool)
    ensures
        r == exists|i: int|
            0 <= i < list@.len() && (#[trigger] list@[i]).touches(message) && creates_message(
                list@[i].kind@,
            ),
{
    reconciliation_guards(list, message).creation
}

/// Fields whose optimistic JMAP values must win while the corresponding
/// remote mutation is active: the flags, and the folder.
pub fn jmap_reconciliation_guards(list: &Vec<PendingAction>, message: i64) -> (r: (bool, bool))
    ensures
        r.0 == exists|i: int|
            0 <= i < list@.len() && (#[trigger] list@[i]).touches(message) && flags_message(
                list@[i].kind@,
            ),
        r.1 == exists|i: int|
            0 <= i < list@.len() && (#[trigger] list@[i]).touches(message) && moves_message(
                list@[i].kind@,
            ),
{
    let g = reconciliation_guards(list, message);
    (g.flags, g.folder)
}

impl PendingAction {
    /// Whether the action can be undone: recent, of a kind that can, and neither failed nor
    /// cancelled.
    pub open spec fn can_undo(self, since: i64) -> bool {
        self.created_at >= since && (self.state.active() || self.state == ActionState::Done)
            && undoable(self.kind@)
    }

    /// Whether the action is kept when the history is tidied up: what failed is kept for the
    /// user, what ended well only while it is recent.
    pub open spec fn kept_after(self, older_than: i64) -> bool {
        !((self.state == ActionState::Done || self.state == ActionState::Cancelled)
            && self.finished_at is Some && self.finished_at->0 < older_than)
    }
}

/// The most recent action that can be undone.
pub fn last_undoable(list: &Vec<PendingAction>, since: i64) -> (r: Option<usize>)
    ensures
        match r {
            Some(i) => i < list@.len() && list@[i as int].can_undo(since) && (forall|j: int|
                0 <= j < list@.len() && (#[trigger] list@[j]).can_undo(since)
                    ==> list@[j].created_at <= list@[i as int].created_at) && (forall|j: int|
                0 <= j < i && (#[trigger] list@[j]).can_undo(since) ==> list@[j].created_at
                    < list@[i as int].created_at),
            None => forall|j: int| 0 <= j < list@.len() ==> !(#[trigger] list@[j]).can_undo(since),
        },
{
    let mut best: Option<usize> = None;
    let mut i: usize = 0;
    while i < list.len()
        invariant
            i <= list.len(),
            match best {
                Some(b) => b < i && list@[b as int].can_undo(since) && (forall|j: int|
                    0 <= j < i && (#[trigger] list@[j]).can_undo(since) ==> list@[j].created_at
                        <= list@[b as int].created_at) && (forall|j: int|
                    0 <= j < b && (#[trigger] list@[j]).can_undo(since) ==> list@[j].created_at
                        < list@[b as int].created_at),
                None => forall|j: int| 0 <= j < i ==> !(#[trigger] list@[j]).can_undo(since),
            },
        decreases list.len() - i,
    {
        let a = &list[i];
        let fits = a.created_at >= since && (a.state.is_active() || matches!(
            a.state,
            ActionState::Done
        )) && is_undoable(a.kind.as_str());
        if fits {
            let newer = match best {
                Some(b) => a.created_at > list[b].created_at,
                None => true,
            };
            if newer {
                best = Some(i);
            }
        }
        i = i + 1;
    }
    best
}

/// Whether an action is kept when the history is tidied up.
pub fn keeps(a: &PendingAction, older_than: i64) -> (r: bool)
    ensures
        r == a.kept_after(older_than),
{
    let old = match a.finished_at {
        Some(t) => t < older_than,
        None => false,
    };
    !(matches!(a.state, ActionState::Done | ActionState::Cancelled) && old)
}

/// A claim is exclusive: an action that was claimed or cancelled can be neither claimed nor
/// cancelled by anybody else, and the queue does not hand it out.
pub proof fn claims_are_exclusive(a: PendingAction, now: i64, later: i64)
    ensures
        !a.claimed().waits(),
        a.claimed().claimed() == a.claimed(),
        a.claimed().cancelled(later) == a.claimed(),
        !a.cancelled(now).waits(),
        a.cancelled(now).claimed() == a.cancelled(now),
        a.cancelled(now).cancelled(later) == a.cancelled(now),
        forall|lane: Lane, account: i64, at: i64|
            !#[trigger] a.claimed().due_in(lane, account, at),
        forall|lane: Lane, account: i64, at: i64|
            !#[trigger] a.cancelled(now).due_in(lane, account, at),
{
}

/// A state is read back as it was written: no two states share a name.
pub proof fn states_are_read_back(a: ActionState, b: ActionState)
    ensures
        state_name(a) == state_name(b) ==> a == b,
{
    reveal_strlit("pending");
    reveal_strlit("inflight");
    reveal_strlit("done");
    reveal_strlit("failed");
    reveal_strlit("cancelled");
    assert(state_name(a).len() == state_name(b).len() ==> a == b);
}

} // verus!
