//! Running turns for the write routes: who may start one, what a message does,
//! and how reports are delivered between turns.

use vstd::prelude::*;
use crate::chars::{cat2, cat3, cat4, dec, decimal, group_views, own, same};
use crate::serve::json::{group_json, no_entries, object, put, Json, JsonView};
use crate::serve::keyed::{keys_differ, place_of, put_value, take_value, value_of};
use crate::serve::page::{ApiError, ErrorView};
use crate::session::restore::parent_view;
use crate::words::{trim, trimmed};

verus! {

broadcast use {group_views, group_json};

/// What the page shows on a session that another process drives.
pub const WATCHING_ONLY: &'static str = "session is open in another process — watching only";

/// Milliseconds between two looks at a turn that has to end first.
pub const SLOT_RETRY: u64 = 250;

/// The first delay of a delivery that is tried again, in milliseconds.
pub const RETRY_BASE: u64 = 500;

/// The longest delay, in milliseconds.
pub const RETRY_CEILING: u64 = 5000;

/// How often a report is routed before it is dropped.
pub const ROUTE_RETRY_LIMIT: usize = 8;

/// How often a session that another process holds is tried.
pub const LEASE_RETRY_LIMIT: u32 = 30;

// ---- Answers ----

/// What a write did.
#[derive(Clone, Copy, PartialEq, Eq, Structural, Debug)]
pub enum Fate {
    /// A new turn is running.
    Started,
    /// The running turn takes the message at its next step.
    Steering,
    /// The running turn was cancelled.
    Aborted,
}

pub open spec fn fate_text(fate: Fate) -> Seq<char> {
    match fate {
        Fate::Started => "started"@,
        Fate::Steering => "steering"@,
        Fate::Aborted => "aborted"@,
    }
}

impl Fate {
    pub fn as_str(self) -> (r: &'static str)
        ensures
            r@ == fate_text(self),
    {
        match self {
            Fate::Started => "started",
            Fate::Steering => "steering",
            Fate::Aborted => "aborted",
        }
    }

    /// The answer to a write.
    pub fn body(self) -> (r: Json)
        ensures
            r@ == JsonView::Object(
                Seq::empty().push(("fate"@, JsonView::Text(fate_text(self)))),
            ),
    {
        let mut o: Vec<(String, Json)> = no_entries();
        put(&mut o, "fate", Json::text(self.as_str()));
        object(o)
    }
}

/// The answer to a new session.
pub fn created(id: &str) -> (r: Json)
    ensures
        r@ == JsonView::Object(
            Seq::empty()
                .push(("id"@, JsonView::Text(id@)))
                .push(("fate"@, JsonView::Text(fate_text(Fate::Started)))),
        ),
{
    let mut o: Vec<(String, Json)> = no_entries();
    put(&mut o, "id", Json::text(id));
    put(&mut o, "fate", Json::text(Fate::Started.as_str()));
    object(o)
}

/// Why a write did nothing.
#[derive(Debug, PartialEq, Eq)]
pub enum DriveError {
    /// Another process holds the session.
    Locked,
    /// This process is between two turns.
    Busy(String),
    NotFound(String),
    /// There is nothing here to abort.
    NotDriving,
    Invalid(String),
    Failed(String),
}

#[verifier::ext_equal]
pub enum DriveErrorView {
    Locked,
    Busy(Seq<char>),
    NotFound(Seq<char>),
    NotDriving,
    Invalid(Seq<char>),
    Failed(Seq<char>),
}

impl View for DriveError {
    type V = DriveErrorView;

    open spec fn view(&self) -> DriveErrorView {
        match self {
            DriveError::Locked => DriveErrorView::Locked,
            DriveError::Busy(why) => DriveErrorView::Busy(why@),
            DriveError::NotFound(why) => DriveErrorView::NotFound(why@),
            DriveError::NotDriving => DriveErrorView::NotDriving,
            DriveError::Invalid(why) => DriveErrorView::Invalid(why@),
            DriveError::Failed(why) => DriveErrorView::Failed(why@),
        }
    }
}

/// The status and the words of a refused write.
pub open spec fn drive_error(error: DriveErrorView) -> ErrorView {
    match error {
        DriveErrorView::Locked => ErrorView { status: 409, message: WATCHING_ONLY@ },
        DriveErrorView::Busy(why) => ErrorView { status: 503, message: why },
        DriveErrorView::NotFound(why) => ErrorView { status: 404, message: why },
        DriveErrorView::NotDriving => ErrorView {
            status: 404,
            message: "no turn is running here that this server can abort"@,
        },
        DriveErrorView::Invalid(why) => ErrorView { status: 400, message: why },
        DriveErrorView::Failed(why) => ErrorView { status: 500, message: why },
    }
}

impl DriveError {
    pub fn status(&self) -> (r: u16)
        ensures
            r == drive_error(self@).status,
    {
        match self {
            DriveError::Locked => 409,
            DriveError::Busy(_) => 503,
            DriveError::NotFound(_) => 404,
            DriveError::NotDriving => 404,
            DriveError::Invalid(_) => 400,
            DriveError::Failed(_) => 500,
        }
    }

    pub fn message(&self) -> (r: String)
        ensures
            r@ == drive_error(self@).message,
    {
        match self {
            DriveError::Locked => own(WATCHING_ONLY),
            DriveError::NotDriving => own("no turn is running here that this server can abort"),
            DriveError::Busy(why) => own(why.as_str()),
            DriveError::NotFound(why) => own(why.as_str()),
            DriveError::Invalid(why) => own(why.as_str()),
            DriveError::Failed(why) => own(why.as_str()),
        }
    }

    pub fn answer(&self) -> (r: ApiError)
        ensures
            r@ == drive_error(self@),
    {
        ApiError { status: self.status(), message: self.message() }
    }
}

/// How the store refused.
#[derive(Clone, Copy, PartialEq, Eq, Structural, Debug)]
pub enum LeaseFailure {
    WouldBlock,
    NotFound,
    InvalidInput,
    Other,
}

/// What a session that cannot be read or written is answered. That it is held
/// matters only to a writer.
pub open spec fn refused(kind: LeaseFailure, writing: bool, id: Seq<char>, why: Seq<char>) -> DriveErrorView {
    match kind {
        LeaseFailure::WouldBlock => if writing {
            DriveErrorView::Locked
        } else {
            DriveErrorView::Failed(why)
        },
        LeaseFailure::NotFound => DriveErrorView::NotFound("session not found: "@ + id),
        LeaseFailure::InvalidInput => DriveErrorView::Invalid(why),
        LeaseFailure::Other => DriveErrorView::Failed(why),
    }
}

/// What a session whose writer lease cannot be had is answered.
pub fn acquire_failure(kind: LeaseFailure, id: &str, why: String) -> (r: DriveError)
    ensures
        r@ == refused(kind, true, id@, why@),
{
    match kind {
        LeaseFailure::WouldBlock => DriveError::Locked,
        LeaseFailure::NotFound => DriveError::NotFound(cat2("session not found: ", id)),
        LeaseFailure::InvalidInput => DriveError::Invalid(why),
        LeaseFailure::Other => DriveError::Failed(why),
    }
}

/// What a session whose head cannot be read is answered.
pub fn head_failure(kind: LeaseFailure, id: &str, why: String) -> (r: DriveError)
    ensures
        r@ == refused(kind, false, id@, why@),
{
    match kind {
        LeaseFailure::NotFound => DriveError::NotFound(cat2("session not found: ", id)),
        LeaseFailure::InvalidInput => DriveError::Invalid(why),
        _ => DriveError::Failed(why),
    }
}

// ---- What is asked ----

/// The text of a message.
pub fn message_text(text: &str) -> (r: Result<String, DriveError>)
    ensures
        match r {
            Ok(said) => said@ == trimmed(text@) && said@.len() > 0,
            Err(error) => trimmed(text@).len() == 0 && error@ == DriveErrorView::Invalid(
                "an empty message says nothing"@,
            ),
        },
{
    let said: String = trim(text);
    if said.as_str().is_empty() {
        Err(DriveError::Invalid(own("an empty message says nothing")))
    } else {
        Ok(said)
    }
}

/// An option that was asked for. A blank one was not.
pub open spec fn asked(option: Option<Seq<char>>) -> Option<Seq<char>> {
    match option {
        Some(text) => if trimmed(text).len() > 0 {
            Some(trimmed(text))
        } else {
            None
        },
        None => None,
    }
}

pub fn asked_for(option: Option<&str>) -> (r: Option<String>)
    ensures
        match r {
            Some(text) => asked(parent_view(option)) == Some(text@),
            None => asked(parent_view(option)) is None,
        },
{
    match option {
        Some(text) => {
            let text: String = trim(text);
            if text.as_str().is_empty() {
                None
            } else {
                Some(text)
            }
        },
        None => None,
    }
}

/// What a new session is asked for: a prompt, a directory and a model.
#[derive(Debug)]
pub struct NewSession {
    pub prompt: String,
    pub cwd: Option<String>,
    pub model: Option<String>,
}

/// A new session needs a prompt. Its directory and model may be left open.
pub fn new_session(prompt: &str, cwd: Option<&str>, model: Option<&str>) -> (r: Result<
    NewSession,
    DriveError,
>)
    ensures
        match r {
            Ok(request) => {
                &&& request.prompt@ == trimmed(prompt@)
                &&& request.prompt@.len() > 0
                &&& crate::transcript::model::opt_text(request.cwd) == asked(parent_view(cwd))
                &&& crate::transcript::model::opt_text(request.model) == asked(parent_view(model))
            },
            Err(error) => trimmed(prompt@).len() == 0 && error@ == DriveErrorView::Invalid(
                "a prompt is required"@,
            ),
        },
{
    let prompt: String = trim(prompt);
    if prompt.as_str().is_empty() {
        return Err(DriveError::Invalid(own("a prompt is required")));
    }
    Ok(NewSession { prompt, cwd: asked_for(cwd), model: asked_for(model) })
}

pub fn not_a_directory(cwd: &str) -> (r: DriveError)
    ensures
        r@ == DriveErrorView::Invalid(cwd@ + " is not a directory"@),
{
    DriveError::Invalid(cat2(cwd, " is not a directory"))
}

/// Where a resumed turn runs: where the session says, if that is still there.
pub fn turn_cwd(recorded: Option<String>, is_dir: bool) -> (r: Option<String>)
    ensures
        r == (if is_dir {
            recorded
        } else {
            None
        }),
{
    if is_dir {
        recorded
    } else {
        None
    }
}

// ---- Who runs what ----

/// A turn that this process runs or is about to: whether it can be steered,
/// whether it is being stopped, and which one it is.
#[derive(Clone, Copy, PartialEq, Eq, Structural, Debug)]
pub struct DrivenTurn {
    pub steer: bool,
    pub stopping: bool,
    pub epoch: u64,
}

impl DrivenTurn {
    pub open spec fn can_be_steered(self) -> bool {
        !self.stopping && self.steer
    }

    pub fn steerable(&self) -> (r: bool)
        ensures
            r == self.can_be_steered(),
    {
        !self.stopping && self.steer
    }

    /// What a message that cannot be delivered now is answered.
    pub fn busy(&self) -> (r: DriveError)
        ensures
            r@ == DriveErrorView::Busy(
                if self.stopping {
                    "the turn here is stopping; send that again in a moment"@
                } else {
                    "a turn is already starting here; send that again in a moment"@
                },
            ),
    {
        DriveError::Busy(
            if self.stopping {
                own("the turn here is stopping; send that again in a moment")
            } else {
                own("a turn is already starting here; send that again in a moment")
            },
        )
    }
}

/// Where a message goes.
#[derive(Clone, Copy, PartialEq, Eq, Structural, Debug)]
pub enum SubmitTarget {
    Steer,
    Queue,
    StartTurn,
}

/// A turn that can be steered takes the message, one that cannot makes it wait,
/// and without one it starts a turn.
pub open spec fn target_of(turn: Option<DrivenTurn>) -> SubmitTarget {
    match turn {
        Some(turn) => if turn.can_be_steered() {
            SubmitTarget::Steer
        } else {
            SubmitTarget::Queue
        },
        None => SubmitTarget::StartTurn,
    }
}

pub fn submit_target(turn: Option<DrivenTurn>) -> (r: SubmitTarget)
    ensures
        r == target_of(turn),
{
    match turn {
        Some(turn) => if turn.steerable() {
            SubmitTarget::Steer
        } else {
            SubmitTarget::Queue
        },
        None => SubmitTarget::StartTurn,
    }
}

/// What a message did: it is to be handed to the running turn, or it claimed the
/// session for a turn of its own.
#[derive(Clone, Copy, PartialEq, Eq, Structural, Debug)]
pub enum Claim {
    Steer,
    Start(u64),
}

/// What can happen to the turn on a session.
#[derive(Clone, Copy, PartialEq, Eq, Structural, Debug)]
pub enum Step {
    /// A message or a delivery wants a turn.
    Claim,
    /// A turn begins to listen.
    Listen(u64),
    Abort,
    /// A turn gives its session back.
    Release(u64),
}

/// The turn on a session after a step, and the number of the next turn. A session
/// that has a turn cannot be claimed; a turn that is over, or is being stopped,
/// does not begin to listen; a turn gives back its own claim alone.
pub open spec fn stepped(turn: Option<DrivenTurn>, next: u64, step: Step) -> (
    Option<DrivenTurn>,
    u64,
) {
    match (step, turn) {
        (Step::Claim, None) => (
            Some(DrivenTurn { steer: false, stopping: false, epoch: next }),
            next.wrapping_add(1),
        ),
        (Step::Listen(epoch), Some(turn)) => if turn.epoch == epoch && !turn.stopping {
            (Some(DrivenTurn { steer: true, ..turn }), next)
        } else {
            (Some(turn), next)
        },
        (Step::Abort, Some(turn)) => (
            Some(DrivenTurn { steer: false, stopping: true, ..turn }),
            next,
        ),
        (Step::Release(epoch), Some(turn)) => if turn.epoch == epoch {
            (None, next)
        } else {
            (Some(turn), next)
        },
        (_, _) => (turn, next),
    }
}

/// After a number of steps.
pub open spec fn stepped_all(turn: Option<DrivenTurn>, next: u64, steps: Seq<Step>) -> (
    Option<DrivenTurn>,
    u64,
)
    decreases steps.len(),
{
    if steps.len() == 0 {
        (turn, next)
    } else {
        let (before, number) = stepped_all(turn, next, steps.drop_last());
        stepped(before, number, steps.last())
    }
}

/// The sessions that this process drives, and the number of the next turn.
#[derive(Debug)]
pub struct Registry {
    pub running: Vec<(String, DrivenTurn)>,
    pub next_epoch: u64,
}

impl Registry {
    /// A session has one turn at most.
    pub open spec fn wf(self) -> bool {
        keys_differ(self.running@)
    }

    /// The turn on a session.
    pub open spec fn on(self, id: Seq<char>) -> Option<DrivenTurn> {
        value_of(self.running@, id)
    }

    pub fn new() -> (r: Registry)
        ensures
            r.wf(),
            r.next_epoch == 0,
            forall|id: Seq<char>| #[trigger] r.on(id) is None,
    {
        Registry { running: Vec::new(), next_epoch: 0 }
    }

    fn turn(&self, id: &str) -> (r: Option<DrivenTurn>)
        ensures
            r == self.on(id@),
    {
        let i: usize = place_of(&self.running, id);
        if i < self.running.len() {
            Some(self.running[i].1)
        } else {
            None
        }
    }

    /// Whether this process drives a session.
    pub fn drives(&self, id: &str) -> (r: bool)
        ensures
            r == (self.on(id@) is Some),
    {
        self.turn(id).is_some()
    }

    /// Claim a session for a turn that is about to be prepared. It cannot be
    /// steered yet.
    pub fn reserve(&mut self, id: &str) -> (r: u64)
        requires
            old(self).wf(),
        ensures
            final(self).wf(),
            r == old(self).next_epoch,
            final(self).next_epoch == old(self).next_epoch.wrapping_add(1),
            final(self).on(id@) == Some(DrivenTurn { steer: false, stopping: false, epoch: r }),
            forall|other: Seq<char>|
                other != id@ ==> #[trigger] final(self).on(other) == old(self).on(other),
    {
        let epoch: u64 = self.next_epoch;
        self.next_epoch = epoch.wrapping_add(1);
        put_value(&mut self.running, id, DrivenTurn { steer: false, stopping: false, epoch });
        epoch
    }

    /// The claim of a delivery: only a session without a turn can be had.
    pub fn try_reserve(&mut self, id: &str) -> (r: Option<u64>)
        requires
            old(self).wf(),
        ensures
            final(self).wf(),
            r == (if old(self).on(id@) is None {
                Some(old(self).next_epoch)
            } else {
                None
            }),
            (final(self).on(id@), final(self).next_epoch) == stepped(
                old(self).on(id@),
                old(self).next_epoch,
                Step::Claim,
            ),
            forall|other: Seq<char>|
                other != id@ ==> #[trigger] final(self).on(other) == old(self).on(other),
    {
        if self.turn(id).is_some() {
            return None;
        }
        Some(self.reserve(id))
    }

    /// Decide what a message does and claim what it needs, in one step.
    pub fn claim(&mut self, id: &str) -> (r: Result<Claim, DriveError>)
        requires
            old(self).wf(),
        ensures
            final(self).wf(),
            match target_of(old(self).on(id@)) {
                SubmitTarget::Steer => r == Ok::<Claim, DriveError>(Claim::Steer),
                SubmitTarget::Queue => r is Err && r->Err_0@ == DriveErrorView::Busy(
                    if old(self).on(id@)->0.stopping {
                        "the turn here is stopping; send that again in a moment"@
                    } else {
                        "a turn is already starting here; send that again in a moment"@
                    },
                ),
                SubmitTarget::StartTurn => r == Ok::<Claim, DriveError>(
                    Claim::Start(old(self).next_epoch),
                ),
            },
            (final(self).on(id@), final(self).next_epoch) == stepped(
                old(self).on(id@),
                old(self).next_epoch,
                Step::Claim,
            ),
            forall|other: Seq<char>|
                other != id@ ==> #[trigger] final(self).on(other) == old(self).on(other),
    {
        let turn: Option<DrivenTurn> = self.turn(id);
        match submit_target(turn) {
            SubmitTarget::Steer => Ok(Claim::Steer),
            SubmitTarget::Queue => match turn {
                Some(turn) => Err(turn.busy()),
                None => Err(DriveError::Busy(own("a turn is already running here"))),
            },
            SubmitTarget::StartTurn => Ok(Claim::Start(self.reserve(id))),
        }
    }

    /// A turn begins to listen, unless it was aborted meanwhile or is no longer
    /// the session's. Says whether it does.
    pub fn listen(&mut self, id: &str, epoch: u64) -> (r: bool)
        requires
            old(self).wf(),
        ensures
            final(self).wf(),
            r == (old(self).on(id@) is Some && old(self).on(id@)->0.epoch == epoch && !old(
                self,
            ).on(id@)->0.stopping),
            (final(self).on(id@), final(self).next_epoch) == stepped(
                old(self).on(id@),
                old(self).next_epoch,
                Step::Listen(epoch),
            ),
            forall|other: Seq<char>|
                other != id@ ==> #[trigger] final(self).on(other) == old(self).on(other),
    {
        if let Some(turn) = self.turn(id) {
            if turn.epoch == epoch && !turn.stopping {
                put_value(&mut self.running, id, DrivenTurn { steer: true, ..turn });
                return true;
            }
        }
        false
    }

    /// Stop the turn on a session. The session stays this process's until the
    /// turn lets go of it, but takes no more messages.
    pub fn abort(&mut self, id: &str) -> (r: Result<Fate, DriveError>)
        requires
            old(self).wf(),
        ensures
            final(self).wf(),
            match old(self).on(id@) {
                Some(_) => r == Ok::<Fate, DriveError>(Fate::Aborted),
                None => r is Err && r->Err_0@ == DriveErrorView::NotDriving,
            },
            (final(self).on(id@), final(self).next_epoch) == stepped(
                old(self).on(id@),
                old(self).next_epoch,
                Step::Abort,
            ),
            forall|other: Seq<char>|
                other != id@ ==> #[trigger] final(self).on(other) == old(self).on(other),
    {
        match self.turn(id) {
            Some(turn) => {
                put_value(
                    &mut self.running,
                    id,
                    DrivenTurn { steer: false, stopping: true, ..turn },
                );
                Ok(Fate::Aborted)
            },
            None => Err(DriveError::NotDriving),
        }
    }

    /// A turn gives its session back. One that another turn has by now is left
    /// alone.
    pub fn release(&mut self, id: &str, epoch: u64)
        requires
            old(self).wf(),
        ensures
            final(self).wf(),
            (final(self).on(id@), final(self).next_epoch) == stepped(
                old(self).on(id@),
                old(self).next_epoch,
                Step::Release(epoch),
            ),
            forall|other: Seq<char>|
                other != id@ ==> #[trigger] final(self).on(other) == old(self).on(other),
    {
        let i: usize = place_of(&self.running, id);
        if i < self.running.len() && self.running[i].1.epoch == epoch {
            take_value(&mut self.running, i);
        }
    }

    /// Stop every turn.
    pub fn stop_all(&mut self)
        requires
            old(self).wf(),
        ensures
            final(self).wf(),
            final(self).next_epoch == old(self).next_epoch,
            final(self).running@.len() == old(self).running@.len(),
            forall|i: int|
                0 <= i < old(self).running@.len() ==> {
                    let now = #[trigger] final(self).running@[i];
                    let was = old(self).running@[i];
                    now.0 == was.0 && now.1 == (DrivenTurn {
                        steer: false,
                        stopping: true,
                        ..was.1
                    })
                },
    {
        let ghost before = self.running@;
        let ghost epoch = self.next_epoch;
        let n: usize = self.running.len();
        let mut i: usize = 0;
        while i < n
            invariant
                i <= n,
                n == before.len(),
                n == self.running@.len(),
                self.next_epoch == epoch,
                forall|k: int|
                    0 <= k < i ==> {
                        let now = #[trigger] self.running@[k];
                        now.0 == before[k].0 && now.1 == (DrivenTurn {
                            steer: false,
                            stopping: true,
                            ..before[k].1
                        })
                    },
                forall|k: int| i <= k < n ==> #[trigger] self.running@[k] == before[k],
            decreases n - i,
        {
            let ghost so_far = self.running@;
            let was: DrivenTurn = self.running[i].1;
            self.running[i].1 = DrivenTurn { steer: false, stopping: true, ..was };
            assert(forall|k: int| 0 <= k < n && k != i ==> self.running@[k] == so_far[k]);
            i += 1;
        }
        assert forall|i: int, j: int| 0 <= i < j < self.running@.len() implies (
        #[trigger] self.running@[i]).0@ != (#[trigger] self.running@[j]).0@ by {
            assert(before[i].0@ != before[j].0@);
        }
    }
}

/// What a message is answered where the running turn has just stopped listening.
pub fn steer_failed() -> (r: DriveError)
    ensures
        r@ == DriveErrorView::Busy("the turn here is finishing; send that again in a moment"@),
{
    DriveError::Busy(own("the turn here is finishing; send that again in a moment"))
}

/// A session has one turn at a time: while one is there, no message starts
/// another, and what a message finds is never blamed on another process.
pub proof fn law_one_turn_per_session(turn: Option<DrivenTurn>, next: u64, why: Seq<char>)
    ensures
        target_of(turn) == SubmitTarget::StartTurn <==> turn is None,
        turn is Some ==> stepped(turn, next, Step::Claim) == (turn, next),
        turn is Some && turn->0.stopping ==> target_of(turn) == SubmitTarget::Queue,
        drive_error(DriveErrorView::Busy(why)).status != drive_error(
            DriveErrorView::Locked,
        ).status,
{
}

/// A turn that has been aborted is never steered again, and the session is this
/// process's until the turn itself lets go: no other step ends that, whatever
/// claims and late releases of earlier turns come in between.
pub proof fn law_an_aborted_turn_stays_deaf_until_it_lets_go(
    turn: DrivenTurn,
    next: u64,
    steps: Seq<Step>,
)
    requires
        forall|i: int| 0 <= i < steps.len() ==> #[trigger] steps[i] != Step::Release(turn.epoch),
    ensures
        ({
            let aborted = stepped(Some(turn), next, Step::Abort);
            &&& !aborted.0->0.can_be_steered()
            &&& stepped_all(aborted.0, aborted.1, steps) == aborted
        }),
    decreases steps.len(),
{
    if steps.len() > 0 {
        law_an_aborted_turn_stays_deaf_until_it_lets_go(turn, next, steps.drop_last());
        assert(steps[steps.len() - 1] != Step::Release(turn.epoch));
    }
}

/// When the turn on a session has let go, the session can be claimed again, and
/// the turn that then has it is not taken from it by what its predecessor does
/// late: it has another number.
pub proof fn law_a_finished_turn_does_not_evict_its_successor(turn: DrivenTurn, next: u64)
    requires
        turn.epoch != next,
    ensures
        stepped(Some(turn), next, Step::Release(turn.epoch)) == (None::<DrivenTurn>, next),
        ({
            let successor = stepped(None, next, Step::Claim);
            &&& successor.0 is Some
            &&& successor.0->0.epoch == next
            &&& stepped(successor.0, successor.1, Step::Release(turn.epoch)) == successor
            &&& stepped(successor.0, successor.1, Step::Listen(turn.epoch)) == successor
        }),
{
}

// ---- Failures ----

/// A turn that failed on a session.
#[derive(Clone, Debug)]
pub struct TurnFailure {
    pub session_id: String,
    pub message: String,
}

pub fn turn_failed(session_id: &str, error: &str) -> (r: TurnFailure)
    ensures
        r.session_id@ == session_id@,
        r.message@ == "the turn failed: "@ + error@,
{
    TurnFailure { session_id: own(session_id), message: cat2("the turn failed: ", error) }
}

// ---- Deliveries ----

/// Twice the delay, up to the ceiling.
pub open spec fn backed_off(delay: u64) -> u64 {
    if 2 * delay < RETRY_CEILING {
        (2 * delay) as u64
    } else {
        RETRY_CEILING
    }
}

fn back_off(delay: u64) -> (r: u64)
    ensures
        r == backed_off(delay),
{
    if delay < RETRY_CEILING / 2 {
        2 * delay
    } else {
        RETRY_CEILING
    }
}

/// A report that is to be delivered as a turn of its own: how often the session
/// was held by another process, and how long to wait the next time.
#[derive(Clone, Copy, PartialEq, Eq, Structural, Debug)]
pub struct FollowUp {
    pub lease_attempts: u32,
    pub delay: u64,
}

/// What came back.
#[derive(Debug)]
pub enum FollowUpEvent {
    /// Whether the session's log holds the report already.
    Delivered(bool),
    /// Whether the session could be claimed.
    Slot(bool),
    /// The writer lease was had.
    Leased,
    /// Another process holds the session.
    Held,
    LeaseFailed(String),
    /// A pause is over, or was cut short.
    Paused(bool),
}

/// What to do next. `Wait` holds no claim; `GiveUp` says why, if there is
/// something to say.
#[derive(Debug, PartialEq, Eq)]
pub enum FollowUpAction {
    CheckLog,
    TakeSlot,
    TakeLease,
    Run,
    Wait(u64),
    /// Give the claim back, and wait.
    ReleaseAndWait(u64),
    GiveUp(Option<String>),
}

#[verifier::ext_equal]
pub enum FollowUpActionView {
    CheckLog,
    TakeSlot,
    TakeLease,
    Run,
    Wait(u64),
    ReleaseAndWait(u64),
    GiveUp(Option<Seq<char>>),
}

impl View for FollowUpAction {
    type V = FollowUpActionView;

    open spec fn view(&self) -> FollowUpActionView {
        match self {
            FollowUpAction::CheckLog => FollowUpActionView::CheckLog,
            FollowUpAction::TakeSlot => FollowUpActionView::TakeSlot,
            FollowUpAction::TakeLease => FollowUpActionView::TakeLease,
            FollowUpAction::Run => FollowUpActionView::Run,
            FollowUpAction::Wait(ms) => FollowUpActionView::Wait(*ms),
            FollowUpAction::ReleaseAndWait(ms) => FollowUpActionView::ReleaseAndWait(*ms),
            FollowUpAction::GiveUp(why) => FollowUpActionView::GiveUp(
                crate::transcript::model::opt_text(*why),
            ),
        }
    }
}

pub open spec fn follow_up_begun() -> FollowUp {
    FollowUp { lease_attempts: 0, delay: RETRY_BASE }
}

/// The log is looked at first, and again after every wait. A turn that runs here
/// is waited for without end; a session that another process holds is tried a
/// number of times, less and less often.
pub open spec fn follow_up_next(state: FollowUp, session: Seq<char>, event: FollowUpEvent) -> (
    FollowUp,
    FollowUpActionView,
) {
    match event {
        FollowUpEvent::Delivered(done) => (
            state,
            if done {
                FollowUpActionView::GiveUp(None)
            } else {
                FollowUpActionView::TakeSlot
            },
        ),
        FollowUpEvent::Slot(taken) => (
            state,
            if taken {
                FollowUpActionView::TakeLease
            } else {
                FollowUpActionView::Wait(SLOT_RETRY)
            },
        ),
        FollowUpEvent::Leased => (state, FollowUpActionView::Run),
        FollowUpEvent::Held => if state.lease_attempts >= LEASE_RETRY_LIMIT {
            (
                state,
                FollowUpActionView::GiveUp(
                    Some(
                        "serve: dropping a task completion for "@ + session
                            + ": the session is held by another process"@,
                    ),
                ),
            )
        } else {
            (
                FollowUp {
                    lease_attempts: (state.lease_attempts + 1) as u32,
                    delay: backed_off(state.delay),
                },
                FollowUpActionView::ReleaseAndWait(state.delay),
            )
        },
        FollowUpEvent::LeaseFailed(why) => (
            state,
            FollowUpActionView::GiveUp(
                Some("serve: dropping a task completion for "@ + session + ": "@ + why@),
            ),
        ),
        FollowUpEvent::Paused(on) => (
            state,
            if on {
                FollowUpActionView::CheckLog
            } else {
                FollowUpActionView::GiveUp(None)
            },
        ),
    }
}

impl FollowUp {
    pub fn begin() -> (r: (FollowUp, FollowUpAction))
        ensures
            r.0 == follow_up_begun(),
            r.1@ == FollowUpActionView::CheckLog,
    {
        (FollowUp { lease_attempts: 0, delay: RETRY_BASE }, FollowUpAction::CheckLog)
    }

    pub fn next(&mut self, session_id: &str, event: FollowUpEvent) -> (r: FollowUpAction)
        ensures
            (*final(self), r@) == follow_up_next(*old(self), session_id@, event),
    {
        match event {
            FollowUpEvent::Delivered(done) => if done {
                FollowUpAction::GiveUp(None)
            } else {
                FollowUpAction::TakeSlot
            },
            FollowUpEvent::Slot(taken) => if taken {
                FollowUpAction::TakeLease
            } else {
                FollowUpAction::Wait(SLOT_RETRY)
            },
            FollowUpEvent::Leased => FollowUpAction::Run,
            FollowUpEvent::Held => {
                if self.lease_attempts >= LEASE_RETRY_LIMIT {
                    return FollowUpAction::GiveUp(
                        Some(
                            cat3(
                                "serve: dropping a task completion for ",
                                session_id,
                                ": the session is held by another process",
                            ),
                        ),
                    );
                }
                let wait: u64 = self.delay;
                self.lease_attempts = self.lease_attempts + 1;
                self.delay = back_off(wait);
                FollowUpAction::ReleaseAndWait(wait)
            },
            FollowUpEvent::LeaseFailed(why) => FollowUpAction::GiveUp(
                Some(
                    cat4(
                        "serve: dropping a task completion for ",
                        session_id,
                        ": ",
                        why.as_str(),
                    ),
                ),
            ),
            FollowUpEvent::Paused(on) => if on {
                FollowUpAction::CheckLog
            } else {
                FollowUpAction::GiveUp(None)
            },
        }
    }
}

/// A delivery that waits holds no claim, never waits longer than the ceiling, and
/// tries a held session at most as often as allowed.
pub proof fn law_a_delivery_waits_politely(state: FollowUp, session: Seq<char>, event: FollowUpEvent)
    requires
        state.lease_attempts <= LEASE_RETRY_LIMIT,
        RETRY_BASE <= state.delay <= RETRY_CEILING,
    ensures
        ({
            let (next, action) = follow_up_next(state, session, event);
            &&& next.lease_attempts <= LEASE_RETRY_LIMIT
            &&& RETRY_BASE <= next.delay <= RETRY_CEILING
            &&& state.delay <= next.delay
            &&& action matches FollowUpActionView::ReleaseAndWait(ms) ==> event is Held && ms
                <= RETRY_CEILING && next.lease_attempts == state.lease_attempts + 1
            &&& action is Run ==> event is Leased
            &&& action matches FollowUpActionView::Wait(ms) ==> ms == SLOT_RETRY && next == state
        }),
{
}

/// A report that belongs to a deeper session: how often it may still be routed,
/// and how long to wait the next time.
#[derive(Clone, Copy, PartialEq, Eq, Structural, Debug)]
pub struct Route {
    pub attempts: usize,
    pub delay: u64,
}

#[derive(Debug)]
pub enum RouteEvent {
    Complete,
    /// The report goes one session up.
    Propagate,
    /// The session could not take it for now.
    Requeue,
    Failed(String),
    Paused(bool),
}

#[derive(Debug, PartialEq, Eq)]
pub enum RouteAction {
    Route,
    Wait(u64),
    Done,
    Climb,
    GiveUp(Option<String>),
}

#[verifier::ext_equal]
pub enum RouteActionView {
    Route,
    Wait(u64),
    Done,
    Climb,
    GiveUp(Option<Seq<char>>),
}

impl View for RouteAction {
    type V = RouteActionView;

    open spec fn view(&self) -> RouteActionView {
        match self {
            RouteAction::Route => RouteActionView::Route,
            RouteAction::Wait(ms) => RouteActionView::Wait(*ms),
            RouteAction::Done => RouteActionView::Done,
            RouteAction::Climb => RouteActionView::Climb,
            RouteAction::GiveUp(why) => RouteActionView::GiveUp(
                crate::transcript::model::opt_text(*why),
            ),
        }
    }
}

pub open spec fn route_begun() -> Route {
    Route { attempts: 0, delay: RETRY_BASE }
}

/// Each routing is an attempt. After a wait there is another, until they are used
/// up.
pub open spec fn route_next(state: Route, session: Seq<char>, event: RouteEvent) -> (
    Route,
    RouteActionView,
) {
    match event {
        RouteEvent::Complete => (state, RouteActionView::Done),
        RouteEvent::Propagate => (state, RouteActionView::Climb),
        RouteEvent::Requeue => (
            Route {
                attempts: if state.attempts < ROUTE_RETRY_LIMIT {
                    (state.attempts + 1) as usize
                } else {
                    state.attempts
                },
                delay: backed_off(state.delay),
            },
            RouteActionView::Wait(state.delay),
        ),
        RouteEvent::Failed(why) => (
            state,
            RouteActionView::GiveUp(
                Some("serve: routing a task completion failed: "@ + why@),
            ),
        ),
        RouteEvent::Paused(on) => (
            state,
            if !on {
                RouteActionView::GiveUp(None)
            } else if state.attempts < ROUTE_RETRY_LIMIT {
                RouteActionView::Route
            } else {
                RouteActionView::GiveUp(
                    Some(
                        "serve: dropping a task completion for "@ + session + " after "@ + dec(
                            ROUTE_RETRY_LIMIT as nat,
                        ) + " attempts"@,
                    ),
                )
            },
        ),
    }
}

impl Route {
    pub fn begin() -> (r: (Route, RouteAction))
        ensures
            r.0 == route_begun(),
            r.1@ == RouteActionView::Route,
    {
        (Route { attempts: 0, delay: RETRY_BASE }, RouteAction::Route)
    }

    pub fn next(&mut self, session_id: &str, event: RouteEvent) -> (r: RouteAction)
        ensures
            (*final(self), r@) == route_next(*old(self), session_id@, event),
    {
        match event {
            RouteEvent::Complete => RouteAction::Done,
            RouteEvent::Propagate => RouteAction::Climb,
            RouteEvent::Requeue => {
                let wait: u64 = self.delay;
                if self.attempts < ROUTE_RETRY_LIMIT {
                    self.attempts = self.attempts + 1;
                }
                self.delay = back_off(wait);
                RouteAction::Wait(wait)
            },
            RouteEvent::Failed(why) => RouteAction::GiveUp(
                Some(cat2("serve: routing a task completion failed: ", why.as_str())),
            ),
            RouteEvent::Paused(on) => if !on {
                RouteAction::GiveUp(None)
            } else if self.attempts < ROUTE_RETRY_LIMIT {
                RouteAction::Route
            } else {
                let count: String = decimal(ROUTE_RETRY_LIMIT as u64);
                let mut why: String = cat4(
                    "serve: dropping a task completion for ",
                    session_id,
                    " after ",
                    count.as_str(),
                );
                why.push_str(" attempts");
                RouteAction::GiveUp(Some(why))
            },
        }
    }
}

/// Where a report goes: to the session that is driven here, or to a deeper one.
pub fn is_own(parent_session_id: &str, session_id: &str) -> (r: bool)
    ensures
        r == (parent_session_id@ == session_id@),
{
    same(parent_session_id, session_id)
}

/// The lanes of deliveries: one for each session, so that none has two at once
/// and none waits for another's.
#[derive(Debug)]
pub struct Lanes {
    pub lanes: Vec<(String, usize)>,
}

impl Lanes {
    /// No session has two lanes.
    pub open spec fn wf(self) -> bool {
        keys_differ(self.lanes@)
    }

    pub open spec fn of(self, id: Seq<char>) -> Option<usize> {
        value_of(self.lanes@, id)
    }

    pub fn new() -> (r: Lanes)
        ensures
            r.wf(),
            forall|id: Seq<char>| #[trigger] r.of(id) is None,
    {
        Lanes { lanes: Vec::new() }
    }

    /// The lane of a session, and whether it is a new one: `fresh` is then its
    /// number.
    pub fn dispatch(&mut self, id: &str, fresh: usize) -> (r: (usize, bool))
        requires
            old(self).wf(),
        ensures
            final(self).wf(),
            final(self).of(id@) == Some(r.0),
            match old(self).of(id@) {
                Some(lane) => r == (lane, false),
                None => r == (fresh, true),
            },
            forall|other: Seq<char>|
                other != id@ ==> #[trigger] final(self).of(other) == old(self).of(other),
    {
        let i: usize = place_of(&self.lanes, id);
        if i < self.lanes.len() {
            return (self.lanes[i].1, false);
        }
        put_value(&mut self.lanes, id, fresh);
        (fresh, true)
    }
}

} // verus!
