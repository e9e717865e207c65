//! A single-consumer actor runtime: a FIFO mailbox, handles that share a
//! reference count, one-shot reply slots, and the router that drains the
//! mailbox into the actor object and runs the shutdown protocol.
//!
//! Everything here happens on one thread of control; a host that shares an
//! actor between threads serialises calls into it.
use vstd::prelude::*;

verus! {

/// Live handles that the actor keeps for itself: the one its object holds.
pub const SELF_REFS: usize = 1;

/// The object behind an actor: it handles messages, one at a time.
pub trait Handler {
    type Msg;
    type Reply;
    type Fault;

    /// Runs the method that `msg` calls. An `Err` is a fault of this call alone.
    fn handle(&mut self, msg: &Self::Msg) -> Result<Self::Reply, Self::Fault>;

    /// Called with the fault and the message that caused it.
    fn on_error(&mut self, fault: Self::Fault, msg: &Self::Msg);

    /// Called when the router finds the mailbox empty.
    fn on_idle(&mut self);

    /// Gives the object a handle to its own actor, so that it can hand out more.
    fn set_self_handle(&mut self, handle: Handle);

    /// Takes a message that has run. Gives back the handles in it that the
    /// object does not keep, and any others it has let go of.
    fn retire(&mut self, msg: Self::Msg) -> Vec<Handle>;

    /// Gives up every handle that the object holds, its own included.
    fn close(&mut self) -> Vec<Handle>;
}

/// An entry of the mailbox: a call, with the reply slot of an ask, or the
/// graceful-kill request.
pub enum Envelope<M> {
    Call { msg: M, reply_to: Option<usize> },
    Kill,
}

#[derive(Clone, Copy, Debug, PartialEq, Eq, Structural)]
pub enum RouterState {
    Running,
    /// A kill request is pending behind other entries.
    Draining,
    Terminated,
}

/// Why a call could not be sent.
#[derive(Clone, Copy, Debug, PartialEq, Eq, Structural)]
pub enum SendError {
    /// The router has terminated.
    MailboxClosed,
}

/// What one step of the router did.
#[derive(Clone, Copy, Debug, PartialEq, Eq, Structural)]
pub enum StepOutcome {
    /// A call ran and, for an ask, filled its reply slot.
    Handled,
    /// A call failed; the error hook ran and the router goes on.
    Faulted,
    /// The mailbox was empty; the idle hook ran.
    Idle,
    /// A kill request went to the back of the mailbox behind pending calls.
    Requeued,
    /// A kill request found live handles and was dropped.
    Resumed,
    /// A kill request found no handle and an empty mailbox.
    Terminated,
    /// No handle is left at all and the mailbox is empty.
    Disconnected,
    /// The router had already terminated.
    Stopped,
}

/// A front-end of an actor. Handles are made by [`Actor::new`] and
/// [`Actor::clone_handle`] and given back by [`Actor::release`].
#[derive(Debug)]
pub struct Handle {
    actor: u128,
    index: usize,
}

impl Handle {
    pub closed spec fn actor_spec(&self) -> u128 {
        self.actor
    }

    /// The identity of the actor that this handle reaches.
    #[verifier::when_used_as_spec(actor_spec)]
    pub fn actor_id(&self) -> (r: u128)
        ensures
            r == self.actor_spec(),
    {
        self.actor
    }

    pub closed spec fn index_spec(&self) -> usize {
        self.index
    }

    /// The diagnostic clone index of this handle: one more than that of the
    /// handle it was cloned from.
    #[verifier::when_used_as_spec(index_spec)]
    pub fn index(&self) -> (r: usize)
        ensures
            r == self.index_spec(),
    {
        self.index
    }
}

/// The read half of an ask: the slot where its reply will be.
#[derive(Debug)]
pub struct Ticket {
    slot: usize,
}

impl Ticket {
    pub closed spec fn slot_spec(&self) -> usize {
        self.slot
    }
}

/// The calls in a sequence of mailbox entries, in order.
pub open spec fn calls_of<M>(mb: Seq<Envelope<M>>) -> Seq<(M, Option<usize>)>
    decreases mb.len(),
{
    if mb.len() == 0 {
        seq![]
    } else {
        match mb[0] {
            Envelope::Call { msg, reply_to } => seq![(msg, reply_to)] + calls_of(mb.drop_first()),
            Envelope::Kill => calls_of(mb.drop_first()),
        }
    }
}

pub open spec fn has_kill<M>(mb: Seq<Envelope<M>>) -> bool {
    exists|i: int| 0 <= i < mb.len() && mb[i] is Kill
}

pub open spec fn reply_slot<M>(e: Envelope<M>) -> Option<usize> {
    match e {
        Envelope::Call { msg: _, reply_to } => reply_to,
        Envelope::Kill => None,
    }
}

/// The index of the first kill request.
pub open spec fn kill_index<M>(mb: Seq<Envelope<M>>) -> int
    decreases mb.len(),
{
    if mb.len() == 0 {
        0
    } else if mb[0] is Kill {
        0
    } else {
        1 + kill_index(mb.drop_first())
    }
}

/// A measure of the router's work on a mailbox that nothing is added to: each
/// step that takes an entry lowers it.
pub open spec fn pending_work<M>(mb: Seq<Envelope<M>>) -> int {
    if has_kill(mb) {
        kill_index(mb) + 2 * (mb.len() - 1 - kill_index(mb)) + 1
    } else {
        2 * mb.len() as int
    }
}

proof fn lemma_calls_of_append<M>(a: Seq<Envelope<M>>, b: Seq<Envelope<M>>)
    ensures
        calls_of(a + b) == calls_of(a) + calls_of(b),
    decreases a.len(),
{
    if a.len() == 0 {
        assert(a + b =~= b);
        assert(calls_of(a) =~= seq![]);
        assert(calls_of(a) + calls_of(b) =~= calls_of(b));
    } else {
        assert((a + b).drop_first() =~= a.drop_first() + b);
        lemma_calls_of_append(a.drop_first(), b);
        match a[0] {
            Envelope::Call { msg, reply_to } => {
                assert(seq![(msg, reply_to)] + (calls_of(a.drop_first()) + calls_of(b))
                    =~= (seq![(msg, reply_to)] + calls_of(a.drop_first())) + calls_of(b));
            },
            Envelope::Kill => {},
        }
    }
}

proof fn lemma_calls_of_push<M>(mb: Seq<Envelope<M>>, e: Envelope<M>)
    ensures
        calls_of(mb.push(e)) == calls_of(mb) + calls_of(seq![e]),
        calls_of(seq![e]) == match e {
            Envelope::Call { msg, reply_to } => seq![(msg, reply_to)],
            Envelope::Kill => Seq::<(M, Option<usize>)>::empty(),
        },
{
    assert(mb.push(e) =~= mb + seq![e]);
    lemma_calls_of_append(mb, seq![e]);
    assert(seq![e].drop_first() =~= Seq::<Envelope<M>>::empty());
    assert(calls_of(Seq::<Envelope<M>>::empty()) =~= Seq::<(M, Option<usize>)>::empty());
    match e {
        Envelope::Call { msg, reply_to } => {
            assert(seq![(msg, reply_to)] + Seq::<(M, Option<usize>)>::empty() =~= seq![(msg, reply_to)]);
        },
        Envelope::Kill => {},
    }
}

proof fn lemma_kill_index_push<M>(mb: Seq<Envelope<M>>)
    requires
        !has_kill(mb),
    ensures
        kill_index(mb.push(Envelope::Kill)) == mb.len(),
        has_kill(mb.push(Envelope::Kill)),
    decreases mb.len(),
{
    let p = mb.push(Envelope::Kill);
    assert(p[mb.len() as int] is Kill);
    if mb.len() > 0 {
        assert(p.drop_first() =~= mb.drop_first().push(Envelope::Kill));
        assert(!has_kill(mb.drop_first())) by {
            if has_kill(mb.drop_first()) {
                let i = choose|i: int| 0 <= i < mb.drop_first().len() && mb.drop_first()[i] is Kill;
                assert(mb[i + 1] is Kill);
            }
        }
        assert(!(mb[0] is Kill));
        lemma_kill_index_push(mb.drop_first());
    }
}

proof fn lemma_kill_index_found<M>(mb: Seq<Envelope<M>>)
    requires
        has_kill(mb),
    ensures
        0 <= kill_index(mb) < mb.len(),
        mb[kill_index(mb)] is Kill,
        forall|i: int| 0 <= i < kill_index(mb) ==> !(#[trigger] mb[i] is Kill),
    decreases mb.len(),
{
    if !(mb[0] is Kill) {
        let d = mb.drop_first();
        assert(has_kill(d)) by {
            let i = choose|i: int| 0 <= i < mb.len() && mb[i] is Kill;
            assert(d[i - 1] is Kill);
        }
        lemma_kill_index_found(d);
        assert forall|i: int| 0 <= i < kill_index(mb) implies !(#[trigger] mb[i] is Kill) by {
            if i > 0 {
                assert(mb[i] == d[i - 1]);
            }
        }
    }
}

/// Relies on `uuid::Uuid::new_v4` and `Uuid::as_u128`: a random identifier
/// whose version bits say 4 and whose variant bits say RFC 4122.
#[verifier::external_body]
fn fresh_actor_id() -> (r: u128)
    ensures
        r & 0x0000_0000_0000_f000_c000_0000_0000_0000u128 == 0x0000_0000_0000_4000_8000_0000_0000_0000u128,
{
    uuid::Uuid::new_v4().as_u128()
}

/// The reply that a handler result gives an ask: the value, or none on a fault.
pub open spec fn ok_of<R, F>(res: Result<R, F>) -> Option<R> {
    match res {
        Ok(v) => Some(v),
        Err(_) => None,
    }
}

/// The step outcome of a call whose handler returned `res`.
pub open spec fn outcome_of<R, F>(res: Result<R, F>) -> StepOutcome {
    match res {
        Ok(_) => StepOutcome::Handled,
        Err(_) => StepOutcome::Faulted,
    }
}

/// The reply slots after a call with slot `reply_to` returned `res`: an ask
/// that succeeded gets its value, nothing else changes.
pub open spec fn filed<R, F>(replies: Seq<Option<R>>, reply_to: Option<usize>, res: Result<R, F>) -> Seq<Option<R>> {
    match (reply_to, res) {
        (Some(s), Ok(v)) => replies.update(s as int, Some(v)),
        _ => replies,
    }
}

/// Files what a handler returned for a call: on success the reply goes into
/// the call's slot (if it is an ask) and the outcome is `Handled`; on a fault
/// no slot changes, the outcome is `Faulted`, and the fault is given back for
/// the error hook.
pub fn complete_call<R, F>(replies: &mut Vec<Option<R>>, reply_to: Option<usize>, res: Result<R, F>) -> (r: (
    StepOutcome,
    Option<F>,
))
    requires
        reply_to matches Some(s) ==> s < old(replies)@.len(),
    ensures
        r.0 == outcome_of(res),
        r.1 == match res {
            Ok(_) => None,
            Err(f) => Some(f),
        },
        final(replies)@ == filed(old(replies)@, reply_to, res),
{
    match res {
        Ok(v) => {
            match reply_to {
                Some(s) => {
                    replies[s] = Some(v);
                },
                None => {},
            }
            (StepOutcome::Handled, None)
        },
        Err(f) => (StepOutcome::Faulted, Some(f)),
    }
}

/// An actor: its router state, its object, its mailbox and reply slots, and
/// the count of live handles.
pub struct Actor<H: Handler> {
    id: u128,
    state: RouterState,
    object: Option<H>,
    mailbox: Vec<Envelope<H::Msg>>,
    live: usize,
    replies: Vec<Option<H::Reply>>,
    /// Every call sent, in order.
    sent: Ghost<Seq<(H::Msg, Option<usize>)>>,
    /// Every call taken from the mailbox, in order.
    delivered: Ghost<Seq<(H::Msg, Option<usize>)>>,
    /// The calls that a hard kill threw away, in order.
    discarded: Ghost<Seq<(H::Msg, Option<usize>)>>,
    /// What the object's handler returned for each delivered call, in order.
    results: Ghost<Seq<Result<H::Reply, H::Fault>>>,
    /// Each fault handed to the error hook, with the message that caused it.
    hooked: Ghost<Seq<(H::Fault, H::Msg)>>,
    /// The reply slots whose reply has been taken.
    taken: Ghost<Set<usize>>,
}

impl<H: Handler> Actor<H> {
    pub closed spec fn id_spec(&self) -> u128 {
        self.id
    }

    pub closed spec fn state_spec(&self) -> RouterState {
        self.state
    }

    pub closed spec fn mailbox_spec(&self) -> Seq<Envelope<H::Msg>> {
        self.mailbox@
    }

    pub closed spec fn live_spec(&self) -> usize {
        self.live
    }

    pub closed spec fn replies_spec(&self) -> Seq<Option<H::Reply>> {
        self.replies@
    }

    pub closed spec fn has_object(&self) -> bool {
        self.object is Some
    }

    /// The object, until the router terminates and drops it.
    pub closed spec fn object_spec(&self) -> Option<H> {
        self.object
    }

    /// The calls sent to this actor, in the order they were sent.
    pub closed spec fn sent_log(&self) -> Seq<(H::Msg, Option<usize>)> {
        self.sent@
    }

    /// The calls the router has taken from the mailbox, in order.
    pub closed spec fn delivered_log(&self) -> Seq<(H::Msg, Option<usize>)> {
        self.delivered@
    }

    /// The calls that a hard kill threw away before the router reached them.
    pub closed spec fn discarded_log(&self) -> Seq<(H::Msg, Option<usize>)> {
        self.discarded@
    }

    /// What the handler returned for each delivered call, in delivery order.
    pub closed spec fn results_log(&self) -> Seq<Result<H::Reply, H::Fault>> {
        self.results@
    }

    /// The faults handed to the error hook, each with its message, in order.
    pub closed spec fn hook_log(&self) -> Seq<(H::Fault, H::Msg)> {
        self.hooked@
    }

    /// The reply slots whose reply has been taken.
    pub closed spec fn taken_slots(&self) -> Set<usize> {
        self.taken@
    }

    /// Each delivered ask has a slot of its own, not shared with any pending
    /// call, and the slot holds what the handler returned for that call
    /// unless the reply has been taken.
    closed spec fn answers_ok(&self) -> bool {
        let mb = self.mailbox@;
        let del = self.delivered@;
        &&& self.results@.len() == del.len()
        &&& forall|k: int|
            0 <= k < del.len() && (#[trigger] del[k]).1 is Some ==> del[k].1->0 < self.replies@.len() && (
            self.replies@[del[k].1->0 as int] == ok_of(self.results@[k]) || self.taken@.contains(
                del[k].1->0,
            ))
        &&& forall|k: int, i: int|
            0 <= k < del.len() && 0 <= i < mb.len() && del[k].1 is Some ==> #[trigger] reply_slot(mb[i])
                != (#[trigger] del[k]).1
        &&& forall|k: int, l: int|
            0 <= k < del.len() && 0 <= l < del.len() && k != l && (#[trigger] del[k]).1 is Some ==> del[k].1
                != (#[trigger] del[l]).1
    }

    /// The actor's invariant.
    pub closed spec fn well_formed(&self) -> bool {
        let mb = self.mailbox@;
        &&& self.answers_ok()
        &&& self.sent@ == self.delivered@ + self.discarded@ + calls_of(mb)
        &&& !(self.state is Terminated) ==> self.discarded@.len() == 0
        &&& (self.state is Terminated) == (self.object is None)
        &&& self.state is Terminated ==> mb.len() == 0
        &&& self.state is Draining ==> has_kill(mb)
        &&& !(self.state is Terminated) && self.live <= SELF_REFS ==> has_kill(mb)
        &&& forall|i: int, j: int|
            0 <= i < mb.len() && 0 <= j < mb.len() && mb[i] is Kill && mb[j] is Kill ==> i == j
        &&& forall|i: int|
            0 <= i < mb.len() && (#[trigger] reply_slot(mb[i])) is Some ==> reply_slot(mb[i])->0
                < self.replies@.len() && self.replies@[reply_slot(mb[i])->0 as int] is None
        &&& forall|i: int, j: int|
            0 <= i < mb.len() && 0 <= j < mb.len() && i != j && (#[trigger] reply_slot(mb[i])) is Some
                ==> reply_slot(mb[i]) != #[trigger] reply_slot(mb[j])
    }

    /// Starts an actor around `object`: the object gets a handle to itself, and
    /// the caller gets another.
    pub fn new(object: H) -> (r: (Actor<H>, Handle))
        ensures
            r.0.well_formed(),
            r.0.state_spec() == RouterState::Running,
            r.0.mailbox_spec().len() == 0,
            r.0.replies_spec().len() == 0,
            r.0.live_spec() == 2,
            r.0.sent_log().len() == 0,
            r.0.delivered_log().len() == 0,
            r.0.discarded_log().len() == 0,
            r.0.results_log().len() == 0,
            r.0.hook_log().len() == 0,
            r.0.taken_slots().is_empty(),
            r.0.id_spec() & 0x0000_0000_0000_f000_c000_0000_0000_0000u128 == 0x0000_0000_0000_4000_8000_0000_0000_0000u128,
            r.0.object_spec() is Some,
            r.1.actor_spec() == r.0.id_spec(),
            r.1.index_spec() == 1,
    {
        let id = fresh_actor_id();
        let mut object = object;
        object.set_self_handle(Handle { actor: id, index: 0 });
        let actor = Actor {
            id,
            state: RouterState::Running,
            object: Some(object),
            mailbox: Vec::new(),
            live: 2,
            replies: Vec::new(),
            sent: Ghost(Seq::empty()),
            delivered: Ghost(Seq::empty()),
            discarded: Ghost(Seq::empty()),
            results: Ghost(Seq::empty()),
            hooked: Ghost(Seq::empty()),
            taken: Ghost(Set::empty()),
        };
        assert(calls_of(actor.mailbox@) =~= Seq::<(H::Msg, Option<usize>)>::empty());
        assert(actor.sent@ =~= actor.delivered@ + actor.discarded@ + calls_of(actor.mailbox@));
        (actor, Handle { actor: id, index: 1 })
    }

    #[verifier::when_used_as_spec(id_spec)]
    pub fn id(&self) -> (r: u128)
        ensures
            r == self.id_spec(),
    {
        self.id
    }

    #[verifier::when_used_as_spec(state_spec)]
    pub fn state(&self) -> (r: RouterState)
        ensures
            r == self.state_spec(),
    {
        self.state
    }

    #[verifier::when_used_as_spec(live_spec)]
    pub fn live_handles(&self) -> (r: usize)
        ensures
            r == self.live_spec(),
    {
        self.live
    }

    /// The number of entries waiting in the mailbox.
    pub fn pending(&self) -> (r: usize)
        ensures
            r == self.mailbox_spec().len(),
    {
        self.mailbox.len()
    }

    /// The object, until the router terminates and drops it.
    pub fn object(&self) -> (r: Option<&H>)
        ensures
            r is Some <==> self.has_object(),
            r is Some <==> self.object_spec() is Some,
            r matches Some(o) ==> self.object_spec() == Some(*o),
    {
        match &self.object {
            Some(o) => Some(o),
            None => None,
        }
    }

    /// Whether the router has not terminated.
    pub fn is_alive(&self) -> (r: bool)
        ensures
            r == !(self.state_spec() is Terminated),
    {
        !matches!(self.state, RouterState::Terminated)
    }
}


impl<H: Handler> Actor<H> {
    /// A new handle to the same actor: one more live handle.
    pub fn clone_handle(&mut self, h: &Handle) -> (r: Handle)
        requires
            old(self).well_formed(),
            old(self).live_spec() < usize::MAX,
            h.actor_spec() == old(self).id_spec(),
        ensures
            final(self).well_formed(),
            final(self).live_spec() == old(self).live_spec() + 1,
            r.actor_spec() == old(self).id_spec(),
            r.index_spec() == if h.index_spec() < usize::MAX {
                (h.index_spec() + 1) as usize
            } else {
                usize::MAX
            },
            final(self).id_spec() == old(self).id_spec(),
            final(self).state_spec() == old(self).state_spec(),
            final(self).mailbox_spec() == old(self).mailbox_spec(),
            final(self).replies_spec() == old(self).replies_spec(),
            final(self).sent_log() == old(self).sent_log(),
            final(self).delivered_log() == old(self).delivered_log(),
            final(self).discarded_log() == old(self).discarded_log(),
            final(self).results_log() == old(self).results_log(),
            final(self).hook_log() == old(self).hook_log(),
            final(self).taken_slots() == old(self).taken_slots(),
    {
        let index = if h.index < usize::MAX {
            h.index + 1
        } else {
            usize::MAX
        };
        self.live = self.live + 1;
        Handle { actor: self.id, index }
    }

    /// Gives a handle back: one live handle less. When that leaves only the
    /// actor's own handle and no kill request is pending, a kill request is
    /// queued.
    pub fn release(&mut self, h: Handle)
        requires
            old(self).well_formed(),
            h.actor_spec() == old(self).id_spec(),
        ensures
            final(self).well_formed(),
            final(self).live_spec() == if old(self).live_spec() > 0 {
                old(self).live_spec() - 1
            } else {
                0
            },
            final(self).mailbox_spec() == if !(old(self).state_spec() is Terminated)
                && final(self).live_spec() <= SELF_REFS && !has_kill(old(self).mailbox_spec()) {
                old(self).mailbox_spec().push(Envelope::Kill)
            } else {
                old(self).mailbox_spec()
            },
            final(self).id_spec() == old(self).id_spec(),
            final(self).state_spec() == old(self).state_spec(),
            final(self).replies_spec() == old(self).replies_spec(),
            final(self).sent_log() == old(self).sent_log(),
            final(self).delivered_log() == old(self).delivered_log(),
            final(self).discarded_log() == old(self).discarded_log(),
            final(self).results_log() == old(self).results_log(),
            final(self).hook_log() == old(self).hook_log(),
            final(self).taken_slots() == old(self).taken_slots(),
    {
        if self.live > 0 {
            self.live = self.live - 1;
        }
        if !matches!(self.state, RouterState::Terminated) && self.live <= SELF_REFS
            && !self.kill_pending() {
            let ghost before = self.mailbox@;
            self.mailbox.push(Envelope::Kill);
            proof {
                lemma_calls_of_push(before, Envelope::Kill);
                assert(calls_of(before) + Seq::<(H::Msg, Option<usize>)>::empty() =~= calls_of(before));
                assert(self.mailbox@[before.len() as int] is Kill);
            }
        }
    }

    /// Whether a kill request is in the mailbox.
    fn kill_pending(&self) -> (r: bool)
        ensures
            r == has_kill(self.mailbox@),
    {
        let mut i: usize = 0;
        while i < self.mailbox.len()
            invariant
                i <= self.mailbox@.len(),
                forall|j: int| 0 <= j < i ==> !(#[trigger] self.mailbox@[j] is Kill),
            decreases self.mailbox@.len() - i,
        {
            if matches!(self.mailbox[i], Envelope::Kill) {
                return true;
            }
            i = i + 1;
        }
        false
    }

    /// Queues `msg` with the given reply slot.
    fn enqueue(&mut self, msg: H::Msg, reply_to: Option<usize>)
        requires
            old(self).well_formed(),
            !(old(self).state_spec() is Terminated),
            reply_to matches Some(s) ==> s < old(self).replies_spec().len()
                && old(self).replies_spec()[s as int] is None
                && (forall|i: int| 0 <= i < old(self).mailbox_spec().len()
                    ==> reply_slot(#[trigger] old(self).mailbox_spec()[i]) != Some(s))
                && (forall|k: int| 0 <= k < old(self).delivered_log().len()
                    ==> (#[trigger] old(self).delivered_log()[k]).1 != Some(s)),
        ensures
            final(self).well_formed(),
            final(self).mailbox_spec() == old(self).mailbox_spec().push(Envelope::Call { msg, reply_to }),
            final(self).sent_log() == old(self).sent_log().push((msg, reply_to)),
            final(self).id_spec() == old(self).id_spec(),
            final(self).state_spec() == old(self).state_spec(),
            final(self).live_spec() == old(self).live_spec(),
            final(self).replies_spec() == old(self).replies_spec(),
            final(self).delivered_log() == old(self).delivered_log(),
            final(self).discarded_log() == old(self).discarded_log(),
            final(self).results_log() == old(self).results_log(),
            final(self).hook_log() == old(self).hook_log(),
            final(self).taken_slots() == old(self).taken_slots(),
    {
        let ghost before = self.mailbox@;
        let ghost m = msg;
        self.mailbox.push(Envelope::Call { msg, reply_to });
        self.sent = Ghost(self.sent@.push((m, reply_to)));
        proof {
            let e = Envelope::Call { msg: m, reply_to };
            lemma_calls_of_push(before, e);
            assert(self.sent@ =~= self.delivered@ + self.discarded@ + calls_of(self.mailbox@));
            assert(forall|i: int| 0 <= i < before.len() ==> self.mailbox@[i] == before[i]);
            assert(self.mailbox@[before.len() as int] == e);
            if has_kill(before) {
                let k = choose|k: int| 0 <= k < before.len() && before[k] is Kill;
                assert(self.mailbox@[k] is Kill);
            }
            let mb = self.mailbox@;
            assert forall|i: int, j: int|
                0 <= i < mb.len() && 0 <= j < mb.len() && mb[i] is Kill && mb[j] is Kill implies i == j by {
                assert(i < before.len() && j < before.len());
                assert(before[i] is Kill && before[j] is Kill);
            }
            assert forall|i: int|
                0 <= i < mb.len() && (#[trigger] reply_slot(mb[i])) is Some implies reply_slot(mb[i])->0
                    < self.replies@.len() && self.replies@[reply_slot(mb[i])->0 as int] is None by {
                if i < before.len() {
                    assert(reply_slot(before[i]) == reply_slot(mb[i]));
                }
            }
            assert forall|i: int, j: int|
                0 <= i < mb.len() && 0 <= j < mb.len() && i != j && (#[trigger] reply_slot(mb[i])) is Some
                    implies reply_slot(mb[i]) != #[trigger] reply_slot(mb[j]) by {
                if i < before.len() && j < before.len() {
                    assert(reply_slot(before[i]) == reply_slot(mb[i]));
                    assert(reply_slot(before[j]) == reply_slot(mb[j]));
                } else if i < before.len() {
                    assert(reply_slot(before[i]) == reply_slot(mb[i]));
                    assert(reply_slot(old(self).mailbox_spec()[i]) != reply_to);
                } else {
                    assert(reply_slot(before[j]) == reply_slot(mb[j]));
                    assert(reply_slot(old(self).mailbox_spec()[j]) != reply_to);
                }
            }
            let del = self.delivered@;
            assert forall|k: int, i: int|
                0 <= k < del.len() && 0 <= i < mb.len() && del[k].1 is Some implies #[trigger] reply_slot(mb[i])
                    != (#[trigger] del[k]).1 by {
                if i < before.len() {
                    assert(reply_slot(before[i]) == reply_slot(mb[i]));
                } else {
                    assert(reply_slot(mb[i]) == reply_to);
                    if reply_to is Some {
                        assert(old(self).delivered_log()[k].1 != reply_to);
                    }
                }
            }
        }
    }

    /// Sends a call that wants no reply (a tell). It fails if and only if the
    /// router has terminated.
    pub fn tell(&mut self, h: &Handle, msg: H::Msg) -> (r: Result<(), SendError>)
        requires
            old(self).well_formed(),
            h.actor_spec() == old(self).id_spec(),
        ensures
            final(self).well_formed(),
            r is Err <==> old(self).state_spec() is Terminated,
            r is Err ==> r == Err::<(), SendError>(SendError::MailboxClosed),
            final(self).mailbox_spec() == if r is Ok {
                old(self).mailbox_spec().push(Envelope::Call { msg, reply_to: None })
            } else {
                old(self).mailbox_spec()
            },
            final(self).sent_log() == if r is Ok {
                old(self).sent_log().push((msg, None))
            } else {
                old(self).sent_log()
            },
            final(self).id_spec() == old(self).id_spec(),
            final(self).state_spec() == old(self).state_spec(),
            final(self).live_spec() == old(self).live_spec(),
            final(self).replies_spec() == old(self).replies_spec(),
            final(self).delivered_log() == old(self).delivered_log(),
            final(self).discarded_log() == old(self).discarded_log(),
            final(self).results_log() == old(self).results_log(),
            final(self).hook_log() == old(self).hook_log(),
            final(self).taken_slots() == old(self).taken_slots(),
    {
        if matches!(self.state, RouterState::Terminated) {
            return Err(SendError::MailboxClosed);
        }
        self.enqueue(msg, None);
        Ok(())
    }

    /// Sends a call that wants a reply (an ask), and gives back the ticket of
    /// a fresh, empty reply slot. It fails if and only if the router has
    /// terminated.
    pub fn ask(&mut self, h: &Handle, msg: H::Msg) -> (r: Result<Ticket, SendError>)
        requires
            old(self).well_formed(),
            h.actor_spec() == old(self).id_spec(),
        ensures
            final(self).well_formed(),
            r is Err <==> old(self).state_spec() is Terminated,
            r matches Err(e) ==> e == SendError::MailboxClosed && *final(self) == *old(self),
            r matches Ok(t) ==> {
                &&& t.slot_spec() == old(self).replies_spec().len()
                &&& final(self).replies_spec() == old(self).replies_spec().push(None)
                &&& final(self).mailbox_spec() == old(self).mailbox_spec().push(
                    Envelope::Call { msg, reply_to: Some(t.slot_spec()) },
                )
                &&& final(self).sent_log() == old(self).sent_log().push((msg, Some(t.slot_spec())))
            },
            final(self).id_spec() == old(self).id_spec(),
            final(self).state_spec() == old(self).state_spec(),
            final(self).live_spec() == old(self).live_spec(),
            final(self).delivered_log() == old(self).delivered_log(),
            final(self).discarded_log() == old(self).discarded_log(),
            final(self).results_log() == old(self).results_log(),
            final(self).hook_log() == old(self).hook_log(),
            final(self).taken_slots() == old(self).taken_slots(),
    {
        if matches!(self.state, RouterState::Terminated) {
            return Err(SendError::MailboxClosed);
        }
        let slot = self.replies.len();
        self.replies.push(None);
        proof {
            let mb = self.mailbox@;
            assert forall|i: int| 0 <= i < mb.len() implies reply_slot(#[trigger] mb[i]) != Some(slot) by {
                if reply_slot(mb[i]) is Some {
                    assert(reply_slot(mb[i])->0 < slot);
                }
            }
        }
        self.enqueue(msg, Some(slot));
        Ok(Ticket { slot })
    }

    /// Whether the reply of `t` has arrived and was not taken yet.
    pub fn reply_ready(&self, t: &Ticket) -> (r: bool)
        ensures
            r == (t.slot_spec() < self.replies_spec().len() && self.replies_spec()[t.slot_spec() as int] is Some),
    {
        t.slot < self.replies.len() && self.replies[t.slot].is_some()
    }

    /// Takes the reply of `t`, if it has arrived; the slot is then empty.
    pub fn take_reply(&mut self, t: &Ticket) -> (r: Option<H::Reply>)
        requires
            old(self).well_formed(),
        ensures
            final(self).well_formed(),
            t.slot_spec() < old(self).replies_spec().len() ==> r == old(self).replies_spec()[t.slot_spec() as int]
                && final(self).replies_spec() == old(self).replies_spec().update(t.slot_spec() as int, None),
            t.slot_spec() >= old(self).replies_spec().len() ==> r is None
                && final(self).replies_spec() == old(self).replies_spec(),
            final(self).id_spec() == old(self).id_spec(),
            final(self).state_spec() == old(self).state_spec(),
            final(self).live_spec() == old(self).live_spec(),
            final(self).mailbox_spec() == old(self).mailbox_spec(),
            final(self).sent_log() == old(self).sent_log(),
            final(self).delivered_log() == old(self).delivered_log(),
            final(self).discarded_log() == old(self).discarded_log(),
            final(self).results_log() == old(self).results_log(),
            final(self).hook_log() == old(self).hook_log(),
            final(self).taken_slots() == old(self).taken_slots().insert(t.slot_spec()),
    {
        self.taken = Ghost(self.taken@.insert(t.slot));
        if t.slot < self.replies.len() {
            let r = self.replies[t.slot].take();
            proof {
                let del = self.delivered@;
                assert forall|k: int|
                    0 <= k < del.len() && (#[trigger] del[k]).1 is Some implies del[k].1->0 < self.replies@.len() && (
                    self.replies@[del[k].1->0 as int] == ok_of(self.results@[k]) || self.taken@.contains(
                        del[k].1->0,
                    )) by {
                    if del[k].1->0 != t.slot {
                        assert(self.replies@[del[k].1->0 as int] == old(self).replies@[del[k].1->0 as int]);
                    }
                }
                let mb = self.mailbox@;
                assert forall|i: int| 0 <= i < mb.len() && (#[trigger] reply_slot(mb[i])) is Some implies
                    reply_slot(mb[i])->0 < self.replies@.len() && self.replies@[reply_slot(mb[i])->0 as int] is None by {
                    if reply_slot(mb[i])->0 != t.slot {
                        assert(self.replies@[reply_slot(mb[i])->0 as int] == old(self).replies@[reply_slot(mb[i])->0 as int]);
                    }
                }
            }
            r
        } else {
            None
        }
    }

    /// Terminates the router at once, whatever the mailbox holds and however
    /// many handles live: the object is dropped and pending calls are thrown away.
    pub fn hard_kill(&mut self) -> (held: Vec<Handle>)
        requires
            old(self).well_formed(),
        ensures
            final(self).well_formed(),
            final(self).state_spec() == RouterState::Terminated,
            !final(self).has_object(),
            final(self).mailbox_spec().len() == 0,
            !(old(self).state_spec() is Terminated) ==> final(self).discarded_log() == calls_of(old(self).mailbox_spec()),
            old(self).state_spec() is Terminated ==> final(self).discarded_log() == old(self).discarded_log(),
            final(self).id_spec() == old(self).id_spec(),
            final(self).live_spec() == old(self).live_spec(),
            final(self).replies_spec() == old(self).replies_spec(),
            final(self).sent_log() == old(self).sent_log(),
            final(self).delivered_log() == old(self).delivered_log(),
            final(self).results_log() == old(self).results_log(),
            final(self).hook_log() == old(self).hook_log(),
            final(self).taken_slots() == old(self).taken_slots(),
    {
        if matches!(self.state, RouterState::Terminated) {
            return Vec::new();
        }
        let ghost pending = calls_of(self.mailbox@);
        self.discarded = Ghost(pending);
        self.mailbox.clear();
        let held = self.shut_down();
        assert(calls_of(self.mailbox@) =~= Seq::<(H::Msg, Option<usize>)>::empty());
        assert(self.sent@ =~= self.delivered@ + self.discarded@ + calls_of(self.mailbox@));
        held
    }

    /// Drops the object, after it has given up the handles it held, and
    /// marks the router terminated.
    fn shut_down(&mut self) -> (held: Vec<Handle>)
        ensures
            final(self).state == RouterState::Terminated,
            final(self).object is None,
            final(self).id == old(self).id,
            final(self).mailbox == old(self).mailbox,
            final(self).live == old(self).live,
            final(self).replies == old(self).replies,
            final(self).sent == old(self).sent,
            final(self).delivered == old(self).delivered,
            final(self).discarded == old(self).discarded,
            final(self).results == old(self).results,
            final(self).hooked == old(self).hooked,
            final(self).taken == old(self).taken,
    {
        let held = match self.object.take() {
            Some(o) => {
                let mut o = o;
                o.close()
            },
            None => Vec::new(),
        };
        self.state = RouterState::Terminated;
        held
    }
}


proof fn lemma_pending_work_nonneg<M>(mb: Seq<Envelope<M>>)
    ensures
        pending_work(mb) >= 0,
{
    if has_kill(mb) {
        lemma_kill_index_found(mb);
    }
}

/// After a call leaves the front of the mailbox, the calls that remain are the
/// rest, and a kill request that was behind it still is.
proof fn lemma_pop_call<M>(mb: Seq<Envelope<M>>)
    requires
        mb.len() > 0,
        mb[0] is Call,
    ensures
        calls_of(mb) == seq![(mb[0]->msg, mb[0]->reply_to)] + calls_of(mb.drop_first()),
        has_kill(mb) == has_kill(mb.drop_first()),
        pending_work(mb.drop_first()) < pending_work(mb),
{
    let d = mb.drop_first();
    if has_kill(mb) {
        let k = choose|k: int| 0 <= k < mb.len() && mb[k] is Kill;
        assert(d[k - 1] is Kill);
    }
    if has_kill(d) {
        let k = choose|k: int| 0 <= k < d.len() && d[k] is Kill;
        assert(mb[k + 1] is Kill);
    }
}

impl<H: Handler> Actor<H> {
    /// One step of the router. A terminated router does nothing. On an empty
    /// mailbox the idle hook runs (or, with no handle left at all, the router
    /// terminates). Otherwise the front entry leaves the mailbox: a call runs
    /// on the object, and what the handler returned is recorded and filed by
    /// [`complete_call`] (on a fault the error hook gets the fault and the
    /// message, and the next entry is untouched); a kill request goes to the back while
    /// calls are pending, terminates the router when no handle but the
    /// actor's own is left, and is dropped otherwise.
    ///
    /// Also gives back the handles that the object let go of after a call
    /// (or, when the router terminates, every handle it held): the host
    /// releases each to the actor it reaches.
    pub fn step(&mut self) -> (res: (StepOutcome, Vec<Handle>))
        requires
            old(self).well_formed(),
        ensures
            final(self).well_formed(),
            final(self).id_spec() == old(self).id_spec(),
            final(self).live_spec() == old(self).live_spec(),
            final(self).sent_log() == old(self).sent_log(),
            final(self).discarded_log() == old(self).discarded_log(),
            old(self).state_spec() is Terminated ==> res.0 == StepOutcome::Stopped && *final(self) == *old(self),
            !(old(self).state_spec() is Terminated) && old(self).mailbox_spec().len() == 0 ==> {
                &&& final(self).mailbox_spec() == old(self).mailbox_spec()
                &&& final(self).replies_spec() == old(self).replies_spec()
                &&& final(self).delivered_log() == old(self).delivered_log()
                &&& if old(self).live_spec() == 0 {
                    res.0 == StepOutcome::Disconnected && final(self).state_spec() == RouterState::Terminated
                } else {
                    res.0 == StepOutcome::Idle && final(self).state_spec() == old(self).state_spec()
                }
            },
            !(old(self).state_spec() is Terminated) && old(self).mailbox_spec().len() > 0
                && old(self).mailbox_spec()[0] is Call ==> {
                let front = old(self).mailbox_spec()[0];
                let out = final(self).results_log().last();
                &&& final(self).mailbox_spec() == old(self).mailbox_spec().drop_first()
                &&& final(self).state_spec() == old(self).state_spec()
                &&& final(self).delivered_log() == old(self).delivered_log().push((front->msg, front->reply_to))
                &&& final(self).results_log() == old(self).results_log().push(out)
                &&& res.0 == outcome_of(out)
                &&& final(self).replies_spec() == filed(old(self).replies_spec(), front->reply_to, out)
                &&& final(self).hook_log() == match out {
                    Ok(_) => old(self).hook_log(),
                    Err(f) => old(self).hook_log().push((f, front->msg)),
                }
            },
            !(old(self).mailbox_spec().len() > 0 && old(self).mailbox_spec()[0] is Call) || old(
                self,
            ).state_spec() is Terminated ==> final(self).results_log() == old(self).results_log()
                && final(self).hook_log() == old(self).hook_log(),
            final(self).taken_slots() == old(self).taken_slots(),
            final(self).replies_spec().len() == old(self).replies_spec().len(),
            !(old(self).state_spec() is Terminated) && old(self).mailbox_spec().len() > 0
                && old(self).mailbox_spec()[0] is Kill ==> {
                &&& final(self).replies_spec() == old(self).replies_spec()
                &&& final(self).delivered_log() == old(self).delivered_log()
                &&& if old(self).mailbox_spec().len() > 1 {
                    &&& res.0 == StepOutcome::Requeued
                    &&& final(self).state_spec() == RouterState::Draining
                    &&& final(self).mailbox_spec() == old(self).mailbox_spec().drop_first().push(Envelope::Kill)
                } else if old(self).live_spec() <= SELF_REFS {
                    &&& res.0 == StepOutcome::Terminated
                    &&& final(self).state_spec() == RouterState::Terminated
                    &&& final(self).mailbox_spec().len() == 0
                } else {
                    &&& res.0 == StepOutcome::Resumed
                    &&& final(self).state_spec() == RouterState::Running
                    &&& final(self).mailbox_spec().len() == 0
                }
            },
            final(self).state_spec() is Terminated && !(old(self).state_spec() is Terminated) ==> {
                &&& old(self).live_spec() <= SELF_REFS
                &&& calls_of(old(self).mailbox_spec()).len() == 0
                &&& !final(self).has_object()
            },
            !(old(self).state_spec() is Terminated) && old(self).mailbox_spec().len() > 0 ==> (
            final(self).state_spec() is Terminated || pending_work(final(self).mailbox_spec())
                < pending_work(old(self).mailbox_spec())),
    {
        if matches!(self.state, RouterState::Terminated) {
            return (StepOutcome::Stopped, Vec::new());
        }
        if self.mailbox.len() == 0 {
            if self.live == 0 {
                let held = self.shut_down();
                return (StepOutcome::Disconnected, held);
            }
            match self.object.take() {
                Some(o) => {
                    let mut o = o;
                    o.on_idle();
                    self.object = Some(o);
                },
                None => {},
            }
            return (StepOutcome::Idle, Vec::new());
        }
        let ghost before = self.mailbox@;
        let ghost replies_before = self.replies@;
        let front = self.mailbox.remove(0);
        assert(self.mailbox@ =~= before.drop_first());
        match front {
            Envelope::Call { msg, reply_to } => {
                proof {
                    lemma_pop_call(before);
                    assert(reply_slot(before[0]) == reply_to);
                }
                let ghost m = msg;
                let taken = self.object.take();
                let mut released: Vec<Handle> = Vec::new();
                let outcome = match taken {
                    Some(o) => {
                        let mut o = o;
                        let res = o.handle(&msg);
                        let ghost out = res;
                        let (outcome, fault) = complete_call(&mut self.replies, reply_to, res);
                        self.results = Ghost(self.results@.push(out));
                        match fault {
                            Some(f) => {
                                let ghost gf = f;
                                o.on_error(f, &msg);
                                self.hooked = Ghost(self.hooked@.push((gf, m)));
                            },
                            None => {},
                        }
                        released = o.retire(msg);
                        self.object = Some(o);
                        outcome
                    },
                    None => {
                        proof {
                            assert(false);
                        }
                        StepOutcome::Faulted
                    },
                };
                self.delivered = Ghost(self.delivered@.push((m, reply_to)));
                proof {
                    let mb = self.mailbox@;
                    let del = self.delivered@;
                    let n = old(self).delivered@.len() as int;
                    assert(self.sent@ =~= self.delivered@ + self.discarded@ + calls_of(mb));
                    assert forall|i: int| 0 <= i < mb.len() && (#[trigger] reply_slot(mb[i])) is Some implies
                        reply_slot(mb[i])->0 < self.replies@.len() && self.replies@[reply_slot(mb[i])->0 as int] is None by {
                        assert(mb[i] == before[i + 1]);
                        assert(reply_slot(before[i + 1]) != reply_slot(before[0]));
                    }
                    assert forall|i: int, j: int|
                        0 <= i < mb.len() && 0 <= j < mb.len() && i != j && (#[trigger] reply_slot(mb[i])) is Some
                            implies reply_slot(mb[i]) != #[trigger] reply_slot(mb[j]) by {
                        assert(mb[i] == before[i + 1] && mb[j] == before[j + 1]);
                    }
                    assert forall|i: int, j: int|
                        0 <= i < mb.len() && 0 <= j < mb.len() && mb[i] is Kill && mb[j] is Kill implies i == j by {
                        assert(mb[i] == before[i + 1] && mb[j] == before[j + 1]);
                    }
                    assert forall|k: int|
                        0 <= k < del.len() && (#[trigger] del[k]).1 is Some implies del[k].1->0 < self.replies@.len() && (
                        self.replies@[del[k].1->0 as int] == ok_of(self.results@[k]) || self.taken@.contains(
                            del[k].1->0,
                        )) by {
                        if k < n {
                            assert(del[k] == old(self).delivered@[k]);
                            assert(reply_slot(before[0]) != old(self).delivered@[k].1);
                            assert(self.results@[k] == old(self).results@[k]);
                        } else {
                            assert(del[k] == (m, reply_to));
                        }
                    }
                    assert forall|k: int, i: int|
                        0 <= k < del.len() && 0 <= i < mb.len() && del[k].1 is Some implies #[trigger] reply_slot(mb[i])
                            != (#[trigger] del[k]).1 by {
                        assert(mb[i] == before[i + 1]);
                        if k < n {
                            assert(del[k] == old(self).delivered@[k]);
                            assert(reply_slot(before[i + 1]) != old(self).delivered@[k].1);
                        } else {
                            assert(del[k] == (m, reply_to));
                            assert(reply_slot(before[i + 1]) != reply_slot(before[0]));
                        }
                    }
                    assert forall|k: int, l: int|
                        0 <= k < del.len() && 0 <= l < del.len() && k != l && (#[trigger] del[k]).1 is Some implies del[k].1
                            != (#[trigger] del[l]).1 by {
                        if k < n && l < n {
                            assert(del[k] == old(self).delivered@[k] && del[l] == old(self).delivered@[l]);
                        } else if k < n {
                            assert(del[k] == old(self).delivered@[k]);
                            assert(reply_slot(before[0]) != old(self).delivered@[k].1);
                        } else {
                            assert(del[l] == old(self).delivered@[l]);
                            assert(old(self).delivered@[l].1 is Some ==> reply_slot(before[0]) != old(self).delivered@[l].1);
                        }
                    }
                }
                (outcome, released)
            },
            Envelope::Kill => {
                let ghost rest = self.mailbox@;
                proof {
                    assert(!has_kill(rest)) by {
                        if has_kill(rest) {
                            let k = choose|k: int| 0 <= k < rest.len() && rest[k] is Kill;
                            assert(before[k + 1] is Kill);
                            assert(before[0] is Kill);
                        }
                    }
                    assert(calls_of(before) == calls_of(rest));
                    assert(has_kill(before));
                    lemma_kill_index_found(before);
                    lemma_pending_work_nonneg(rest);
                }
                if self.mailbox.len() > 0 {
                    self.mailbox.push(Envelope::Kill);
                    self.state = RouterState::Draining;
                    proof {
                        lemma_calls_of_push(rest, Envelope::Kill);
                        assert(calls_of(rest) + Seq::<(H::Msg, Option<usize>)>::empty() =~= calls_of(rest));
                        lemma_kill_index_push(rest);
                        let mb = self.mailbox@;
                        assert forall|i: int, j: int|
                            0 <= i < mb.len() && 0 <= j < mb.len() && mb[i] is Kill && mb[j] is Kill implies i == j by {
                            if i < rest.len() {
                                assert(mb[i] == rest[i]);
                            }
                            if j < rest.len() {
                                assert(mb[j] == rest[j]);
                            }
                        }
                        assert forall|i: int| 0 <= i < mb.len() && (#[trigger] reply_slot(mb[i])) is Some implies
                            reply_slot(mb[i])->0 < self.replies@.len() && self.replies@[reply_slot(mb[i])->0 as int] is None by {
                            assert(mb[i] == before[i + 1]);
                        }
                        assert forall|i: int, j: int|
                            0 <= i < mb.len() && 0 <= j < mb.len() && i != j && (#[trigger] reply_slot(mb[i])) is Some
                                implies reply_slot(mb[i]) != #[trigger] reply_slot(mb[j]) by {
                            assert(mb[i] == before[i + 1]);
                            if j < rest.len() {
                                assert(mb[j] == before[j + 1]);
                            }
                        }
                    }
                    (StepOutcome::Requeued, Vec::new())
                } else if self.live <= SELF_REFS {
                    let held = self.shut_down();
                    proof {
                        assert(calls_of(rest) =~= Seq::<(H::Msg, Option<usize>)>::empty());
                    }
                    (StepOutcome::Terminated, held)
                } else {
                    self.state = RouterState::Running;
                    proof {
                        assert(calls_of(rest) =~= Seq::<(H::Msg, Option<usize>)>::empty());
                    }
                    (StepOutcome::Resumed, Vec::new())
                }
            },
        }
    }
}


impl<H: Handler> Actor<H> {
    /// Steps the router until the mailbox is empty or the router has
    /// terminated. Every pending call is delivered, in order, and the router
    /// ends terminated exactly when no handle but the actor's own is left.
    /// Gives back every handle that the steps gave back, for the host to
    /// release.
    pub fn run(&mut self) -> (released: Vec<Handle>)
        requires
            old(self).well_formed(),
        ensures
            final(self).well_formed(),
            final(self).state_spec() is Terminated || final(self).mailbox_spec().len() == 0,
            !(final(self).state_spec() is Terminated) ==> final(self).state_spec() == RouterState::Running,
            final(self).state_spec() is Terminated <==> (old(self).state_spec() is Terminated
                || old(self).live_spec() <= SELF_REFS),
            !(old(self).state_spec() is Terminated) ==> final(self).delivered_log()
                == old(self).delivered_log() + calls_of(old(self).mailbox_spec()),
            final(self).id_spec() == old(self).id_spec(),
            final(self).live_spec() == old(self).live_spec(),
            final(self).sent_log() == old(self).sent_log(),
            final(self).discarded_log() == old(self).discarded_log(),
            final(self).state_spec() is Terminated ==> !final(self).has_object(),
            final(self).taken_slots() == old(self).taken_slots(),
            final(self).replies_spec().len() == old(self).replies_spec().len(),
            final(self).results_log().len() == final(self).delivered_log().len(),
            final(self).results_log().subrange(0, old(self).results_log().len() as int) == old(
                self,
            ).results_log(),
            final(self).hook_log().len() >= old(self).hook_log().len(),
            final(self).hook_log().subrange(0, old(self).hook_log().len() as int) == old(self).hook_log(),
            forall|k: int|
                old(self).delivered_log().len() <= k < final(self).delivered_log().len() && (
                #[trigger] final(self).delivered_log()[k]).1 is Some && !final(self).taken_slots().contains(
                    final(self).delivered_log()[k].1->0,
                ) ==> final(self).replies_spec()[final(self).delivered_log()[k].1->0 as int] == ok_of(
                    final(self).results_log()[k],
                ),
    {
        let ghost start_terminated = self.state is Terminated;
        let mut released: Vec<Handle> = Vec::new();
        proof {
            lemma_pending_work_nonneg(self.mailbox@);
        }
        while !matches!(self.state, RouterState::Terminated) && self.mailbox.len() > 0
            invariant
                self.well_formed(),
                self.id_spec() == old(self).id_spec(),
                self.live_spec() == old(self).live_spec(),
                self.sent_log() == old(self).sent_log(),
                self.discarded_log() == old(self).discarded_log(),
                start_terminated == (old(self).state_spec() is Terminated),
                start_terminated ==> *self == *old(self),
                self.state_spec() is Terminated && !start_terminated ==> old(self).live_spec() <= SELF_REFS,
                pending_work(self.mailbox_spec()) >= 0,
                self.taken_slots() == old(self).taken_slots(),
                self.replies_spec().len() == old(self).replies_spec().len(),
                self.results_log().len() >= old(self).results_log().len(),
                self.results_log().subrange(0, old(self).results_log().len() as int) == old(self).results_log(),
                self.hook_log().len() >= old(self).hook_log().len(),
                self.hook_log().subrange(0, old(self).hook_log().len() as int) == old(self).hook_log(),
            decreases pending_work(self.mailbox_spec()),
        {
            let ghost prev_results = self.results@;
            let ghost prev_hooked = self.hooked@;
            let (_, more) = self.step();
            let mut more = more;
            released.append(&mut more);
            proof {
                lemma_pending_work_nonneg(self.mailbox@);
                let rn = old(self).results@.len() as int;
                let hn = old(self).hooked@.len() as int;
                assert(self.results@.subrange(0, rn) =~= prev_results.subrange(0, rn));
                assert(self.hooked@.subrange(0, hn) =~= prev_hooked.subrange(0, hn));
            }
        }
        proof {
            if !start_terminated {
                assert(self.discarded@.len() == 0 && old(self).discarded@.len() == 0);
                assert(calls_of(self.mailbox@) =~= Seq::<(H::Msg, Option<usize>)>::empty());
                assert(self.sent@ =~= self.delivered@ + self.discarded@ + calls_of(self.mailbox@));
                assert(self.delivered@ =~= self.sent@);
                assert(old(self).sent@ =~= old(self).delivered@ + calls_of(old(self).mailbox@));
            }
        }
        released
    }
}


/// Each reply that the router filed is what the handler returned for the call
/// with that slot: for every delivered ask whose reply has not been taken,
/// its slot holds the handler's value, or nothing if the handler faulted. No
/// two delivered asks share a slot, so no reply reaches another call.
pub proof fn lemma_replies_match_results<H: Handler>(a: &Actor<H>)
    requires
        a.well_formed(),
    ensures
        a.results_log().len() == a.delivered_log().len(),
        forall|k: int|
            0 <= k < a.delivered_log().len() && (#[trigger] a.delivered_log()[k]).1 is Some
                && !a.taken_slots().contains(a.delivered_log()[k].1->0) ==> a.delivered_log()[k].1->0
                < a.replies_spec().len() && a.replies_spec()[a.delivered_log()[k].1->0 as int] == ok_of(
                a.results_log()[k],
            ),
        forall|k: int, l: int|
            0 <= k < a.delivered_log().len() && 0 <= l < a.delivered_log().len() && k != l && (
            #[trigger] a.delivered_log()[k]).1 is Some ==> a.delivered_log()[k].1 != (
            #[trigger] a.delivered_log()[l]).1,
{
}

/// Calls leave the mailbox in the order in which they were sent: the calls
/// sent are those the router took, then those a hard kill threw away, then
/// those still pending; so what the router took is a prefix of what was sent.
pub proof fn lemma_delivery_order<H: Handler>(a: &Actor<H>)
    requires
        a.well_formed(),
    ensures
        a.sent_log() == a.delivered_log() + a.discarded_log() + calls_of(a.mailbox_spec()),
        a.delivered_log().len() <= a.sent_log().len(),
        a.delivered_log() == a.sent_log().subrange(0, a.delivered_log().len() as int),
{
    let d = a.delivered_log();
    let rest = a.discarded_log() + calls_of(a.mailbox_spec());
    assert(a.sent_log() =~= d + rest);
    assert(a.sent_log().subrange(0, d.len() as int) =~= d);
}

/// Every ask in the mailbox has a reply slot of its own, and that slot is
/// still empty: only the step that runs the call writes it.
pub proof fn lemma_pending_asks<H: Handler>(a: &Actor<H>)
    requires
        a.well_formed(),
    ensures
        forall|i: int|
            0 <= i < a.mailbox_spec().len() && (#[trigger] reply_slot(a.mailbox_spec()[i])) is Some
                ==> reply_slot(a.mailbox_spec()[i])->0 < a.replies_spec().len()
                && a.replies_spec()[reply_slot(a.mailbox_spec()[i])->0 as int] is None,
        forall|i: int, j: int|
            0 <= i < a.mailbox_spec().len() && 0 <= j < a.mailbox_spec().len() && i != j
                && (#[trigger] reply_slot(a.mailbox_spec()[i])) is Some
                ==> reply_slot(a.mailbox_spec()[i]) != #[trigger] reply_slot(a.mailbox_spec()[j]),
{
}

/// A live router that no handle but its own reaches has a kill request
/// queued, so stepping it ends in termination.
pub proof fn lemma_unreferenced_router_has_kill<H: Handler>(a: &Actor<H>)
    requires
        a.well_formed(),
        !(a.state_spec() is Terminated),
        a.live_spec() <= SELF_REFS,
    ensures
        has_kill(a.mailbox_spec()),
        a.mailbox_spec().len() > 0,
{
    let mb = a.mailbox_spec();
    let k = choose|k: int| 0 <= k < mb.len() && mb[k] is Kill;
}

} // verus!
