//! The negotiation state machine: which offers, answers and candidates a
//! peer of a given role accepts and sends, and what it does with each.
//!
//! The machine decides; the caller performs. Each event yields one
//! [`Reaction`], which names the work the media engine or the network has
//! to do next.

use crate::signal::{Candidate, CandidateView, Signal, SignalView};
use vstd::prelude::*;

verus! {

/// The side of the handshake a peer plays, fixed for a session.
#[derive(Debug, Clone, Copy, PartialEq, Eq, Structural)]
pub enum Role {
    /// Sends the offer, accepts the answer.
    Initiator,
    /// Accepts the offer, sends the answer.
    Responder,
}

/// How far the handshake has come.
#[derive(Debug, Clone, Copy, PartialEq, Eq, Structural)]
pub enum Phase {
    Idle,
    /// Initiator only: the offer is out, the answer has not come.
    OfferSent,
    /// The remote description is set. The handshake ends here; only the
    /// engine's report that it could not take the description leads back.
    Stable,
}

/// Something that happened, locally or on the wire.
#[derive(Debug, Clone, PartialEq, Eq)]
pub enum Event {
    /// The engine asked for negotiation and built this offer.
    LocalOffer(String),
    /// The engine built this answer to an accepted offer.
    LocalAnswer(String),
    /// The engine discovered a local candidate.
    LocalCandidate(Candidate),
    /// A message arrived from the remote peer.
    Inbound(Signal),
    /// The engine could not take the remote description it was given.
    EngineFailure,
}

/// What the caller has to do after an event.
#[derive(Debug, Clone, PartialEq, Eq)]
pub enum Reaction {
    /// Nothing: the event is not legal for this role in this phase.
    Ignored,
    /// Set the offer as local description and send it.
    SendOffer(String),
    /// Set the answer as local description and send it.
    SendAnswer(String),
    /// Send the local candidate.
    SendCandidate(Candidate),
    /// Set the offer as remote description, add the candidates in order,
    /// then have the engine build an answer.
    AcceptOffer { sdp: String, candidates: Vec<Candidate> },
    /// Set the answer as remote description, then add the candidates in
    /// order.
    AcceptAnswer { sdp: String, candidates: Vec<Candidate> },
    /// Add the remote candidate now.
    AddCandidate(Candidate),
    /// The remote candidate was put aside until a remote description exists.
    Buffered,
    /// The session has failed and is the caller's to end: nothing is sent
    /// and nothing is tried again.
    Failed,
}

/// The state of one peer's negotiation.
#[derive(Debug)]
pub struct Negotiation {
    role: Role,
    phase: Phase,
    answer_due: bool,
    pending: Vec<Candidate>,
}

/// The values of a sequence of candidates.
pub open spec fn candidate_views(cs: Seq<Candidate>) -> Seq<CandidateView> {
    cs.map_values(|c: Candidate| c@)
}

/// Mathematical value of an [`Event`].
pub enum EventView {
    LocalOffer(Seq<char>),
    LocalAnswer(Seq<char>),
    LocalCandidate(CandidateView),
    Inbound(SignalView),
    EngineFailure,
}

/// Mathematical value of a [`Reaction`].
pub enum ReactionView {
    Ignored,
    SendOffer(Seq<char>),
    SendAnswer(Seq<char>),
    SendCandidate(CandidateView),
    AcceptOffer { sdp: Seq<char>, candidates: Seq<CandidateView> },
    AcceptAnswer { sdp: Seq<char>, candidates: Seq<CandidateView> },
    AddCandidate(CandidateView),
    Buffered,
    Failed,
}

/// Mathematical value of a [`Negotiation`].
pub struct NegotiationView {
    pub role: Role,
    pub phase: Phase,
    /// An offer was accepted and the answer to it has not been sent.
    pub answer_due: bool,
    /// Remote candidates that wait for the remote description, oldest first.
    pub pending: Seq<CandidateView>,
}

impl View for Event {
    type V = EventView;

    open spec fn view(&self) -> EventView {
        match self {
            Event::LocalOffer(sdp) => EventView::LocalOffer(sdp@),
            Event::LocalAnswer(sdp) => EventView::LocalAnswer(sdp@),
            Event::LocalCandidate(c) => EventView::LocalCandidate(c@),
            Event::Inbound(m) => EventView::Inbound(m@),
            Event::EngineFailure => EventView::EngineFailure,
        }
    }
}

impl View for Reaction {
    type V = ReactionView;

    open spec fn view(&self) -> ReactionView {
        match self {
            Reaction::Ignored => ReactionView::Ignored,
            Reaction::SendOffer(sdp) => ReactionView::SendOffer(sdp@),
            Reaction::SendAnswer(sdp) => ReactionView::SendAnswer(sdp@),
            Reaction::SendCandidate(c) => ReactionView::SendCandidate(c@),
            Reaction::AcceptOffer { sdp, candidates } => ReactionView::AcceptOffer {
                sdp: sdp@,
                candidates: candidate_views(candidates@),
            },
            Reaction::AcceptAnswer { sdp, candidates } => ReactionView::AcceptAnswer {
                sdp: sdp@,
                candidates: candidate_views(candidates@),
            },
            Reaction::AddCandidate(c) => ReactionView::AddCandidate(c@),
            Reaction::Buffered => ReactionView::Buffered,
            Reaction::Failed => ReactionView::Failed,
        }
    }
}

impl View for Negotiation {
    type V = NegotiationView;

    closed spec fn view(&self) -> NegotiationView {
        NegotiationView {
            role: self.role,
            phase: self.phase,
            answer_due: self.answer_due,
            pending: candidate_views(self.pending@),
        }
    }
}

impl ReactionView {
    /// The message that the reaction puts on the wire, if any.
    pub open spec fn outbound(self) -> Option<SignalView> {
        match self {
            ReactionView::SendOffer(sdp) => Some(SignalView::Offer(sdp)),
            ReactionView::SendAnswer(sdp) => Some(SignalView::Answer(sdp)),
            ReactionView::SendCandidate(c) => Some(
                SignalView::IceCandidate { mline_index: c.mline_index, candidate: c.candidate },
            ),
            _ => None,
        }
    }
}

impl Reaction {
    /// The message to send to the remote peer, if the reaction sends one.
    pub fn outbound(&self) -> (r: Option<Signal>)
        ensures
            r is Some <==> self@.outbound() is Some,
            r matches Some(m) ==> Some(m@) == self@.outbound(),
    {
        match self {
            Reaction::SendOffer(sdp) => Some(Signal::Offer(sdp.clone())),
            Reaction::SendAnswer(sdp) => Some(Signal::Answer(sdp.clone())),
            Reaction::SendCandidate(c) => Some(
                Signal::IceCandidate { mline_index: c.mline_index, candidate: c.candidate.clone() },
            ),
            _ => None,
        }
    }
}

impl NegotiationView {
    /// The state a session starts in.
    pub open spec fn initial(role: Role) -> NegotiationView {
        NegotiationView { role, phase: Phase::Idle, answer_due: false, pending: Seq::empty() }
    }

    /// A remote description exists exactly in the stable phase.
    pub open spec fn has_remote_description(self) -> bool {
        self.phase == Phase::Stable
    }

    /// The phase this peer is in while it has no remote description: the
    /// phase it is in, or, where it counts one as set, the phase it was in
    /// before that.
    pub open spec fn without_remote(self) -> Phase {
        if self.phase != Phase::Stable {
            self.phase
        } else if self.role == Role::Initiator {
            Phase::OfferSent
        } else {
            Phase::Idle
        }
    }

    /// What holds of every reachable state: a responder is never in
    /// `OfferSent`; nothing waits once the remote description is set; an
    /// answer is owed only by a responder that accepted an offer.
    pub open spec fn wf(self) -> bool {
        &&& self.role == Role::Responder ==> self.phase != Phase::OfferSent
        &&& self.phase == Phase::Stable ==> self.pending.len() == 0
        &&& self.answer_due ==> self.role == Role::Responder && self.phase == Phase::Stable
    }

    /// The transition relation, as a function: the state after an event and
    /// the reaction to it.
    pub open spec fn step(self, event: EventView) -> (NegotiationView, ReactionView) {
        match event {
            EventView::LocalOffer(sdp) => if self.role == Role::Initiator && self.phase
                == Phase::Idle {
                (NegotiationView { phase: Phase::OfferSent, ..self }, ReactionView::SendOffer(sdp))
            } else {
                (self, ReactionView::Ignored)
            },
            EventView::LocalAnswer(sdp) => if self.role == Role::Responder && self.answer_due {
                (NegotiationView { answer_due: false, ..self }, ReactionView::SendAnswer(sdp))
            } else {
                (self, ReactionView::Ignored)
            },
            EventView::LocalCandidate(c) => (self, ReactionView::SendCandidate(c)),
            EventView::EngineFailure => (
                NegotiationView { phase: self.without_remote(), answer_due: false, ..self },
                ReactionView::Failed,
            ),
            EventView::Inbound(SignalView::Offer(sdp)) => if self.role == Role::Responder
                && self.phase == Phase::Idle {
                (
                    NegotiationView {
                        phase: Phase::Stable,
                        answer_due: true,
                        pending: Seq::empty(),
                        ..self
                    },
                    ReactionView::AcceptOffer { sdp, candidates: self.pending },
                )
            } else {
                (self, ReactionView::Ignored)
            },
            EventView::Inbound(SignalView::Answer(sdp)) => if self.role == Role::Initiator
                && self.phase == Phase::OfferSent {
                (
                    NegotiationView { phase: Phase::Stable, pending: Seq::empty(), ..self },
                    ReactionView::AcceptAnswer { sdp, candidates: self.pending },
                )
            } else {
                (self, ReactionView::Ignored)
            },
            EventView::Inbound(SignalView::IceCandidate { mline_index, candidate }) => {
                let c = CandidateView { mline_index, candidate };
                if self.has_remote_description() {
                    (self, ReactionView::AddCandidate(c))
                } else {
                    (
                        NegotiationView { pending: self.pending.push(c), ..self },
                        ReactionView::Buffered,
                    )
                }
            },
        }
    }

    /// The state after a sequence of events, oldest first.
    pub open spec fn run(self, events: Seq<EventView>) -> NegotiationView
        decreases events.len(),
    {
        if events.len() == 0 {
            self
        } else {
            self.step(events[0]).0.run(events.drop_first())
        }
    }
}

/// The inbound events that deliver the given candidates, in order.
pub open spec fn inbound_candidates(cs: Seq<CandidateView>) -> Seq<EventView> {
    cs.map_values(
        |c: CandidateView|
            EventView::Inbound(
                SignalView::IceCandidate { mline_index: c.mline_index, candidate: c.candidate },
            ),
    )
}

impl Negotiation {
    /// A fresh session in the given role.
    pub fn new(role: Role) -> (r: Negotiation)
        ensures
            r@ == NegotiationView::initial(role),
            r@.wf(),
    {
        let r = Negotiation { role, phase: Phase::Idle, answer_due: false, pending: Vec::new() };
        assert(r@.pending =~= Seq::empty());
        r
    }

    /// The role this session was started in.
    pub fn role(&self) -> (r: Role)
        ensures
            r == self@.role,
    {
        self.role
    }

    /// The phase the handshake is in.
    pub fn phase(&self) -> (r: Phase)
        ensures
            r == self@.phase,
    {
        self.phase
    }

    /// How many remote candidates wait for the remote description.
    pub fn pending_len(&self) -> (r: usize)
        ensures
            r == self@.pending.len(),
    {
        self.pending.len()
    }

    /// Whether a remote description has been set.
    pub fn has_remote_description(&self) -> (r: bool)
        ensures
            r == self@.has_remote_description(),
    {
        self.phase == Phase::Stable
    }

    /// Whether an offer was accepted and the answer to it is still to be
    /// sent.
    pub fn owes_answer(&self) -> (r: bool)
        ensures
            r == self@.answer_due,
    {
        self.answer_due
    }

    /// Whether a local offer would be sent now: the engine need not build
    /// one otherwise.
    pub fn wants_offer(&self) -> (r: bool)
        ensures
            r == (self@.role == Role::Initiator && self@.phase == Phase::Idle),
            r == (forall|sdp: Seq<char>|
                #[trigger] self@.step(EventView::LocalOffer(sdp)).1 == ReactionView::SendOffer(
                    sdp,
                )),
    {
        let r = self.role == Role::Initiator && self.phase == Phase::Idle;
        proof {
            if !r {
                let sdp = Seq::<char>::empty();
                assert(self@.step(EventView::LocalOffer(sdp)).1 == ReactionView::Ignored);
            }
        }
        r
    }

    /// Moves the waiting candidates out, leaving none.
    fn take_pending(&mut self) -> (taken: Vec<Candidate>)
        ensures
            candidate_views(taken@) == old(self)@.pending,
            final(self)@ == (NegotiationView { pending: Seq::empty(), ..old(self)@ }),
    {
        let mut taken: Vec<Candidate> = Vec::new();
        core::mem::swap(&mut self.pending, &mut taken);
        assert(candidate_views(self.pending@) =~= Seq::empty());
        taken
    }

    /// Handles one event: moves to the next state and says what to do.
    /// Events that are illegal for the role or the phase change nothing.
    pub fn step(&mut self, event: Event) -> (r: Reaction)
        ensures
            (final(self)@, r@) == old(self)@.step(event@),
            old(self)@.wf() ==> final(self)@.wf(),
    {
        match event {
            Event::LocalOffer(sdp) => {
                if self.role == Role::Initiator && self.phase == Phase::Idle {
                    self.phase = Phase::OfferSent;
                    Reaction::SendOffer(sdp)
                } else {
                    Reaction::Ignored
                }
            },
            Event::LocalAnswer(sdp) => {
                if self.role == Role::Responder && self.answer_due {
                    self.answer_due = false;
                    Reaction::SendAnswer(sdp)
                } else {
                    Reaction::Ignored
                }
            },
            Event::LocalCandidate(c) => Reaction::SendCandidate(c),
            Event::EngineFailure => {
                if self.phase == Phase::Stable {
                    self.phase = if self.role == Role::Initiator {
                        Phase::OfferSent
                    } else {
                        Phase::Idle
                    };
                }
                self.answer_due = false;
                Reaction::Failed
            },
            Event::Inbound(Signal::Offer(sdp)) => {
                if self.role == Role::Responder && self.phase == Phase::Idle {
                    let candidates = self.take_pending();
                    self.phase = Phase::Stable;
                    self.answer_due = true;
                    Reaction::AcceptOffer { sdp, candidates }
                } else {
                    Reaction::Ignored
                }
            },
            Event::Inbound(Signal::Answer(sdp)) => {
                if self.role == Role::Initiator && self.phase == Phase::OfferSent {
                    let candidates = self.take_pending();
                    self.phase = Phase::Stable;
                    Reaction::AcceptAnswer { sdp, candidates }
                } else {
                    Reaction::Ignored
                }
            },
            Event::Inbound(Signal::IceCandidate { mline_index, candidate }) => {
                let c = Candidate { mline_index, candidate };
                if self.phase == Phase::Stable {
                    Reaction::AddCandidate(c)
                } else {
                    self.pending.push(c);
                    assert(candidate_views(self.pending@) =~= old(self)@.pending.push(c@));
                    Reaction::Buffered
                }
            },
        }
    }
}

/// A peer only ever sends what its role may send: an initiator offers and
/// candidates, a responder answers and candidates.
pub proof fn lemma_sends_within_role(s: NegotiationView, event: EventView)
    ensures
        s.role == Role::Initiator ==> !(s.step(event).1.outbound() matches Some(
            SignalView::Answer(_),
        )),
        s.role == Role::Responder ==> !(s.step(event).1.outbound() matches Some(
            SignalView::Offer(_),
        )),
        event is Inbound ==> s.step(event).1.outbound() is None,
{
}

/// A failure of the engine is handed up and takes the remote description
/// back: whatever the state, nothing is sent, no remote description is
/// counted as set afterwards, and no answer is owed.
pub proof fn lemma_engine_failure(s: NegotiationView)
    ensures
        s.step(EventView::EngineFailure).1 == ReactionView::Failed,
        s.step(EventView::EngineFailure).1.outbound() is None,
        !s.step(EventView::EngineFailure).0.has_remote_description(),
        !s.step(EventView::EngineFailure).0.answer_due,
        !s.has_remote_description() && !s.answer_due ==> s.step(EventView::EngineFailure).0 == s,
{
}

/// A description that the engine rejects leaves the handshake where it
/// was: an initiator whose answer is rejected is in `OfferSent` again, a
/// responder whose offer is rejected is in `Idle` again and owes no
/// answer, so that a local answer is not sent. The candidates that were
/// handed out with the description do not come back.
pub proof fn lemma_rejected_description(s: NegotiationView, sdp: Seq<char>, answer: Seq<char>)
    ensures
        s.role == Role::Initiator && s.phase == Phase::OfferSent ==> s.step(
            EventView::Inbound(SignalView::Answer(sdp)),
        ).0.step(EventView::EngineFailure) == (
            NegotiationView { pending: Seq::empty(), answer_due: false, ..s },
            ReactionView::Failed,
        ),
        s.role == Role::Responder && s.phase == Phase::Idle ==> s.step(
            EventView::Inbound(SignalView::Offer(sdp)),
        ).0.step(EventView::EngineFailure) == (
            NegotiationView { pending: Seq::empty(), answer_due: false, ..s },
            ReactionView::Failed,
        ),
        s.role == Role::Responder && s.phase == Phase::Idle ==> s.step(
            EventView::Inbound(SignalView::Offer(sdp)),
        ).0.step(EventView::EngineFailure).0.step(EventView::LocalAnswer(answer)).1
            == ReactionView::Ignored,
{
}

/// Every transition keeps a well-formed state well-formed.
pub proof fn lemma_step_preserves_wf(s: NegotiationView, event: EventView)
    requires
        s.wf(),
    ensures
        s.step(event).0.wf(),
        s.step(event).0.role == s.role,
{
}

/// Role enforcement: an initiator that receives an offer, in `OfferSent`
/// as in any other phase, makes no transition and sends nothing; so does a
/// responder that receives an answer.
pub proof fn lemma_role_enforcement(s: NegotiationView, sdp: Seq<char>)
    ensures
        ReactionView::Ignored.outbound() is None,
        s.role == Role::Initiator ==> s.step(EventView::Inbound(SignalView::Offer(sdp))) == (
            s,
            ReactionView::Ignored,
        ),
        s.role == Role::Responder ==> s.step(EventView::Inbound(SignalView::Answer(sdp))) == (
            s,
            ReactionView::Ignored,
        ),
{
}

/// Candidate traffic never moves the handshake: a local candidate is
/// always sent, a remote one is added or put aside, and role and phase
/// stay as they were.
pub proof fn lemma_candidates_keep_phase(s: NegotiationView, c: CandidateView)
    ensures
        s.step(EventView::LocalCandidate(c)) == (s, ReactionView::SendCandidate(c)),
        ({
            let e = EventView::Inbound(
                SignalView::IceCandidate { mline_index: c.mline_index, candidate: c.candidate },
            );
            &&& s.step(e).0.phase == s.phase
            &&& s.step(e).0.role == s.role
            &&& s.has_remote_description() ==> s.step(e) == (s, ReactionView::AddCandidate(c))
        }),
{
}

/// Remote candidates that arrive before the remote description are put
/// aside behind those already waiting, in arrival order.
pub proof fn lemma_candidates_wait(s: NegotiationView, cs: Seq<CandidateView>)
    requires
        !s.has_remote_description(),
    ensures
        s.run(inbound_candidates(cs)) == (NegotiationView { pending: s.pending + cs, ..s }),
    decreases cs.len(),
{
    let events = inbound_candidates(cs);
    if cs.len() == 0 {
        assert(s.pending + cs =~= s.pending);
    } else {
        let next = s.step(events[0]).0;
        assert(next == NegotiationView { pending: s.pending.push(cs[0]), ..s });
        assert(events.drop_first() =~= inbound_candidates(cs.drop_first()));
        lemma_candidates_wait(next, cs.drop_first());
        assert(s.pending.push(cs[0]) + cs.drop_first() =~= s.pending + cs);
    }
}

/// Candidate buffering: candidates that arrive before the remote
/// description are handed out for application, in arrival order, by the
/// very event that sets it, and none is left waiting.
pub proof fn lemma_candidate_buffering(s: NegotiationView, cs: Seq<CandidateView>, sdp: Seq<char>)
    requires
        !s.has_remote_description(),
    ensures
        ({
            let waiting = s.run(inbound_candidates(cs));
            &&& s.role == Role::Responder && s.phase == Phase::Idle ==> waiting.step(
                EventView::Inbound(SignalView::Offer(sdp)),
            ) == (
                NegotiationView {
                    phase: Phase::Stable,
                    answer_due: true,
                    pending: Seq::empty(),
                    ..s
                },
                ReactionView::AcceptOffer { sdp, candidates: s.pending + cs },
            )
            &&& s.role == Role::Initiator && s.phase == Phase::OfferSent ==> waiting.step(
                EventView::Inbound(SignalView::Answer(sdp)),
            ) == (
                NegotiationView { phase: Phase::Stable, pending: Seq::empty(), ..s },
                ReactionView::AcceptAnswer { sdp, candidates: s.pending + cs },
            )
        }),
{
    lemma_candidates_wait(s, cs);
}

} // verus!
