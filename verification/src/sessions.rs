//! Sessions: their indices, the phases of the current session, and the slots
//! that hold the current and the previous session.

use crate::packet_queues::{AuthoredPacket, AuthoredPacketQueue};
use crate::replay_filter::ReplayFilter;
use crate::sphinx::Nanos;
use crate::topology::{Topology, TopologyView};
use vstd::prelude::*;

verus! {

/// Absolute index of a session.
pub type SessionIndex = u32;

/// Index of a session relative to the current session.
#[derive(Clone, Copy, Debug, PartialEq, Eq, Structural)]
pub enum RelSessionIndex {
    /// The current session.
    Current,
    /// The session before the current session.
    Prev,
}

impl RelSessionIndex {
    /// The absolute index of the session, given that of the current session.
    /// The first session has no session before it: there the previous session
    /// is the first session itself.
    pub open spec fn spec_session_index(self, current_index: SessionIndex) -> SessionIndex {
        match self {
            RelSessionIndex::Current => current_index,
            RelSessionIndex::Prev => if current_index == 0 {
                0
            } else {
                (current_index - 1) as SessionIndex
            },
        }
    }

    /// The relative index of session `session_index`, given the index of the
    /// current session: the current session and the one before it have one,
    /// counting round the end of the index range.
    pub open spec fn spec_from_session_index(session_index: SessionIndex, current_index: SessionIndex) -> Option<
        RelSessionIndex,
    > {
        if current_index == session_index {
            Some(RelSessionIndex::Current)
        } else if current_index.wrapping_sub(session_index) == 1 {
            Some(RelSessionIndex::Prev)
        } else {
            None
        }
    }

    pub fn session_index(self, current_index: SessionIndex) -> (r: SessionIndex)
        ensures
            r == self.spec_session_index(current_index),
    {
        match self {
            RelSessionIndex::Current => current_index,
            RelSessionIndex::Prev => current_index.saturating_sub(1),
        }
    }

    pub fn from_session_index(session_index: SessionIndex, current_index: SessionIndex) -> (r: Option<
        RelSessionIndex,
    >)
        ensures
            r == RelSessionIndex::spec_from_session_index(session_index, current_index),
    {
        let behind: u32 = current_index.wrapping_sub(session_index);
        if behind == 0 {
            Some(RelSessionIndex::Current)
        } else if behind == 1 {
            Some(RelSessionIndex::Prev)
        } else {
            None
        }
    }
}

/// The phases that the current session goes through, in order.
#[derive(Clone, Copy, Debug, PartialEq, Eq, Structural)]
pub enum SessionPhase {
    /// Connect to the mixnodes of the current session. Cover traffic and
    /// requests still go to the previous session, unless a request names the
    /// current session.
    ConnectToCurrent,
    /// Generate cover traffic for the current session as well.
    CoverToCurrent,
    /// Build requests for the current session, unless a request names the
    /// previous session.
    RequestsAndRepliesToCurrent,
    /// Send only cover traffic to the previous session; requests and replies
    /// go to the current session.
    CoverToPrev,
    /// Disconnect from the mixnodes of the previous session.
    DisconnectFromPrev,
}

impl SessionPhase {
    /// Whether the previous session is still needed.
    pub open spec fn spec_need_prev(self) -> bool {
        !(self is DisconnectFromPrev)
    }

    /// Whether cover packets are generated for the session.
    pub open spec fn spec_gen_cover_packets(self, rel_session_index: RelSessionIndex) -> bool {
        match rel_session_index {
            RelSessionIndex::Current => !(self is ConnectToCurrent),
            RelSessionIndex::Prev => !(self is DisconnectFromPrev),
        }
    }

    /// Whether requests and replies may be sent in the session.
    pub open spec fn spec_allow_requests_and_replies(self, rel_session_index: RelSessionIndex) -> bool {
        match rel_session_index {
            RelSessionIndex::Current => true,
            RelSessionIndex::Prev => self is ConnectToCurrent || self is CoverToCurrent
                || self is RequestsAndRepliesToCurrent,
        }
    }

    /// The session that a request is built for if it names none.
    pub open spec fn spec_default_request_session(self) -> RelSessionIndex {
        if self is ConnectToCurrent || self is CoverToCurrent {
            RelSessionIndex::Prev
        } else {
            RelSessionIndex::Current
        }
    }

    pub fn need_prev(self) -> (r: bool)
        ensures
            r == self.spec_need_prev(),
    {
        !matches!(self, SessionPhase::DisconnectFromPrev)
    }

    pub fn gen_cover_packets(self, rel_session_index: RelSessionIndex) -> (r: bool)
        ensures
            r == self.spec_gen_cover_packets(rel_session_index),
    {
        match rel_session_index {
            RelSessionIndex::Current => !matches!(self, SessionPhase::ConnectToCurrent),
            RelSessionIndex::Prev => !matches!(self, SessionPhase::DisconnectFromPrev),
        }
    }

    pub fn allow_requests_and_replies(self, rel_session_index: RelSessionIndex) -> (r: bool)
        ensures
            r == self.spec_allow_requests_and_replies(rel_session_index),
    {
        match rel_session_index {
            RelSessionIndex::Current => true,
            RelSessionIndex::Prev => matches!(
                self,
                SessionPhase::ConnectToCurrent | SessionPhase::CoverToCurrent
                    | SessionPhase::RequestsAndRepliesToCurrent
            ),
        }
    }

    pub fn default_request_session(self) -> (r: RelSessionIndex)
        ensures
            r == self.spec_default_request_session(),
    {
        match self {
            SessionPhase::ConnectToCurrent | SessionPhase::CoverToCurrent => RelSessionIndex::Prev,
            _ => RelSessionIndex::Current,
        }
    }
}

/// The index and the phase of the current session.
#[derive(Clone, Copy, Debug, PartialEq, Eq, Structural)]
pub struct SessionStatus {
    pub current_index: SessionIndex,
    pub phase: SessionPhase,
}

/// What the core keeps for a session in which the mixnet is available.
pub struct Session {
    /// The mixnodes of the session.
    pub topology: Topology,
    /// The packets authored for the session that have not been sent yet.
    pub authored_packet_queue: AuthoredPacketQueue,
    /// Mean time between the packets authored for the session.
    pub mean_authored_packet_period: Nanos,
    /// The packets of the session that have been processed.
    pub replay_filter: ReplayFilter,
}

/// What a session holds.
pub struct SessionView {
    pub topology: TopologyView,
    pub authored: Seq<AuthoredPacket>,
    pub authored_capacity: nat,
    pub mean_authored_packet_period: Nanos,
    pub replay: Set<Seq<u8>>,
}

impl View for Session {
    type V = SessionView;

    open spec fn view(&self) -> SessionView {
        SessionView {
            topology: self.topology@,
            authored: self.authored_packet_queue@,
            authored_capacity: self.authored_packet_queue.spec_capacity(),
            mean_authored_packet_period: self.mean_authored_packet_period,
            replay: self.replay_filter@,
        }
    }
}

impl Session {
    /// The topology is well-formed and the queue within its capacity.
    pub open spec fn wf(&self) -> bool {
        &&& self.topology@.wf()
        &&& self.authored_packet_queue.wf()
    }
}

/// A place for a session.
pub enum SessionSlot {
    /// The mixnodes of the session are not known yet.
    Empty,
    /// The mixnet is not available in the session.
    Disabled,
    /// The mixnet is available in the session.
    Full(Session),
}

/// What a slot holds.
pub enum SlotView {
    Empty,
    Disabled,
    Full(SessionView),
}

impl View for SessionSlot {
    type V = SlotView;

    open spec fn view(&self) -> SlotView {
        match self {
            SessionSlot::Empty => SlotView::Empty,
            SessionSlot::Disabled => SlotView::Disabled,
            SessionSlot::Full(session) => SlotView::Full(session@),
        }
    }
}

impl SessionSlot {
    pub open spec fn wf(&self) -> bool {
        match self {
            SessionSlot::Full(session) => session.wf(),
            _ => true,
        }
    }

    pub fn is_empty(&self) -> (r: bool)
        ensures
            r == (self@ is Empty),
    {
        matches!(self, SessionSlot::Empty)
    }

    pub fn is_full(&self) -> (r: bool)
        ensures
            r == (self@ is Full),
    {
        matches!(self, SessionSlot::Full(_))
    }
}

/// The slots of the current and of the previous session.
pub struct Sessions {
    pub current: SessionSlot,
    pub prev: SessionSlot,
}

/// What the two slots hold.
pub struct SessionsView {
    pub current: SlotView,
    pub prev: SlotView,
}

impl SessionsView {
    /// What the slot of the given session holds.
    pub open spec fn slot(self, rel_session_index: RelSessionIndex) -> SlotView {
        match rel_session_index {
            RelSessionIndex::Current => self.current,
            RelSessionIndex::Prev => self.prev,
        }
    }

    /// The slots with that of the given session replaced.
    pub open spec fn with_slot(self, rel_session_index: RelSessionIndex, slot: SlotView) -> SessionsView {
        match rel_session_index {
            RelSessionIndex::Current => SessionsView { current: slot, ..self },
            RelSessionIndex::Prev => SessionsView { prev: slot, ..self },
        }
    }

    /// The slots after the current session has become the previous one.
    pub open spec fn advance_by_one(self) -> SessionsView {
        SessionsView { current: SlotView::Empty, prev: self.current }
    }

    /// Two empty slots.
    pub open spec fn empty() -> SessionsView {
        SessionsView { current: SlotView::Empty, prev: SlotView::Empty }
    }
}

impl View for Sessions {
    type V = SessionsView;

    open spec fn view(&self) -> SessionsView {
        SessionsView { current: self.current@, prev: self.prev@ }
    }
}

impl Sessions {
    pub open spec fn wf(&self) -> bool {
        self.current.wf() && self.prev.wf()
    }

    /// Returns two empty slots.
    pub fn new() -> (r: Sessions)
        ensures
            r.wf(),
            r@ == SessionsView::empty(),
    {
        Sessions { current: SessionSlot::Empty, prev: SessionSlot::Empty }
    }

    /// Makes the current session the previous one, and leaves the slot of the
    /// current session empty. The session that was the previous one is
    /// dropped.
    pub fn advance_by_one(&mut self)
        requires
            old(self).wf(),
        ensures
            final(self).wf(),
            final(self)@ == old(self)@.advance_by_one(),
    {
        std::mem::swap(&mut self.current, &mut self.prev);
        self.current = SessionSlot::Empty;
    }
}

} // verus!
