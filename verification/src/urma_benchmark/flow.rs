//! Both ends of the flow control, taken together.

use vstd::prelude::*;

use super::{CreditReturnView, CreditView, RemoteCreditView};

verus! {

/// Both ends of a run and what is under way between them.
pub struct FlowView {
    /// The receives that the receiver has posted.
    pub local: CreditView,
    /// The receives that the sender knows of.
    pub remote: RemoteCreditView,
    /// The credit that the receiver holds back.
    pub held: CreditReturnView,
    /// The messages that were sent and have not arrived.
    pub in_flight: nat,
    /// The credit that was returned and has not arrived.
    pub returning: nat,
}

/// What can happen at one of the ends.
pub enum FlowStep {
    /// The sender posts a message.
    Send,
    /// A message arrives in a posted receive.
    Arrive,
    /// The receiver posts this many receives again and returns whole batches of credit.
    Repost(nat),
    /// The receiver returns the rest of the credit.
    Flush,
    /// This much returned credit arrives.
    Credit(nat),
}

impl FlowView {
    /// The start of a run of `messages` messages with up to `configured` posted receives: the
    /// receives are posted, and the sender was told of all of them.
    pub open spec fn started(configured: nat, messages: nat) -> Self {
        let posted = if configured <= messages {
            configured
        } else {
            messages
        };
        FlowView {
            local: CreditView {
                configured,
                remaining: messages,
                current: posted,
                posts: posted,
            },
            remote: RemoteCreditView {
                initial: posted,
                available: posted,
                returned: 0,
                consumed: 0,
                updates: 0,
                waits: 0,
                wait_ns: 0,
                max_wait_ns: 0,
            },
            held: CreditReturnView {
                threshold: if posted < 4 {
                    1
                } else {
                    posted / 4
                },
                pending: 0,
                returned: 0,
                updates: 0,
            },
            in_flight: 0,
            returning: 0,
        }
    }

    /// Every posted receive is known to the sender, used by a message under way, or on its way
    /// back as credit, and the sender never had more credit than at the start.
    pub open spec fn wf(self) -> bool {
        &&& self.local.wf()
        &&& self.remote.wf()
        &&& self.held.wf()
        &&& self.remote.available + self.in_flight + self.returning + self.held.pending
            == self.local.current
        &&& self.local.configured <= self.remote.initial || self.local.remaining
            <= self.remote.initial
        &&& self.remote.initial <= usize::MAX
    }

    /// Whether the step can be taken: the functions that take it do not fail.
    pub open spec fn allows(self, step: FlowStep) -> bool {
        match step {
            FlowStep::Send => self.remote.available > 0 && self.remote.consumed < usize::MAX,
            FlowStep::Arrive => self.in_flight > 0,
            FlowStep::Repost(count) => {
                &&& count <= self.local.needed()
                &&& self.local.posts + count <= u64::MAX
                &&& self.held.returned + self.held.due(count) <= usize::MAX
                &&& self.held.updates < usize::MAX
            },
            FlowStep::Flush => {
                &&& self.held.returned + self.held.pending <= usize::MAX
                &&& self.held.updates < usize::MAX
            },
            FlowStep::Credit(count) => {
                &&& 0 < count <= self.returning
                &&& self.remote.updates < usize::MAX
            },
        }
    }

    /// Both ends after a step.
    pub open spec fn after(self, step: FlowStep) -> Self {
        match step {
            FlowStep::Send => FlowView {
                remote: RemoteCreditView {
                    available: (self.remote.available - 1) as nat,
                    consumed: self.remote.consumed + 1,
                    ..self.remote
                },
                in_flight: self.in_flight + 1,
                ..self
            },
            FlowStep::Arrive => FlowView {
                local: CreditView {
                    current: (self.local.current - 1) as nat,
                    remaining: (self.local.remaining - 1) as nat,
                    ..self.local
                },
                in_flight: (self.in_flight - 1) as nat,
                ..self
            },
            FlowStep::Repost(count) => {
                let due = self.held.due(count);
                FlowView {
                    local: CreditView {
                        current: self.local.current + count,
                        posts: self.local.posts + count,
                        ..self.local
                    },
                    held: CreditReturnView {
                        pending: (self.held.pending + count - due) as nat,
                        returned: self.held.returned + due,
                        updates: if due == 0 {
                            self.held.updates
                        } else {
                            self.held.updates + 1
                        },
                        ..self.held
                    },
                    returning: self.returning + due,
                    ..self
                }
            },
            FlowStep::Flush => FlowView {
                held: CreditReturnView {
                    pending: 0,
                    returned: self.held.returned + self.held.pending,
                    updates: if self.held.pending == 0 {
                        self.held.updates
                    } else {
                        self.held.updates + 1
                    },
                    ..self.held
                },
                returning: self.returning + self.held.pending,
                ..self
            },
            FlowStep::Credit(count) => FlowView {
                remote: RemoteCreditView {
                    available: self.remote.available + count,
                    returned: self.remote.returned + count,
                    updates: self.remote.updates + 1,
                    ..self.remote
                },
                returning: (self.returning - count) as nat,
                ..self
            },
        }
    }
}

/// Both ends agree from the start.
pub proof fn runs_start_in_agreement(configured: nat, messages: nat)
    requires
        0 < configured <= usize::MAX,
        0 < messages,
    ensures
        FlowView::started(configured, messages).wf(),
        FlowView::started(configured, messages).local.needed() == 0,
{
}

/// Both ends agree after every step, in whatever order the steps come.
pub proof fn steps_keep_the_agreement(flow: FlowView, step: FlowStep)
    requires
        flow.wf(),
        flow.allows(step),
    ensures
        flow.after(step).wf(),
{
    match step {
        FlowStep::Repost(count) => {
            super::batched_credit_is_conserved(flow.held, count);
        },
        _ => {},
    }
}

/// Every message under way finds a posted receive, and so does every message that the sender may
/// still post before it hears of more: no message arrives unexpected.
pub proof fn every_message_finds_a_receive(flow: FlowView)
    requires
        flow.wf(),
    ensures
        flow.remote.available + flow.in_flight <= flow.local.current,
        flow.in_flight > 0 ==> flow.local.current > 0 && flow.local.remaining > 0,
{
}

/// Credit that a receiver returned is never refused by the sender.
pub proof fn returned_credit_is_taken(flow: FlowView, count: nat)
    requires
        flow.wf(),
        0 < count <= flow.returning,
    ensures
        flow.remote.grant_error(count) is None,
{
}

/// A run never stalls: while messages are to come and the receiver has posted what it needs and
/// returned all credit, the sender may post one as soon as nothing is under way. So the last message
/// of a run finds a receive like every other.
pub proof fn the_last_message_finds_a_receive(flow: FlowView)
    requires
        flow.wf(),
        flow.local.remaining > 0,
        flow.local.needed() == 0,
        flow.held.pending == 0,
        flow.in_flight == 0,
        flow.returning == 0,
    ensures
        flow.remote.available > 0,
{
}

} // verus!
