//! Closing a connection: draining what is outstanding, then the Jetty.

use vstd::prelude::*;

use super::{ConnectionState, ConnectionView, UrmaConnection};
use crate::buffer::UrmaBufferPool;
use crate::completion;
use crate::completion::{check_deadline, CompletionEvent, EventView};
use crate::error::{Error, ErrorView, Result};
use crate::jetty;
use crate::jetty::{note_failure, JettyView, UrmaJetty};
use crate::provider::{CompletionRecord, FfiError};
use crate::text;

verus! {

/// What closing a connection asks for next.
#[derive(Clone, Copy, Debug, Eq, PartialEq, Structural)]
pub enum CloseStep {
    /// Nothing: the connection is closed.
    Done,
    /// Mark the Jetty as failed, then drain what is outstanding.
    Drain,
    /// Close the Jetty.
    CloseJetty,
}

/// The failures after one more poll of a drain. Failed completions are what a drain is for.
pub open spec fn drain_noted(failures: Seq<Seq<char>>, polled: Result<Vec<CompletionEvent>>) -> Seq<
    Seq<char>,
> {
    match polled {
        Ok(_) => failures,
        Err(error) => if error@ is Completion {
            failures
        } else {
            failures.push(error@.text())
        },
    }
}

impl UrmaConnection {
    /// Begins closing the connection.
    pub fn begin_close(&mut self) -> (step: CloseStep)
        requires
            old(self).wf(),
        ensures
            final(self).wf(),
            if old(self)@.state == ConnectionState::Closed {
                step == CloseStep::Done && final(self)@ == old(self)@
            } else if old(self)@.plane.poller.outstanding() > 0 {
                &&& step == CloseStep::Drain
                &&& final(self)@ == (ConnectionView {
                    state: ConnectionState::Draining,
                    ..old(self)@
                })
            } else {
                step == CloseStep::CloseJetty && final(self)@ == old(self)@
            },
    {
        if self.state == ConnectionState::Closed {
            return CloseStep::Done;
        }
        if self.poller.outstanding() != 0 {
            self.state = ConnectionState::Draining;
            return CloseStep::Drain;
        }
        CloseStep::CloseJetty
    }

    /// Notes what marking the Jetty as failed gave.
    pub fn note_mark_error(failures: &mut Vec<String>, outcome: core::result::Result<(), FfiError>)
        ensures
            text::views(final(failures)@) == jetty::noted(
                text::views(old(failures)@),
                "modify_jetty_error"@,
                outcome,
            ),
    {
        note_failure(failures, "modify_jetty_error", outcome);
    }

    /// Whether a drain goes on: something is outstanding, and there is time.
    pub fn drain_goes_on(&self, now: u128, deadline: u128) -> (goes_on: bool)
        requires
            self.wf(),
        ensures
            goes_on == (self@.plane.poller.outstanding() > 0 && now < deadline),
    {
        self.poller.outstanding() != 0 && check_deadline(now, deadline, "drain WR").is_ok()
    }

    /// Begins one poll of a drain at `now`, whatever the state; gives the time at which the previous
    /// poll began.
    pub fn begin_drain_poll(&mut self, now: u128) -> (previous: Option<u128>)
        requires
            old(self).wf(),
        ensures
            final(self).wf(),
            previous == old(self)@.plane.poller.last_poll,
            final(self)@ == old(self)@.with_poller(old(self)@.plane.poller.after_begin(now)),
    {
        let ghost before = self@;
        let previous = self.poller.begin_poll(now);
        proof {
            before.plane.lemma_counters(self.poller@);
        }
        previous
    }

    /// Takes in what one poll of a queue gave during a drain: the records are routed, up to the first
    /// that fails. The connection keeps its state and its receive credit.
    pub fn drain_queue(
        &mut self,
        recv_queue: bool,
        polled: core::result::Result<Vec<(CompletionRecord, Result<Vec<u8>>)>, FfiError>,
    ) -> (routed: Result<Vec<CompletionEvent>>)
        requires
            old(self).wf(),
        ensures
            final(self).wf(),
            ({
                let (plane, outcome) = old(self)@.queue_routed(recv_queue, polled);
                &&& final(self)@ == old(self)@.with_plane(plane)
                &&& match routed {
                    Ok(events) => outcome == Ok::<Seq<EventView>, ErrorView>(
                        completion::poller::event_views(events@),
                    ),
                    Err(error) => outcome == Err::<Seq<EventView>, ErrorView>(error@),
                }
            }),
    {
        self.poller.poll_active(recv_queue, polled, &mut self.pool)
    }

    /// Ends one poll of a drain whose queues gave `count` events.
    pub fn end_drain_poll(&mut self, count: usize, previous: Option<u128>, now: u128)
        requires
            old(self).wf(),
        ensures
            final(self).wf(),
            final(self)@ == old(self)@.with_poller(
                if count > 0 {
                    old(self)@.plane.poller.after_nonempty(count as nat, previous, now)
                } else {
                    old(self)@.plane.poller.after_empty().with_empty_poll()
                },
            ),
    {
        let ghost before = self@;
        let _next = self.poller.after_first_poll(count, previous, now);
        proof {
            before.plane.lemma_counters(self.poller@);
        }
    }

    /// Notes what one poll of a drain gave.
    pub fn note_drain(failures: &mut Vec<String>, polled: &Result<Vec<CompletionEvent>>)
        ensures
            text::views(final(failures)@) == drain_noted(text::views(old(failures)@), *polled),
    {
        match polled {
            Ok(_) => {},
            Err(Error::Completion { .. }) => {},
            Err(error) => {
                let ghost before = failures@;
                failures.push(error.to_string());
                assert(text::views(failures@) =~= text::views(before).push(error@.text()));
            },
        }
    }

    /// Ends a drain, for the failures noted on the way.
    pub fn finish_drain(&mut self, failures: Vec<String>) -> (drained: Result<()>)
        requires
            old(self).wf(),
        ensures
            final(self).wf(),
            ({
                let noted = text::views(failures@) + if old(self)@.plane.poller.outstanding() > 0 {
                    seq!["timed out draining outstanding WRs"@]
                } else {
                    seq![]
                };
                if noted.len() == 0 {
                    drained is Ok && final(self)@ == old(self)@
                } else {
                    &&& drained matches Err(error)
                    &&& error@ == (ErrorView::Shutdown { failures: noted })
                    &&& final(self)@ == (ConnectionView {
                        state: ConnectionState::Failed,
                        ..old(self)@
                    })
                }
            }),
    {
        let mut failures = failures;
        let ghost before = text::views(failures@);
        if self.poller.outstanding() != 0 {
            failures.push("timed out draining outstanding WRs".to_owned());
            assert(text::views(failures@) =~= before + seq!["timed out draining outstanding WRs"@]);
        } else {
            assert(text::views(failures@) =~= before + seq![]);
        }
        assert(text::views(failures@).len() == failures@.len());
        if failures.len() != 0 {
            self.state = ConnectionState::Failed;
            return Err(Error::Shutdown { failures });
        }
        Ok(())
    }

    /// The Jetty, which is closed step by step.
    pub fn jetty(&self) -> (jetty: &UrmaJetty)
        ensures
            jetty@ == self@.jetty,
    {
        &self.jetty
    }

    /// Takes in what unbinding gave.
    pub fn unbind(&mut self, outcome: core::result::Result<(), FfiError>, failures: &mut Vec<String>)
        requires
            old(self).wf(),
        ensures
            final(self).wf(),
            final(self)@ == (ConnectionView {
                jetty: JettyView {
                    bound: old(self)@.jetty.bound && outcome is Err,
                    ..old(self)@.jetty
                },
                ..old(self)@
            }),
            text::views(final(failures)@) == jetty::noted(
                text::views(old(failures)@),
                "unbind_jetty"@,
                outcome,
            ),
    {
        self.jetty.unbind(outcome, failures);
    }

    /// Takes in what unimporting gave.
    pub fn unimport(
        &mut self,
        outcome: core::result::Result<(), FfiError>,
        failures: &mut Vec<String>,
    )
        requires
            old(self).wf(),
        ensures
            final(self).wf(),
            final(self)@ == (ConnectionView {
                jetty: JettyView {
                    imported: old(self)@.jetty.imported && outcome is Err,
                    ..old(self)@.jetty
                },
                ..old(self)@
            }),
            text::views(final(failures)@) == jetty::noted(
                text::views(old(failures)@),
                "unimport_jetty"@,
                outcome,
            ),
    {
        self.jetty.unimport(outcome, failures);
    }

    /// Ends closing, for the failures noted while the Jetty was closed.
    pub fn finish_close(&mut self, failures: Vec<String>) -> (closed: Result<()>)
        requires
            old(self).wf(),
        ensures
            final(self).wf(),
            match closed {
                Ok(()) => {
                    &&& failures@.len() == 0
                    &&& final(self)@ == (ConnectionView {
                        state: ConnectionState::Closed,
                        ..old(self)@
                    })
                },
                Err(error) => {
                    &&& failures@.len() > 0
                    &&& error@ == (ErrorView::Shutdown { failures: text::views(failures@) })
                    &&& final(self)@ == (ConnectionView {
                        state: ConnectionState::Failed,
                        ..old(self)@
                    })
                },
            },
    {
        let closed = UrmaJetty::close(failures);
        if closed.is_ok() {
            self.state = ConnectionState::Closed;
        } else {
            self.state = ConnectionState::Failed;
        }
        closed
    }

    /// The pool, once the connection is done with it.
    pub fn close(self) -> (pool: UrmaBufferPool)
        requires
            self.wf(),
        ensures
            pool.wf(),
            pool@ == self@.plane.pool,
    {
        self.pool
    }
}

} // verus!
