//! The delivery of one message to the subscribers of a topic.

use crate::message::{Frame, FrameView};
use crate::topics::ConnId;
use vstd::prelude::*;

verus! {

/// A message on its way to the connections that were subscribed to its topic when it was
/// published. Whoever delivers it asks for the next recipient, tries to send, and reports how
/// that went, until nobody is left.
pub struct Publication {
    pub topic: String,
    pub msg: Frame,
    /// The recipients to whom the message was not sent yet; the last one is next.
    pub pending: Vec<ConnId>,
    /// The recipients to whom sending failed.
    pub failed: Vec<ConnId>,
}

/// What a publication holds.
#[verifier::ext_equal]
pub struct PublicationView {
    pub topic: Seq<char>,
    pub msg: FrameView,
    pub pending: Seq<ConnId>,
    pub failed: Seq<ConnId>,
}

impl View for Publication {
    type V = PublicationView;

    open spec fn view(&self) -> PublicationView {
        PublicationView {
            topic: self.topic@,
            msg: self.msg@,
            pending: self.pending@,
            failed: self.failed@,
        }
    }
}

impl PublicationView {
    /// The publication once the outcome for the next recipient is known.
    pub open spec fn reported(self, delivered: bool) -> PublicationView {
        PublicationView {
            pending: self.pending.drop_last(),
            failed: if delivered {
                self.failed
            } else {
                self.failed.push(self.pending.last())
            },
            ..self
        }
    }

    /// The publication once the outcome for every recipient is known, where `delivers` says
    /// for which of them sending succeeds.
    pub open spec fn completed(self, delivers: spec_fn(ConnId) -> bool) -> PublicationView
        decreases self.pending.len(),
    {
        if self.pending.len() == 0 {
            self
        } else {
            self.reported(delivers(self.pending.last())).completed(delivers)
        }
    }

    /// The recipients that are asked for until nobody is left, in this order.
    pub open spec fn addressed(self, delivers: spec_fn(ConnId) -> bool) -> Seq<ConnId>
        decreases self.pending.len(),
    {
        if self.pending.len() == 0 {
            Seq::empty()
        } else {
            seq![self.pending.last()] + self.reported(delivers(self.pending.last())).addressed(
                delivers,
            )
        }
    }
}

impl Publication {
    /// The next recipient, and the frame to send there; `None` once nobody is left.
    pub fn next(&self) -> (next: Option<(ConnId, Frame)>)
        ensures
            match next {
                Some((conn, frame)) => self@.pending.len() > 0 && conn == self@.pending.last()
                    && frame@ == self@.msg,
                None => self@.pending.len() == 0,
            },
    {
        if self.pending.len() == 0 {
            None
        } else {
            Some((self.pending[self.pending.len() - 1], self.msg.clone()))
        }
    }

    /// Takes note of whether the frame reached the next recipient, who is then done with.
    pub fn report(&mut self, delivered: bool)
        ensures
            final(self)@ == if old(self)@.pending.len() == 0 {
                old(self)@
            } else {
                old(self)@.reported(delivered)
            },
    {
        if let Some(conn) = self.pending.pop() {
            if !delivered {
                self.failed.push(conn);
            }
        }
    }

    /// Whether sending failed for some recipient.
    pub fn has_failures(&self) -> (failures: bool)
        ensures
            failures == (self@.failed.len() > 0),
    {
        self.failed.len() > 0
    }
}

} // verus!
