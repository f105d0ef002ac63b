//! A mailbox with two queues, one of which goes first. Any number of senders
//! put messages in; one owner takes them out and handles them one at a time.

use std::collections::VecDeque;
use vstd::prelude::*;

verus! {

/// A mailbox with a priority queue and a normal queue.
pub struct PriorityMailbox<M> {
    priority: VecDeque<M>,
    normal: VecDeque<M>,
}

/// The mathematical value of a [`PriorityMailbox`]: the messages of each
/// queue, oldest first.
pub struct MailboxView<M> {
    pub priority: Seq<M>,
    pub normal: Seq<M>,
}

impl<M> MailboxView<M> {
    /// The order in which the owner handles the messages that are in the
    /// mailbox, if no message is sent meanwhile: the priority messages,
    /// oldest first, then the normal messages, oldest first.
    pub open spec fn handling_order(self) -> Seq<M> {
        self.priority + self.normal
    }
}

impl<M> View for PriorityMailbox<M> {
    type V = MailboxView<M>;

    closed spec fn view(&self) -> MailboxView<M> {
        MailboxView { priority: self.priority@, normal: self.normal@ }
    }
}

impl<M> PriorityMailbox<M> {
    /// An empty mailbox.
    pub fn new() -> (r: Self)
        ensures
            r@.priority.len() == 0,
            r@.normal.len() == 0,
    {
        PriorityMailbox { priority: VecDeque::new(), normal: VecDeque::new() }
    }

    /// Puts `message` at the end of the priority queue.
    pub fn send_priority(&mut self, message: M)
        ensures
            final(self)@ == (MailboxView {
                priority: old(self)@.priority.push(message),
                normal: old(self)@.normal,
            }),
    {
        self.priority.push_back(message);
    }

    /// Puts `message` at the end of the normal queue.
    pub fn send_normal(&mut self, message: M)
        ensures
            final(self)@ == (MailboxView {
                priority: old(self)@.priority,
                normal: old(self)@.normal.push(message),
            }),
    {
        self.normal.push_back(message);
    }

    /// Whether a priority message waits.
    pub fn has_priority(&self) -> (r: bool)
        ensures
            r == (self@.priority.len() > 0),
    {
        self.priority.len() > 0
    }

    /// The number of messages that wait.
    pub fn len(&self) -> (r: usize)
        requires
            self@.priority.len() + self@.normal.len() <= usize::MAX,
        ensures
            r == self@.handling_order().len(),
    {
        self.priority.len() + self.normal.len()
    }

    /// Takes out the message that the owner handles next: the oldest
    /// priority message or, where no priority message waits, the oldest
    /// normal message. `None` where the mailbox is empty.
    pub fn recv(&mut self) -> (r: Option<M>)
        ensures
            match r {
                Some(message) => {
                    &&& old(self)@.handling_order().len() > 0
                    &&& message == old(self)@.handling_order()[0]
                    &&& final(self)@.handling_order() == old(self)@.handling_order().drop_first()
                    &&& if old(self)@.priority.len() > 0 {
                        final(self)@ == (MailboxView {
                            priority: old(self)@.priority.drop_first(),
                            normal: old(self)@.normal,
                        })
                    } else {
                        final(self)@ == (MailboxView {
                            priority: old(self)@.priority,
                            normal: old(self)@.normal.drop_first(),
                        })
                    }
                },
                None => old(self)@.handling_order().len() == 0 && final(self)@ == old(self)@,
            },
    {
        match self.priority.pop_front() {
            Some(message) => {
                proof {
                    assert(self@.priority =~= old(self)@.priority.drop_first());
                    assert(self@.handling_order() =~= old(self)@.handling_order().drop_first());
                }
                Some(message)
            },
            None => match self.normal.pop_front() {
                Some(message) => {
                    proof {
                        assert(self@.normal =~= old(self)@.normal.drop_first());
                        assert(self@.handling_order() =~= old(self)@.handling_order().drop_first());
                    }
                    Some(message)
                },
                None => {
                    proof {
                        assert(self@.priority =~= old(self)@.priority);
                        assert(self@.normal =~= old(self)@.normal);
                    }
                    None
                },
            },
        }
    }
}

/// Where the owner of a mailbox stands in its loop.
#[derive(Clone, Copy, PartialEq, Eq, Structural, Debug)]
pub enum OwnerPhase {
    /// It waits for a priority message, for a bounded time.
    AwaitPriority,
    /// It takes normal messages as long as no priority message waits.
    DrainNormal,
}

/// What the owner of a mailbox does next.
#[derive(PartialEq, Eq, Debug)]
pub enum OwnerStep<M> {
    /// Handle this message.
    Handle(M),
    /// Wait for a message, for a bounded time.
    Wait,
}

/// The owner of a mailbox: it waits for a priority message for a bounded
/// time and handles it; then it handles normal messages until a priority
/// message waits or none is left, and starts over.
#[derive(PartialEq, Eq, Debug)]
pub struct MailboxOwner {
    phase: OwnerPhase,
}

impl View for MailboxOwner {
    type V = OwnerPhase;

    closed spec fn view(&self) -> OwnerPhase {
        self.phase
    }
}

/// What the owner in `phase` does next with `mailbox`, and the phase and
/// the mailbox afterwards. `timed_out` says whether the bounded time of its
/// last wait has passed. A priority message that waits is handled before
/// all else. Without one, the owner that awaits priority goes on waiting
/// until the time has passed; after that, and while it drains, the oldest
/// normal message is handled, and with none left it awaits priority again.
pub open spec fn owner_step<M>(phase: OwnerPhase, mailbox: MailboxView<M>, timed_out: bool) -> (
    OwnerPhase,
    MailboxView<M>,
    Option<M>,
) {
    if mailbox.priority.len() > 0 {
        (
            OwnerPhase::DrainNormal,
            MailboxView { priority: mailbox.priority.drop_first(), normal: mailbox.normal },
            Some(mailbox.priority[0]),
        )
    } else if phase == OwnerPhase::AwaitPriority && !timed_out {
        (OwnerPhase::AwaitPriority, mailbox, None)
    } else if mailbox.normal.len() > 0 {
        (
            OwnerPhase::DrainNormal,
            MailboxView { priority: mailbox.priority, normal: mailbox.normal.drop_first() },
            Some(mailbox.normal[0]),
        )
    } else {
        (OwnerPhase::AwaitPriority, mailbox, None)
    }
}

impl MailboxOwner {
    /// An owner at the start of its loop.
    pub fn new() -> (r: MailboxOwner)
        ensures
            r@ == OwnerPhase::AwaitPriority,
    {
        MailboxOwner { phase: OwnerPhase::AwaitPriority }
    }

    /// Where the owner stands in its loop.
    pub fn get_phase(&self) -> (r: OwnerPhase)
        ensures
            r == self@,
    {
        self.phase
    }

    /// Takes the next step of the loop.
    pub fn next<M>(&mut self, mailbox: &mut PriorityMailbox<M>, timed_out: bool) -> (r: OwnerStep<
        M,
    >)
        ensures
            (final(self)@, final(mailbox)@, match r {
                OwnerStep::Handle(message) => Some(message),
                OwnerStep::Wait => None,
            }) == owner_step(old(self)@, old(mailbox)@, timed_out),
    {
        if mailbox.has_priority() {
            match mailbox.recv() {
                Some(message) => {
                    self.phase = OwnerPhase::DrainNormal;
                    OwnerStep::Handle(message)
                },
                None => OwnerStep::Wait,
            }
        } else if self.phase == OwnerPhase::AwaitPriority && !timed_out {
            OwnerStep::Wait
        } else {
            match mailbox.recv() {
                Some(message) => {
                    self.phase = OwnerPhase::DrainNormal;
                    OwnerStep::Handle(message)
                },
                None => {
                    self.phase = OwnerPhase::AwaitPriority;
                    OwnerStep::Wait
                },
            }
        }
    }
}

/// Whatever the owner handles is the message that stands first in the
/// handling order: while a priority message waits, no normal message is
/// handled.
pub proof fn lemma_owner_handles_in_order<M>(
    phase: OwnerPhase,
    mailbox: MailboxView<M>,
    timed_out: bool,
)
    ensures
        ({
            let (_, after, handled) = owner_step(phase, mailbox, timed_out);
            match handled {
                Some(message) => mailbox.handling_order().len() > 0 && message
                    == mailbox.handling_order()[0] && after.handling_order()
                    == mailbox.handling_order().drop_first(),
                None => after == mailbox,
            }
        }),
{
    let (_, after, handled) = owner_step(phase, mailbox, timed_out);
    if handled is Some {
        assert(after.handling_order() =~= mailbox.handling_order().drop_first());
    }
}

/// Every priority message that waits is handled before every normal message
/// that waits, and within each queue the older message is handled first.
pub proof fn lemma_priority_goes_first<M>(mailbox: MailboxView<M>, p: int, n: int)
    requires
        0 <= p < mailbox.priority.len(),
        0 <= n < mailbox.normal.len(),
    ensures
        mailbox.handling_order()[p] == mailbox.priority[p],
        mailbox.handling_order()[mailbox.priority.len() + n] == mailbox.normal[n],
        p < mailbox.priority.len() + n,
{
}

/// A priority message that is sent while normal messages wait is handled
/// before all of them; a normal message that is sent is handled last.
pub proof fn lemma_sent_priority_overtakes<M>(mailbox: MailboxView<M>, message: M)
    ensures
        (MailboxView { priority: mailbox.priority.push(message), normal: mailbox.normal })
            .handling_order() == mailbox.priority + seq![message] + mailbox.normal,
        (MailboxView { priority: mailbox.priority, normal: mailbox.normal.push(message) })
            .handling_order() == mailbox.handling_order().push(message),
{
    assert(mailbox.priority.push(message) + mailbox.normal =~= mailbox.priority + seq![message]
        + mailbox.normal);
    assert(mailbox.priority + mailbox.normal.push(message) =~= (mailbox.priority
        + mailbox.normal).push(message));
}

} // verus!
