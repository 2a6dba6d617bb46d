//! The single-consumer command queue that feeds the relay worker.
//!
//! Commands are held in arrival order; the relay drains them strictly
//! first-in first-out, which is what guarantees that commands reach the
//! device in the order they were enqueued.

use vstd::prelude::*;

verus! {

/// A well-formed command: a non-empty line of text with no embedded
/// carriage-return or line-feed characters.
pub open spec fn valid_command(s: Seq<char>) -> bool {
    &&& s.len() > 0
    &&& !s.contains('\r')
    &&& !s.contains('\n')
}

/// The character sequences of a sequence of strings.
pub open spec fn seq_views(v: Seq<String>) -> Seq<Seq<char>> {
    v.map_values(|s: String| s@)
}

/// An ordered, first-in first-out queue of commands.
///
/// Its view is the sequence of queued command texts, oldest first.
pub struct CommandQueue {
    items: Vec<String>,
}

impl View for CommandQueue {
    type V = Seq<Seq<char>>;

    closed spec fn view(&self) -> Seq<Seq<char>> {
        seq_views(self.items@)
    }
}

impl CommandQueue {
    /// Every queued command is well formed.
    pub open spec fn wf(&self) -> bool {
        forall|i: int| 0 <= i < self@.len() ==> valid_command(#[trigger] self@[i])
    }

    /// An empty queue.
    pub fn new() -> (q: CommandQueue)
        ensures
            q@ == Seq::<Seq<char>>::empty(),
            q.wf(),
    {
        let q = CommandQueue { items: Vec::new() };
        proof {
            assert(q@ =~= Seq::<Seq<char>>::empty());
        }
        q
    }

    /// How many commands are waiting.
    pub fn len(&self) -> (n: usize)
        ensures
            n == self@.len(),
    {
        self.items.len()
    }

    /// Append one command at the tail of the queue.
    pub fn enqueue(&mut self, command: String)
        requires
            old(self).wf(),
            valid_command(command@),
        ensures
            final(self)@ == old(self)@.push(command@),
            final(self).wf(),
    {
        let ghost before = self.items@;
        self.items.push(command);
        proof {
            assert(seq_views(before.push(command)) =~= seq_views(before).push(command@));
        }
    }

    /// Remove and return the oldest queued command, if any.
    pub fn dequeue(&mut self) -> (front: Option<String>)
        requires
            old(self).wf(),
        ensures
            old(self)@.len() == 0 ==> front is None && final(self)@ == old(self)@,
            old(self)@.len() > 0 ==> {
                &&& front matches Some(c) && c@ == old(self)@[0]
                &&& final(self)@ == old(self)@.skip(1)
            },
            final(self).wf(),
    {
        if self.items.is_empty() {
            None
        } else {
            let ghost before = self.items@;
            let c = self.items.remove(0);
            proof {
                assert(seq_views(before.remove(0)) =~= seq_views(before).skip(1));
                assert(seq_views(before).skip(1) =~= self@);
                assert forall|i: int| 0 <= i < self@.len() implies valid_command(
                    #[trigger] self@[i],
                ) by {
                    assert(self@[i] == old(self)@[i + 1]);
                }
            }
            Some(c)
        }
    }

    /// Remove every queued command, in arrival order.
    ///
    /// This is the order in which the relay, dequeuing one command at a
    /// time, hands them to the device.
    pub fn drain(&mut self) -> (commands: Vec<String>)
        requires
            old(self).wf(),
        ensures
            seq_views(commands@) == old(self)@,
            final(self)@ == Seq::<Seq<char>>::empty(),
            final(self).wf(),
    {
        let mut commands: Vec<String> = Vec::new();
        proof {
            assert(seq_views(commands@) =~= Seq::<Seq<char>>::empty());
        }
        while self.len() > 0
            invariant
                self.wf(),
                seq_views(commands@) + self@ == old(self)@,
            decreases self@.len(),
        {
            let ghost before_out = commands@;
            let ghost before_queue = self@;
            match self.dequeue() {
                Some(c) => {
                    commands.push(c);
                    proof {
                        assert(seq_views(before_out.push(c)) =~= seq_views(before_out).push(c@));
                        assert(seq_views(before_out).push(c@) + before_queue.skip(1)
                            =~= seq_views(before_out) + before_queue);
                    }
                },
                None => {
                    proof {
                        assert(false);
                    }
                },
            }
        }
        proof {
            assert(self@ =~= Seq::<Seq<char>>::empty());
            assert(seq_views(commands@) =~= seq_views(commands@) + self@);
        }
        commands
    }
}

} // verus!
