//! Sending messages into a queue that keeps them in order.
use vstd::prelude::*;

verus! {

/// Something messages can be sent to.
pub trait Messenger {
    /// Sends `msg`.
    fn send(&mut self, msg: String);
}

/// Keeps every message sent to it, oldest first.
#[derive(Debug)]
pub struct MsgQueue {
    msg_cache: Vec<String>,
}

impl MsgQueue {
    /// The texts of the messages kept, oldest first.
    pub closed spec fn messages(&self) -> Seq<Seq<char>> {
        Seq::new(self.msg_cache@.len(), |i: int| self.msg_cache@[i]@)
    }

    /// A queue with no messages.
    pub fn new() -> (q: MsgQueue)
        ensures
            q.messages() == Seq::<Seq<char>>::empty(),
    {
        let q = MsgQueue { msg_cache: Vec::new() };
        assert(q.messages() =~= Seq::<Seq<char>>::empty());
        q
    }

    /// How many messages are kept.
    pub fn len(&self) -> (n: usize)
        ensures
            n == self.messages().len(),
    {
        self.msg_cache.len()
    }

    /// The message at `i`, counting from the oldest.
    pub fn message_at(&self, i: usize) -> (m: &String)
        requires
            i < self.messages().len(),
        ensures
            m@ == self.messages()[i as int],
    {
        &self.msg_cache[i]
    }
}

impl Messenger for MsgQueue {
    /// Appends `msg` after the messages already kept.
    fn send(&mut self, msg: String)
        ensures
            final(self).messages() == old(self).messages().push(msg@),
    {
        let ghost text = msg@;
        self.msg_cache.push(msg);
        assert(self.messages() =~= old(self).messages().push(text));
    }
}

} // verus!
