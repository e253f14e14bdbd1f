//! The life of one connection to the venue.
use vstd::prelude::*;

use crate::books::{with_resets, Books};
use crate::feed_handler::ShardInfo;
use crate::pacing::{doubled, Backoff, RECONNECT_BASE, RECONNECT_JITTER, RECONNECT_MAX};
use crate::text::texts;

verus! {

/// What came over a connection.
#[derive(Debug, Clone, Copy, PartialEq, Eq, Structural)]
pub enum Frame {
    Text,
    Ping,
    Close,
    Error,
    Other,
}

/// What is to be done about it.
#[derive(Debug, Clone, Copy, PartialEq, Eq, Structural)]
pub enum FrameAction {
    /// Read the message.
    Read,
    /// Answer the ping.
    Answer,
    /// Give the connection up.
    Disconnect,
    /// Nothing.
    Ignore,
}

/// What is to be done about what came over a connection.
pub fn frame_action(frame: Frame) -> (r: FrameAction)
    ensures
        r == FrameAction::Read <==> frame == Frame::Text,
        r == FrameAction::Answer <==> frame == Frame::Ping,
        r == FrameAction::Disconnect <==> frame == Frame::Close || frame == Frame::Error,
        r == FrameAction::Ignore <==> frame == Frame::Other,
{
    match frame {
        Frame::Text => FrameAction::Read,
        Frame::Ping => FrameAction::Answer,
        Frame::Close => FrameAction::Disconnect,
        Frame::Error => FrameAction::Disconnect,
        Frame::Other => FrameAction::Ignore,
    }
}

/// A connection that follows some symbols, and is made again whenever it breaks.
#[derive(Debug)]
pub struct Session {
    symbols: Vec<String>,
    backoff: Backoff,
}

impl Session {
    /// The symbols that the connection follows.
    pub closed spec fn followed(&self) -> Seq<Seq<char>> {
        texts(self.symbols@)
    }

    /// The next wait, the random part not counted.
    pub closed spec fn next_wait(&self) -> u64 {
        self.backoff.next()
    }

    /// Waits are between `RECONNECT_BASE` and `RECONNECT_MAX`.
    pub closed spec fn wf(&self) -> bool {
        &&& self.backoff.wf()
        &&& self.backoff.first() == RECONNECT_BASE
        &&& self.backoff.longest() == RECONNECT_MAX
    }

    /// No wait is shorter than the first one or longer than the limit, the random part not
    /// counted.
    pub proof fn waits_are_bounded(&self)
        requires
            self.wf(),
        ensures
            RECONNECT_BASE <= self.next_wait() <= RECONNECT_MAX,
    {
    }

    /// A connection that was not made yet.
    pub fn new(symbols: Vec<String>) -> (r: Session)
        ensures
            r.wf(),
            r.followed() == texts(symbols@),
            r.next_wait() == RECONNECT_BASE,
    {
        Session { symbols, backoff: Backoff::new(RECONNECT_BASE, RECONNECT_MAX) }
    }

    /// The symbols that the connection follows.
    pub fn symbols(&self) -> (r: &[String])
        ensures
            texts(r@) == self.followed(),
    {
        self.symbols.as_slice()
    }

    /// Before the connection is made: its books are emptied, for what they hold is not in
    /// sequence with what will come.
    pub fn connecting(&self, books: &mut Books)
        requires
            self.wf(),
            old(books).wf(),
        ensures
            final(books).wf(),
            final(books)@ == with_resets(old(books)@, self.followed()),
    {
        books.reset(self.symbols.as_slice());
    }

    /// The connection was made: waits start anew.
    pub fn connected(&mut self, shard: &mut ShardInfo)
        requires
            old(self).wf(),
        ensures
            final(self).wf(),
            final(self).followed() == old(self).followed(),
            final(self).next_wait() == RECONNECT_BASE,
            *final(shard) == (ShardInfo { connected: true, ..*old(shard) }),
    {
        shard.connected = true;
        self.backoff.succeeded();
    }

    /// The connection broke, or could not be made. Its books are emptied at once, so that
    /// none of them is taken for live meanwhile. Gives the wait before the next try, to
    /// which `jitter` is added, so that many connections do not come back all at once.
    pub fn disconnected(&mut self, books: &mut Books, shard: &mut ShardInfo, jitter: u64) -> (r: u64)
        requires
            old(self).wf(),
            old(books).wf(),
            jitter < RECONNECT_JITTER,
        ensures
            final(self).wf(),
            final(self).followed() == old(self).followed(),
            final(self).next_wait() == doubled(old(self).next_wait(), RECONNECT_MAX),
            final(books).wf(),
            final(books)@ == with_resets(old(books)@, old(self).followed()),
            *final(shard) == (ShardInfo { connected: false, ..*old(shard) }),
            r == old(self).next_wait() + jitter,
    {
        shard.connected = false;
        books.reset(self.symbols.as_slice());
        self.backoff.failed() + jitter
    }
}

} // verus!
