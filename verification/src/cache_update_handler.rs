//! Tells connected clients which objects a transaction has written.
//!
//! A message is the serialised list of written objects behind its length, least significant byte
//! first.

use crate::delivery::{
    law_round_keeps_the_survivors, outcomes_of, parts_view, survivors, writes_of, Round,
};
use crate::framing::{
    law_length_bytes_are_digits, law_stream_reads_back, length_bytes, length_header, read_stream,
    stream_of, ByteOrder,
};
use vstd::prelude::*;

verus! {

/// Where clients connect for cache updates.
pub const SOCKET_PATH: &'static str = "/tmp/sui_cache_updates.sock";

/// The parts in which a cache update is written: the length, then the serialised objects.
pub open spec fn cache_update_parts(serialized: Seq<u8>) -> Seq<Seq<u8>> {
    seq![length_bytes(ByteOrder::Little, serialized.len()), serialized]
}

/// The connected clients, and the cache update that is on its way to them.
#[derive(Debug)]
pub struct CacheUpdateHandler<C> {
    socket_path: String,
    connections: Vec<C>,
    /// The parts of the update; empty when none is on its way.
    parts: Vec<Vec<u8>>,
    /// The position of the connection being served.
    index: usize,
    /// How many parts it has taken.
    sent: usize,
}

impl<C> CacheUpdateHandler<C> {
    /// The connections in the order in which they are served.
    pub closed spec fn connections(&self) -> Seq<C> {
        self.connections@
    }

    /// The path of the socket.
    pub closed spec fn path(&self) -> Seq<char> {
        self.socket_path@
    }

    /// How far the update has got. The connections before the one being served were kept.
    pub closed spec fn round(&self) -> Round<C> {
        if self.parts@.len() == 0 {
            Round::idle(self.connections@)
        } else {
            Round {
                kept: self.connections@.take(self.index as int),
                waiting: self.connections@.skip(self.index as int),
                sent: self.sent as nat,
                message: parts_view(self.parts@),
            }
        }
    }

    /// While an update is on its way, the position is that of a connection and a part is due.
    pub closed spec fn wf(&self) -> bool {
        self.parts@.len() > 0 ==> self.index < self.connections@.len() && self.sent
            < self.parts@.len()
    }

    /// A handler without connections at the fixed socket path.
    pub fn new() -> (handler: Self)
        ensures
            handler.wf(),
            handler.path() == SOCKET_PATH@,
            handler.path() == "/tmp/sui_cache_updates.sock"@,
            handler.connections() == Seq::<C>::empty(),
            handler.round() == Round::idle(Seq::<C>::empty()),
    {
        CacheUpdateHandler {
            socket_path: SOCKET_PATH.to_owned(),
            connections: Vec::new(),
            parts: Vec::new(),
            index: 0,
            sent: 0,
        }
    }

    /// The path of the socket on which clients connect.
    pub fn socket_path(&self) -> (path: &str)
        ensures
            path@ == self.path(),
    {
        self.socket_path.as_str()
    }

    /// Takes in what listening on the socket gave: a new connection is served from now on, and
    /// an error changes nothing.
    pub fn accepted<E>(&mut self, outcome: Result<C, E>)
        requires
            old(self).wf(),
        ensures
            final(self).wf(),
            final(self).path() == old(self).path(),
            outcome matches Ok(connection) ==> {
                &&& final(self).connections() == old(self).connections().push(connection)
                &&& final(self).round() == (if old(self).round().waiting.len() == 0 {
                    Round::idle(final(self).connections())
                } else {
                    Round { waiting: old(self).round().waiting.push(connection), ..old(self).round() }
                })
            },
            outcome is Err ==> *final(self) == *old(self),
    {
        match outcome {
            Ok(connection) => {
                self.connections.push(connection);
                proof {
                    let index = self.index as int;
                    if self.parts@.len() > 0 {
                        assert(self.connections@.take(index) =~= old(self).connections@.take(index));
                        assert(self.connections@.skip(index) =~= old(self).connections@.skip(
                            index,
                        ).push(connection));
                    }
                }
            },
            Err(_) => {},
        }
    }

    /// Starts to send the serialised list of written objects to every connection. An update that
    /// was still on its way is given up; its connections stay.
    pub fn notify_written(&mut self, serialized: Vec<u8>)
        requires
            old(self).wf(),
        ensures
            final(self).wf(),
            final(self).path() == old(self).path(),
            final(self).connections() == old(self).connections(),
            final(self).round() == Round::start(
                old(self).connections(),
                cache_update_parts(serialized@),
            ),
    {
        let mut parts: Vec<Vec<u8>> = Vec::new();
        if self.connections.len() > 0 {
            parts.push(length_header(ByteOrder::Little, serialized.len()));
            parts.push(serialized);
            assert(parts_view(parts@) =~= cache_update_parts(serialized@));
        }
        self.parts = parts;
        self.index = 0;
        self.sent = 0;
        assert(self.connections@.take(0) =~= Seq::<C>::empty());
        assert(self.connections@.skip(0) =~= self.connections@);
    }

    /// The write that is due: the connection and the bytes that it is handed, or nothing when
    /// the update has been sent.
    pub fn next_write(&self) -> (write: Option<(&C, &[u8])>)
        requires
            self.wf(),
        ensures
            match write {
                None => self.round().due() is None,
                Some((connection, bytes)) => self.round().due() == Some((*connection, bytes@)),
            },
    {
        if self.parts.len() == 0 {
            None
        } else {
            Some((&self.connections[self.index], self.parts[self.sent].as_slice()))
        }
    }

    /// Takes in whether the write that was due succeeded. A connection that fails a write is
    /// removed; one that took every part stays where it is.
    pub fn written(&mut self, ok: bool)
        requires
            old(self).wf(),
        ensures
            final(self).wf(),
            final(self).path() == old(self).path(),
            final(self).round() == old(self).round().after(ok),
            final(self).connections() == final(self).round().kept + final(self).round().waiting,
    {
        let count: usize = self.connections.len();
        let ghost round = self.round();
        let ghost index = self.index as int;
        let ghost before = self.connections@;
        if self.parts.len() == 0 {
            assert(before + Seq::<C>::empty() =~= before);
            return;
        }
        if !ok {
            self.connections.remove(self.index);
            self.sent = 0;
            assert(self.connections@.take(index) =~= round.kept);
            assert(self.connections@.skip(index) =~= round.waiting.drop_first());
        } else if self.sent + 1 == self.parts.len() {
            assert(self.index < count);
            self.index = self.index + 1;
            self.sent = 0;
            assert(before.take(index + 1) =~= round.kept.push(round.waiting[0]));
            assert(before.skip(index + 1) =~= round.waiting.drop_first());
        } else {
            self.sent = self.sent + 1;
        }
        let ghost at = self.index as int;
        assert(self.connections@ =~= self.connections@.take(at) + self.connections@.skip(at));
        if self.index == self.connections.len() {
            assert(self.connections@.take(at) =~= self.connections@);
            self.parts = Vec::new();
            self.index = 0;
            self.sent = 0;
        }
        assert(self.round().kept + self.round().waiting =~= self.connections@);
    }
}

impl<C> Default for CacheUpdateHandler<C> {
    fn default() -> (handler: Self)
        ensures
            handler.wf(),
            handler.path() == SOCKET_PATH@,
            handler.path() == "/tmp/sui_cache_updates.sock"@,
            handler.connections() == Seq::<C>::empty(),
            handler.round() == Round::idle(Seq::<C>::empty()),
    {
        Self::new()
    }
}

/// How far an update has got is well described at all times, so what holds of every round holds
/// of every update.
pub proof fn law_update_is_a_round<C>(handler: CacheUpdateHandler<C>)
    requires
        handler.wf(),
    ensures
        handler.round().wf(),
        handler.round().kept + handler.round().waiting == handler.connections(),
        handler.round().waiting.len() > 0 ==> handler.round().sent < handler.round().message.len(),
        handler.round().waiting.len() == 0 ==> handler.round().message.len() == 0,
{
    let index = handler.index as int;
    if handler.parts@.len() > 0 {
        assert(handler.connections@ =~= handler.connections@.take(index)
            + handler.connections@.skip(index));
    } else {
        assert(handler.connections@ + Seq::<C>::empty() =~= handler.connections@);
    }
}

/// The write that is due is the next part of the update for the first connection that waits, which
/// stands right behind those that were kept; none is due exactly when nobody waits.
pub proof fn law_next_part_goes_to_the_first_that_waits<C>(
    handler: &CacheUpdateHandler<C>,
    write: Option<(&C, &[u8])>,
)
    requires
        handler.wf(),
        call_ensures(CacheUpdateHandler::<C>::next_write, (handler,), write),
    ensures
        write is None <==> handler.round().waiting.len() == 0,
        write matches Some((connection, bytes)) ==> {
            &&& *connection == handler.round().waiting[0]
            &&& *connection == handler.connections()[handler.round().kept.len() as int]
            &&& bytes@ == handler.round().message[handler.round().sent as int]
        },
{
    law_update_is_a_round(*handler);
}

/// An update is written in two parts: the number of bytes of the serialised objects in base 256
/// with four digits, the lowest first, and then these bytes as they are.
pub proof fn law_update_is_length_and_objects(serialized: Seq<u8>)
    ensures
        ({
            let parts = cache_update_parts(serialized);
            &&& parts.len() == 2
            &&& parts[0].len() == 4
            &&& parts[0][0] == serialized.len() % 256
            &&& parts[0][1] == (serialized.len() / 0x100) % 256
            &&& parts[0][2] == (serialized.len() / 0x1_0000) % 256
            &&& parts[0][3] == (serialized.len() / 0x100_0000) % 256
            &&& parts[1] == serialized
        }),
{
    law_length_bytes_are_digits(ByteOrder::Little, serialized.len());
}

/// An update reaches every client or drops it: when client `i` takes `taken[i]` of the two parts,
/// exactly the clients that took both stay connected, in the order in which they connected, and
/// no client is handed anything but the length and then the objects.
pub proof fn law_update_keeps_the_clients_that_took_it<C>(
    connections: Seq<C>,
    serialized: Seq<u8>,
    taken: Seq<nat>,
)
    requires
        taken.len() == connections.len(),
        forall|i: int| 0 <= i < taken.len() ==> #[trigger] taken[i] <= 2,
    ensures
        ({
            let round = Round::start(connections, cache_update_parts(serialized));
            let outcomes = outcomes_of(taken, 2);
            &&& round.after_all(outcomes) == Round::idle(survivors(connections, taken, 2))
            &&& round.writes(outcomes) == writes_of(
                connections,
                taken,
                cache_update_parts(serialized),
            )
        }),
{
    law_round_keeps_the_survivors(connections, taken, cache_update_parts(serialized));
}

/// The bytes of several cache updates in a row.
pub open spec fn cache_update_stream(updates: Seq<Seq<u8>>) -> Seq<u8>
    decreases updates.len(),
{
    if updates.len() == 0 {
        Seq::empty()
    } else {
        let parts = cache_update_parts(updates[0]);
        parts[0] + parts[1] + cache_update_stream(updates.drop_first())
    }
}

/// A client that stays connected reads back every update that it was sent, in order, provided
/// that the length of each fits in four bytes.
pub proof fn law_client_reads_every_update(updates: Seq<Seq<u8>>)
    requires
        forall|i: int| 0 <= i < updates.len() ==> (#[trigger] updates[i]).len() < 0x1_0000_0000,
    ensures
        read_stream(ByteOrder::Little, cache_update_stream(updates)) == Some(updates),
{
    lemma_updates_are_frames(updates);
    law_stream_reads_back(ByteOrder::Little, updates);
}

/// The bytes of cache updates are frames with the length least significant byte first.
proof fn lemma_updates_are_frames(updates: Seq<Seq<u8>>)
    ensures
        cache_update_stream(updates) == stream_of(ByteOrder::Little, updates),
    decreases updates.len(),
{
    if updates.len() > 0 {
        lemma_updates_are_frames(updates.drop_first());
    }
}

/// Whether a handle that is being dropped takes the socket down with it: only the last of the
/// `references` to the socket does.
pub fn closes_socket(references: usize) -> (closes: bool)
    ensures
        closes == (references == 1),
{
    references == 1
}

} // verus!
