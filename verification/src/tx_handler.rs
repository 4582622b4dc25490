//! Streams the effects and the events of transactions to connected clients.
//!
//! A message is the serialised effects behind their length, then the serialised events behind
//! theirs, both lengths most significant byte first.

use crate::delivery::{
    law_round_keeps_the_survivors, outcomes_of, parts_view, survivors, writes_of, Round,
};
use crate::framing::{
    frame, law_length_bytes_are_digits, law_stream_reads_back, length_bytes, length_header,
    read_stream, stream_of, ByteOrder,
};
use vstd::prelude::*;

verus! {

/// Where clients connect unless the environment names another path.
pub const DEFAULT_TX_SOCKET_PATH: &'static str = "/tmp/sui_tx.sock";

/// The path of the socket: what the environment names, if it names one.
pub fn tx_socket_path(named: Option<String>) -> (path: String)
    ensures
        named matches Some(name) ==> path@ == name@,
        named is None ==> path@ == DEFAULT_TX_SOCKET_PATH@,
        named is None ==> path@ == "/tmp/sui_tx.sock"@,
{
    match named {
        Some(name) => name,
        None => DEFAULT_TX_SOCKET_PATH.to_owned(),
    }
}

/// The parts in which effects and events are written: each behind its length.
pub open spec fn tx_parts(effects: Seq<u8>, events: Seq<u8>) -> Seq<Seq<u8>> {
    seq![
        length_bytes(ByteOrder::Big, effects.len()),
        effects,
        length_bytes(ByteOrder::Big, events.len()),
        events,
    ]
}

/// The connected clients, and the message that is on its way to them.
#[derive(Debug)]
pub struct TxHandler<C> {
    path: String,
    /// The connections; while a message is on its way, those that still wait for their turn.
    conns: Vec<C>,
    /// The connection being served.
    current: Option<C>,
    /// The connections that took the whole message.
    active: Vec<C>,
    /// The parts of the message; empty when none is on its way.
    parts: Vec<Vec<u8>>,
    /// How many parts the connection being served has taken.
    sent: usize,
}

impl<C> TxHandler<C> {
    /// The connections that no message holds at the moment.
    pub closed spec fn conns(&self) -> Seq<C> {
        self.conns@
    }

    /// The path of the socket.
    pub closed spec fn socket(&self) -> Seq<char> {
        self.path@
    }

    /// How far the message has got. The connections that wait are served from the last to the
    /// first.
    pub closed spec fn round(&self) -> Round<C> {
        if self.parts@.len() == 0 {
            Round::idle(self.conns@)
        } else {
            Round {
                kept: self.active@,
                waiting: seq![self.current->0] + self.conns@.reverse(),
                sent: self.sent as nat,
                message: parts_view(self.parts@),
            }
        }
    }

    /// A connection is being served, and a part is due, exactly while a message is on its way.
    pub closed spec fn wf(&self) -> bool {
        &&& self.parts@.len() > 0 <==> self.current is Some
        &&& self.parts@.len() > 0 ==> self.sent < self.parts@.len()
    }

    /// A handler without connections at the given path.
    pub fn new(path: &str) -> (handler: Self)
        ensures
            handler.wf(),
            handler.socket() == path@,
            handler.conns() == Seq::<C>::empty(),
            handler.round() == Round::idle(Seq::<C>::empty()),
    {
        TxHandler {
            path: path.to_owned(),
            conns: Vec::new(),
            current: None,
            active: Vec::new(),
            parts: Vec::new(),
            sent: 0,
        }
    }

    /// The path of the socket on which clients connect.
    pub fn path(&self) -> (path: &str)
        ensures
            path@ == self.socket(),
    {
        self.path.as_str()
    }

    /// Takes in what listening on the socket gave: a new connection is served from now on, and
    /// an error changes nothing. A connection that comes while a message is on its way is served
    /// next.
    pub fn accepted<E>(&mut self, outcome: Result<C, E>)
        requires
            old(self).wf(),
        ensures
            final(self).wf(),
            final(self).socket() == old(self).socket(),
            outcome matches Ok(conn) ==> {
                &&& final(self).conns() == old(self).conns().push(conn)
                &&& final(self).round() == (if old(self).round().waiting.len() == 0 {
                    Round::idle(final(self).conns())
                } else {
                    Round { waiting: old(self).round().waiting.insert(1, conn), ..old(self).round() }
                })
            },
            outcome is Err ==> *final(self) == *old(self),
    {
        match outcome {
            Ok(conn) => {
                self.conns.push(conn);
                assert(self.round().waiting =~= (if old(self).round().waiting.len() == 0 {
                    Seq::<C>::empty()
                } else {
                    old(self).round().waiting.insert(1, conn)
                }));
            },
            Err(_) => {},
        }
    }

    /// Starts to send serialised effects and events to every connection, the last one first. A
    /// message that was still on its way is given up, and so are the connections that it holds.
    /// If either could not be serialised nothing is sent, and the error is returned, that of the
    /// effects before that of the events.
    pub fn send_tx_effects_and_events<E>(
        &mut self,
        effects: Result<Vec<u8>, E>,
        events: Result<Vec<u8>, E>,
    ) -> (started: Result<(), E>)
        requires
            old(self).wf(),
        ensures
            final(self).wf(),
            final(self).socket() == old(self).socket(),
            match (effects, events) {
                (Err(e), _) => started == Err::<(), E>(e) && *final(self) == *old(self),
                (Ok(_), Err(e)) => started == Err::<(), E>(e) && *final(self) == *old(self),
                (Ok(effects_bytes), Ok(events_bytes)) => {
                    &&& started is Ok
                    &&& final(self).round() == Round::start(
                        old(self).conns().reverse(),
                        tx_parts(effects_bytes@, events_bytes@),
                    )
                    &&& final(self).round().waiting.len() == 0 ==> final(self).conns()
                        == final(self).round().kept
                },
            },
    {
        let effects_bytes = match effects {
            Ok(bytes) => bytes,
            Err(e) => {
                return Err(e);
            },
        };
        let events_bytes = match events {
            Ok(bytes) => bytes,
            Err(e) => {
                return Err(e);
            },
        };
        let ghost waiting = self.conns@.reverse();
        self.current = self.conns.pop();
        self.active = Vec::new();
        self.sent = 0;
        let mut parts: Vec<Vec<u8>> = Vec::new();
        if self.current.is_some() {
            parts.push(length_header(ByteOrder::Big, effects_bytes.len()));
            parts.push(effects_bytes);
            parts.push(length_header(ByteOrder::Big, events_bytes.len()));
            parts.push(events_bytes);
            assert(parts_view(parts@) =~= tx_parts(effects_bytes@, events_bytes@));
            assert(seq![self.current->0] + self.conns@.reverse() =~= waiting);
        } else {
            assert(waiting =~= self.conns@);
        }
        self.parts = parts;
        Ok(())
    }

    /// The write that is due: the connection and the bytes that it is handed, or nothing when
    /// the message has been sent.
    pub fn next_write(&self) -> (write: Option<(&C, &[u8])>)
        requires
            self.wf(),
        ensures
            match write {
                None => self.round().due() is None,
                Some((conn, bytes)) => self.round().due() == Some((*conn, bytes@)),
            },
    {
        match &self.current {
            None => None,
            Some(conn) => Some((conn, self.parts[self.sent].as_slice())),
        }
    }

    /// Takes in whether the write that was due succeeded. A connection that fails a write is
    /// dropped; one that took every part is put back once the message has been sent.
    pub fn written(&mut self, ok: bool)
        requires
            old(self).wf(),
        ensures
            final(self).wf(),
            final(self).socket() == old(self).socket(),
            final(self).round() == old(self).round().after(ok),
            final(self).round().waiting.len() == 0 ==> final(self).conns()
                == final(self).round().kept,
    {
        let ghost round = self.round();
        if self.parts.len() == 0 {
            return;
        }
        if ok && self.sent + 1 < self.parts.len() {
            self.sent = self.sent + 1;
            return;
        }
        let served = self.current.take();
        if ok {
            if let Some(conn) = served {
                self.active.push(conn);
            }
        }
        let ghost rest = self.conns@.reverse();
        assert(round.waiting.drop_first() =~= rest);
        self.sent = 0;
        self.current = self.conns.pop();
        if self.current.is_none() {
            self.parts = Vec::new();
            self.conns.append(&mut self.active);
            assert(self.conns@ =~= round.after(ok).kept);
        } else {
            assert(seq![self.current->0] + self.conns@.reverse() =~= rest);
        }
    }
}

/// How far a message has got is well described at all times, so what holds of every round holds
/// of every message. While a message is on its way, the connections that it does not hold are
/// those that still wait for their turn, the next one last.
pub proof fn law_message_is_a_round<C>(handler: TxHandler<C>)
    requires
        handler.wf(),
    ensures
        handler.round().wf(),
        handler.round().waiting.len() == 0 ==> handler.round().kept == handler.conns(),
        handler.round().waiting.len() > 0 ==> handler.round().waiting.drop_first()
            == handler.conns().reverse(),
        handler.round().waiting.len() > 0 ==> handler.round().sent < handler.round().message.len(),
        handler.round().waiting.len() == 0 ==> handler.round().message.len() == 0,
{
    assert((seq![handler.current->0] + handler.conns@.reverse()).drop_first()
        =~= handler.conns@.reverse());
}

/// The write that is due is the next part of the message for the first connection that waits; none
/// is due exactly when nobody waits.
pub proof fn law_next_part_goes_to_the_first_that_waits<C>(
    handler: &TxHandler<C>,
    write: Option<(&C, &[u8])>,
)
    requires
        handler.wf(),
        call_ensures(TxHandler::<C>::next_write, (handler,), write),
    ensures
        write is None <==> handler.round().waiting.len() == 0,
        write matches Some((conn, bytes)) ==> {
            &&& *conn == handler.round().waiting[0]
            &&& bytes@ == handler.round().message[handler.round().sent as int]
        },
{
    law_message_is_a_round(*handler);
}

/// A message is written in four parts: the number of bytes of the effects in base 256 with four
/// digits, the highest first, and then these bytes as they are; and the same of the events.
pub proof fn law_message_is_effects_then_events(effects: Seq<u8>, events: Seq<u8>)
    ensures
        ({
            let parts = tx_parts(effects, events);
            &&& parts.len() == 4
            &&& parts[0].len() == 4
            &&& parts[0][0] == (effects.len() / 0x100_0000) % 256
            &&& parts[0][1] == (effects.len() / 0x1_0000) % 256
            &&& parts[0][2] == (effects.len() / 0x100) % 256
            &&& parts[0][3] == effects.len() % 256
            &&& parts[1] == effects
            &&& parts[2].len() == 4
            &&& parts[2][0] == (events.len() / 0x100_0000) % 256
            &&& parts[2][1] == (events.len() / 0x1_0000) % 256
            &&& parts[2][2] == (events.len() / 0x100) % 256
            &&& parts[2][3] == events.len() % 256
            &&& parts[3] == events
        }),
{
    law_length_bytes_are_digits(ByteOrder::Big, effects.len());
    law_length_bytes_are_digits(ByteOrder::Big, events.len());
}

/// A message reaches every client or drops it: when the client served `i`-th takes `taken[i]` of
/// the four parts, exactly the clients that took all of them stay connected, and their order is
/// the order in which they were served, which is the reverse of the order before.
pub proof fn law_message_keeps_the_clients_that_took_it<C>(
    conns: Seq<C>,
    effects: Seq<u8>,
    events: Seq<u8>,
    taken: Seq<nat>,
)
    requires
        taken.len() == conns.len(),
        forall|i: int| 0 <= i < taken.len() ==> #[trigger] taken[i] <= 4,
    ensures
        ({
            let round = Round::start(conns.reverse(), tx_parts(effects, events));
            let outcomes = outcomes_of(taken, 4);
            &&& round.after_all(outcomes) == Round::idle(survivors(conns.reverse(), taken, 4))
            &&& round.writes(outcomes) == writes_of(
                conns.reverse(),
                taken,
                tx_parts(effects, events),
            )
        }),
{
    law_round_keeps_the_survivors(conns.reverse(), taken, tx_parts(effects, events));
}

/// A message that every client takes turns their order around, so after two such messages the
/// order is what it was.
pub proof fn law_message_reverses_the_clients<C>(
    conns: Seq<C>,
    effects: Seq<u8>,
    events: Seq<u8>,
    taken: Seq<nat>,
)
    requires
        taken.len() == conns.len(),
        forall|i: int| 0 <= i < taken.len() ==> #[trigger] taken[i] == 4,
    ensures
        Round::start(conns.reverse(), tx_parts(effects, events)).after_all(outcomes_of(taken, 4))
            == Round::idle(conns.reverse()),
        conns.reverse().reverse() == conns,
{
    law_message_keeps_the_clients_that_took_it(conns, effects, events, taken);
    lemma_all_survive(conns.reverse(), taken, 4);
    assert(conns.reverse().reverse() =~= conns);
}

/// When every connection takes every part, all of them survive.
proof fn lemma_all_survive<C>(connections: Seq<C>, taken: Seq<nat>, parts: nat)
    requires
        taken.len() == connections.len(),
        forall|i: int| 0 <= i < taken.len() ==> #[trigger] taken[i] == parts,
    ensures
        survivors(connections, taken, parts) == connections,
    decreases connections.len(),
{
    if connections.len() > 0 {
        lemma_all_survive(connections.drop_first(), taken.drop_first(), parts);
        assert(connections =~= seq![connections[0]] + connections.drop_first());
    } else {
        assert(connections =~= Seq::empty());
    }
}

/// The bytes of several messages in a row, each given by its effects and its events.
pub open spec fn tx_stream(messages: Seq<(Seq<u8>, Seq<u8>)>) -> Seq<u8>
    decreases messages.len(),
{
    if messages.len() == 0 {
        Seq::empty()
    } else {
        let parts = tx_parts(messages[0].0, messages[0].1);
        parts[0] + parts[1] + parts[2] + parts[3] + tx_stream(messages.drop_first())
    }
}

/// The payloads of several messages: effects and events by turns.
pub open spec fn tx_payloads(messages: Seq<(Seq<u8>, Seq<u8>)>) -> Seq<Seq<u8>>
    decreases messages.len(),
{
    if messages.len() == 0 {
        Seq::empty()
    } else {
        seq![messages[0].0, messages[0].1] + tx_payloads(messages.drop_first())
    }
}

/// A client that stays connected reads back the effects and the events of every message, in
/// order, provided that the length of each fits in four bytes.
pub proof fn law_client_reads_every_message(messages: Seq<(Seq<u8>, Seq<u8>)>)
    requires
        forall|i: int|
            0 <= i < messages.len() ==> (#[trigger] messages[i]).0.len() < 0x1_0000_0000
                && messages[i].1.len() < 0x1_0000_0000,
    ensures
        read_stream(ByteOrder::Big, tx_stream(messages)) == Some(tx_payloads(messages)),
{
    lemma_messages_are_frames(messages);
    law_stream_reads_back(ByteOrder::Big, tx_payloads(messages));
}

/// The bytes of messages are frames with the length most significant byte first.
proof fn lemma_messages_are_frames(messages: Seq<(Seq<u8>, Seq<u8>)>)
    requires
        forall|i: int|
            0 <= i < messages.len() ==> (#[trigger] messages[i]).0.len() < 0x1_0000_0000
                && messages[i].1.len() < 0x1_0000_0000,
    ensures
        tx_stream(messages) == stream_of(ByteOrder::Big, tx_payloads(messages)),
        forall|i: int|
            0 <= i < tx_payloads(messages).len() ==> (#[trigger] tx_payloads(messages)[i]).len()
                < 0x1_0000_0000,
    decreases messages.len(),
{
    if messages.len() > 0 {
        let rest = messages.drop_first();
        lemma_messages_are_frames(rest);
        let (effects, events) = messages[0];
        let payloads = tx_payloads(messages);
        let later = tx_payloads(rest);
        assert(payloads.drop_first() =~= seq![events] + later);
        assert(payloads.drop_first().drop_first() =~= later);
        assert(stream_of(ByteOrder::Big, payloads.drop_first()) == frame(ByteOrder::Big, events)
            + stream_of(ByteOrder::Big, later));
        assert(tx_stream(messages) =~= stream_of(ByteOrder::Big, payloads));
        assert forall|i: int| 0 <= i < payloads.len() implies (#[trigger] payloads[i]).len()
            < 0x1_0000_0000 by {
            if i >= 2 {
                assert(payloads[i] == later[i - 2]);
            }
        }
    }
}

} // verus!
