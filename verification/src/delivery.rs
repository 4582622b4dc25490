//! One message on its way to many connections.
//!
//! The connections are served one after the other. Each is handed the parts of the message in
//! order, and the next part only when the one before was written. A connection that takes every
//! part is kept; one that fails a write is dropped on the spot.

use vstd::prelude::*;

verus! {

/// The bytes of every part of a message.
pub open spec fn parts_view(parts: Seq<Vec<u8>>) -> Seq<Seq<u8>> {
    Seq::new(parts.len(), |i: int| parts[i]@)
}

/// How far a message has got.
#[verifier::ext_equal]
pub struct Round<C> {
    /// The connections that took the whole message, in the order in which they were served.
    pub kept: Seq<C>,
    /// The connections still to be served, the one being served first.
    pub waiting: Seq<C>,
    /// How many parts the connection being served has taken.
    pub sent: nat,
    /// The parts of the message; empty when no message is on its way.
    pub message: Seq<Seq<u8>>,
}

impl<C> Round<C> {
    /// Nothing is on its way to `connections`.
    pub open spec fn idle(connections: Seq<C>) -> Self {
        Round { kept: connections, waiting: Seq::empty(), sent: 0, message: Seq::empty() }
    }

    /// `message` is about to go to `connections`.
    pub open spec fn start(connections: Seq<C>, message: Seq<Seq<u8>>) -> Self {
        if connections.len() == 0 {
            Self::idle(connections)
        } else {
            Round { kept: Seq::empty(), waiting: connections, sent: 0, message }
        }
    }

    /// A part is due exactly while some connection waits for the message.
    pub open spec fn wf(self) -> bool {
        &&& self.waiting.len() > 0 <==> self.message.len() > 0
        &&& self.waiting.len() > 0 ==> self.sent < self.message.len()
        &&& self.waiting.len() == 0 ==> self.sent == 0
    }

    /// The write that is due: the connection and the bytes it is handed.
    pub open spec fn due(self) -> Option<(C, Seq<u8>)> {
        if self.waiting.len() == 0 {
            None
        } else {
            Some((self.waiting[0], self.message[self.sent as int]))
        }
    }

    /// The round once the connection being served is done with.
    pub open spec fn next_connection(self, kept: Seq<C>) -> Self {
        if self.waiting.len() <= 1 {
            Self::idle(kept)
        } else {
            Round { kept, waiting: self.waiting.drop_first(), sent: 0, message: self.message }
        }
    }

    /// The round after the write that was due, which succeeded or failed.
    pub open spec fn after(self, written: bool) -> Self {
        if self.waiting.len() == 0 {
            self
        } else if !written {
            self.next_connection(self.kept)
        } else if self.sent + 1 == self.message.len() {
            self.next_connection(self.kept.push(self.waiting[0]))
        } else {
            Round { sent: self.sent + 1, ..self }
        }
    }

    /// The round after several writes, of which the outcomes are given in order.
    pub open spec fn after_all(self, outcomes: Seq<bool>) -> Self
        decreases outcomes.len(),
    {
        if outcomes.len() == 0 {
            self
        } else {
            self.after(outcomes[0]).after_all(outcomes.drop_first())
        }
    }

    /// The writes that several outcomes answer, in order.
    pub open spec fn writes(self, outcomes: Seq<bool>) -> Seq<(C, Seq<u8>)>
        decreases outcomes.len(),
    {
        if outcomes.len() == 0 || self.due() is None {
            Seq::empty()
        } else {
            seq![self.due()->0] + self.after(outcomes[0]).writes(outcomes.drop_first())
        }
    }

    /// The outcomes answer every write that comes due until the round has ended, and no more.
    pub open spec fn answered_by(self, outcomes: Seq<bool>) -> bool
        decreases outcomes.len(),
    {
        if self.due() is None || outcomes.len() == 0 {
            self.due() is None && outcomes.len() == 0
        } else {
            self.after(outcomes[0]).answered_by(outcomes.drop_first())
        }
    }

    /// How many writes are still to come if all of them succeed.
    pub open spec fn left(self) -> nat {
        (self.waiting.len() * self.message.len() - self.sent) as nat
    }
}

/// The outcomes at a connection that takes `taken` of `parts` parts: that many successes, and a
/// failure if a part is missing.
pub open spec fn outcomes_at(taken: nat, parts: nat) -> Seq<bool> {
    let taken_all = Seq::new(taken, |i: int| true);
    if taken < parts {
        taken_all.push(false)
    } else {
        taken_all
    }
}

/// The outcomes at several connections, of which connection `i` takes `taken[i]` parts.
pub open spec fn outcomes_of(taken: Seq<nat>, parts: nat) -> Seq<bool>
    decreases taken.len(),
{
    if taken.len() == 0 {
        Seq::empty()
    } else {
        outcomes_at(taken[0], parts) + outcomes_of(taken.drop_first(), parts)
    }
}

/// The connections that take every part, in the order in which they are served.
pub open spec fn survivors<C>(connections: Seq<C>, taken: Seq<nat>, parts: nat) -> Seq<C>
    decreases connections.len(),
{
    if connections.len() == 0 || taken.len() == 0 {
        Seq::empty()
    } else {
        let rest = survivors(connections.drop_first(), taken.drop_first(), parts);
        if taken[0] == parts {
            seq![connections[0]] + rest
        } else {
            rest
        }
    }
}

/// The writes at one connection: the parts in order, up to and with the one that fails.
pub open spec fn writes_at<C>(connection: C, taken: nat, message: Seq<Seq<u8>>) -> Seq<(
    C,
    Seq<u8>,
)> {
    Seq::new(
        outcomes_at(taken, message.len()).len(),
        |i: int| (connection, message[i]),
    )
}

/// The writes at several connections, one connection after the other.
pub open spec fn writes_of<C>(
    connections: Seq<C>,
    taken: Seq<nat>,
    message: Seq<Seq<u8>>,
) -> Seq<(C, Seq<u8>)>
    decreases connections.len(),
{
    if connections.len() == 0 || taken.len() == 0 {
        Seq::empty()
    } else {
        writes_at(connections[0], taken[0], message) + writes_of(
            connections.drop_first(),
            taken.drop_first(),
            message,
        )
    }
}

/// A round begins well formed and stays so, whatever the outcomes.
pub proof fn law_round_stays_well_formed<C>(
    connections: Seq<C>,
    message: Seq<Seq<u8>>,
    round: Round<C>,
    written: bool,
)
    requires
        message.len() > 0,
        round.wf(),
    ensures
        Round::start(connections, message).wf(),
        round.after(written).wf(),
{
}

/// Every round ends: each outcome brings it nearer to its end, and it has ended exactly when no
/// write is due.
pub proof fn law_round_ends<C>(round: Round<C>, written: bool)
    requires
        round.wf(),
    ensures
        round.due() is None <==> round.left() == 0,
        round.due() is Some ==> round.after(written).left() < round.left(),
{
    let n = round.waiting.len() as int;
    let parts = round.message.len() as int;
    if n > 0 {
        assert(n * parts >= parts) by (nonlinear_arith)
            requires
                n >= 1,
                parts >= 1,
        ;
        assert((n - 1) * parts == n * parts - parts) by (nonlinear_arith);
    } else {
        assert(n * parts == 0) by (nonlinear_arith)
            requires
                n == 0,
        ;
    }
}

/// A message reaches every connection independently of the others. When connection `i` takes
/// `taken[i]` parts before a write fails, the round ends with exactly those connections that took
/// every part, in the order in which they were served; and each connection was handed the parts
/// in order, each once, up to the one that failed.
pub proof fn law_round_keeps_the_survivors<C>(
    connections: Seq<C>,
    taken: Seq<nat>,
    message: Seq<Seq<u8>>,
)
    requires
        message.len() > 0,
        taken.len() == connections.len(),
        forall|i: int| 0 <= i < taken.len() ==> #[trigger] taken[i] <= message.len(),
    ensures
        Round::start(connections, message).after_all(outcomes_of(taken, message.len()))
            == Round::idle(survivors(connections, taken, message.len())),
        Round::start(connections, message).writes(outcomes_of(taken, message.len())) == writes_of(
            connections,
            taken,
            message,
        ),
{
    lemma_serve_rest(Seq::empty(), connections, taken, message);
    let none = Seq::<C>::empty();
    let kept = survivors(connections, taken, message.len());
    assert(none + kept =~= kept);
    if connections.len() == 0 {
        assert(connections =~= none);
    }
}

/// Whatever the outcomes of a whole round are, they are those of connections that each take some
/// number of parts: so what is said of such connections holds of every round.
pub proof fn law_every_round_is_a_choice_of_survivors<C>(
    connections: Seq<C>,
    message: Seq<Seq<u8>>,
    outcomes: Seq<bool>,
) -> (taken: Seq<nat>)
    requires
        message.len() > 0,
        Round::start(connections, message).answered_by(outcomes),
    ensures
        taken.len() == connections.len(),
        forall|i: int| 0 <= i < taken.len() ==> #[trigger] taken[i] <= message.len(),
        outcomes == outcomes_of(taken, message.len()),
{
    if connections.len() == 0 {
        assert(outcomes =~= Seq::empty());
        Seq::empty()
    } else {
        lemma_parts_taken(Round::start(connections, message), outcomes)
    }
}

/// The number of parts that each waiting connection takes, read off the outcomes. Of the
/// connection being served only the parts still to come are counted.
proof fn lemma_parts_taken<C>(round: Round<C>, outcomes: Seq<bool>) -> (taken: Seq<nat>)
    requires
        round.wf(),
        round.waiting.len() > 0,
        round.answered_by(outcomes),
    ensures
        taken.len() == round.waiting.len(),
        taken[0] + round.sent <= round.message.len(),
        forall|i: int| 0 <= i < taken.len() ==> #[trigger] taken[i] <= round.message.len(),
        outcomes == outcomes_at(taken[0], (round.message.len() - round.sent) as nat) + outcomes_of(
            taken.drop_first(),
            round.message.len(),
        ),
    decreases outcomes.len(),
{
    let parts = round.message.len();
    let open = (parts - round.sent) as nat;
    let written = outcomes[0];
    let rest = outcomes.drop_first();
    let next = round.after(written);
    assert(outcomes =~= seq![written] + rest);
    assert(next.answered_by(rest));
    if written && round.sent + 1 < parts {
        let later = lemma_parts_taken(next, rest);
        let taken = seq![later[0] + 1] + later.drop_first();
        assert(taken.drop_first() =~= later.drop_first());
        assert(outcomes_at(taken[0], open) =~= seq![true] + outcomes_at(
            later[0],
            (open - 1) as nat,
        ));
        assert(outcomes =~= outcomes_at(taken[0], open) + outcomes_of(taken.drop_first(), parts));
        taken
    } else {
        let first: nat = if written { 1 } else { 0 };
        assert(outcomes_at(first, open) =~= seq![written]);
        let later = if round.waiting.len() == 1 {
            assert(rest =~= Seq::empty());
            Seq::empty()
        } else {
            lemma_parts_taken(next, rest)
        };
        let taken = seq![first] + later;
        assert(taken.drop_first() =~= later);
        assert(rest =~= outcomes_of(later, parts));
        taken
    }
}

/// A round that has kept some connections goes on to keep the survivors among the others.
proof fn lemma_serve_rest<C>(
    kept: Seq<C>,
    connections: Seq<C>,
    taken: Seq<nat>,
    message: Seq<Seq<u8>>,
)
    requires
        message.len() > 0,
        taken.len() == connections.len(),
        forall|i: int| 0 <= i < taken.len() ==> #[trigger] taken[i] <= message.len(),
    ensures
        ({
            let round = if connections.len() == 0 {
                Round::idle(kept)
            } else {
                Round { kept, waiting: connections, sent: 0, message }
            };
            let outcomes = outcomes_of(taken, message.len());
            &&& round.after_all(outcomes) == Round::idle(
                kept + survivors(connections, taken, message.len()),
            )
            &&& round.writes(outcomes) == writes_of(connections, taken, message)
        }),
    decreases connections.len(),
{
    let parts = message.len();
    if connections.len() == 0 {
        assert(kept + survivors(connections, taken, parts) =~= kept);
    } else {
        let rest = connections.drop_first();
        let taken_rest = taken.drop_first();
        let now_kept = if taken[0] == parts { kept.push(connections[0]) } else { kept };
        let tail = outcomes_of(taken_rest, parts);
        lemma_serve_rest(now_kept, rest, taken_rest, message);
        lemma_serve_one(kept, connections, 0, taken[0], message, tail);
        assert(now_kept + survivors(rest, taken_rest, parts) =~= kept + survivors(
            connections,
            taken,
            parts,
        ));
        let due = Seq::new(
            outcomes_at(taken[0], parts).len(),
            |i: int| (connections[0], message[0 + i]),
        );
        assert(due =~= writes_at(connections[0], taken[0], message));
    }
}

/// The outcomes at one connection take a round to the next connection.
proof fn lemma_serve_one<C>(
    kept: Seq<C>,
    waiting: Seq<C>,
    sent: nat,
    more: nat,
    message: Seq<Seq<u8>>,
    tail: Seq<bool>,
)
    requires
        waiting.len() > 0,
        sent < message.len(),
        sent + more <= message.len(),
    ensures
        ({
            let round = Round { kept, waiting, sent, message };
            let parts = message.len();
            let outcomes = outcomes_at(more, (parts - sent) as nat);
            let now_kept = if sent + more == parts { kept.push(waiting[0]) } else { kept };
            let next = round.next_connection(now_kept);
            let due = Seq::new(outcomes.len(), |i: int| (waiting[0], message[sent + i]));
            &&& round.after_all(outcomes + tail) == next.after_all(tail)
            &&& round.writes(outcomes + tail) == due + next.writes(tail)
        }),
    decreases more,
{
    let round = Round { kept, waiting, sent, message };
    let parts = message.len();
    let outcomes = outcomes_at(more, (parts - sent) as nat);
    let now_kept = if sent + more == parts { kept.push(waiting[0]) } else { kept };
    let next = round.next_connection(now_kept);
    let due = Seq::new(outcomes.len(), |i: int| (waiting[0], message[sent + i]));
    let all = outcomes + tail;
    assert(due[0] == round.due()->0);
    if more == 0 || (more == 1 && sent + 1 == parts) {
        assert(outcomes.len() == 1);
        assert(all.drop_first() =~= tail);
        assert(due =~= seq![due[0]]);
        assert(round.after(all[0]) == next);
    } else {
        let fewer = outcomes_at((more - 1) as nat, (parts - sent - 1) as nat);
        assert(all.drop_first() =~= fewer + tail);
        assert(all[0]);
        lemma_serve_one(kept, waiting, sent + 1, (more - 1) as nat, message, tail);
        let due_later = Seq::new(fewer.len(), |i: int| (waiting[0], message[sent + 1 + i]));
        let due_rest = Seq::new(
            fewer.len(),
            |i: int| (waiting[0], message[(sent + 1) as nat + i]),
        );
        assert(due_rest =~= due_later);
        assert(due =~= seq![due[0]] + due_later);
        assert(due + next.writes(tail) =~= seq![due[0]] + (due_later + next.writes(tail)));
    }
}

/// Where a round begins: nobody was served yet, everybody waits, and the first part is due at the
/// first connection. With nobody to be served there is no round.
pub proof fn law_round_begins_at_the_first_connection<C>(
    connections: Seq<C>,
    message: Seq<Seq<u8>>,
)
    ensures
        connections.len() > 0 ==> {
            let round = Round::start(connections, message);
            &&& round.kept.len() == 0
            &&& round.waiting == connections
            &&& round.sent == 0
            &&& round.message == message
            &&& round.due() == Some((connections[0], message[0]))
        },
        connections.len() == 0 ==> {
            let round = Round::start(connections, message);
            &&& round.kept.len() == 0
            &&& round.waiting.len() == 0
            &&& round.sent == 0
            &&& round.message.len() == 0
            &&& round.due() is None
        },
        Round::idle(connections).kept == connections,
        Round::idle(connections).waiting.len() == 0,
        Round::idle(connections).sent == 0,
        Round::idle(connections).message.len() == 0,
{
}

/// What one write does. A part that is not the last only counts as sent. A connection that takes
/// the last part is kept behind those kept before, and one that fails a part is not; either way
/// the next connection is served, from the first part on, and the round ends with the last one.
pub proof fn law_one_write_moves_the_round_one_step<C>(round: Round<C>, written: bool)
    requires
        round.waiting.len() > 0,
        round.sent < round.message.len(),
    ensures
        round.due() == Some((round.waiting[0], round.message[round.sent as int])),
        written && round.sent + 1 < round.message.len() ==> {
            let next = round.after(written);
            &&& next.kept == round.kept
            &&& next.waiting == round.waiting
            &&& next.sent == round.sent + 1
            &&& next.message == round.message
        },
        written && round.sent + 1 == round.message.len() ==> round.after(written).kept
            == round.kept.push(round.waiting[0]),
        !written ==> round.after(written).kept == round.kept,
        !written || round.sent + 1 == round.message.len() ==> {
            let next = round.after(written);
            &&& next.waiting == round.waiting.drop_first()
            &&& next.sent == 0
            &&& round.waiting.len() > 1 ==> next.message == round.message
            &&& round.waiting.len() == 1 ==> next.message.len() == 0
        },
{
    if round.waiting.len() == 1 {
        assert(round.waiting.drop_first() =~= Seq::empty());
    }
}

/// A round at which no connection waits is over, and no outcome changes it.
pub proof fn law_ended_round_stays_as_it_is<C>(round: Round<C>, written: bool)
    requires
        round.waiting.len() == 0,
    ensures
        round.due() is None,
        round.after(written) == round,
{
}

/// A whole round, when connection `i` takes the first `taken[i]` parts and fails the next, if there
/// is one. Each connection in turn is handed the parts from the first on, up to and with the one
/// that it fails; at the end nobody waits, and kept are those that took every part, in the order
/// in which they were served.
pub proof fn law_whole_round<C>(connections: Seq<C>, taken: Seq<nat>, message: Seq<Seq<u8>>)
    requires
        message.len() > 0,
        taken.len() == connections.len(),
        forall|i: int| 0 <= i < taken.len() ==> #[trigger] taken[i] <= message.len(),
    ensures
        ({
            let parts = message.len();
            let handed = |i: int| if taken[i] < parts { taken[i] + 1 } else { parts };
            let outcomes = Seq::new(
                connections.len(),
                |i: int| Seq::new(handed(i), |k: int| k < taken[i]),
            ).flatten();
            let writes = Seq::new(
                connections.len(),
                |i: int| Seq::new(handed(i), |k: int| (connections[i], message[k])),
            ).flatten();
            let end = Round::start(connections, message).after_all(outcomes);
            &&& Round::start(connections, message).writes(outcomes) == writes
            &&& end.waiting.len() == 0
            &&& end.kept == Seq::new(
                connections.len(),
                |i: int| (connections[i], taken[i]),
            ).filter(|served: (C, nat)| served.1 == parts).map_values(|served: (C, nat)| served.0)
        }),
{
    let parts = message.len();
    let handed = |i: int| if taken[i] < parts { taken[i] + 1 } else { parts };
    law_round_keeps_the_survivors(connections, taken, message);
    lemma_outcomes_flatten(taken, parts);
    assert(Seq::new(connections.len(), |i: int| Seq::new(handed(i), |k: int| k < taken[i]))
        =~~= Seq::new(taken.len(), |i: int| outcomes_at(taken[i], parts)));
    lemma_writes_flatten(connections, taken, message);
    assert(Seq::new(
        connections.len(),
        |i: int| Seq::new(handed(i), |k: int| (connections[i], message[k])),
    ) =~~= Seq::new(connections.len(), |i: int| writes_at(connections[i], taken[i], message)));
    lemma_survivors_filtered(connections, taken, parts);
}

/// The outcomes at several connections, one connection after the other.
proof fn lemma_outcomes_flatten(taken: Seq<nat>, parts: nat)
    ensures
        outcomes_of(taken, parts) == Seq::new(
            taken.len(),
            |i: int| outcomes_at(taken[i], parts),
        ).flatten(),
    decreases taken.len(),
{
    let all = Seq::new(taken.len(), |i: int| outcomes_at(taken[i], parts));
    if taken.len() > 0 {
        let rest = taken.drop_first();
        lemma_outcomes_flatten(rest, parts);
        assert(all.drop_first() =~= Seq::new(rest.len(), |i: int| outcomes_at(rest[i], parts)));
    }
}

/// The writes at several connections, one connection after the other.
proof fn lemma_writes_flatten<C>(connections: Seq<C>, taken: Seq<nat>, message: Seq<Seq<u8>>)
    requires
        taken.len() == connections.len(),
    ensures
        writes_of(connections, taken, message) == Seq::new(
            connections.len(),
            |i: int| writes_at(connections[i], taken[i], message),
        ).flatten(),
    decreases connections.len(),
{
    let all = Seq::new(
        connections.len(),
        |i: int| writes_at(connections[i], taken[i], message),
    );
    if connections.len() > 0 {
        let rest = connections.drop_first();
        let taken_rest = taken.drop_first();
        lemma_writes_flatten(rest, taken_rest, message);
        assert(all.drop_first() =~= Seq::new(
            rest.len(),
            |i: int| writes_at(rest[i], taken_rest[i], message),
        ));
    }
}

/// The survivors are what is left when the connections that missed a part are taken away.
proof fn lemma_survivors_filtered<C>(connections: Seq<C>, taken: Seq<nat>, parts: nat)
    requires
        taken.len() == connections.len(),
    ensures
        survivors(connections, taken, parts) == Seq::new(
            connections.len(),
            |i: int| (connections[i], taken[i]),
        ).filter(|served: (C, nat)| served.1 == parts).map_values(|served: (C, nat)| served.0),
    decreases connections.len(),
{
    let all = Seq::new(connections.len(), |i: int| (connections[i], taken[i]));
    let took_all = |served: (C, nat)| served.1 == parts;
    let connection = |served: (C, nat)| served.0;
    if connections.len() == 0 {
        reveal(Seq::filter);
        assert(all.filter(took_all).map_values(connection) =~= Seq::empty());
    } else {
        let rest = connections.drop_first();
        let taken_rest = taken.drop_first();
        let later = Seq::new(rest.len(), |i: int| (rest[i], taken_rest[i]));
        lemma_survivors_filtered(rest, taken_rest, parts);
        assert(all =~= seq![all[0]] + later);
        later.lemma_filter_prepend(all[0], took_all);
        if taken[0] == parts {
            assert(all.filter(took_all).map_values(connection) =~= seq![connections[0]]
                + later.filter(took_all).map_values(connection));
        } else {
            assert(all.filter(took_all) =~= later.filter(took_all));
        }
    }
}

} // verus!
