use vstd::prelude::*;
use crate::error::TableError;
use crate::protocol::Message;
use crate::table::{
    GameState, Phase, bet_applied, bet_error, fold_applied, fold_error, join_error, seat_of, settled,
};

verus! {

/// The live client connections, by connection id, in the order they were
/// registered. No id appears twice.
pub struct ConnectionRegistry {
    ids: Vec<usize>,
}

impl View for ConnectionRegistry {
    type V = Seq<usize>;

    closed spec fn view(&self) -> Seq<usize> {
        self.ids@
    }
}

/// The connections that stay registered after a broadcast in which the
/// writes to `failed` went wrong.
pub open spec fn survivors(conns: Seq<usize>, failed: Seq<usize>) -> Seq<usize>
    decreases conns.len(),
{
    if conns.len() == 0 {
        conns
    } else {
        let kept = survivors(conns.drop_last(), failed);
        if failed.contains(conns.last()) { kept } else { kept.push(conns.last()) }
    }
}

/// A failed write isolates only its own connection: every registered
/// connection whose write did not fail stays registered, and so receives
/// the snapshots of later actions too.
pub proof fn lemma_broadcast_isolation(conns: Seq<usize>, failed: Seq<usize>, c: usize)
    requires
        conns.contains(c),
        !failed.contains(c),
    ensures
        survivors(conns, failed).contains(c),
    decreases conns.len(),
{
    let kept = survivors(conns.drop_last(), failed);
    if conns.last() == c {
        lemma_push_contains(kept, c, c);
    } else {
        let j = choose|j: int| 0 <= j < conns.len() && conns[j] == c;
        assert(conns.drop_last()[j] == c);
        lemma_broadcast_isolation(conns.drop_last(), failed, c);
        if !failed.contains(conns.last()) {
            lemma_push_contains(kept, conns.last(), c);
        }
    }
}

proof fn lemma_push_contains(s: Seq<usize>, x: usize, y: usize)
    ensures
        s.push(x).contains(y) <==> (s.contains(y) || x == y),
{
    if s.push(x).contains(y) {
        let j = choose|j: int| 0 <= j < s.push(x).len() && s.push(x)[j] == y;
        if j < s.len() {
            assert(s[j] == y);
        }
    }
    if s.contains(y) {
        let j = choose|j: int| 0 <= j < s.len() && s[j] == y;
        assert(s.push(x)[j] == y);
    }
    if x == y {
        assert(s.push(x)[s.len() as int] == y);
    }
}

impl ConnectionRegistry {
    pub fn new() -> (r: ConnectionRegistry)
        ensures
            r@ == Seq::<usize>::empty(),
    {
        ConnectionRegistry { ids: Vec::new() }
    }

    pub fn contains(&self, id: usize) -> (r: bool)
        ensures
            r == self@.contains(id),
    {
        let mut i: usize = 0;
        while i < self.ids.len()
            invariant
                i <= self.ids@.len(),
                forall|j: int| 0 <= j < i ==> self.ids@[j] != id,
            decreases self.ids@.len() - i,
        {
            if self.ids[i] == id {
                assert(self.ids@[i as int] == id);
                return true;
            }
            i = i + 1;
        }
        false
    }

    /// Adds a connection; an id that is already registered is refused.
    pub fn register(&mut self, id: usize) -> (added: bool)
        requires
            old(self)@.no_duplicates(),
        ensures
            final(self)@.no_duplicates(),
            added == !old(self)@.contains(id),
            added ==> final(self)@ == old(self)@.push(id),
            !added ==> final(self)@ == old(self)@,
    {
        if self.contains(id) {
            false
        } else {
            self.ids.push(id);
            proof {
                assert forall|a: int, b: int| 0 <= a < b < self@.len() implies self@[a] != self@[b] by {
                    if b == self@.len() - 1 {
                        assert(old(self)@.contains(self@[a]) || self@[a] != id);
                    }
                }
            }
            true
        }
    }

    /// The connections that the next snapshot goes to: all registered ones.
    pub fn targets(&self) -> (r: Vec<usize>)
        ensures
            r@ == self@,
    {
        self.ids.clone()
    }

    /// Forgets the connections whose write failed during a broadcast. Every
    /// other connection stays, in the same order, and so receives the
    /// following snapshots.
    pub fn drop_failed(&mut self, failed: &Vec<usize>)
        requires
            old(self)@.no_duplicates(),
        ensures
            final(self)@ == survivors(old(self)@, failed@),
            final(self)@.no_duplicates(),
            forall|c: usize| final(self)@.contains(c) <==> (old(self)@.contains(c) && !failed@.contains(c)),
    {
        let ghost s0 = self.ids@;
        let mut kept: Vec<usize> = Vec::new();
        let mut i: usize = 0;
        while i < self.ids.len()
            invariant
                self.ids@ == s0,
                s0.no_duplicates(),
                i <= s0.len(),
                kept@ == survivors(s0.take(i as int), failed@),
                kept@.no_duplicates(),
                forall|c: usize| kept@.contains(c) <==> (s0.take(i as int).contains(c) && !failed@.contains(c)),
            decreases s0.len() - i,
        {
            let id = self.ids[i];
            let mut hit = false;
            let mut k: usize = 0;
            while k < failed.len()
                invariant
                    k <= failed@.len(),
                    hit == failed@.take(k as int).contains(id),
                decreases failed@.len() - k,
            {
                proof {
                    assert(failed@.take(k + 1) =~= failed@.take(k as int).push(failed@[k as int]));
                    lemma_push_contains(failed@.take(k as int), failed@[k as int], id);
                }
                if failed[k] == id {
                    hit = true;
                }
                k = k + 1;
            }
            proof {
                assert(failed@.take(k as int) =~= failed@);
                assert(s0.take(i + 1).drop_last() =~= s0.take(i as int));
                assert(s0.take(i + 1) =~= s0.take(i as int).push(id));
                assert(!s0.take(i as int).contains(id)) by {
                    if s0.take(i as int).contains(id) {
                        let j = choose|j: int| 0 <= j < i && s0.take(i as int)[j] == id;
                        assert(s0[j] == s0[i as int]);
                    }
                }
            }
            let ghost k0 = kept@;
            if !hit {
                kept.push(id);
            }
            proof {
                let t = s0.take(i + 1);
                assert(t.last() == id);
                assert(t.drop_last() =~= s0.take(i as int));
                lemma_push_contains(s0.take(i as int), id, id);
                assert forall|c: usize| kept@.contains(c) <==> (s0.take(i + 1).contains(c) && !failed@.contains(c)) by {
                    lemma_push_contains(s0.take(i as int), id, c);
                    lemma_push_contains(k0, id, c);
                }
            }
            i = i + 1;
        }
        proof {
            assert(s0.take(i as int) =~= s0);
        }
        self.ids = kept;
    }
}

/// What the serving side does after the coordinator handled one message.
#[derive(Clone, Copy, Debug, PartialEq, Eq, Structural)]
pub enum Outcome {
    /// The table changed: send the new snapshot to every connection.
    Broadcast,
    /// The action was refused and the table is unchanged: tell the sender.
    Rejected(TableError),
    /// The sender broke the protocol (a client never sends a snapshot or an
    /// error): close its connection.
    Disconnect,
}

/// The single writer of the table: applies the messages of all connections
/// one at a time, in the order they arrive. A player's id is the id of the
/// connection that joined; a bet or fold acts for the connection that sent
/// it, whatever id the message names. A connection that closes is only
/// dropped from the registry: its seat is kept and nothing is folded for it.
pub struct Coordinator {
    pub state: GameState,
    pub starting_cash: u64,
}

impl Coordinator {
    /// An empty table whose players each sit down with `starting_cash`.
    pub fn new(starting_cash: u64) -> (c: Coordinator)
        ensures
            c.state.wf(),
            c.state.players@.len() == 0,
            c.state.phase == Phase::WaitingForPlayers,
            c.starting_cash == starting_cash,
    {
        Coordinator { state: GameState::new(), starting_cash }
    }

    /// Applies one message from connection `sender` to the table.
    pub fn handle(&mut self, sender: usize, msg: Message) -> (o: Outcome)
        requires
            old(self).state.wf(),
        ensures
            final(self).state.wf(),
            final(self).starting_cash == old(self).starting_cash,
            match msg {
                Message::Join(name) => match join_error(old(self).state, sender, old(self).starting_cash) {
                    Some(e) => o == Outcome::Rejected(e) && final(self).state == old(self).state,
                    None => {
                        let n = old(self).state.players@.len();
                        &&& o == Outcome::Broadcast
                        &&& final(self).state.players@.len() == n + 1
                        &&& final(self).state.players@[n as int].id == sender
                        &&& final(self).state.players@[n as int].name == name
                        &&& final(self).state.players@[n as int].cash == old(self).starting_cash
                    },
                },
                Message::Bet(_, amount) => match bet_error(old(self).state, sender, amount) {
                    Some(e) => o == Outcome::Rejected(e) && final(self).state == old(self).state,
                    None => o == Outcome::Broadcast && exists|m: GameState|
                        bet_applied(old(self).state, m, seat_of(old(self).state.players@, sender), amount)
                        && #[trigger] settled(m, final(self).state),
                },
                Message::Fold(_) => match fold_error(old(self).state, sender) {
                    Some(e) => o == Outcome::Rejected(e) && final(self).state == old(self).state,
                    None => o == Outcome::Broadcast && exists|m: GameState|
                        fold_applied(old(self).state, m, seat_of(old(self).state.players@, sender))
                        && #[trigger] settled(m, final(self).state),
                },
                Message::Update(_) | Message::Error(_) => o == Outcome::Disconnect
                    && final(self).state == old(self).state,
            },
    {
        match msg {
            Message::Join(name) => {
                let cash = self.starting_cash;
                match self.state.add_player(sender, name, cash) {
                    Ok(()) => Outcome::Broadcast,
                    Err(e) => Outcome::Rejected(e),
                }
            },
            Message::Bet(_, amount) => {
                match self.state.place_bet(sender, amount) {
                    Ok(()) => Outcome::Broadcast,
                    Err(e) => Outcome::Rejected(e),
                }
            },
            Message::Fold(_) => {
                match self.state.fold(sender) {
                    Ok(()) => Outcome::Broadcast,
                    Err(e) => Outcome::Rejected(e),
                }
            },
            Message::Update(_) | Message::Error(_) => Outcome::Disconnect,
        }
    }
}

} // verus!
