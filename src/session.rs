use vstd::prelude::*;
use vstd::string::StringExecFns;

use crate::api::{
    Attacking, Click, ConnectionQueue, Deselecting, Die, End, EndState, Error, Field, Hurt, Moving,
    Selecting, State, StateKind, Update, CMD_CLICK,
};
use crate::game::{Action, Game, GameError};
use crate::grid::cell_index;
use crate::hex::Hex;
use crate::play::{moved_of, random_field, random_outcome, restored};
use crate::point::Point;

verus! {

broadcast use vstd::std_specs::hash::group_hash_axioms;

/// The seat `k` places after `cur` at a table of `n` seats.
pub open spec fn seat_after(cur: int, k: int, n: int) -> int {
    if cur + k < n {
        cur + k
    } else {
        cur + k - n
    }
}

/// The turn passes from seat `cur` of `n` to seat `next`: the first seat
/// after `cur`, going round, whose player has a unit in `alive`; it stays
/// when no seat does.
pub open spec fn turn_passes(cur: int, n: int, alive: Set<u32>, next: int) -> bool {
    if n == 0 || forall|k: int| 1 <= k <= n ==> !alive.contains(#[trigger] seat_after(cur, k, n) as u32) {
        next == cur
    } else {
        exists|k: int|
            1 <= k <= n && next == #[trigger] seat_after(cur, k, n) && alive.contains(next as u32) && forall|j: int|
                1 <= j < k ==> !alive.contains(#[trigger] seat_after(cur, j, n) as u32)
    }
}

/// Every seat of a table of `n` comes within `n` places after any seat.
pub proof fn lemma_every_seat_comes(cur: int, n: int, p: int)
    requires
        0 <= cur < n,
        0 <= p < n,
    ensures
        exists|k: int| 1 <= k <= n && #[trigger] seat_after(cur, k, n) == p,
{
    if p > cur {
        assert(seat_after(cur, p - cur, n) == p);
    } else {
        assert(seat_after(cur, p + n - cur, n) == p);
    }
}

/// Whenever a player of the match still has a unit, passing the turn lands
/// on such a player.
pub proof fn lemma_turn_lands_on_living_player(cur: int, n: int, alive: Set<u32>, next: int, p: int)
    requires
        0 <= cur < n,
        0 <= p < n,
        alive.contains(p as u32),
        turn_passes(cur, n, alive, next),
    ensures
        alive.contains(next as u32),
        0 <= next < n,
{
    lemma_every_seat_comes(cur, n, p);
}

/// An outbound event.
#[derive(Debug)]
pub enum Event {
    Field(Field),
    Selecting(Selecting),
    Deselecting(Deselecting),
    Moving(Moving),
    Attacking(Attacking),
    State(State),
    Error(Error),
    Hurt(Hurt),
    Die(Die),
    Update(Update),
    End(End),
    Queue(ConnectionQueue),
}

/// What an outbound event says, with sequences in place of vectors.
pub enum Note {
    Field(u32, u32, Seq<Hex>),
    Selecting(Point, Seq<Point>),
    Deselecting(Point),
    Moving(Seq<Hex>),
    Attacking(Point, Point),
    State(StateKind),
    Error(Seq<char>),
    Hurt(Seq<Hex>),
    Die(Seq<Hex>),
    Update(Seq<Hex>),
    End(EndState),
    Queue(u32, u32, bool),
}

impl Event {
    pub open spec fn note(&self) -> Note {
        match self {
            Event::Field(f) => Note::Field(f.num_x, f.num_y, f.field.hexes@),
            Event::Selecting(s) => Note::Selecting(s.target, s.highlight_hexes@),
            Event::Deselecting(d) => Note::Deselecting(d.target),
            Event::Moving(m) => Note::Moving(m.coords@),
            Event::Attacking(a) => Note::Attacking(a.from, a.to),
            Event::State(s) => Note::State(s.state),
            Event::Error(e) => Note::Error(e.message@),
            Event::Hurt(h) => Note::Hurt(h.hexes@),
            Event::Die(d) => Note::Die(d.hexes@),
            Event::Update(u) => Note::Update(u.hexes@),
            Event::End(e) => Note::End(e.you_win),
            Event::Queue(q) => Note::Queue(q.players_number, q.your_number, q.game_started),
        }
    }
}

/// An event and the clients it is for.
#[derive(Debug)]
pub struct Outgoing {
    pub recipients: Vec<u64>,
    pub event: Event,
}

/// What was sent: for each message, its recipients and what it says.
pub type Sent = Seq<(Seq<u64>, Note)>;

/// The clients `clients[i]` for `i < n`, `i != skip`, in order.
pub open spec fn players_but(clients: Seq<u64>, n: int, skip: int) -> Seq<u64>
    decreases n,
{
    if n <= 0 {
        Seq::empty()
    } else if n - 1 == skip || n - 1 >= clients.len() {
        players_but(clients, n - 1, skip)
    } else {
        players_but(clients, n - 1, skip).push(clients[n - 1])
    }
}

/// The connection queue as each client is told it, in join order.
pub open spec fn queue_notes(clients: Seq<u64>, started: bool) -> Sent {
    Seq::new(
        clients.len(),
        |i: int| (seq![clients[i]], Note::Queue(clients.len() as u32, (i + 1) as u32, started)),
    )
}

/// The session: the connected clients in join order, of which the first
/// `num_of_players` play the current match and the others watch it; the
/// game; whose turn it is; and the messages not yet delivered.
#[derive(Debug)]
pub struct GameServer {
    pub clients: Vec<u64>,
    pub game: Game,
    pub current_player: usize,
    pub num_of_players: usize,
    pub game_started: bool,
    pub outbox: Vec<Outgoing>,
}

/// A list of one client.
fn only(to: u64) -> (r: Vec<u64>)
    ensures
        r@ == seq![to],
{
    let mut r: Vec<u64> = Vec::new();
    r.push(to);
    assert(r@ =~= seq![to]);
    r
}

impl GameServer {
    /// The session's invariant: a well-formed game, the turn at a seat of
    /// the match, and, while a match is on, its players all connected.
    pub open spec fn wf(&self) -> bool {
        &&& self.seats_wf()
        &&& (self.game_started ==> 2 <= self.num_of_players <= self.clients@.len())
    }

    /// The invariant but for what a running match needs.
    pub open spec fn seats_wf(&self) -> bool {
        &&& self.game.wf()
        &&& self.num_of_players <= u32::MAX
        &&& self.clients@.len() < u32::MAX
        &&& (self.num_of_players == 0 ==> self.current_player == 0)
        &&& (self.num_of_players > 0 ==> self.current_player < self.num_of_players)
    }

    /// The messages in the outbox.
    pub open spec fn sent(&self) -> Sent {
        self.outbox@.map_values(|o: Outgoing| (o.recipients@, o.event.note()))
    }

    /// A message for the current player, if the seat is taken.
    pub open spec fn to_current(&self, n: Note) -> Sent {
        if self.current_player < self.clients@.len() {
            seq![(seq![self.clients@[self.current_player as int]], n)]
        } else {
            Seq::empty()
        }
    }

    /// What dropping the selection tells the current player.
    pub open spec fn deselect_notes(&self) -> Sent {
        match self.game.selected_hex {
            Some(h) => self.to_current(Note::Deselecting(h.spec_point())) + self.to_current(
                Note::State(StateKind::Select),
            ),
            None => Seq::empty(),
        }
    }

    /// Whether `sender` holds the seat whose turn it is.
    pub open spec fn check_turn(&self, sender: u64) -> bool {
        self.current_player < self.clients@.len() && self.clients@[self.current_player as int] == sender
    }

    /// Everything but the game and the outbox is as in `o`.
    pub open spec fn same_seats(&self, o: GameServer) -> bool {
        &&& self.clients == o.clients
        &&& self.current_player == o.current_player
        &&& self.num_of_players == o.num_of_players
        &&& self.game_started == o.game_started
    }

    /// A session with no client and no match.
    pub fn new() -> (r: GameServer)
        ensures
            r.wf(),
            r.clients@.len() == 0,
            r.current_player == 0,
            r.num_of_players == 0,
            !r.game_started,
            r.outbox@.len() == 0,
            r.game.field.num_x == 0 && r.game.field.num_y == 0,
    {
        GameServer {
            clients: Vec::new(),
            game: Game::new(0, 0),
            current_player: 0,
            num_of_players: 0,
            game_started: false,
            outbox: Vec::new(),
        }
    }

    /// Hands over the messages not yet delivered, oldest first.
    pub fn take_outbox(&mut self) -> (r: Vec<Outgoing>)
        ensures
            r@ == old(self).outbox@,
            final(self).outbox@.len() == 0,
            final(self).same_seats(*old(self)),
            final(self).game == old(self).game,
    {
        let mut r: Vec<Outgoing> = Vec::new();
        r.append(&mut self.outbox);
        assert(r@ =~= old(self).outbox@);
        r
    }

    fn post(&mut self, recipients: Vec<u64>, event: Event)
        ensures
            final(self).sent() == old(self).sent().push((recipients@, event.note())),
            final(self).same_seats(*old(self)),
            final(self).game == old(self).game,
    {
        let ghost n = event.note();
        let ghost r = recipients@;
        self.outbox.push(Outgoing { recipients, event });
        assert(self.sent() =~= old(self).sent().push((r, n)));
    }

    /// Sends `event` to every client.
    pub fn broadcast(&mut self, event: Event)
        ensures
            final(self).sent() == old(self).sent().push((old(self).clients@, event.note())),
            final(self).same_seats(*old(self)),
            final(self).game == old(self).game,
    {
        let mut all: Vec<u64> = Vec::new();
        let mut i: usize = 0;
        while i < self.clients.len()
            invariant
                i <= self.clients@.len(),
                all@ == self.clients@.subrange(0, i as int),
            decreases self.clients@.len() - i,
        {
            all.push(self.clients[i]);
            i = i + 1;
        }
        assert(all@ =~= self.clients@);
        self.post(all, event);
    }

    /// Sends `event` to the current player.
    pub fn send_current_player(&mut self, event: Event)
        ensures
            final(self).sent() == old(self).sent() + old(self).to_current(event.note()),
            final(self).same_seats(*old(self)),
            final(self).game == old(self).game,
    {
        if self.current_player < self.clients.len() {
            let to = self.clients[self.current_player];
            let ghost n = event.note();
            self.post(only(to), event);
            assert(self.sent() =~= old(self).sent() + old(self).to_current(n));
        } else {
            assert(self.sent() =~= old(self).sent() + old(self).to_current(event.note()));
        }
    }

    /// Sends `event` to the players of the match but the current one.
    pub fn send_other_players(&mut self, event: Event)
        ensures
            final(self).sent() == old(self).sent().push(
                (
                    players_but(
                        old(self).clients@,
                        old(self).num_of_players as int,
                        old(self).current_player as int,
                    ),
                    event.note(),
                ),
            ),
            final(self).same_seats(*old(self)),
            final(self).game == old(self).game,
    {
        let mut others: Vec<u64> = Vec::new();
        let mut i: usize = 0;
        while i < self.num_of_players
            invariant
                i <= self.num_of_players,
                others@ == players_but(self.clients@, i as int, self.current_player as int),
            decreases self.num_of_players - i,
        {
            if i != self.current_player && i < self.clients.len() {
                others.push(self.clients[i]);
            }
            i = i + 1;
        }
        self.post(others, event);
    }

    /// Tells the current player that its intent `cmd` was refused.
    fn send_error(&mut self, cmd: String)
        ensures
            final(self).sent() == old(self).sent() + old(self).to_current(Note::Error(cmd@)),
            final(self).same_seats(*old(self)),
            final(self).game == old(self).game,
    {
        self.send_current_player(Event::Error(Error::new(cmd)));
    }

    /// Tells each client its place in the connection queue.
    pub fn broadcast_connection_state(&mut self)
        requires
            old(self).clients@.len() < u32::MAX,
        ensures
            final(self).sent() == old(self).sent() + queue_notes(old(self).clients@, old(self).game_started),
            final(self).same_seats(*old(self)),
            final(self).game == old(self).game,
    {
        let ghost start = self.sent();
        let n = self.clients.len();
        let mut i: usize = 0;
        while i < n
            invariant
                n == self.clients@.len(),
                n < u32::MAX,
                i <= n,
                self.same_seats(*old(self)),
                self.game == old(self).game,
                self.sent() == start + queue_notes(self.clients@, self.game_started).subrange(0, i as int),
            decreases n - i,
        {
            let to = self.clients[i];
            let msg = ConnectionQueue::new(n as u32, (i + 1) as u32, self.game_started);
            self.post(only(to), Event::Queue(msg));
            assert(queue_notes(self.clients@, self.game_started).subrange(0, i + 1) =~= queue_notes(
                self.clients@,
                self.game_started,
            ).subrange(0, i as int).push(queue_notes(self.clients@, self.game_started)[i as int]));
            assert(self.sent() =~= start + queue_notes(self.clients@, self.game_started).subrange(0, i + 1));
            i = i + 1;
        }
        assert(queue_notes(self.clients@, self.game_started).subrange(0, n as int) =~= queue_notes(
            self.clients@,
            self.game_started,
        ));
    }

    /// How the session `after` ending the current turn looks: the
    /// movements of the current player restored, the selection dropped,
    /// everybody told of the restored hexes, and then either the match over,
    /// when at most one player has units left, or the turn passed on.
    pub open spec fn ends_turn(&self, after: GameServer) -> bool {
        &&& after.wf()
        &&& after.clients == self.clients
        &&& after.num_of_players == self.num_of_players
        &&& after.game.selected_hex is None
        &&& after.game.field.num_x == self.game.field.num_x
        &&& after.game.field.num_y == self.game.field.num_y
        &&& after.game.field.hexes@ == restored(
            self.game.field.hexes@,
            self.current_player as u32,
        )
        &&& ({
            let update = seq![
                (
                    self.clients@,
                    Note::Update(
                        moved_of(
                            self.game.field.hexes@,
                            self.current_player as u32,
                            self.game.field.hexes@.len() as int,
                        ),
                    ),
                ),
            ];
            let start = self.sent() + update + self.deselect_notes();
            if after.game.field.alive().len() <= 1 {
                &&& !after.game_started
                &&& after.current_player == self.current_player
                &&& after.sent() == start + self.to_current(Note::End(EndState::Win))
                    + seq![
                    (
                        players_but(
                            self.clients@,
                            self.num_of_players as int,
                            self.current_player as int,
                        ),
                        Note::End(EndState::Lose),
                    ),
                ] + queue_notes(self.clients@, false)
            } else {
                &&& after.game_started == self.game_started
                &&& turn_passes(
                    self.current_player as int,
                    self.num_of_players as int,
                    after.game.field.alive(),
                    after.current_player as int,
                )
                &&& after.sent() == start + self.to_current(Note::State(StateKind::Wait))
                    + after.to_current(Note::State(StateKind::Action))
            }
        })
    }

    /// Passes the turn to the next seat of the match whose player still has
    /// a unit.
    pub fn change_player(&mut self)
        requires
            old(self).wf(),
        ensures
            final(self).wf(),
            final(self).game == old(self).game,
            final(self).clients == old(self).clients,
            final(self).num_of_players == old(self).num_of_players,
            final(self).game_started == old(self).game_started,
            final(self).outbox == old(self).outbox,
            turn_passes(
                old(self).current_player as int,
                old(self).num_of_players as int,
                old(self).game.field.alive(),
                final(self).current_player as int,
            ),
            (exists|p: u32|
                p < old(self).num_of_players && #[trigger] old(self).game.field.alive().contains(p))
                ==> final(self).game.field.alive().contains(final(self).current_player as u32),
    {
        let n = self.num_of_players;
        if n == 0 {
            return;
        }
        let alive = self.game.field.players_alive();
        let cur = self.current_player;
        let mut k: usize = 0;
        while k < n
            invariant
                self == old(self),
                old(self).wf(),
                n == self.num_of_players,
                0 < n <= u32::MAX,
                cur == self.current_player,
                cur < n,
                k <= n,
                alive@ == self.game.field.alive(),
                forall|j: int| 1 <= j <= k ==> !alive@.contains(#[trigger] seat_after(cur as int, j, n as int) as u32),
            decreases n - k,
        {
            let seat: usize = if cur < n - (k + 1) {
                cur + (k + 1)
            } else {
                cur - (n - (k + 1))
            };
            assert(seat == seat_after(cur as int, k + 1, n as int));
            assert(seat < n);
            if alive.contains(&(seat as u32)) {
                self.current_player = seat;
                proof {
                    assert(turn_passes(cur as int, n as int, alive@, seat as int));
                    if exists|p: u32| p < n && #[trigger] alive@.contains(p) {
                        let p = choose|p: u32| p < n && #[trigger] alive@.contains(p);
                        lemma_turn_lands_on_living_player(cur as int, n as int, alive@, seat as int, p as int);
                    }
                }
                return;
            }
            k = k + 1;
        }
        proof {
            if exists|p: u32| p < n && #[trigger] alive@.contains(p) {
                let p = choose|p: u32| p < n && #[trigger] alive@.contains(p);
                lemma_every_seat_comes(cur as int, n as int, p as int);
            }
        }
    }

    /// Drops the selection, telling the current player.
    fn deselect_unit(&mut self)
        requires
            old(self).wf(),
        ensures
            final(self).wf(),
            final(self).sent() == old(self).sent() + old(self).deselect_notes(),
            final(self).same_seats(*old(self)),
            final(self).game.field == old(self).game.field,
            final(self).game.selected_hex is None,
    {
        if let Some(hex) = self.game.selected_hex {
            self.send_current_player(Event::Deselecting(Deselecting::new(hex.to_point())));
            self.game.deselect_unit();
            self.send_current_player(Event::State(State::new(StateKind::Select)));
            assert(self.sent() =~= old(self).sent() + old(self).deselect_notes());
        }
    }

    /// Ends the current turn: restores the movements of the current player,
    /// drops the selection, and either ends the match, when at most one
    /// player has units left, or passes the turn.
    pub fn next_turn(&mut self)
        requires
            old(self).wf(),
        ensures
            final(self).wf(),
            old(self).ends_turn(*final(self)),
    {
        let cur = self.current_player as u32;
        let hexes_to_change = self.game.restore_movements(cur);
        self.broadcast(Event::Update(Update::new(hexes_to_change)));
        self.deselect_unit();
        if self.game.ends() {
            self.send_current_player(Event::End(End::new(EndState::Win)));
            self.send_other_players(Event::End(End::new(EndState::Lose)));
            self.game_started = false;
            self.broadcast_connection_state();
        proof {
                let update = seq![
                    (
                        old(self).clients@,
                        Note::Update(
                            moved_of(
                                old(self).game.field.hexes@,
                                old(self).current_player as u32,
                                old(self).game.field.hexes@.len() as int,
                            ),
                        ),
                    ),
                ];
                let start = old(self).sent() + update + old(self).deselect_notes();
                assert(self.sent() =~= start + old(self).to_current(Note::End(EndState::Win)) + seq![
                    (
                        players_but(old(self).clients@, old(self).num_of_players as int, old(self).current_player as int),
                        Note::End(EndState::Lose),
                    ),
                ] + queue_notes(old(self).clients@, false));
            }
            return;
        }
        self.send_current_player(Event::State(State::new(StateKind::Wait)));
        self.change_player();
        self.send_current_player(Event::State(State::new(StateKind::Action)));
        proof {
            let update = seq![
                (
                    old(self).clients@,
                    Note::Update(
                        moved_of(
                            old(self).game.field.hexes@,
                            old(self).current_player as u32,
                            old(self).game.field.hexes@.len() as int,
                        ),
                    ),
                ),
            ];
            let start = old(self).sent() + update + old(self).deselect_notes();
            assert(self.sent() =~= start + old(self).to_current(Note::State(StateKind::Wait)) + self.to_current(Note::State(StateKind::Action)));
        }
    }

    /// Selects the unit on `target` for the current player and shows it the
    /// points the unit can reach.
    fn select_unit(&mut self, target: Point) -> (r: Result<(), GameError>)
        requires
            old(self).wf(),
        ensures
            final(self).wf(),
            final(self).same_seats(*old(self)),
            final(self).game.field == old(self).game.field,
            r is Ok <==> old(self).game.field.in_grid(target.x as int, target.y as int) && old(
                self,
            ).game.field.hex_at(target.x as int, target.y as int).unit is Some,
            r is Err ==> final(self).game == old(self).game && final(self).sent() == old(self).sent(),
            r is Ok ==> {
                let h = old(self).game.field.hex_at(target.x as int, target.y as int);
                &&& final(self).game.selected_hex == Some(h)
                &&& exists|hl: Seq<Point>|
                    {
                        &&& hl.no_duplicates()
                        &&& (forall|q: Point|
                            #[trigger] hl.contains(q) <==> crate::reach::within(
                                old(self).game.field,
                                h,
                                q.x as int,
                                q.y as int,
                                h.unit->0.movements as nat,
                            ))
                        &&& final(self).sent() == old(self).sent() + old(self).to_current(
                            Note::Selecting(h.spec_point(), hl),
                        ) + old(self).to_current(Note::State(StateKind::Action))
                    }
            },
    {
        let selection = match self.game.select_unit(target) {
            Ok(selection) => selection,
            Err(e) => {
                return Err(e);
            },
        };
        let ghost hl = selection.highlight_hexes@;
        self.send_current_player(
            Event::Selecting(Selecting::new(selection.target.to_point(), selection.highlight_hexes.as_slice())),
        );
        self.send_current_player(Event::State(State::new(StateKind::Action)));
        assert(self.sent() =~= old(self).sent() + old(self).to_current(
            Note::Selecting(selection.target.spec_point(), hl),
        ) + old(self).to_current(Note::State(StateKind::Action)));
        Ok(())
    }

    /// Moves the selected unit to `to`, shows the walk to everybody, and
    /// selects the unit again on its new hex so that it may attack.
    fn move_unit(&mut self, to: Point) -> (r: Result<(), GameError>)
        requires
            old(self).wf(),
        ensures
            final(self).wf(),
            final(self).same_seats(*old(self)),
            r is Err ==> final(self).sent() == old(self).sent(),
            old(self).game.selected_hex is None ==> r == Err::<(), GameError>(GameError::NoHex)
                && final(self).game == old(self).game,
            old(self).game.selected_hex matches Some(from) ==> exists|p: Result<Vec<Point>, GameError>|
                {
                    &&& #[trigger] old(self).game.moves_as(
                        from,
                        to,
                        p,
                        (Game { field: final(self).game.field, selected_hex: old(self).game.selected_hex }),
                    )
                    &&& (p matches Err(e) ==> r == Err::<(), GameError>(e) && final(self).game == old(
                        self,
                    ).game)
                    &&& (p matches Ok(path) ==> {
                        &&& r is Ok
                        &&& final(self).game.selected_hex == Some(
                            final(self).game.field.hex_at(to.x as int, to.y as int),
                        )
                        &&& final(self).sent() == old(self).sent().push(
                            (
                                old(self).clients@,
                                Note::Moving(
                                    path@.map_values(
                                        |q: Point| final(self).game.field.hex_at(q.x as int, q.y as int),
                                    ),
                                ),
                            ),
                        ) + old(self).to_current(Note::State(StateKind::Attack))
                    })
                },
    {
        let path = self.game.move_unit(to);
        let ghost p = path;
        let ghost moved = self.game;
        let path = match path {
            Ok(path) => path,
            Err(e) => {
                return Err(e);
            },
        };
        let ghost pts = path@;
        proof {
            assert forall|i: int| 0 <= i < pts.len() implies self.game.field.in_grid(
                (#[trigger] pts[i]).x as int,
                pts[i].y as int,
            ) by {
                if i == 0 {
                    let from = old(self).game.selected_hex->0;
                    assert(old(self).game.field.in_grid(from.x as int, from.y as int));
                } else {
                    assert(crate::reach::passable(old(self).game.field, pts[i].x as int, pts[i].y as int));
                }
            }
        }
        let hexes = match self.game.hexes_from_points(path) {
            Ok(hexes) => hexes,
            Err(e) => {
                return Err(e);
            },
        };
        assert(hexes@ =~= pts.map_values(|q: Point| self.game.field.hex_at(q.x as int, q.y as int)));
        self.broadcast(Event::Moving(Moving::new(hexes)));
        proof {
            let from = old(self).game.selected_hex->0;
            assert(old(self).game.moves_as(from, to, p, moved));
            let g = old(self).game.field;
            let mu = g.hex_at(from.x as int, from.y as int).unit->0;
            let steps = pts.len() - 1;
            assert(self.game.field.hexes@ == crate::play::moved_field(
                g,
                from.spec_point(),
                to,
                crate::unit::Unit { movements: (mu.movements - steps) as u32, ..mu },
            ));
            crate::grid::lemma_cell_index_bounds(
                old(self).game.field.num_x as int,
                old(self).game.field.num_y as int,
                to.x as int,
                to.y as int,
            );
            let ti = cell_index(g.num_y as int, to.x as int, to.y as int);
            crate::grid::lemma_cell_index_bounds(g.num_x as int, g.num_y as int, from.x as int, from.y as int);
            assert(ti < g.hexes@.len());
            assert(self.game.field.num_y == g.num_y);
            assert(self.game.field.hexes@[ti].unit is Some);
            assert(self.game.field.hex_at(to.x as int, to.y as int).unit is Some);
        }
        if let Err(e) = self.game.select_unit(to) {
            return Err(e);
        }
        self.send_current_player(Event::State(State::new(StateKind::Attack)));
        Ok(())
    }

    /// The selected unit attacks `to`; everybody sees the attack and its
    /// outcome, and the turn ends.
    fn attack_unit(&mut self, to: Point) -> (r: Result<(), GameError>)
        requires
            old(self).wf(),
        ensures
            final(self).wf(),
            final(self).clients == old(self).clients,
            final(self).num_of_players == old(self).num_of_players,
            old(self).game.selected_hex is None ==> r == Err::<(), GameError>(GameError::NoHex)
                && final(self).game == old(self).game && final(self).sent() == old(self).sent(),
            old(self).game.selected_hex matches Some(from) ==> {
                &&& (old(self).game.attack_check(from, to) matches Err(e) ==> r == Err::<(), GameError>(e)
                    && final(self).game == old(self).game && final(self).sent() == old(self).sent()
                    && final(self).same_seats(*old(self)))
                &&& (old(self).game.attack_check(from, to) is Ok ==> {
                    &&& r is Ok
                    &&& exists|damage: u32, mid: GameServer, hurt: Seq<Hex>, die: Seq<Hex>|
                        {
                            &&& from.unit->0.damage[0] <= damage <= from.unit->0.damage[1]
                            &&& #[trigger] crate::play::strikes(
                                old(self).game.field,
                                to,
                                damage,
                                hurt,
                                die,
                                mid.game.field.hexes@,
                            )
                            &&& mid.same_seats(*old(self))
                            &&& mid.game.selected_hex is None
                            &&& mid.game.field.num_x == old(self).game.field.num_x
                            &&& mid.game.field.num_y == old(self).game.field.num_y
                            &&& mid.sent() == old(self).sent() + old(self).deselect_notes() + seq![
                                (old(self).clients@, Note::Attacking(from.spec_point(), to)),
                                (old(self).clients@, Note::Hurt(hurt)),
                                (old(self).clients@, Note::Die(die)),
                            ]
                            &&& mid.ends_turn(*final(self))
                        }
                })
            },
    {
        let (hurt, die) = match self.game.attack(to) {
            Ok(result) => result,
            Err(e) => {
                return Err(e);
            },
        };
        let ghost h = hurt@;
        let ghost d = die@;
        let from = match self.game.selected_hex {
            Some(hex) => hex,
            None => {
                return Err(GameError::NoHex);
            },
        };
        self.deselect_unit();
        self.broadcast(Event::Attacking(Attacking::new(from.to_point(), to)));
        self.broadcast(Event::Hurt(Hurt::new(hurt)));
        self.broadcast(Event::Die(Die::new(die)));
        assert(self.sent() =~= old(self).sent() + old(self).deselect_notes() + seq![
            (old(self).clients@, Note::Attacking(from.spec_point(), to)),
            (old(self).clients@, Note::Hurt(h)),
            (old(self).clients@, Note::Die(d)),
        ]);
        let ghost mid = *self;
        self.next_turn();
        assert(mid.ends_turn(*self));
        Ok(())
    }

    /// How the session `after` starting a match on `game` looks: the match
    /// on with the same seats and turn, and everybody told to wait, given the
    /// field, the watchers told to watch and the current player told to act.
    pub open spec fn starts_match(&self, game: Game, after: GameServer) -> bool {
        &&& after.wf()
        &&& after.game_started
        &&& after.game == game
        &&& after.clients == self.clients
        &&& after.num_of_players == self.num_of_players
        &&& after.current_player == self.current_player
        &&& after.sent() == self.sent() + seq![
            (self.clients@, Note::State(StateKind::Wait)),
            (self.clients@, Note::Field(game.field.num_x, game.field.num_y, game.field.hexes@)),
            (
                self.clients@.subrange(self.num_of_players as int, self.clients@.len() as int),
                Note::State(StateKind::Watch),
            ),
        ] + self.to_current(Note::State(StateKind::Action))
    }

    /// Starts a match for the first `num_of_players` clients on `game`:
    /// everybody gets the field, the others are told to watch, and the
    /// current seat has the turn.
    pub fn start_match(&mut self, game: Game)
        requires
            old(self).wf(),
            !old(self).game_started,
            2 <= old(self).num_of_players <= old(self).clients@.len(),
            game.wf(),
        ensures
            old(self).starts_match(game, *final(self)),
    {
        let ghost g = game;
        self.broadcast(Event::State(State::new(StateKind::Wait)));
        self.broadcast(Event::Field(Field::new(&game)));
        let mut watchers: Vec<u64> = Vec::new();
        let mut i: usize = self.num_of_players;
        while i < self.clients.len()
            invariant
                self.num_of_players <= i <= self.clients@.len(),
                watchers@ == self.clients@.subrange(self.num_of_players as int, i as int),
            decreases self.clients@.len() - i,
        {
            watchers.push(self.clients[i]);
            i = i + 1;
        }
        self.post(watchers, Event::State(State::new(StateKind::Watch)));
        self.send_current_player(Event::State(State::new(StateKind::Action)));
        self.game = game;
        self.game_started = true;
        assert(self.sent() =~= old(self).sent() + seq![
            (old(self).clients@, Note::State(StateKind::Wait)),
            (old(self).clients@, Note::Field(g.field.num_x, g.field.num_y, g.field.hexes@)),
            (
                old(self).clients@.subrange(old(self).num_of_players as int, old(self).clients@.len() as int),
                Note::State(StateKind::Watch),
            ),
        ] + old(self).to_current(Note::State(StateKind::Action)));
    }

    /// Starts a match for the first `num_of_players` clients on a new random
    /// game. Nothing happens when the drawn field cannot hold the walls and
    /// all the units.
    pub fn new_game(&mut self)
        requires
            old(self).wf(),
            !old(self).game_started,
            2 <= old(self).num_of_players <= old(self).clients@.len(),
        ensures
            final(self).wf(),
            exists|r: Result<Game, GameError>|
                {
                    &&& #[trigger] random_outcome(old(self).num_of_players as int, r)
                    &&& (r is Err ==> *final(self) == *old(self))
                    &&& (r matches Ok(g) ==> old(self).starts_match(g, *final(self)))
                },
            old(self).num_of_players <= 2 ==> final(self).game_started,
            final(self).game_started ==> random_field(final(self).game.field, old(self).num_of_players as int),
    {
        let r = Game::random(self.num_of_players);
        let ghost drawn = r;
        match r {
            Ok(game) => self.start_match(game),
            Err(_) => {},
        }
        assert(random_outcome(old(self).num_of_players as int, drawn));
    }

    /// Ends the match because a player left: everybody is told, and sees the
    /// connection queue again.
    pub fn stop_game(&mut self)
        requires
            old(self).seats_wf(),
        ensures
            final(self).wf(),
            !final(self).game_started,
            final(self).clients == old(self).clients,
            final(self).current_player == old(self).current_player,
            final(self).num_of_players == old(self).num_of_players,
            final(self).game == old(self).game,
            final(self).sent() == old(self).sent().push((old(self).clients@, Note::End(EndState::Disconnected)))
                + queue_notes(old(self).clients@, false),
    {
        self.broadcast(Event::End(End::new(EndState::Disconnected)));
        self.game_started = false;
        self.broadcast_connection_state();
    }

    /// A click of `sender`. Only the player whose turn it is is heard; the
    /// click selects, deselects, moves or attacks as the game decides, and a
    /// refused click is answered with an error naming the intent.
    pub fn handle_click(&mut self, sender: u64, click: Click)
        requires
            old(self).wf(),
        ensures
            final(self).wf(),
            final(self).clients == old(self).clients,
            final(self).num_of_players == old(self).num_of_players,
            !old(self).check_turn(sender) ==> *final(self) == *old(self),
            old(self).check_turn(sender) ==> match old(self).game.action_of(
                click.target,
                old(self).current_player as u32,
            ) {
                Err(_) => final(self).game == old(self).game && final(self).same_seats(*old(self))
                    && final(self).sent() == old(self).sent() + old(self).to_current(Note::Error(CMD_CLICK@)),
                Ok(Action::Deselect) => final(self).game.field == old(self).game.field
                    && final(self).game.selected_hex is None && final(self).same_seats(*old(self))
                    && final(self).sent() == old(self).sent() + old(self).deselect_notes(),
                Ok(Action::Select) => {
                    let h = old(self).game.field.hex_at(click.target.x as int, click.target.y as int);
                    &&& final(self).game.field == old(self).game.field
                    &&& final(self).game.selected_hex == Some(h)
                    &&& final(self).same_seats(*old(self))
                    &&& exists|hl: Seq<Point>|
                        {
                            &&& hl.no_duplicates()
                            &&& (forall|q: Point|
                                #[trigger] hl.contains(q) <==> crate::reach::within(
                                    old(self).game.field,
                                    h,
                                    q.x as int,
                                    q.y as int,
                                    h.unit->0.movements as nat,
                                ))
                            &&& final(self).sent() == old(self).sent() + old(self).deselect_notes()
                                + old(self).to_current(Note::Selecting(h.spec_point(), hl)) + old(
                                self,
                            ).to_current(Note::State(StateKind::Action))
                        }
                },
                Ok(Action::Move) => final(self).same_seats(*old(self)) && exists|p: Result<
                    Vec<Point>,
                    GameError,
                >|
                    {
                        &&& #[trigger] old(self).game.moves_as(
                            old(self).game.selected_hex->0,
                            click.target,
                            p,
                            (Game { field: final(self).game.field, selected_hex: old(self).game.selected_hex }),
                        )
                        &&& (p is Err ==> final(self).game == old(self).game && final(self).sent() == old(
                            self,
                        ).sent() + old(self).to_current(Note::Error(CMD_CLICK@)))
                        &&& (p matches Ok(path) ==> {
                            &&& final(self).game.selected_hex == Some(
                                final(self).game.field.hex_at(click.target.x as int, click.target.y as int),
                            )
                            &&& final(self).sent() == old(self).sent().push(
                                (
                                    old(self).clients@,
                                    Note::Moving(
                                        path@.map_values(
                                            |q: Point| final(self).game.field.hex_at(q.x as int, q.y as int),
                                        ),
                                    ),
                                ),
                            ) + old(self).to_current(Note::State(StateKind::Attack))
                        })
                    },
                Ok(Action::Attack) => {
                    let from = old(self).game.selected_hex->0;
                    &&& (old(self).game.attack_check(from, click.target) is Err ==> final(self).game
                        == old(self).game && final(self).same_seats(*old(self)) && final(self).sent()
                        == old(self).sent() + old(self).to_current(Note::Error(CMD_CLICK@)))
                    &&& (old(self).game.attack_check(from, click.target) is Ok ==> {
                        &&& exists|damage: u32, mid: GameServer, hurt: Seq<Hex>, die: Seq<Hex>|
                            {
                                &&& from.unit->0.damage[0] <= damage <= from.unit->0.damage[1]
                                &&& #[trigger] crate::play::strikes(
                                    old(self).game.field,
                                    click.target,
                                    damage,
                                    hurt,
                                    die,
                                    mid.game.field.hexes@,
                                )
                                &&& mid.same_seats(*old(self))
                                &&& mid.game.selected_hex is None
                                &&& mid.game.field.num_x == old(self).game.field.num_x
                                &&& mid.game.field.num_y == old(self).game.field.num_y
                                &&& mid.sent() == old(self).sent() + old(self).deselect_notes() + seq![
                                    (old(self).clients@, Note::Attacking(from.spec_point(), click.target)),
                                    (old(self).clients@, Note::Hurt(hurt)),
                                    (old(self).clients@, Note::Die(die)),
                                ]
                                &&& mid.ends_turn(*final(self))
                            }
                    })
                },
            },
    {
        if !self.check_player_turn(sender) {
            return;
        }
        let target = click.target;
        let outcome = match self.game.get_current_action(target, self.current_player as u32) {
            Ok(Action::Deselect) => {
                self.deselect_unit();
                Ok(())
            },
            Ok(Action::Select) => {
                self.deselect_unit();
                self.select_unit(target)
            },
            Ok(Action::Move) => self.move_unit(target),
            Ok(Action::Attack) => self.attack_unit(target),
            Err(e) => Err(e),
        };
        if outcome.is_err() {
            self.send_error(String::from_str(CMD_CLICK));
        }
    }

    /// The player whose turn it is ends it.
    pub fn handle_skip_turn(&mut self, sender: u64)
        requires
            old(self).wf(),
        ensures
            final(self).wf(),
            !old(self).check_turn(sender) ==> *final(self) == *old(self),
            old(self).check_turn(sender) ==> old(self).ends_turn(*final(self)),
    {
        if self.check_player_turn(sender) {
            self.next_turn();
        }
    }

    /// Starts a match of all connected clients, when none is on and at
    /// least two are connected.
    pub fn handle_start_game(&mut self)
        requires
            old(self).wf(),
        ensures
            final(self).wf(),
            old(self).game_started || old(self).clients@.len() < 2 ==> *final(self) == *old(self),
            !old(self).game_started && old(self).clients@.len() >= 2 ==> exists|r: Result<Game, GameError>|
                {
                    &&& #[trigger] random_outcome(old(self).clients@.len() as int, r)
                    &&& (r is Err ==> *final(self) == *old(self))
                    &&& (r matches Ok(g) ==> (GameServer {
                        num_of_players: old(self).clients@.len() as usize,
                        current_player: if old(self).current_player < old(self).clients@.len() {
                            old(self).current_player
                        } else {
                            0
                        },
                        ..*old(self)
                    }).starts_match(g, *final(self)))
                },
            !old(self).game_started && old(self).clients@.len() == 2 ==> final(self).game_started,
            final(self).game_started && !old(self).game_started ==> random_field(
                final(self).game.field,
                old(self).clients@.len() as int,
            ),
    {
        if self.game_started || self.clients.len() < 2 {
            return;
        }
        let previous_players = self.num_of_players;
        let previous_current = self.current_player;
        self.num_of_players = self.clients.len();
        if self.current_player >= self.num_of_players {
            self.current_player = 0;
        }
        self.new_game();
        if !self.game_started {
            self.num_of_players = previous_players;
            self.current_player = previous_current;
        }
    }

    /// A client connected: it joins the queue, and everybody sees the queue.
    pub fn handle_new_client(&mut self, client: u64)
        requires
            old(self).wf(),
            old(self).clients@.len() + 1 < u32::MAX,
        ensures
            final(self).wf(),
            final(self).clients@ == old(self).clients@.push(client),
            final(self).game == old(self).game,
            final(self).current_player == old(self).current_player,
            final(self).num_of_players == old(self).num_of_players,
            final(self).game_started == old(self).game_started,
            final(self).sent() == old(self).sent() + queue_notes(
                old(self).clients@.push(client),
                old(self).game_started,
            ),
    {
        self.clients.push(client);
        self.broadcast_connection_state();
    }

    /// A client left: it leaves the queue; when it played in the running
    /// match, the match stops; everybody sees the queue.
    pub fn handle_loose_client(&mut self, client: u64)
        requires
            old(self).wf(),
        ensures
            final(self).wf(),
            !old(self).clients@.contains(client) ==> *final(self) == *old(self),
            old(self).clients@.contains(client) ==> {
                let i = choose|i: int| 0 <= i < old(self).clients@.len() && old(self).clients@[i] == client
                    && forall|j: int| 0 <= j < i ==> old(self).clients@[j] != client;
                let rest = old(self).clients@.remove(i);
                let stops = old(self).game_started && i < old(self).num_of_players;
                &&& final(self).clients@ == rest
                &&& final(self).game == old(self).game
                &&& final(self).game_started == (old(self).game_started && !stops)
                &&& final(self).sent() == if stops {
                    old(self).sent().push((rest, Note::End(EndState::Disconnected))) + queue_notes(rest, false)
                        + queue_notes(rest, false)
                } else {
                    old(self).sent() + queue_notes(rest, old(self).game_started)
                }
            },
    {
        let mut index: usize = 0;
        while index < self.clients.len() && self.clients[index] != client
            invariant
                index <= self.clients@.len(),
                forall|j: int| 0 <= j < index ==> self.clients@[j] != client,
            decreases self.clients@.len() - index,
        {
            index = index + 1;
        }
        if index == self.clients.len() {
            return;
        }
        self.clients.remove(index);
        if self.game_started && index < self.num_of_players {
            self.stop_game();
        }
        self.broadcast_connection_state();
    }

    /// Whether `sender` holds the seat whose turn it is.
    pub fn check_player_turn(&self, sender: u64) -> (r: bool)
        ensures
            r == self.check_turn(sender),
    {
        self.current_player < self.clients.len() && self.clients[self.current_player] == sender
    }
}

} // verus!
