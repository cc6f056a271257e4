use crate::identity::Identity;
use vstd::prelude::*;

verus! {

/// The most players a game can seat.
pub const MAX_PLAYERS: usize = 6;

/// The number of distinct card indices.
pub const DECK_SIZE: u64 = 52;

/// Lifecycle stage of a game.
#[derive(Clone, Copy, Debug, PartialEq, Eq, Structural)]
pub enum Phase {
    Lobby,
    Active,
    Finished,
}

/// One seat at the table.
#[derive(Clone, Copy, Debug)]
pub struct Player {
    pub pubkey: Identity,
    pub chips: u64,
    pub bet: u64,
    pub folded: bool,
    pub card1: u8,
    pub card2: u8,
}

impl Player {
    /// The comparison value used to rank players at the end of the game.
    pub open spec fn score(self) -> int {
        self.card1 + self.card2
    }
}

/// The reasons a transition is rejected. A rejected transition leaves the
/// game unchanged.
#[derive(Clone, Copy, Debug, PartialEq, Eq, Structural)]
pub enum ErrorCode {
    GameFull,
    GameStarted,
    InvalidState,
    PlayerNotFound,
    NotYourTurn,
    Unauthorized,
    InvalidAction,
    /// The joining identity already holds a seat.
    AlreadyJoined,
    /// A call or raise asks for more chips than the player holds.
    InsufficientChips,
    /// Every seated player has folded, so nobody can win the pot.
    NoActivePlayers,
    /// A chip total would not fit in 64 bits.
    Overflow,
}

/// The authoritative record of one game. Seats are filled in join order,
/// which is also the order of turns.
#[derive(Clone, Debug)]
pub struct Game {
    pub authority: Identity,
    pub buy_in: u64,
    pub pot: u64,
    pub phase: Phase,
    pub player_count: u8,
    pub current_turn: u8,
    pub players: Vec<Player>,
}

/// The abstract state of a game: the seats are a sequence whose length is
/// the player count.
pub struct GameModel {
    pub authority: Identity,
    pub buy_in: u64,
    pub pot: u64,
    pub phase: Phase,
    pub current_turn: u8,
    pub players: Seq<Player>,
}

impl GameModel {
    /// Seat `i` is held by `who`, and no earlier seat is.
    pub open spec fn seated_at(self, who: Identity, i: int) -> bool {
        &&& 0 <= i < self.players.len()
        &&& self.players[i].pubkey.same(who)
        &&& forall|j: int| 0 <= j < i ==> !self.players[j].pubkey.same(who)
    }

    pub open spec fn is_seated(self, who: Identity) -> bool {
        exists|i: int| 0 <= i < self.players.len() && self.players[i].pubkey.same(who)
    }

    /// The seat that `who` holds; meaningful only when `is_seated(who)`.
    pub open spec fn seat_of(self, who: Identity) -> int {
        choose|i: int| self.seated_at(who, i)
    }

    /// The structural invariants that every transition preserves.
    pub open spec fn wf(self) -> bool {
        &&& self.players.len() <= MAX_PLAYERS
        &&& self.phase == Phase::Active ==> self.current_turn < self.players.len()
        &&& forall|i: int, j: int|
            0 <= i < j < self.players.len() ==> !self.players[i].pubkey.same(
                self.players[j].pubkey,
            )
        &&& forall|i: int|
            0 <= i < self.players.len() ==> self.players[i].card1 < DECK_SIZE
                && self.players[i].card2 < DECK_SIZE
    }
}

impl View for Game {
    type V = GameModel;

    open spec fn view(&self) -> GameModel {
        GameModel {
            authority: self.authority,
            buy_in: self.buy_in,
            pot: self.pot,
            phase: self.phase,
            current_turn: self.current_turn,
            players: self.players@,
        }
    }
}

impl Game {
    /// The player count agrees with the seats, and the model's invariants hold.
    pub open spec fn wf(&self) -> bool {
        &&& self.player_count == self.players@.len()
        &&& self@.wf()
    }

    /// Tests the invariants that every transition requires.
    pub fn is_well_formed(&self) -> (r: bool)
        ensures
            r == self.wf(),
    {
        let n = self.players.len();
        if n > MAX_PLAYERS || self.player_count as usize != n {
            return false;
        }
        if self.phase == Phase::Active && self.current_turn as usize >= n {
            return false;
        }
        let mut i: usize = 0;
        while i < n
            invariant
                0 <= i <= n,
                n == self.players@.len(),
                forall|a: int|
                    0 <= a < i ==> self.players@[a].card1 < DECK_SIZE && self.players@[a].card2
                        < DECK_SIZE,
                forall|a: int, b: int|
                    0 <= a < b < i ==> !self.players@[a].pubkey.same(self.players@[b].pubkey),
            decreases n - i,
        {
            let p = self.players[i];
            if p.card1 as u64 >= DECK_SIZE || p.card2 as u64 >= DECK_SIZE {
                return false;
            }
            let mut j: usize = 0;
            while j < i
                invariant
                    0 <= j <= i < n,
                    n == self.players@.len(),
                    p == self.players@[i as int],
                    forall|a: int| 0 <= a < j ==> !self.players@[a].pubkey.same(p.pubkey),
                decreases i - j,
            {
                if self.players[j].pubkey.matches(&p.pubkey) {
                    return false;
                }
                j = j + 1;
            }
            i = i + 1;
        }
        true
    }
}

} // verus!
