use crate::identity::Identity;
use crate::shuffle::{card, card_at, rng_start, rng_state, rng_step, start, step};
use crate::state::{ErrorCode, Game, GameModel, Phase, Player, MAX_PLAYERS};
use vstd::prelude::*;

verus! {

/// Action code: give up the hand.
pub const FOLD: u8 = 0;

/// Action code: put chips in to match.
pub const CALL: u8 = 1;

/// Action code: put chips in to raise; moves chips exactly as a call does.
pub const RAISE: u8 = 2;

/// The state that `initialize` creates.
pub open spec fn initial_model(authority: Identity, buy_in: u64) -> GameModel {
    GameModel {
        authority,
        buy_in,
        pot: 0,
        phase: Phase::Lobby,
        current_turn: 0,
        players: Seq::empty(),
    }
}

/// The seat that a newly joined player takes.
pub open spec fn fresh_player(who: Identity, buy_in: u64) -> Player {
    Player { pubkey: who, chips: buy_in, bet: 0, folded: false, card1: 0, card2: 0 }
}

/// `who` takes the next seat and pays the buy-in into the pot; the game
/// starts as soon as two seats are taken.
pub open spec fn join_model(g: GameModel, who: Identity) -> Result<GameModel, ErrorCode> {
    if g.players.len() >= MAX_PLAYERS {
        Err(ErrorCode::GameFull)
    } else if g.phase != Phase::Lobby {
        Err(ErrorCode::GameStarted)
    } else if g.is_seated(who) {
        Err(ErrorCode::AlreadyJoined)
    } else if g.pot + g.buy_in > u64::MAX {
        Err(ErrorCode::Overflow)
    } else {
        let players = g.players.push(fresh_player(who, g.buy_in));
        if players.len() >= 2 {
            Ok(GameModel { pot: (g.pot + g.buy_in) as u64, players, phase: Phase::Active, current_turn: 0, ..g })
        } else {
            Ok(GameModel { pot: (g.pot + g.buy_in) as u64, players, ..g })
        }
    }
}

/// The seat after the current one, wrapping over every seat, folded or not.
pub open spec fn next_turn(g: GameModel) -> u8 {
    ((g.current_turn + 1) % (g.players.len() as int)) as u8
}

/// The player whose turn it is acts: `FOLD` marks the seat folded, `CALL`
/// and `RAISE` move `amount` from the player's chips to their bet and the
/// pot. The turn then passes to the next seat.
pub open spec fn play_model(g: GameModel, who: Identity, action: u8, amount: u64) -> Result<
    GameModel,
    ErrorCode,
> {
    if g.phase != Phase::Active {
        Err(ErrorCode::InvalidState)
    } else if !g.is_seated(who) {
        Err(ErrorCode::PlayerNotFound)
    } else if g.seat_of(who) != g.current_turn {
        Err(ErrorCode::NotYourTurn)
    } else if action > RAISE {
        Err(ErrorCode::InvalidAction)
    } else {
        let i = g.seat_of(who);
        let p = g.players[i];
        if action == FOLD {
            Ok(GameModel { players: g.players.update(i, Player { folded: true, ..p }), current_turn: next_turn(g), ..g })
        } else if amount > p.chips {
            Err(ErrorCode::InsufficientChips)
        } else if p.bet + amount > u64::MAX || g.pot + amount > u64::MAX {
            Err(ErrorCode::Overflow)
        } else {
            let q = Player { chips: (p.chips - amount) as u64, bet: (p.bet + amount) as u64, ..p };
            Ok(GameModel { players: g.players.update(i, q), pot: (g.pot + amount) as u64, current_turn: next_turn(g), ..g })
        }
    }
}

/// Seat `i` after a deal from the stream that starts at `s0`: its cards are
/// the stream's draws `2i` and `2i + 1`.
pub open spec fn dealt(p: Player, s0: u64, i: int) -> Player {
    Player { card1: card_at(s0, (2 * i) as nat), card2: card_at(s0, (2 * i + 1) as nat), ..p }
}

/// The authority deals two fresh cards to every seat, replacing any earlier
/// cards.
pub open spec fn deal_model(g: GameModel, caller: Identity, seed: u64, timestamp: i64) -> Result<
    GameModel,
    ErrorCode,
> {
    if g.phase != Phase::Active {
        Err(ErrorCode::InvalidState)
    } else if !caller.same(g.authority) {
        Err(ErrorCode::Unauthorized)
    } else {
        let s0 = rng_start(seed, timestamp);
        Ok(GameModel { players: Seq::new(g.players.len(), |i: int| dealt(g.players[i], s0, i)), ..g })
    }
}

/// Seat `w` wins: it has not folded, no player who has not folded scores
/// more, and every earlier such player scores less.
pub open spec fn is_winner(players: Seq<Player>, w: int) -> bool {
    &&& 0 <= w < players.len()
    &&& !players[w].folded
    &&& forall|j: int| 0 <= j < players.len() && !players[j].folded ==> players[j].score() <= players[w].score()
    &&& forall|j: int| 0 <= j < w && !players[j].folded ==> players[j].score() < players[w].score()
}

pub open spec fn has_active(players: Seq<Player>) -> bool {
    exists|j: int| 0 <= j < players.len() && !players[j].folded
}

/// The winning seat; meaningful only when `has_active(players)`.
pub open spec fn winner(players: Seq<Player>) -> int {
    choose|w: int| is_winner(players, w)
}

/// The authority ends the game: the winner takes the whole pot, which is
/// emptied, and the game is finished.
pub open spec fn end_model(g: GameModel, caller: Identity) -> Result<GameModel, ErrorCode> {
    if !caller.same(g.authority) {
        Err(ErrorCode::Unauthorized)
    } else if g.phase != Phase::Active {
        Err(ErrorCode::InvalidState)
    } else if !has_active(g.players) {
        Err(ErrorCode::NoActivePlayers)
    } else {
        let w = winner(g.players);
        let p = g.players[w];
        if p.chips + g.pot > u64::MAX {
            Err(ErrorCode::Overflow)
        } else {
            Ok(GameModel {
                players: g.players.update(w, Player { chips: (p.chips + g.pot) as u64, ..p }),
                pot: 0,
                phase: Phase::Finished,
                ..g
            })
        }
    }
}

/// What a transition does to the game it is applied to.
pub open spec fn applied(r: Result<(), ErrorCode>, before: GameModel, after: GameModel, m: Result<GameModel, ErrorCode>) -> bool {
    match m {
        Ok(next) => r is Ok && after == next,
        Err(e) => r == Err::<(), ErrorCode>(e) && after == before,
    }
}

/// Creates a game in the lobby with no players and an empty pot.
pub fn initialize(authority: Identity, buy_in: u64) -> (game: Game)
    ensures
        game.wf(),
        game@ == initial_model(authority, buy_in),
{
    let game = Game {
        authority,
        buy_in,
        pot: 0,
        phase: Phase::Lobby,
        player_count: 0,
        current_turn: 0,
        players: Vec::new(),
    };
    assert(game@.players =~= Seq::<Player>::empty());
    game
}

/// Finds the first seat held by `who`.
pub fn find_seat(game: &Game, who: &Identity) -> (r: Option<usize>)
    ensures
        match r {
            Some(i) => game@.seated_at(*who, i as int),
            None => !game@.is_seated(*who),
        },
{
    let mut i: usize = 0;
    while i < game.players.len()
        invariant
            0 <= i <= game.players@.len(),
            forall|j: int| 0 <= j < i ==> !game.players@[j].pubkey.same(*who),
        decreases game.players@.len() - i,
    {
        if game.players[i].pubkey.matches(who) {
            return Some(i);
        }
        i = i + 1;
    }
    None
}

/// Seats `who` at the next free seat (see `join_model`).
pub fn join(game: &mut Game, who: &Identity) -> (r: Result<(), ErrorCode>)
    requires
        old(game).wf(),
    ensures
        final(game).wf(),
        applied(r, old(game)@, final(game)@, join_model(old(game)@, *who)),
        final(game).player_count <= MAX_PLAYERS,
        old(game).player_count == MAX_PLAYERS ==> r == Err::<(), ErrorCode>(ErrorCode::GameFull),
{
    if game.players.len() >= MAX_PLAYERS {
        return Err(ErrorCode::GameFull);
    }
    if game.phase != Phase::Lobby {
        return Err(ErrorCode::GameStarted);
    }
    if find_seat(game, who).is_some() {
        return Err(ErrorCode::AlreadyJoined);
    }
    let pot = match game.pot.checked_add(game.buy_in) {
        Some(p) => p,
        None => return Err(ErrorCode::Overflow),
    };
    game.players.push(Player {
        pubkey: *who,
        chips: game.buy_in,
        bet: 0,
        folded: false,
        card1: 0,
        card2: 0,
    });
    game.player_count = game.player_count + 1;
    game.pot = pot;
    if game.player_count >= 2 {
        game.phase = Phase::Active;
        game.current_turn = 0;
    }
    assert(game@.players =~= old(game)@.players.push(fresh_player(*who, old(game).buy_in)));
    Ok(())
}

/// The player at the current seat acts (see `play_model`).
pub fn play(game: &mut Game, who: &Identity, action: u8, amount: u64) -> (r: Result<(), ErrorCode>)
    requires
        old(game).wf(),
    ensures
        final(game).wf(),
        applied(r, old(game)@, final(game)@, play_model(old(game)@, *who, action, amount)),
        r is Ok ==> final(game).current_turn == (old(game).current_turn + 1) % (old(
            game,
        ).player_count as int),
        old(game).phase == Phase::Active && !old(game)@.is_seated(*who) ==> r == Err::<
            (),
            ErrorCode,
        >(ErrorCode::PlayerNotFound),
        forall|i: int|
            old(game).phase == Phase::Active && old(game)@.seated_at(*who, i) && i
                != old(game).current_turn ==> r == Err::<(), ErrorCode>(ErrorCode::NotYourTurn),
{
    if game.phase != Phase::Active {
        return Err(ErrorCode::InvalidState);
    }
    let i = match find_seat(game, who) {
        Some(i) => i,
        None => return Err(ErrorCode::PlayerNotFound),
    };
    proof {
        assert(game@.is_seated(*who));
        assert(game@.seat_of(*who) == i) by {
            let k = game@.seat_of(*who);
            assert(game@.seated_at(*who, k));
            if k < i {
                assert(!game.players@[k].pubkey.same(*who));
            } else if k > i {
                assert(!game.players@[i as int].pubkey.same(*who));
            }
        }
    }
    if i != game.current_turn as usize {
        return Err(ErrorCode::NotYourTurn);
    }
    if action > RAISE {
        return Err(ErrorCode::InvalidAction);
    }
    let mut p = game.players[i];
    if action == FOLD {
        p.folded = true;
    } else {
        if amount > p.chips {
            return Err(ErrorCode::InsufficientChips);
        }
        let bet = match p.bet.checked_add(amount) {
            Some(b) => b,
            None => return Err(ErrorCode::Overflow),
        };
        let pot = match game.pot.checked_add(amount) {
            Some(t) => t,
            None => return Err(ErrorCode::Overflow),
        };
        p.chips = p.chips - amount;
        p.bet = bet;
        game.pot = pot;
    }
    game.players.set(i, p);
    game.current_turn = (game.current_turn + 1) % game.player_count;
    proof {
        let g0 = old(game)@;
        assert forall|a: int, b: int| 0 <= a < b < game.players@.len() implies !game.players@[a].pubkey.same(
            game.players@[b].pubkey,
        ) by {
            assert(g0.players[a].pubkey == game.players@[a].pubkey);
            assert(g0.players[b].pubkey == game.players@[b].pubkey);
        }
    }
    Ok(())
}


/// Deals two cards to every seat (see `deal_model`).
pub fn deal(game: &mut Game, caller: &Identity, seed: u64, timestamp: i64) -> (r: Result<(), ErrorCode>)
    requires
        old(game).wf(),
    ensures
        final(game).wf(),
        applied(r, old(game)@, final(game)@, deal_model(old(game)@, *caller, seed, timestamp)),
{
    if game.phase != Phase::Active {
        return Err(ErrorCode::InvalidState);
    }
    if !caller.matches(&game.authority) {
        return Err(ErrorCode::Unauthorized);
    }
    let ghost s0 = rng_start(seed, timestamp);
    let mut rng = start(seed, timestamp);
    let n = game.players.len();
    let mut i: usize = 0;
    while i < n
        invariant
            0 <= i <= n,
            n == game.players@.len(),
            n == old(game).players@.len(),
            rng == rng_state(s0, (2 * i) as nat),
            game.phase == old(game).phase,
            game.authority == old(game).authority,
            game.buy_in == old(game).buy_in,
            game.pot == old(game).pot,
            game.player_count == old(game).player_count,
            game.current_turn == old(game).current_turn,
            forall|j: int| 0 <= j < i ==> game.players@[j] == dealt(old(game).players@[j], s0, j),
            forall|j: int| i <= j < n ==> game.players@[j] == old(game).players@[j],
        decreases n - i,
    {
        let mut p = game.players[i];
        p.card1 = card(rng);
        rng = step(rng);
        p.card2 = card(rng);
        rng = step(rng);
        game.players.set(i, p);
        proof {
            assert(rng_state(s0, (2 * i + 1) as nat) == rng_step(rng_state(s0, (2 * i) as nat)));
            assert(rng_state(s0, (2 * i + 2) as nat) == rng_step(rng_state(s0, (2 * i + 1) as nat)));
        }
        i = i + 1;
    }
    assert(game@.players =~= Seq::new(
        old(game).players@.len(),
        |j: int| dealt(old(game).players@[j], s0, j),
    ));
    proof {
        let g0 = old(game)@;
        assert forall|a: int, b: int| 0 <= a < b < game.players@.len() implies !game.players@[a].pubkey.same(
            game.players@[b].pubkey,
        ) by {
            assert(g0.players[a].pubkey == game.players@[a].pubkey);
            assert(g0.players[b].pubkey == game.players@[b].pubkey);
        }
    }
    Ok(())
}

/// Finds the first seat that has not folded and scores strictly more than
/// every earlier such seat and at least as much as every later one.
pub fn find_winner(players: &Vec<Player>) -> (r: Option<usize>)
    ensures
        match r {
            Some(w) => is_winner(players@, w as int),
            None => !has_active(players@),
        },
{
    let mut best: Option<usize> = None;
    let mut best_score: u16 = 0;
    let mut i: usize = 0;
    while i < players.len()
        invariant
            0 <= i <= players@.len(),
            match best {
                Some(w) => is_winner(players@.take(i as int), w as int) && best_score == players@[w as int].score(),
                None => !has_active(players@.take(i as int)),
            },
        decreases players@.len() - i,
    {
        let p = players[i];
        if !p.folded {
            let score = p.card1 as u16 + p.card2 as u16;
            let better = match best {
                Some(_) => score > best_score,
                None => true,
            };
            if better {
                best = Some(i);
                best_score = score;
            }
        }
        proof {
            let pre = players@.take(i as int);
            let post = players@.take(i + 1);
            assert(post =~= pre.push(p));
            match best {
                Some(w) => {
                    assert forall|j: int| 0 <= j < post.len() && !post[j].folded implies post[j].score() <= post[w as int].score() by {
                        if j < i {
                            assert(pre[j] == post[j]);
                            if w as int == i as int {
                                assert(has_active(pre) ==> exists|k: int| 0 <= k < pre.len() && !pre[k].folded);
                            }
                        }
                    }
                    assert forall|j: int| 0 <= j < w && !post[j].folded implies post[j].score() < post[w as int].score() by {
                        assert(pre[j] == post[j]);
                    }
                },
                None => {
                    assert forall|j: int| 0 <= j < post.len() implies post[j].folded by {
                        if j < i {
                            assert(pre[j] == post[j]);
                        }
                    }
                },
            }
        }
        i = i + 1;
    }
    assert(players@.take(players@.len() as int) =~= players@);
    best
}

/// Two winning seats are the same seat.
proof fn lemma_winner_unique(players: Seq<Player>, a: int, b: int)
    requires
        is_winner(players, a),
        is_winner(players, b),
    ensures
        a == b,
{
}

/// The authority ends the game and pays the pot to the winner (see
/// `end_model`).
pub fn end_game(game: &mut Game, caller: &Identity) -> (r: Result<(), ErrorCode>)
    requires
        old(game).wf(),
    ensures
        final(game).wf(),
        applied(r, old(game)@, final(game)@, end_model(old(game)@, *caller)),
        r is Ok ==> exists|w: int|
            #![trigger final(game).players@[w]]
            {
                &&& is_winner(old(game).players@, w)
                &&& final(game).players@[w].chips == old(game).players@[w].chips + old(game).pot
                &&& forall|j: int| 0 <= j < old(game).players@.len() && j != w ==> final(game).players@[j]
                    == old(game).players@[j]
            },
        r is Ok ==> final(game).pot == 0 && final(game).phase == Phase::Finished,
{
    if !caller.matches(&game.authority) {
        return Err(ErrorCode::Unauthorized);
    }
    if game.phase != Phase::Active {
        return Err(ErrorCode::InvalidState);
    }
    let w = match find_winner(&game.players) {
        Some(w) => w,
        None => return Err(ErrorCode::NoActivePlayers),
    };
    proof {
        let ps = old(game).players@;
        lemma_winner_unique(ps, winner(ps), w as int);
    }
    let mut p = game.players[w];
    p.chips = match p.chips.checked_add(game.pot) {
        Some(c) => c,
        None => return Err(ErrorCode::Overflow),
    };
    game.players.set(w, p);
    game.pot = 0;
    game.phase = Phase::Finished;
    proof {
        let g0 = old(game)@;
        assert forall|a: int, b: int| 0 <= a < b < game.players@.len() implies !game.players@[a].pubkey.same(
            game.players@[b].pubkey,
        ) by {
            assert(g0.players[a].pubkey == game.players@[a].pubkey);
            assert(g0.players[b].pubkey == game.players@[b].pubkey);
        }
        assert(game.players@[w as int].chips == old(game).players@[w as int].chips + old(game).pot);
    }
    Ok(())
}

} // verus!
