use crate::engine::{
    deal_model, has_active, initial_model, is_winner, join_model, play_model, winner, CALL, RAISE,
};
use crate::identity::Identity;
use crate::shuffle::{card_at, rng_start};
use crate::state::{ErrorCode, GameModel, Player, MAX_PLAYERS};
use vstd::prelude::*;

verus! {

/// One `play` request: who acts, the action code, and the amount.
pub type PlayRequest = (Identity, u8, u64);

/// The game after `who` joins in order, or the first rejection.
pub open spec fn join_all(g: GameModel, who: Seq<Identity>) -> Result<GameModel, ErrorCode>
    decreases who.len(),
{
    if who.len() == 0 {
        Ok(g)
    } else {
        match join_all(g, who.drop_last()) {
            Ok(h) => join_model(h, who.last()),
            Err(e) => Err(e),
        }
    }
}

/// The game after the requests are played in order, or the first rejection.
pub open spec fn play_all(g: GameModel, reqs: Seq<PlayRequest>) -> Result<GameModel, ErrorCode>
    decreases reqs.len(),
{
    if reqs.len() == 0 {
        Ok(g)
    } else {
        match play_all(g, reqs.drop_last()) {
            Ok(h) => play_model(h, reqs.last().0, reqs.last().1, reqs.last().2),
            Err(e) => Err(e),
        }
    }
}

/// The chips that the calls and raises among `reqs` put in.
pub open spec fn wagered(reqs: Seq<PlayRequest>) -> int
    decreases reqs.len(),
{
    if reqs.len() == 0 {
        0
    } else {
        let r = reqs.last();
        wagered(reqs.drop_last()) + if r.1 == CALL || r.1 == RAISE {
            r.2 as int
        } else {
            0
        }
    }
}

/// Each accepted join adds one buy-in to the pot.
pub proof fn lemma_joins_add_buy_ins(g: GameModel, who: Seq<Identity>)
    requires
        join_all(g, who) is Ok,
    ensures
        join_all(g, who)->Ok_0.pot == g.pot + who.len() * g.buy_in,
        join_all(g, who)->Ok_0.buy_in == g.buy_in,
    decreases who.len(),
{
    if who.len() > 0 {
        lemma_joins_add_buy_ins(g, who.drop_last());
        let h = join_all(g, who.drop_last())->Ok_0;
        assert(g.pot + who.len() * g.buy_in == g.pot + who.drop_last().len() * g.buy_in + g.buy_in)
            by (nonlinear_arith)
            requires
                who.len() == who.drop_last().len() + 1,
        ;
    }
}

/// Each accepted call or raise adds its amount to the pot; a fold adds nothing.
pub proof fn lemma_plays_add_wagers(g: GameModel, reqs: Seq<PlayRequest>)
    requires
        play_all(g, reqs) is Ok,
    ensures
        play_all(g, reqs)->Ok_0.pot == g.pot + wagered(reqs),
    decreases reqs.len(),
{
    if reqs.len() > 0 {
        lemma_plays_add_wagers(g, reqs.drop_last());
    }
}

/// After at least two joins into a fresh game and any run of accepted plays,
/// the pot is every buy-in plus every amount called or raised.
pub proof fn lemma_pot_is_buy_ins_plus_wagers(
    authority: Identity,
    buy_in: u64,
    who: Seq<Identity>,
    reqs: Seq<PlayRequest>,
)
    requires
        who.len() >= 2,
        join_all(initial_model(authority, buy_in), who) is Ok,
        play_all(join_all(initial_model(authority, buy_in), who)->Ok_0, reqs) is Ok,
    ensures
        play_all(join_all(initial_model(authority, buy_in), who)->Ok_0, reqs)->Ok_0.pot == who.len()
            * buy_in + wagered(reqs),
{
    let g0 = initial_model(authority, buy_in);
    lemma_joins_add_buy_ins(g0, who);
    lemma_plays_add_wagers(join_all(g0, who)->Ok_0, reqs);
}

/// However many joins are accepted, no more than six seats are ever taken.
pub proof fn lemma_joins_stay_within_capacity(g: GameModel, who: Seq<Identity>)
    requires
        g.wf(),
        join_all(g, who) is Ok,
    ensures
        join_all(g, who)->Ok_0.players.len() <= MAX_PLAYERS,
    decreases who.len(),
{
    if who.len() > 0 {
        lemma_joins_stay_within_capacity(g, who.drop_last());
    }
}

/// A deal is a function of the seed, the timestamp and the number of seats:
/// two deals with the same seed and timestamp on games with as many seats
/// give every seat the same two cards.
pub proof fn lemma_deal_is_deterministic(
    g1: GameModel,
    g2: GameModel,
    caller1: Identity,
    caller2: Identity,
    seed: u64,
    timestamp: i64,
)
    requires
        g1.players.len() == g2.players.len(),
        deal_model(g1, caller1, seed, timestamp) is Ok,
        deal_model(g2, caller2, seed, timestamp) is Ok,
    ensures
        ({
            let d1 = deal_model(g1, caller1, seed, timestamp)->Ok_0.players;
            let d2 = deal_model(g2, caller2, seed, timestamp)->Ok_0.players;
            let s0 = rng_start(seed, timestamp);
            forall|i: int|
                #![trigger d1[i]]
                #![trigger d2[i]]
                0 <= i < g1.players.len() ==> {
                    &&& d1[i].card1 == d2[i].card1
                    &&& d1[i].card2 == d2[i].card2
                    &&& d1[i].card1 == card_at(s0, (2 * i) as nat)
                    &&& d1[i].card2 == card_at(s0, (2 * i + 1) as nat)
                }
        }),
{
}

/// Some seat among the first `n` wins among them, when one of them has not
/// folded.
proof fn lemma_winner_in_prefix(players: Seq<Player>, n: int)
    requires
        0 <= n <= players.len(),
        has_active(players.take(n)),
    ensures
        exists|w: int| is_winner(players.take(n), w),
    decreases n,
{
    let post = players.take(n);
    let pre = players.take(n - 1);
    assert(post =~= pre.push(players[n - 1]));
    let last = n - 1;
    if has_active(pre) {
        lemma_winner_in_prefix(players, n - 1);
        let w = choose|w: int| is_winner(pre, w);
        if !players[last].folded && players[last].score() > pre[w].score() {
            assert forall|j: int| 0 <= j < last && !post[j].folded implies post[j].score()
                < post[last].score() by {
                assert(pre[j] == post[j]);
            }
            assert(is_winner(post, last));
        } else {
            assert forall|j: int| 0 <= j < post.len() && !post[j].folded implies post[j].score()
                <= post[w].score() by {
                if j < last {
                    assert(pre[j] == post[j]);
                }
            }
            assert forall|j: int| 0 <= j < w && !post[j].folded implies post[j].score()
                < post[w].score() by {
                assert(pre[j] == post[j]);
            }
            assert(is_winner(post, w));
        }
    } else {
        let k = choose|k: int| 0 <= k < post.len() && !post[k].folded;
        if k < last {
            assert(pre[k] == post[k]);
        }
        assert forall|j: int| 0 <= j < last implies post[j].folded by {
            assert(pre[j] == post[j]);
        }
        assert(is_winner(post, last));
    }
}

/// Whenever some seat has not folded, the game has a winner.
pub proof fn lemma_winner_exists(players: Seq<Player>)
    requires
        has_active(players),
    ensures
        is_winner(players, winner(players)),
{
    assert(players.take(players.len() as int) =~= players);
    lemma_winner_in_prefix(players, players.len() as int);
}

} // verus!
