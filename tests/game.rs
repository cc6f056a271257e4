use lightning_poker::{
    deal, end_game, initialize, join, play, ErrorCode, Game, Identity, Phase, Player, CALL, FOLD,
    RAISE,
};

fn id(b: u8) -> Identity {
    Identity::new([b; 32])
}

fn seat(b: u8, chips: u64, card1: u8, card2: u8, folded: bool) -> Player {
    Player { pubkey: id(b), chips, bet: 0, folded, card1, card2 }
}

fn table(players: Vec<Player>, phase: Phase, pot: u64) -> Game {
    Game {
        authority: id(9),
        buy_in: 100,
        pot,
        phase,
        player_count: players.len() as u8,
        current_turn: 0,
        players,
    }
}

fn two_player_game() -> Game {
    let mut g = initialize(id(9), 100);
    join(&mut g, &id(1)).unwrap();
    join(&mut g, &id(2)).unwrap();
    g
}

#[test]
fn full_hand_scenario() {
    let mut g = initialize(id(9), 100);
    assert_eq!(g.phase, Phase::Lobby);
    join(&mut g, &id(1)).unwrap();
    assert_eq!(g.phase, Phase::Lobby);
    join(&mut g, &id(2)).unwrap();
    assert_eq!(g.pot, 200);
    assert_eq!(g.phase, Phase::Active);
    assert_eq!(g.current_turn, 0);

    deal(&mut g, &id(9), 7, 1000).unwrap();
    assert_eq!((g.players[0].card1, g.players[0].card2), (19, 25));
    assert_eq!((g.players[1].card1, g.players[1].card2), (11, 7));

    play(&mut g, &id(1), CALL, 20).unwrap();
    assert_eq!(g.players[0].chips, 80);
    assert_eq!(g.players[0].bet, 20);
    assert_eq!(g.pot, 220);
    assert_eq!(g.current_turn, 1);

    play(&mut g, &id(2), RAISE, 50).unwrap();
    assert_eq!(g.players[1].chips, 50);
    assert_eq!(g.players[1].bet, 50);
    assert_eq!(g.pot, 270);
    assert_eq!(g.current_turn, 0);

    end_game(&mut g, &id(9)).unwrap();
    assert_eq!(g.players[0].chips, 350);
    assert_eq!(g.players[1].chips, 50);
    assert_eq!(g.pot, 0);
    assert_eq!(g.phase, Phase::Finished);
}

#[test]
fn pot_is_buy_ins_plus_wagers() {
    let mut g = two_player_game();
    play(&mut g, &id(1), CALL, 10).unwrap();
    play(&mut g, &id(2), RAISE, 30).unwrap();
    play(&mut g, &id(1), FOLD, 999).unwrap();
    play(&mut g, &id(2), CALL, 5).unwrap();
    assert_eq!(g.pot, 2 * 100 + 10 + 30 + 5);
}

#[test]
fn turn_wraps_over_every_seat() {
    let players = vec![seat(1, 100, 0, 0, false), seat(2, 100, 0, 0, true), seat(3, 100, 0, 0, false)];
    let mut g = table(players, Phase::Active, 300);
    play(&mut g, &id(1), FOLD, 0).unwrap();
    assert_eq!(g.current_turn, 1);
    play(&mut g, &id(2), CALL, 1).unwrap();
    assert_eq!(g.current_turn, 2);
    play(&mut g, &id(3), CALL, 1).unwrap();
    assert_eq!(g.current_turn, 0);
}

#[test]
fn deal_is_reproducible() {
    let g = two_player_game();
    let mut a = g.clone();
    let mut b = g.clone();
    deal(&mut a, &id(9), 42, 1_700_000_000).unwrap();
    deal(&mut b, &id(9), 42, 1_700_000_000).unwrap();
    for i in 0..2 {
        assert_eq!(a.players[i].card1, b.players[i].card1);
        assert_eq!(a.players[i].card2, b.players[i].card2);
        assert!(a.players[i].card1 < 52 && a.players[i].card2 < 52);
    }
}

#[test]
fn deal_wraps_seed_plus_negative_timestamp() {
    let mut g = two_player_game();
    deal(&mut g, &id(9), 10, -20).unwrap();
    assert_eq!(g.players[0].card1, 6);
}

#[test]
fn join_on_six_seats_is_full() {
    let players = (1..=6).map(|b| seat(b, 100, 0, 0, false)).collect();
    let mut g = table(players, Phase::Lobby, 600);
    assert_eq!(join(&mut g, &id(7)), Err(ErrorCode::GameFull));
    assert_eq!(g.players.len(), 6);
    assert_eq!(g.pot, 600);
}

#[test]
fn join_after_start_is_rejected() {
    let mut g = two_player_game();
    assert_eq!(join(&mut g, &id(3)), Err(ErrorCode::GameStarted));
    assert_eq!(g.player_count, 2);
}

#[test]
fn join_twice_is_rejected() {
    let mut g = initialize(id(9), 100);
    join(&mut g, &id(1)).unwrap();
    assert_eq!(join(&mut g, &id(1)), Err(ErrorCode::AlreadyJoined));
    assert_eq!(g.pot, 100);
}

#[test]
fn join_pot_overflow_is_rejected() {
    let mut g = initialize(id(9), u64::MAX);
    join(&mut g, &id(1)).unwrap();
    assert_eq!(join(&mut g, &id(2)), Err(ErrorCode::Overflow));
    assert_eq!(g.pot, u64::MAX);
}

#[test]
fn play_out_of_turn_or_unseated() {
    let mut g = two_player_game();
    assert_eq!(play(&mut g, &id(2), CALL, 5), Err(ErrorCode::NotYourTurn));
    assert_eq!(play(&mut g, &id(8), CALL, 5), Err(ErrorCode::PlayerNotFound));
    assert_eq!(g.pot, 200);
    assert_eq!(g.current_turn, 0);
}

#[test]
fn play_rejections() {
    let mut g = initialize(id(9), 100);
    join(&mut g, &id(1)).unwrap();
    assert_eq!(play(&mut g, &id(1), CALL, 5), Err(ErrorCode::InvalidState));
    join(&mut g, &id(2)).unwrap();
    assert_eq!(play(&mut g, &id(1), 3, 5), Err(ErrorCode::InvalidAction));
    assert_eq!(play(&mut g, &id(1), CALL, 101), Err(ErrorCode::InsufficientChips));
    assert_eq!(g.players[0].chips, 100);
    assert_eq!(g.pot, 200);
}

#[test]
fn play_fold_moves_no_chips() {
    let mut g = two_player_game();
    play(&mut g, &id(1), FOLD, 40).unwrap();
    assert!(g.players[0].folded);
    assert_eq!(g.players[0].chips, 100);
    assert_eq!(g.pot, 200);
}

#[test]
fn deal_rejections() {
    let mut g = initialize(id(9), 100);
    assert_eq!(deal(&mut g, &id(9), 1, 1), Err(ErrorCode::InvalidState));
    let mut g = two_player_game();
    assert_eq!(deal(&mut g, &id(1), 1, 1), Err(ErrorCode::Unauthorized));
}

#[test]
fn end_pays_highest_unfolded_score() {
    let players = vec![seat(1, 10, 51, 50, true), seat(2, 20, 3, 4, false), seat(3, 30, 10, 2, false)];
    let mut g = table(players, Phase::Active, 500);
    end_game(&mut g, &id(9)).unwrap();
    assert_eq!(g.players[0].chips, 10);
    assert_eq!(g.players[1].chips, 20);
    assert_eq!(g.players[2].chips, 530);
    assert_eq!(g.pot, 0);
}

#[test]
fn end_tie_goes_to_lowest_seat() {
    let players = vec![seat(1, 10, 0, 0, false), seat(2, 20, 5, 5, false), seat(3, 30, 9, 1, false)];
    let mut g = table(players, Phase::Active, 100);
    end_game(&mut g, &id(9)).unwrap();
    assert_eq!(g.players[1].chips, 120);
    assert_eq!(g.players[2].chips, 30);
}

#[test]
fn end_zero_score_player_can_win() {
    let players = vec![seat(1, 10, 51, 51, true), seat(2, 20, 0, 0, false)];
    let mut g = table(players, Phase::Active, 100);
    end_game(&mut g, &id(9)).unwrap();
    assert_eq!(g.players[0].chips, 10);
    assert_eq!(g.players[1].chips, 120);
}

#[test]
fn end_rejections() {
    let mut g = two_player_game();
    assert_eq!(end_game(&mut g, &id(1)), Err(ErrorCode::Unauthorized));
    let mut lobby = initialize(id(9), 100);
    assert_eq!(end_game(&mut lobby, &id(9)), Err(ErrorCode::InvalidState));
    let players = vec![seat(1, 10, 1, 1, true), seat(2, 20, 2, 2, true)];
    let mut folded = table(players, Phase::Active, 100);
    assert_eq!(end_game(&mut folded, &id(9)), Err(ErrorCode::NoActivePlayers));
    let players = vec![seat(1, u64::MAX, 1, 1, false), seat(2, 20, 0, 0, true)];
    let mut rich = table(players, Phase::Active, 1);
    assert_eq!(end_game(&mut rich, &id(9)), Err(ErrorCode::Overflow));
    assert_eq!(rich.pot, 1);
}

#[test]
fn identities_compare_by_bytes() {
    let mut b = [7u8; 32];
    assert!(id(7).matches(&Identity::new(b)));
    b[31] = 8;
    assert!(!id(7).matches(&Identity::new(b)));
}

#[test]
fn deal_uses_exact_product_for_large_seeds() {
    let mut g = two_player_game();
    deal(&mut g, &id(9), u64::MAX, 0).unwrap();
    assert_eq!((g.players[0].card1, g.players[0].card2), (15, 45));
    assert_eq!((g.players[1].card1, g.players[1].card2), (34, 35));
}

#[test]
fn well_formedness_check() {
    assert!(two_player_game().is_well_formed());
    assert!(initialize(id(9), 5).is_well_formed());
    let dup = table(vec![seat(1, 1, 0, 0, false), seat(1, 1, 0, 0, false)], Phase::Lobby, 2);
    assert!(!dup.is_well_formed());
    let bad_card = table(vec![seat(1, 1, 52, 0, false)], Phase::Lobby, 1);
    assert!(!bad_card.is_well_formed());
    let mut bad_turn = two_player_game();
    bad_turn.current_turn = 2;
    assert!(!bad_turn.is_well_formed());
    let mut bad_count = two_player_game();
    bad_count.player_count = 3;
    assert!(!bad_count.is_well_formed());
    let seven = table((1..=7).map(|b| seat(b, 1, 0, 0, false)).collect(), Phase::Lobby, 7);
    assert!(!seven.is_well_formed());
}
