use stratepig::engine::{has_move, resolve_move, stalemate_winner, MoveError};
use stratepig::board::Piece;
use stratepig::pig::{attack_outcome, InteractionResult, Pig};
use stratepig::player::PlayerRole;

const MOBILE: [Pig; 11] = [
    Pig::Spy,
    Pig::Infiltrator,
    Pig::Scout,
    Pig::Miner,
    Pig::Sergeant,
    Pig::Lieutenant,
    Pig::Chemist,
    Pig::Major,
    Pig::Colonel,
    Pig::General,
    Pig::Kingo,
];

#[test]
fn miner_defuses_bomb_general_does_not() {
    assert_eq!(attack_outcome(Pig::Miner, Pig::Bomb), InteractionResult::Win);
    assert_eq!(attack_outcome(Pig::General, Pig::Bomb), InteractionResult::Lose);
}

#[test]
fn spy_beats_kingo_on_attack_only() {
    assert_eq!(attack_outcome(Pig::Spy, Pig::Kingo), InteractionResult::Win);
    assert_eq!(attack_outcome(Pig::Infiltrator, Pig::Kingo), InteractionResult::Win);
    assert_eq!(attack_outcome(Pig::Kingo, Pig::Spy), InteractionResult::Win);
}

#[test]
fn flag_always_falls() {
    for p in MOBILE {
        assert_eq!(attack_outcome(p, Pig::Flag), InteractionResult::Win);
    }
}

#[test]
fn rank_attacks_are_symmetric() {
    for a in MOBILE {
        for b in MOBILE {
            let spy_pair = (matches!(a, Pig::Spy | Pig::Infiltrator) && b == Pig::Kingo)
                || (matches!(b, Pig::Spy | Pig::Infiltrator) && a == Pig::Kingo);
            if spy_pair {
                continue;
            }
            let ab = attack_outcome(a, b);
            let ba = attack_outcome(b, a);
            assert_eq!(ab == InteractionResult::Lose, ba == InteractionResult::Win);
            assert_eq!(ab.invert(), ba);
        }
    }
    assert_eq!(attack_outcome(Pig::Major, Pig::Major), InteractionResult::Tie);
}

#[test]
fn kind_numbers_round_trip() {
    for v in 0..13u32 {
        assert_eq!(Pig::from(v).index() as u32, v);
    }
    assert_eq!(Pig::from(13), Pig::Empty);
    assert_eq!(Pig::Kingo.rank(), 10);
    assert_eq!(Pig::Infiltrator.rank(), 1);
    assert!(Pig::Bomb.immovable() && Pig::Flag.immovable() && !Pig::Scout.immovable());
    assert_eq!(Pig::Kingo.print(), "KK");
}

#[test]
fn move_shapes() {
    assert!(Pig::Scout.allow_move(40, 100));
    assert!(!Pig::Sergeant.allow_move(40, 100));
    assert!(Pig::Sergeant.allow_move(33, 34));
    assert!(!Pig::Bomb.allow_move(33, 34));
    assert!(!Pig::Scout.allow_move(46, 48));
}

#[test]
fn resolve_simple_step_and_errors() {
    let local = vec![Piece::new(Pig::Sergeant, 33), Piece::new(Pig::Flag, 1)];
    let opp = vec![Piece::new(Pig::Flag, 1)];
    let res = resolve_move(&local, &opp, 33, 34).unwrap();
    assert_eq!(res.local[0].location, 34);
    assert_eq!(res.local[0].id, 33);
    assert!(res.attack.is_none());
    assert!(matches!(resolve_move(&local, &opp, 33, 33), Err(MoveError::OutOfBounds)));
    assert!(matches!(resolve_move(&local, &opp, 32, 33), Err(MoveError::NoPiece)));
    assert!(matches!(resolve_move(&local, &opp, 1, 2), Err(MoveError::IllegalShape)));
    assert!(matches!(resolve_move(&local, &opp, 33, 35), Err(MoveError::IllegalShape)));
    let friend = vec![Piece::new(Pig::Sergeant, 33), Piece::new(Pig::Flag, 34)];
    assert!(matches!(resolve_move(&friend, &opp, 33, 34), Err(MoveError::FriendlyTarget)));
    let scout = vec![Piece::new(Pig::Scout, 31), Piece::new(Pig::Bomb, 33)];
    assert!(matches!(resolve_move(&scout, &opp, 31, 35), Err(MoveError::PathBlocked)));
}

#[test]
fn resolve_attacks() {
    // opponent's flag on its tile 31 stands on tile 70 of the mover's frame
    let local = vec![Piece::new(Pig::Miner, 60)];
    let opp = vec![Piece::new(Pig::Flag, 31), Piece::new(Pig::Bomb, 30)];
    let res = resolve_move(&local, &opp, 60, 70).unwrap();
    assert!(res.flag_captured);
    assert_eq!(res.attack.unwrap().result, InteractionResult::Win);
    assert_eq!(res.local[0].location, 70);
    assert_eq!(res.opponent.len(), 1);
    let general = vec![Piece::new(Pig::General, 61)];
    let res = resolve_move(&general, &opp, 61, 71).unwrap();
    assert_eq!(res.attack.unwrap().result, InteractionResult::Lose);
    assert!(res.local.is_empty());
    assert_eq!(res.opponent.len(), 2);
}

#[test]
fn out_of_moves() {
    let stuck = vec![Piece::new(Pig::Flag, 1), Piece::new(Pig::Bomb, 2)];
    let free = vec![Piece::new(Pig::Scout, 5)];
    assert!(!has_move(&stuck));
    assert!(has_move(&free));
    assert_eq!(stalemate_winner(&stuck, &free), Some(PlayerRole::Two));
    assert_eq!(stalemate_winner(&free, &stuck), Some(PlayerRole::One));
    assert_eq!(stalemate_winner(&stuck, &stuck), Some(PlayerRole::Tie));
    assert_eq!(stalemate_winner(&free, &free), None);
    let boxed = vec![Piece::new(Pig::Scout, 1), Piece::new(Pig::Bomb, 2), Piece::new(Pig::Bomb, 11)];
    assert!(!has_move(&boxed));
}
