use carcassonne::error::GameError;
use carcassonne::player::Player;
use carcassonne::token::{BelongingToken, Token};

#[test]
fn new_player_has_empty_pools() {
    let p = Player::create(3);
    assert_eq!(p.id, 3);
    assert!(!p.have_token(Token::Meeple));
    assert!(!p.have_belonging(BelongingToken::Pig));
}

#[test]
fn place_token_on_exhausted_pool() {
    let mut p = Player::create(0);
    p.tokens = vec![0, 2];
    let r = p.place_token(Token::Meeple);
    assert!(matches!(r, Err(GameError::TokenUnavailable)));
    assert_eq!(p.tokens, vec![0, 2]);
    let mut q = Player::create(1);
    assert!(matches!(q.place_token(Token::BigMeeple), Err(GameError::TokenUnavailable)));
    assert!(q.tokens.is_empty());
}

#[test]
fn place_token_draws_one() {
    let mut p = Player::create(4);
    p.tokens = vec![2, 1];
    let t = p.place_token(Token::Meeple).ok().unwrap();
    assert_eq!(t.token, Token::Meeple);
    assert_eq!(t.player_id, 4);
    assert!(t.belonging.is_empty());
    assert!(t.public_belonging.is_empty());
    assert_eq!(p.tokens, vec![1, 1]);
    assert!(p.have_token(Token::Meeple));
}

#[test]
fn pool_conserved_over_draws_and_returns() {
    let mut p = Player::create(0);
    p.tokens = vec![5, 1];
    let mut drawn = Vec::new();
    for _ in 0..5 {
        drawn.push(p.place_token(Token::Meeple).ok().unwrap());
    }
    assert!(!p.have_token(Token::Meeple));
    assert!(matches!(p.place_token(Token::Meeple), Err(GameError::TokenUnavailable)));
    for t in drawn {
        p.takeback_token(t.token);
    }
    assert_eq!(p.tokens, vec![5, 1]);
}

#[test]
fn takeback_into_short_pool() {
    let mut p = Player::create(0);
    p.takeback_token(Token::BigMeeple);
    assert_eq!(p.tokens, vec![0, 1]);
    p.takeback_belonging(BelongingToken::Builder);
    assert_eq!(p.belonging_tokens, vec![1]);
}

#[test]
fn place_belonging_draws_or_fails() {
    let mut p = Player::create(2);
    assert!(matches!(
        p.place_belonging(BelongingToken::Pig),
        Err(GameError::BelongingUnavailable)
    ));
    p.belonging_tokens = vec![0, 1];
    let b = p.place_belonging(BelongingToken::Pig).ok().unwrap();
    assert_eq!(b.token, BelongingToken::Pig);
    assert_eq!(b.player_id, 2);
    assert_eq!(p.belonging_tokens, vec![0, 0]);
    assert!(!p.have_belonging(BelongingToken::Pig));
}
