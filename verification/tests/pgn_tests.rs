//! Tests for the PGN rendering of recorded games.

use fishpond::game::Game;
use fishpond::moves::Color;
use fishpond::pgn::Pgn;
use fishpond::position::chess_start;

fn header(result: &str) -> String {
    format!(
        "[Event \"?\"]\n[Site \"fishpond\"]\n[Date \"????.??.??\"]\n[Round \"?\"]\n[White \"?\"]\n[Black \"?\"]\n[Result \"{}\"]\n\n",
        result
    )
}

#[test]
fn empty_game_renders_tags_only() {
    let game = Game::from_start_position(chess_start());
    let pgn = Pgn::from_game(game);
    let text = String::from_utf8(pgn.render()).unwrap();
    assert_eq!(text, header("*"));
}

#[test]
fn moves_render_in_san_with_numbers() {
    let mut game = Game::from_start_position(chess_start());
    game.play_token(b"e2e4").unwrap();
    game.play_token(b"e7e5").unwrap();
    game.play_token(b"g1f3").unwrap();
    let pgn = Pgn::from_game(game);
    let text = String::from_utf8(pgn.render()).unwrap();
    assert_eq!(text, format!("{}1. e4 e5 3. Nf3", header("*")));
}

#[test]
fn finished_game_appends_result() {
    let mut game = Game::from_start_position(chess_start());
    game.play_token(b"e2e4").unwrap();
    game.resign(Color::Black).unwrap();
    let pgn = Pgn::from_game(game);
    let text = String::from_utf8(pgn.render()).unwrap();
    assert_eq!(text, format!("{}1. e4 1-0", header("1-0")));
}
