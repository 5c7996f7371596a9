use wordle::{Dictionary, Game, RejectReason, Row, TurnResult, BLANK};

const CRANE: [u8; 5] = [2, 17, 0, 13, 4];
const ARISE: [u8; 5] = [0, 17, 8, 18, 4];

fn dict_of(words: &[[u8; 5]]) -> Dictionary {
    let mut rows = Vec::new();
    for w in words {
        rows.push(Row(*w));
    }
    Dictionary::new(rows)
}

#[test]
fn new_game_is_empty() {
    let game = Game::new(CRANE);
    assert_eq!(game.turn_no(), 0);
    for i in 0..6 {
        assert!(game.grid[i].0.iter().all(|&c| c == BLANK));
    }
    assert_eq!(game.answer.0, CRANE);
    assert_eq!(game.result_mojis(), "");
}

#[test]
fn rejected_guess_is_a_no_op() {
    let dict = dict_of(&[CRANE]);
    let game = Game::new(CRANE);
    match game.guess(&dict, ARISE) {
        TurnResult::Rejected(reason) => assert_eq!(reason, RejectReason::NotInDictionary),
        _ => panic!("a word outside the dictionary must be rejected"),
    }
    // the game value is unchanged: still turn zero, grid still empty
    assert_eq!(game.turn_no(), 0);
    for i in 0..6 {
        assert!(game.grid[i].0.iter().all(|&c| c == BLANK));
    }
}

#[test]
fn accepted_guess_advances_one_turn() {
    let dict = dict_of(&[CRANE, ARISE]);
    let game = Game::new(CRANE);
    let next = match game.guess(&dict, ARISE) {
        TurnResult::Continue(g) => g,
        _ => panic!("a wrong word on turn zero continues the match"),
    };
    assert_eq!(next.turn_no(), 1);
    assert_eq!(next.grid[0].0, ARISE);
    assert!(next.grid[1].0.iter().all(|&c| c == BLANK));
}

#[test]
fn guessing_the_answer_wins() {
    let dict = dict_of(&[CRANE, ARISE]);
    let game = Game::new(CRANE);
    let next = match game.guess(&dict, ARISE) {
        TurnResult::Continue(g) => g,
        _ => panic!("a wrong word on turn zero continues the match"),
    };
    match next.guess(&dict, CRANE) {
        TurnResult::Win(g) => {
            assert_eq!(g.turn_no(), 2);
            assert_eq!(g.grid[1].0, CRANE);
        }
        _ => panic!("guessing the answer must win"),
    }
}

#[test]
fn six_wrong_guesses_lose() {
    let dict = dict_of(&[CRANE, ARISE]);
    let mut game = Game::new(CRANE);
    for turn in 0u8..5 {
        game = match game.guess(&dict, ARISE) {
            TurnResult::Continue(g) => g,
            _ => panic!("the match continues while turns remain"),
        };
        assert_eq!(game.turn_no(), turn + 1);
    }
    match game.guess(&dict, ARISE) {
        TurnResult::Lose(g) => assert_eq!(g.turn_no(), 6),
        _ => panic!("a sixth wrong word must lose"),
    }
}

#[test]
fn correct_sixth_guess_wins_not_loses() {
    let dict = dict_of(&[CRANE, ARISE]);
    let mut game = Game::new(CRANE);
    for _ in 0..5 {
        game = match game.guess(&dict, ARISE) {
            TurnResult::Continue(g) => g,
            _ => panic!("the match continues while turns remain"),
        };
    }
    assert_eq!(game.turn_no(), 5);
    match game.guess(&dict, CRANE) {
        TurnResult::Win(_) => {}
        _ => panic!("the answer on the last turn must win, never lose"),
    }
}

#[test]
fn dictionary_membership_and_filtering() {
    let unfilled = [BLANK, 0, 1, 2, 3];
    let dict = dict_of(&[CRANE, unfilled]);
    assert!(dict.contains(&Row(CRANE)));
    assert!(!dict.contains(&Row(ARISE)));
    // a row with an unfilled cell never enters the table
    assert!(!dict.contains(&Row(unfilled)));
    assert_eq!(dict.canonicalize(&Row(CRANE)).0, CRANE);
}

#[test]
fn transcript_after_two_guesses() {
    let dict = dict_of(&[CRANE, ARISE]);
    let game = Game::new(CRANE);
    let next = match game.guess(&dict, ARISE) {
        TurnResult::Continue(g) => g,
        _ => panic!("a wrong word on turn zero continues the match"),
    };
    assert_eq!(next.result_mojis(), "🟨🟩⬛⬛🟩\n");
    match next.guess(&dict, CRANE) {
        TurnResult::Win(g) => {
            assert_eq!(g.result_mojis(), "🟨🟩⬛⬛🟩\n🟩🟩🟩🟩🟩\n");
        }
        _ => panic!("guessing the answer must win"),
    }
}
