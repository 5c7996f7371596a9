use wordle::Color::{Gray, Green, Yellow};
use wordle::{color_word, Row};

#[test]
fn test_colors() {
    assert_eq!(
        color_word(&Row([1, 2, 3, 4, 5]), &Row([0, 1, 0, 0, 0])),
        [Yellow, Gray, Gray, Gray, Gray]
    );
    assert_eq!(
        color_word(&Row([1, 1, 3, 4, 5]), &Row([0, 1, 0, 0, 0])),
        [Gray, Green, Gray, Gray, Gray]
    );
    assert_eq!(
        color_word(&Row([3, 1, 1, 4, 5]), &Row([0, 1, 0, 0, 0])),
        [Gray, Green, Gray, Gray, Gray]
    );
    assert_eq!(
        color_word(&Row([3, 2, 1, 1, 5]), &Row([0, 1, 0, 0, 0])),
        [Gray, Gray, Yellow, Gray, Gray]
    );
    assert_eq!(
        color_word(&Row([3, 2, 1, 1, 5]), &Row([1, 1, 0, 0, 0])),
        [Gray, Gray, Yellow, Yellow, Gray]
    );
    assert_eq!(
        color_word(&Row([3, 1, 1, 3, 5]), &Row([1, 1, 0, 0, 0])),
        [Gray, Green, Yellow, Gray, Gray]
    );
    assert_eq!(
        color_word(&Row([1, 1, 3, 3, 5]), &Row([0, 1, 1, 0, 0])),
        [Yellow, Green, Gray, Gray, Gray]
    );
    assert_eq!(
        color_word(&Row([0, 1, 0, 1, 5]), &Row([0, 1, 1, 0, 0])),
        [Green, Green, Yellow, Yellow, Gray]
    );
}

#[test]
fn self_guess_is_all_green() {
    let g = Row([2, 17, 0, 13, 4]);
    assert_eq!(color_word(&g, &g), [Green; 5]);
}

#[test]
fn green_count_equals_exact_matches() {
    // guess and answer agree in positions 0 and 2 only
    let guess = Row([0, 1, 2, 3, 4]);
    let answer = Row([0, 9, 2, 9, 9]);
    let colors = color_word(&guess, &answer);
    let greens = colors.iter().filter(|c| **c == Green).count();
    assert_eq!(greens, 2);
}

#[test]
fn repeated_guess_letter_credited_once() {
    // the answer holds one 'a'; the guess shows 'a' twice: exactly one
    // of the two occurrences is credited, the left one
    let guess = Row([9, 0, 0, 3, 4]);
    let answer = Row([0, 5, 6, 7, 8]);
    let colors = color_word(&guess, &answer);
    assert_eq!(colors[1], Yellow);
    assert_eq!(colors[2], Gray);
    let credited = (0..5)
        .filter(|&i| guess.0[i] == 0 && (colors[i] == Yellow || colors[i] == Green))
        .count();
    assert_eq!(credited, 1);
}

#[test]
fn arise_against_crane() {
    let arise = Row([0, 17, 8, 18, 4]);
    let crane = Row([2, 17, 0, 13, 4]);
    assert_eq!(color_word(&arise, &crane), [Yellow, Green, Gray, Gray, Green]);
}
