use wordle::Row;

#[test]
fn from_ascii_accepts_five_lowercase_letters() {
    let row = Row::from_ascii(b"crane").expect("five lowercase letters form a row");
    assert_eq!(row.0, [2, 17, 0, 13, 4]);
}

#[test]
fn from_ascii_rejects_malformed_text() {
    assert!(Row::from_ascii(b"cran").is_none());
    assert!(Row::from_ascii(b"cranes").is_none());
    assert!(Row::from_ascii(b"cr4ne").is_none());
    assert!(Row::from_ascii(b"CRANE").is_none());
    assert!(Row::from_ascii(b"").is_none());
}

#[test]
fn blank_row_is_blank() {
    let row = Row::blank();
    assert!(row.is_blank());
    assert!(!row.is_concrete());
}
