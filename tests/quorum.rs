use routing::{is_quorum, ELDER_SIZE, QUORUM_DENOMINATOR, QUORUM_NUMERATOR};

#[test]
fn quorum_check() {
    assert!(
        QUORUM_NUMERATOR < QUORUM_DENOMINATOR,
        "Quorum impossible to achieve"
    );
    assert!(
        QUORUM_NUMERATOR * 2 >= QUORUM_DENOMINATOR,
        "Quorum does not guarantee agreement"
    );
}

#[test]
fn supermajority_of_elders() {
    assert!(!is_quorum(4, ELDER_SIZE));
    assert!(is_quorum(5, ELDER_SIZE));
    assert!(!is_quorum(2, 3));
    assert!(is_quorum(3, 3));
    assert!(!is_quorum(0, 0));
}
