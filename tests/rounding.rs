use mixingcut::rounding::{sign_lines, signs_of};

#[test]
fn signs_follow_the_side_of_the_hyperplane() {
    let x = signs_of(&vec![true, false, false, true]);
    assert_eq!(x, vec![1, -1, -1, 1]);
    for v in &x {
        assert!(*v == 1 || *v == -1);
    }
}

#[test]
fn signs_of_nothing() {
    assert_eq!(signs_of(&vec![]), Vec::<i8>::new());
}

#[test]
fn sign_lines_write_one_value_per_line() {
    let text = sign_lines(&vec![1, -1, -1]);
    assert_eq!(String::from_utf8(text).unwrap(), "1\n-1\n-1\n");
    assert_eq!(sign_lines(&vec![]), Vec::<u8>::new());
}
