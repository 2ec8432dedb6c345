use rust_jwt_cracker::generators::char_iter::AlphabetGenerator;

#[test]
fn char_iter_empty_alphabet() {
    let mut gen = AlphabetGenerator::init("".chars());
    let next = gen.next();
    assert_eq!(next, None);
}

#[test]
fn char_iter_limit_zero() {
    let mut gen = AlphabetGenerator::init("a".chars()).with_limit(0);
    let next = gen.next();
    assert_eq!(next, None);
}

#[test]
fn char_iter_single_char_alphabet() {
    let mut gen = AlphabetGenerator::init("a".chars());
    let next = gen.next();
    assert_eq!(next, Some("a".to_string()));
    let next = gen.next();
    assert_eq!(next, Some("aa".to_string()));
    let next = gen.next();
    assert_eq!(next, Some("aaa".to_string()));
    let next = gen.next();
    assert_eq!(next, Some("aaaa".to_string()));
}

#[test]
fn char_iter_single_char_alphabet_with_limit() {
    let mut gen = AlphabetGenerator::init("a".chars()).with_limit(3);
    let next = gen.next();
    assert_eq!(next, Some("a".to_string()));
    let next = gen.next();
    assert_eq!(next, Some("aa".to_string()));
    let next = gen.next();
    assert_eq!(next, Some("aaa".to_string()));
    let next = gen.next();
    assert_eq!(next, None);
}

#[test]
fn char_iter_two_chars_alphabet() {
    let mut gen = AlphabetGenerator::init("ab".chars());
    let next = gen.next();
    assert_eq!(next, Some("a".to_string()));
    let next = gen.next();
    assert_eq!(next, Some("b".to_string()));
    let next = gen.next();
    assert_eq!(next, Some("aa".to_string()));
    let next = gen.next();
    assert_eq!(next, Some("ab".to_string()));
    let next = gen.next();
    assert_eq!(next, Some("ba".to_string()));
    let next = gen.next();
    assert_eq!(next, Some("bb".to_string()));
    let next = gen.next();
    assert_eq!(next, Some("aaa".to_string()));
    let next = gen.next();
    assert_eq!(next, Some("aab".to_string()));
}
