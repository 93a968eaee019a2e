use passay_rs::password_generator::PasswordGenerator;
use passay_rs::rule::character::CharacterRule;
use passay_rs::rule::character_characteristics::CharacterCharacteristics;
use passay_rs::rule::character_data::EnglishCharacterData;
use passay_rs::rule::{PasswordData, Rule};
use std::ops::Not;

#[test]
fn test_generator() {
    let passwords = random_passwords();
    for pass in passwords {
        let password_data = PasswordData::with_password(pass);
        assert!(gen_fail_rule().validate(&password_data).valid().not());
        assert!(gen_verify_rule().validate(&password_data).valid());
    }
}

#[test]
fn test_buffer_overflow() {
    let output = PasswordGenerator::new()
        .unwrap()
        .generate_password(
            5,
            &vec![CharacterRule::new(Box::new(EnglishCharacterData::Digit), 10).unwrap()],
        )
        .unwrap();
    assert_eq!(5, output.chars().count());
    let output = PasswordGenerator::new()
        .unwrap()
        .generate_password(
            10,
            &vec![CharacterRule::new(Box::new(EnglishCharacterData::Digit), 5).unwrap()],
        )
        .unwrap();
    assert_eq!(10, output.chars().count());
    let output = PasswordGenerator::new()
        .unwrap()
        .generate_password(
            10,
            &vec![CharacterRule::new(Box::new(EnglishCharacterData::Digit), 10).unwrap()],
        )
        .unwrap();
    assert_eq!(10, output.chars().count());
    assert!(output.chars().all(|c| c.is_ascii_digit()));
}

fn random_passwords() -> Vec<String> {
    let mut passwords = Vec::with_capacity(100);
    const LEN: usize = 10;

    let mut password_generator = PasswordGenerator::new().unwrap();

    let rule = gen_rule();
    for _ in 0..100 {
        let password = password_generator.generate_password(LEN, &rule).unwrap();
        assert!(password.chars().count() >= LEN);
        passwords.push(password);
    }
    passwords
}

fn gen_rule() -> Vec<CharacterRule> {
    vec![
        CharacterRule::new(Box::new(EnglishCharacterData::Digit), 2).unwrap(),
        CharacterRule::new(Box::new(EnglishCharacterData::Special), 2).unwrap(),
        CharacterRule::new(Box::new(EnglishCharacterData::UpperCase), 1).unwrap(),
        CharacterRule::new(Box::new(EnglishCharacterData::LowerCase), 1).unwrap(),
    ]
}

fn gen_verify_rule() -> CharacterCharacteristics {
    CharacterCharacteristics::with_rules_and_characteristics(gen_rule(), 3).unwrap()
}

fn gen_fail_rule() -> CharacterCharacteristics {
    let char_rules = vec![
        CharacterRule::new(Box::new(EnglishCharacterData::Digit), 3).unwrap(),
        CharacterRule::new(Box::new(EnglishCharacterData::Special), 3).unwrap(),
        CharacterRule::new(Box::new(EnglishCharacterData::UpperCase), 3).unwrap(),
        CharacterRule::new(Box::new(EnglishCharacterData::LowerCase), 3).unwrap(),
    ];

    CharacterCharacteristics::with_rules_and_characteristics(char_rules, 4).unwrap()
}

#[test]
fn generator_refuses_what_it_cannot_do() {
    let mut generator = PasswordGenerator::new().unwrap();
    assert_eq!(
        Err("length must be greater than 0".to_string()),
        generator.generate_password(0, &gen_rule())
    );
    assert_eq!(
        Err("low > high (or equal if exclusive) in uniform distribution".to_string()),
        generator.generate_password(4, &vec![])
    );
    // three rules ask for more than the length: nothing is added to them
    let password = generator.generate_password(3, &gen_rule()).unwrap();
    assert_eq!(2 + 2 + 1 + 1, password.chars().count());
    // each rule gives its characters in its turn
    let password = generator.generate_password(20, &gen_rule()).unwrap();
    let chars: Vec<char> = password.chars().collect();
    assert_eq!(20, chars.len());
    assert!(chars[..2].iter().all(|c| c.is_ascii_digit()));
    assert!(chars[2..4].iter().all(|c| !c.is_ascii_alphanumeric()));
    assert!(chars[4].is_ascii_uppercase());
    assert!(chars[5].is_ascii_lowercase());
}

#[test]
fn randomize_keeps_the_characters() {
    let mut generator = PasswordGenerator::new().unwrap();
    let mixed = generator.randomize("abcabc\u{e9}".to_string()).unwrap();
    let mut before: Vec<char> = "abcabc\u{e9}".chars().collect();
    let mut after: Vec<char> = mixed.chars().collect();
    before.sort();
    after.sort();
    assert_eq!(before, after);
    assert!(generator.randomize(String::new()).is_err());
}
