use passay_rs::rule::message_resolver::{DebugMessageResolver, MessageResolver};
use passay_rs::rule::rule_result::RuleResult;
use passay_rs::rule::{PasswordData, Rule};
use passay_rs::rule::character::CharacterRule;
use passay_rs::rule::character_characteristics::CharacterCharacteristics;
use passay_rs::rule::character_data::{CharacterData, EnglishCharacterData};
use passay_rs::rule::illegal_sequence_rule::IllegalSequenceRule;
use passay_rs::rule::length_complexity::{LengthComplexityRule, ERROR_CODE, ERROR_CODE_RULES};
use passay_rs::rule::length_rule::{LengthRule, ERROR_CODE_MAX, ERROR_CODE_MIN};
use passay_rs::rule::repeat_character::RepeatCharacterRule;
use passay_rs::rule::sequence_data::{EnglishSequenceData, SequenceData};
use passay_rs::rule::username::UsernameRule;
use passay_rs::rule::{character_characteristics, repeat_character, username};

pub struct RulePasswordTestItem<'a>(pub Box<dyn Rule>, pub PasswordData, pub Vec<&'a str>);

pub fn check_passwords(items: Vec<RulePasswordTestItem>) {
    for (case_num, item) in items.iter().enumerate() {
        let rule = &item.0;
        let password = &item.1;
        let expected_errors = &item.2;

        let result = rule.validate(password);
        if !expected_errors.is_empty() {
            if !result.valid() {
                assert!(!result.valid());
            }
            assert_eq!(
                expected_errors.len(),
                result.details().len(),
                "[CASE:{}] expected {} errors but got {}",
                case_num,
                expected_errors.len(),
                result.details().len()
            );
            for error_code in expected_errors {
                has_error_code(error_code, &result);
            }
        } else {
            assert!(result.valid(), "[CASE:{}] expected a valid password", case_num);
        }
    }
}

pub fn check_messages(items: Vec<RulePasswordTestItem>) {
    for item in items {
        let resolver = DebugMessageResolver;
        let rule = item.0;
        let password = &item.1;
        let expected_errors = item.2;
        let result = rule.validate(password);
        assert!(!result.valid(), "rule result should be invalid");
        assert_eq!(expected_errors.len(), result.details().len());

        for i in 0..result.details().len() {
            let result_detail = result.details().get(i).unwrap();
            let error = expected_errors[i];
            let resolved_message = resolver.resolve(result_detail);
            for part in error.split(",") {
                if part.is_empty() {
                    panic!("empty error part is not allowed")
                }
                assert!(
                    resolved_message.contains(part),
                    "expected {part:?} not found in resolved message: {resolved_message:?}"
                );
            }
        }
    }
}

fn has_error_code(code: &str, result: &RuleResult) -> bool {
    for detail in result.details() {
        if code == detail.error_code() {
            return true;
        }
    }
    false
}

#[test]
fn length_complexity_test_passwords() {
    let test_cases: Vec<RulePasswordTestItem> = vec![
        // valid passwords in each length range
        RulePasswordTestItem(
            Box::new(rule1()),
            PasswordData::with_password_and_user(
                "r%scvEW2e".to_string(),
                Some("alfred".to_string()),
            ),
            vec![],
        ),
        RulePasswordTestItem(
            Box::new(rule1()),
            PasswordData::with_password_and_user(
                "rkscvEW2e93C".to_string(),
                Some("alfred".to_string()),
            ),
            vec![],
        ),
        RulePasswordTestItem(
            Box::new(rule1()),
            PasswordData::with_password_and_user(
                "rkscvEWbePwCOUovqt".to_string(),
                Some("alfred".to_string()),
            ),
            vec![],
        ),
        RulePasswordTestItem(
            Box::new(rule1()),
            PasswordData::with_password_and_user(
                "horse staple battery".to_string(),
                Some("alfred".to_string()),
            ),
            vec![],
        ),
        RulePasswordTestItem(
            Box::new(rule1()),
            PasswordData::with_password_and_user(
                "it was the best of times".to_string(),
                Some("alfred".to_string()),
            ),
            vec![],
        ),
        // invalid passwords
        RulePasswordTestItem(
            Box::new(rule1()),
            PasswordData::with_password_and_user(
                "r%vE2".to_string(),
                Some("alfred".to_string()),
            ),
            vec![ERROR_CODE, ERROR_CODE_MIN],
        ),
        RulePasswordTestItem(
            Box::new(rule1()),
            PasswordData::with_password_and_user(
                "It was the best of times, it was the worst of times, it was the age of wisdom,".to_string(),
                Some("alfred".to_string()),
            ),
            vec![ERROR_CODE, ERROR_CODE_MAX],
        ),
        RulePasswordTestItem(
            Box::new(rule1()),
            PasswordData::with_password_and_user(
                "It was the best of times, it was the worst of times, it was the age of wisdom, \
                it was the age of foolishness, it was the epoch of belief, \
                it was the epoch of incredulity, it was the season of Light,".to_string(),
                Some("alfred".to_string()),
            ),
            vec![ERROR_CODE_RULES],
        ),
        RulePasswordTestItem(
            Box::new(rule1()),
            PasswordData::with_password_and_user(
                "rPscvEW2e".to_string(),
                Some("alfred".to_string()),
            ),
            vec![ERROR_CODE, character_characteristics::ERROR_CODE, EnglishCharacterData::Digit.error_code()],
        ),
        RulePasswordTestItem(
            Box::new(rule1()),
            PasswordData::with_password_and_user(
                "r%scvEWte".to_string(),
                Some("alfred".to_string()),
            ),
            vec![ERROR_CODE, character_characteristics::ERROR_CODE, EnglishCharacterData::Digit.error_code()],
        ),
        RulePasswordTestItem(
            Box::new(rule1()),
            PasswordData::with_password_and_user(
                "r%scvew2e".to_string(),
                Some("alfred".to_string()),
            ),
            vec![ERROR_CODE, character_characteristics::ERROR_CODE, EnglishCharacterData::UpperCase.error_code()],
        ),
        RulePasswordTestItem(
            Box::new(rule1()),
            PasswordData::with_password_and_user(
                "R%SCVEW2E".to_string(),
                Some("alfred".to_string()),
            ),
            vec![ERROR_CODE, character_characteristics::ERROR_CODE, EnglishCharacterData::LowerCase.error_code()],
        ),
        RulePasswordTestItem(
            Box::new(rule1()),
            PasswordData::with_password_and_user(
                "rALfredTe".to_string(),
                Some("alfred".to_string()),
            ),
            vec![ERROR_CODE, username::ERROR_CODE,character_characteristics::ERROR_CODE,
                 EnglishCharacterData::Special.error_code(), EnglishCharacterData::Digit.error_code()],
        ),
        RulePasswordTestItem(
            Box::new(rule1()),
            PasswordData::with_password_and_user(
                "It was the best of eeeee, it was the worst of 87654".to_string(),
                Some("alfred".to_string()),
            ),
            vec![ERROR_CODE, repeat_character::ERROR_CODE,
                 EnglishSequenceData::USQwerty.error_code(), EnglishSequenceData::Numerical.error_code()],
        ),
        RulePasswordTestItem(
            // RULE 2
            Box::new(rule2()),
            PasswordData::with_password_and_user(
                "It was the best of eeeee, it was the worst of 87654".to_string(),
                Some("alfred".to_string()),
            ),
            vec![
                ERROR_CODE,
                EnglishSequenceData::USQwerty.error_code(),
                EnglishSequenceData::Numerical.error_code(),
            ],
        ),
    ];
    check_passwords(test_cases);
}

fn rule1() -> LengthComplexityRule {
    let char_rules = vec![
        CharacterRule::new(Box::new(EnglishCharacterData::Digit), 1).unwrap(),
        CharacterRule::new(Box::new(EnglishCharacterData::Special), 1).unwrap(),
        CharacterRule::new(Box::new(EnglishCharacterData::UpperCase), 1).unwrap(),
        CharacterRule::new(Box::new(EnglishCharacterData::LowerCase), 1).unwrap(),
    ];

    let rules: Vec<Box<dyn Rule>> = vec![
        Box::new(LengthRule::new(8, 64)),
        Box::new(
            CharacterCharacteristics::with_rules_and_characteristics(char_rules, 4).unwrap(),
        ),
        Box::new(UsernameRule::with_match_backwards_and_ignore_case(
            true, true,
        )),
        Box::new(IllegalSequenceRule::with_sequence_data(
            EnglishSequenceData::Alphabetical,
        )),
        Box::new(IllegalSequenceRule::with_sequence_data(
            EnglishSequenceData::Numerical,
        )),
        Box::new(IllegalSequenceRule::with_sequence_data(
            EnglishSequenceData::USQwerty,
        )),
        Box::new(RepeatCharacterRule::default()),
    ];
    let mut rule = LengthComplexityRule::default();
    let _ = rule.add_rules(0..12, rules);

    let char_rules = vec![
        CharacterRule::new(Box::new(EnglishCharacterData::Digit), 1).unwrap(),
        CharacterRule::new(Box::new(EnglishCharacterData::UpperCase), 1).unwrap(),
        CharacterRule::new(Box::new(EnglishCharacterData::LowerCase), 1).unwrap(),
    ];
    let rules: Vec<Box<dyn Rule>> = vec![
        Box::new(LengthRule::new(8, 64)),
        Box::new(
            CharacterCharacteristics::with_rules_and_characteristics(char_rules, 3).unwrap(),
        ),
        Box::new(UsernameRule::with_match_backwards_and_ignore_case(
            true, true,
        )),
        Box::new(IllegalSequenceRule::with_sequence_data(
            EnglishSequenceData::Alphabetical,
        )),
        Box::new(IllegalSequenceRule::with_sequence_data(
            EnglishSequenceData::Numerical,
        )),
        Box::new(IllegalSequenceRule::with_sequence_data(
            EnglishSequenceData::USQwerty,
        )),
        Box::new(RepeatCharacterRule::default()),
    ];
    let _ = rule.add_rules(12..16, rules);

    let char_rules = vec![
        CharacterRule::new(Box::new(EnglishCharacterData::UpperCase), 1).unwrap(),
        CharacterRule::new(Box::new(EnglishCharacterData::LowerCase), 1).unwrap(),
    ];
    let rules: Vec<Box<dyn Rule>> = vec![
        Box::new(LengthRule::new(8, 64)),
        Box::new(
            CharacterCharacteristics::with_rules_and_characteristics(char_rules, 2).unwrap(),
        ),
        Box::new(UsernameRule::with_match_backwards_and_ignore_case(
            true, true,
        )),
        Box::new(IllegalSequenceRule::with_sequence_data(
            EnglishSequenceData::Alphabetical,
        )),
        Box::new(IllegalSequenceRule::with_sequence_data(
            EnglishSequenceData::Numerical,
        )),
        Box::new(IllegalSequenceRule::with_sequence_data(
            EnglishSequenceData::USQwerty,
        )),
        Box::new(RepeatCharacterRule::default()),
    ];
    let _ = rule.add_rules(16..20, rules);

    let rules: Vec<Box<dyn Rule>> = vec![
        Box::new(LengthRule::new(8, 64)),
        Box::new(UsernameRule::with_match_backwards_and_ignore_case(
            true, true,
        )),
        Box::new(IllegalSequenceRule::with_sequence_data(
            EnglishSequenceData::Alphabetical,
        )),
        Box::new(IllegalSequenceRule::with_sequence_data(
            EnglishSequenceData::Numerical,
        )),
        Box::new(IllegalSequenceRule::with_sequence_data(
            EnglishSequenceData::USQwerty,
        )),
        Box::new(RepeatCharacterRule::default()),
    ];
    let _ = rule.add_rules(20..128, rules);
    rule
}
fn rule2() -> LengthComplexityRule {
    let char_rules = vec![
        CharacterRule::new(Box::new(EnglishCharacterData::Digit), 1).unwrap(),
        CharacterRule::new(Box::new(EnglishCharacterData::Special), 1).unwrap(),
        CharacterRule::new(Box::new(EnglishCharacterData::UpperCase), 1).unwrap(),
        CharacterRule::new(Box::new(EnglishCharacterData::LowerCase), 1).unwrap(),
    ];

    let rules: Vec<Box<dyn Rule>> = vec![
        Box::new(LengthRule::new(8, 64)),
        Box::new(
            CharacterCharacteristics::with_rules_and_characteristics(char_rules, 4).unwrap(),
        ),
        Box::new(UsernameRule::with_match_backwards_and_ignore_case(
            true, true,
        )),
        Box::new(IllegalSequenceRule::with_sequence_data(
            EnglishSequenceData::Alphabetical,
        )),
        Box::new(IllegalSequenceRule::with_sequence_data(
            EnglishSequenceData::Numerical,
        )),
        Box::new(IllegalSequenceRule::with_sequence_data(
            EnglishSequenceData::USQwerty,
        )),
        Box::new(RepeatCharacterRule::default()),
    ];
    let mut rule = LengthComplexityRule::default();
    rule.set_report_failure(false);
    let _ = rule.add_rules(0..20, rules);

    let rules: Vec<Box<dyn Rule>> = vec![
        Box::new(LengthRule::new(8, 64)),
        Box::new(UsernameRule::with_match_backwards_and_ignore_case(
            true, true,
        )),
        Box::new(IllegalSequenceRule::with_sequence_data(
            EnglishSequenceData::Alphabetical,
        )),
        Box::new(IllegalSequenceRule::with_sequence_data(
            EnglishSequenceData::Numerical,
        )),
        Box::new(IllegalSequenceRule::with_sequence_data(
            EnglishSequenceData::USQwerty,
        )),
        Box::new(RepeatCharacterRule::default()),
    ];
    let _ = rule.add_rules(20..usize::MAX, rules);
    rule
}
