use passay_rs::rule::message_resolver::{DebugMessageResolver, MessageResolver};
use passay_rs::rule::rule_result::RuleResult;
use passay_rs::rule::{PasswordData, Rule};
use passay_rs::rule::repeat_characters::{RepeatCharactersRule, ERROR_CODE};

pub struct RulePasswordTestItem<'a>(pub Box<dyn Rule>, pub PasswordData, pub Vec<&'a str>);

pub fn check_passwords(items: Vec<RulePasswordTestItem>) {
    for (case_num, item) in items.iter().enumerate() {
        let rule = &item.0;
        let password = &item.1;
        let expected_errors = &item.2;

        let result = rule.validate(password);
        if !expected_errors.is_empty() {
            if !result.valid() {
                assert!(!result.valid());
            }
            assert_eq!(
                expected_errors.len(),
                result.details().len(),
                "[CASE:{}] expected {} errors but got {}",
                case_num,
                expected_errors.len(),
                result.details().len()
            );
            for error_code in expected_errors {
                has_error_code(error_code, &result);
            }
        } else {
            assert!(result.valid(), "[CASE:{}] expected a valid password", case_num);
        }
    }
}

pub fn check_messages(items: Vec<RulePasswordTestItem>) {
    for item in items {
        let resolver = DebugMessageResolver;
        let rule = item.0;
        let password = &item.1;
        let expected_errors = item.2;
        let result = rule.validate(password);
        assert!(!result.valid(), "rule result should be invalid");
        assert_eq!(expected_errors.len(), result.details().len());

        for i in 0..result.details().len() {
            let result_detail = result.details().get(i).unwrap();
            let error = expected_errors[i];
            let resolved_message = resolver.resolve(result_detail);
            for part in error.split(",") {
                if part.is_empty() {
                    panic!("empty error part is not allowed")
                }
                assert!(
                    resolved_message.contains(part),
                    "expected {part:?} not found in resolved message: {resolved_message:?}"
                );
            }
        }
    }
}

fn has_error_code(code: &str, result: &RuleResult) -> bool {
    for detail in result.details() {
        if code == detail.error_code() {
            return true;
        }
    }
    false
}

#[test]
fn repeat_characters_test_passwords() {
    let test_cases: Vec<RulePasswordTestItem> = vec![
        // test valid password
        RulePasswordTestItem(
            Box::new(RepeatCharactersRule::default()),
            PasswordData::with_password("p4zRcv8#n65".to_string()),
            vec![],
        ),
        // test repeating character
        RulePasswordTestItem(
            Box::new(RepeatCharactersRule::default()),
            PasswordData::with_password("p4&&&&&#n65".to_string()),
            vec![ERROR_CODE],
        ),
        // test longer repeating character
        RulePasswordTestItem(
            Box::new(RepeatCharactersRule::default()),
            PasswordData::with_password("p4vvvvvvv#n65".to_string()),
            vec![ERROR_CODE],
        ),
        // test valid password for long sequence
        RulePasswordTestItem(
            Box::new(RepeatCharactersRule::with_sequence_length(7).unwrap()),
            PasswordData::with_password("p4zRcv8#n65".to_string()),
            vec![],
        ),
        // test long sequence with short repeat
        RulePasswordTestItem(
            Box::new(RepeatCharactersRule::with_sequence_length(7).unwrap()),
            PasswordData::with_password("p4&&&&&#n65".to_string()),
            vec![],
        ),
        // test long sequence with long repeat
        RulePasswordTestItem(
            Box::new(RepeatCharactersRule::with_sequence_length(7).unwrap()),
            PasswordData::with_password("p4vvvvvvv#n65".to_string()),
            vec![ERROR_CODE],
        ),
        // test multiple matches
        RulePasswordTestItem(
            Box::new(RepeatCharactersRule::default()),
            PasswordData::with_password("p4&&&&&#n65FFFFF".to_string()),
            vec![ERROR_CODE],
        ),
        // test multiple matches with allowed count
        RulePasswordTestItem(
            Box::new(RepeatCharactersRule::new(5, 3).unwrap()),
            PasswordData::with_password("p4&&&&&#n65FFFFF".to_string()),
            vec![],
        ),
        // test single match when max is two
        RulePasswordTestItem(
            Box::new(RepeatCharactersRule::new(5, 2).unwrap()),
            PasswordData::with_password("p4&&&&&#n65FFFF".to_string()),
            vec![],
        ),
        // test two matches when max is two
        RulePasswordTestItem(
            Box::new(RepeatCharactersRule::new(5, 2).unwrap()),
            PasswordData::with_password("p4&&&&&#n65FFFFF".to_string()),
            vec![ERROR_CODE],
        ),
        // test two matches when max is more than two
        RulePasswordTestItem(
            Box::new(RepeatCharactersRule::new(5, 3).unwrap()),
            PasswordData::with_password("p4&&&&&#n65FFFFF".to_string()),
            vec![],
        ),
    ];

    check_passwords(test_cases);
}

#[test]
fn repeat_characters_test_messages() {
    let test_cases: Vec<RulePasswordTestItem> = vec![RulePasswordTestItem(
        Box::new(RepeatCharactersRule::new(2, 2).unwrap()),
        PasswordData::with_password("paaxvbbdkccx".to_string()),
        vec!["ILLEGAL_REPEATED_CHARS,3,2,2,aa,bb,cc"],
    )];
    check_messages(test_cases);
}
