use passay_rs::rule::message_resolver::{DebugMessageResolver, MessageResolver};
use passay_rs::rule::rule_result::RuleResult;
use passay_rs::rule::{PasswordData, Rule};
use passay_rs::rule::character_occurrences::{CharacterOccurrences, ERROR_CODE};

pub struct RulePasswordTestItem<'a>(pub Box<dyn Rule>, pub PasswordData, pub Vec<&'a str>);

pub fn check_passwords(items: Vec<RulePasswordTestItem>) {
    for (case_num, item) in items.iter().enumerate() {
        let rule = &item.0;
        let password = &item.1;
        let expected_errors = &item.2;

        let result = rule.validate(password);
        if !expected_errors.is_empty() {
            if !result.valid() {
                assert!(!result.valid());
            }
            assert_eq!(
                expected_errors.len(),
                result.details().len(),
                "[CASE:{}] expected {} errors but got {}",
                case_num,
                expected_errors.len(),
                result.details().len()
            );
            for error_code in expected_errors {
                has_error_code(error_code, &result);
            }
        } else {
            assert!(result.valid(), "[CASE:{}] expected a valid password", case_num);
        }
    }
}

pub fn check_messages(items: Vec<RulePasswordTestItem>) {
    for item in items {
        let resolver = DebugMessageResolver;
        let rule = item.0;
        let password = &item.1;
        let expected_errors = item.2;
        let result = rule.validate(password);
        assert!(!result.valid(), "rule result should be invalid");
        assert_eq!(expected_errors.len(), result.details().len());

        for i in 0..result.details().len() {
            let result_detail = result.details().get(i).unwrap();
            let error = expected_errors[i];
            let resolved_message = resolver.resolve(result_detail);
            for part in error.split(",") {
                if part.is_empty() {
                    panic!("empty error part is not allowed")
                }
                assert!(
                    resolved_message.contains(part),
                    "expected {part:?} not found in resolved message: {resolved_message:?}"
                );
            }
        }
    }
}

fn has_error_code(code: &str, result: &RuleResult) -> bool {
    for detail in result.details() {
        if code == detail.error_code() {
            return true;
        }
    }
    false
}

#[test]
fn character_occurrences_test_passwords() {
    let rule = Box::new(CharacterOccurrences::new(4));
    let test_cases: Vec<RulePasswordTestItem> = vec![
        RulePasswordTestItem(
            rule.clone(),
            PasswordData::with_password("p4zRcv101#n6F".to_string()),
            vec![],
        ),
        RulePasswordTestItem(
            rule.clone(),
            PasswordData::with_password("aaaa#n65".to_string()),
            vec![],
        ),
        RulePasswordTestItem(
            rule.clone(),
            PasswordData::with_password("a1a2a3a4#n65bbbb".to_string()),
            vec![],
        ),
        RulePasswordTestItem(
            rule.clone(),
            PasswordData::with_password("aaaaa".to_string()),
            vec![ERROR_CODE],
        ),
        RulePasswordTestItem(
            rule.clone(),
            PasswordData::with_password("aaaaa#n65".to_string()),
            vec![ERROR_CODE],
        ),
        RulePasswordTestItem(
            rule.clone(),
            PasswordData::with_password("111aaaaa".to_string()),
            vec![ERROR_CODE],
        ),
        RulePasswordTestItem(
            rule.clone(),
            PasswordData::with_password("aaaaabbb".to_string()),
            vec![ERROR_CODE],
        ),
        RulePasswordTestItem(
            rule.clone(),
            PasswordData::with_password("a1a2a3a4a".to_string()),
            vec![ERROR_CODE],
        ),
        RulePasswordTestItem(
            rule.clone(),
            PasswordData::with_password("1aa2aa3a".to_string()),
            vec![ERROR_CODE],
        ),
        RulePasswordTestItem(
            rule.clone(),
            PasswordData::with_password("babababab".to_string()),
            vec![ERROR_CODE],
        ),
        RulePasswordTestItem(
            rule.clone(),
            PasswordData::with_password("ababababa".to_string()),
            vec![ERROR_CODE],
        ),
        RulePasswordTestItem(
            Box::new(CharacterOccurrences::new(5)),
            PasswordData::with_password("1aa2aa3aa4bbb5bb6bbb".to_string()),
            vec![ERROR_CODE, ERROR_CODE],
        ),
    ];
    check_passwords(test_cases);
}
#[test]
fn character_occurrences_test_messages() {
    let test_cases: Vec<RulePasswordTestItem> = vec![RulePasswordTestItem(
        Box::new(CharacterOccurrences::new(4)),
        PasswordData::with_password("a1a2a3a4a5a".to_string()),
        vec!["TOO_MANY_OCCURRENCES,6,a,4"],
    )];
    check_messages(test_cases);
}
