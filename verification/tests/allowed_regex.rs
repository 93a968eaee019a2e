use passay_rs::rule::message_resolver::{DebugMessageResolver, MessageResolver};
use passay_rs::rule::rule_result::RuleResult;
use passay_rs::rule::{PasswordData, Rule};
use fancy_regex::{Regex, RegexBuilder};
use passay_rs::rule::allowed_regex::{AllowedRegex, ERROR_CODE};

pub struct RulePasswordTestItem<'a>(pub Box<dyn Rule>, pub PasswordData, pub Vec<&'a str>);

pub fn check_passwords(items: Vec<RulePasswordTestItem>) {
    for (case_num, item) in items.iter().enumerate() {
        let rule = &item.0;
        let password = &item.1;
        let expected_errors = &item.2;

        let result = rule.validate(password);
        if !expected_errors.is_empty() {
            if !result.valid() {
                assert!(!result.valid());
            }
            assert_eq!(
                expected_errors.len(),
                result.details().len(),
                "[CASE:{}] expected {} errors but got {}",
                case_num,
                expected_errors.len(),
                result.details().len()
            );
            for error_code in expected_errors {
                has_error_code(error_code, &result);
            }
        } else {
            assert!(result.valid(), "[CASE:{}] expected a valid password", case_num);
        }
    }
}

pub fn check_messages(items: Vec<RulePasswordTestItem>) {
    for item in items {
        let resolver = DebugMessageResolver;
        let rule = item.0;
        let password = &item.1;
        let expected_errors = item.2;
        let result = rule.validate(password);
        assert!(!result.valid(), "rule result should be invalid");
        assert_eq!(expected_errors.len(), result.details().len());

        for i in 0..result.details().len() {
            let result_detail = result.details().get(i).unwrap();
            let error = expected_errors[i];
            let resolved_message = resolver.resolve(result_detail);
            for part in error.split(",") {
                if part.is_empty() {
                    panic!("empty error part is not allowed")
                }
                assert!(
                    resolved_message.contains(part),
                    "expected {part:?} not found in resolved message: {resolved_message:?}"
                );
            }
        }
    }
}

fn has_error_code(code: &str, result: &RuleResult) -> bool {
    for detail in result.details() {
        if code == detail.error_code() {
            return true;
        }
    }
    false
}

#[test]
fn allowed_regex_test_passwords() {
    let test_cases: Vec<RulePasswordTestItem> = vec![
        // test invalid password
        RulePasswordTestItem(
            Box::new(AllowedRegex::from_regex(
                Regex::new("\\d\\d\\d\\d").unwrap(),
            )),
            PasswordData::with_password("p4zRcv8#n65".to_string()),
            vec![ERROR_CODE],
        ),
        // test entire password
        RulePasswordTestItem(
            Box::new(AllowedRegex::from_regex(
                Regex::new("^[\\p{Alpha}]+\\d\\d\\d\\d$").unwrap(),
            )),
            PasswordData::with_password("pwUiNh0248".to_string()),
            vec![],
        ),
        // test find password
        RulePasswordTestItem(
            Box::new(AllowedRegex::from_regex(
                Regex::new("\\d\\d\\d\\d").unwrap(),
            )),
            PasswordData::with_password("pwUiNh0248".to_string()),
            vec![],
        ),
        // test case-insensitive
        RulePasswordTestItem(
            Box::new(AllowedRegex::from_regex(
                RegexBuilder::new("abcd").case_insensitive(true).build().unwrap(),
            )),
            PasswordData::with_password("pwUAbbCd0248xwK".to_string()),
            vec![ERROR_CODE],
        ),
        // test case-insensitive
        RulePasswordTestItem(
            Box::new(AllowedRegex::from_regex(Regex::new("(?i)abcd").unwrap())),
            PasswordData::with_password("pwUAbbCd0248xwK".to_string()),
            vec![ERROR_CODE],
        ),
        // test case-insensitive
        RulePasswordTestItem(
            Box::new(AllowedRegex::from_regex(
                RegexBuilder::new("abcd").case_insensitive(true).build().unwrap(),
            )),
            PasswordData::with_password("pwUAbCd0248xwK".to_string()),
            vec![],
        ),
        // test case-insensitive
        RulePasswordTestItem(
            Box::new(AllowedRegex::from_regex(Regex::new("(?i)abcd").unwrap())),
            PasswordData::with_password("pwUAbCd0248xwK".to_string()),
            vec![],
        ),
    ];
    check_passwords(test_cases);
}

#[test]
fn allowed_regex_test_messages() {
    let test_cases: Vec<RulePasswordTestItem> = vec![
        RulePasswordTestItem(
            Box::new(AllowedRegex::from_regex(
                Regex::new("\\d\\d\\d\\d").unwrap(),
            )),
            PasswordData::with_password("p4zRcv8#n65".to_string()),
            vec!["ALLOWED_MATCH,\"\\\\d\\\\d\\\\d\\\\d\""],
        ),
        RulePasswordTestItem(
            Box::new(AllowedRegex::from_regex(
                RegexBuilder::new("abcd").case_insensitive(true).build().unwrap(),
            )),
            PasswordData::with_password("p4zRabCCdv8#n65".to_string()),
            vec!["ALLOWED_MATCH,\"abcd\""],
        ),
        RulePasswordTestItem(
            Box::new(AllowedRegex::from_regex(Regex::new("(?i)abcd").unwrap())),
            PasswordData::with_password("p4zRabCCdv8#n65".to_string()),
            vec!["ALLOWED_MATCH,\"(?i)abcd\""],
        ),
    ];
    check_messages(test_cases);
}
