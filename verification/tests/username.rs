use passay_rs::rule::message_resolver::{DebugMessageResolver, MessageResolver};
use passay_rs::rule::rule_result::RuleResult;
use passay_rs::rule::{PasswordData, Rule};
use passay_rs::rule::allowed_character::MatchBehavior;
use passay_rs::rule::username::{UsernameRule, ERROR_CODE, ERROR_CODE_REVERSED};

pub struct RulePasswordTestItem<'a>(pub Box<dyn Rule>, pub PasswordData, pub Vec<&'a str>);

pub fn check_passwords(items: Vec<RulePasswordTestItem>) {
    for (case_num, item) in items.iter().enumerate() {
        let rule = &item.0;
        let password = &item.1;
        let expected_errors = &item.2;

        let result = rule.validate(password);
        if !expected_errors.is_empty() {
            if !result.valid() {
                assert!(!result.valid());
            }
            assert_eq!(
                expected_errors.len(),
                result.details().len(),
                "[CASE:{}] expected {} errors but got {}",
                case_num,
                expected_errors.len(),
                result.details().len()
            );
            for error_code in expected_errors {
                has_error_code(error_code, &result);
            }
        } else {
            assert!(result.valid(), "[CASE:{}] expected a valid password", case_num);
        }
    }
}

pub fn check_messages(items: Vec<RulePasswordTestItem>) {
    for item in items {
        let resolver = DebugMessageResolver;
        let rule = item.0;
        let password = &item.1;
        let expected_errors = item.2;
        let result = rule.validate(password);
        assert!(!result.valid(), "rule result should be invalid");
        assert_eq!(expected_errors.len(), result.details().len());

        for i in 0..result.details().len() {
            let result_detail = result.details().get(i).unwrap();
            let error = expected_errors[i];
            let resolved_message = resolver.resolve(result_detail);
            for part in error.split(",") {
                if part.is_empty() {
                    panic!("empty error part is not allowed")
                }
                assert!(
                    resolved_message.contains(part),
                    "expected {part:?} not found in resolved message: {resolved_message:?}"
                );
            }
        }
    }
}

fn has_error_code(code: &str, result: &RuleResult) -> bool {
    for detail in result.details() {
        if code == detail.error_code() {
            return true;
        }
    }
    false
}

#[test]
fn username_test_passwords() {
    let test_cases: Vec<RulePasswordTestItem> = vec![
        // test valid password
        RulePasswordTestItem(
            Box::new(UsernameRule::default()),
            PasswordData::with_password("p4t3stu$er#n65".to_string()),
            vec![],
        ),
        RulePasswordTestItem(
            Box::new(UsernameRule::default()),
            PasswordData::with_password_and_user(
                "p4t3stu$er#n65".to_string(),
                Some("".to_string()),
            ),
            vec![],
        ),
        RulePasswordTestItem(
            Box::new(UsernameRule::default()),
            PasswordData::with_password_and_user(
                "p4t3stu$er#n65".to_string(),
                Some("testuser".to_string()),
            ),
            vec![],
        ),
        // match username
        RulePasswordTestItem(
            Box::new(UsernameRule::default()),
            PasswordData::with_password_and_user(
                "p4testuser#n65".to_string(),
                Some("testuser".to_string()),
            ),
            vec![ERROR_CODE],
        ),
        RulePasswordTestItem(
            Box::new(UsernameRule::default()),
            PasswordData::with_password_and_user(
                "p4TestUser#n65".to_string(),
                Some("TestUser".to_string()),
            ),
            vec![ERROR_CODE],
        ),
        // negative testing for backwards and case sensitive
        RulePasswordTestItem(
            Box::new(UsernameRule::default()),
            PasswordData::with_password_and_user(
                "p4resutset#n65".to_string(),
                Some("testuser".to_string()),
            ),
            vec![],
        ),
        RulePasswordTestItem(
            Box::new(UsernameRule::default()),
            PasswordData::with_password_and_user(
                "p4TEStuSER#n65".to_string(),
                Some("testuser".to_string()),
            ),
            vec![],
        ),
        RulePasswordTestItem(
            Box::new(UsernameRule::default()),
            PasswordData::with_password_and_user(
                "p4testuser#n65".to_string(),
                Some("TestUser".to_string()),
            ),
            vec![],
        ),
        RulePasswordTestItem(
            Box::new(UsernameRule::default()),
            PasswordData::with_password_and_user(
                "p4RESUTsET#n65".to_string(),
                Some("testuser".to_string()),
            ),
            vec![],
        ),
        // backwards matching
        RulePasswordTestItem(
            Box::new(UsernameRule::with_match_backwards_and_ignore_case(
                true, false,
            )),
            PasswordData::with_password_and_user(
                "p4t3stu$er#n65".to_string(),
                Some("testuser".to_string()),
            ),
            vec![],
        ),
        RulePasswordTestItem(
            Box::new(UsernameRule::with_match_backwards_and_ignore_case(
                true, false,
            )),
            PasswordData::with_password_and_user(
                "p4testuser#n65".to_string(),
                Some("testuser".to_string()),
            ),
            vec![ERROR_CODE],
        ),
        RulePasswordTestItem(
            Box::new(UsernameRule::with_match_backwards_and_ignore_case(
                true, false,
            )),
            PasswordData::with_password_and_user(
                "p4resutset#n65".to_string(),
                Some("testuser".to_string()),
            ),
            vec![ERROR_CODE_REVERSED],
        ),
        RulePasswordTestItem(
            Box::new(UsernameRule::with_match_backwards_and_ignore_case(
                true, false,
            )),
            PasswordData::with_password_and_user(
                "p4TEStuSER#n65".to_string(),
                Some("testuser".to_string()),
            ),
            vec![],
        ),
        RulePasswordTestItem(
            Box::new(UsernameRule::with_match_backwards_and_ignore_case(
                true, false,
            )),
            PasswordData::with_password_and_user(
                "p4RESUTsET#n65".to_string(),
                Some("testuser".to_string()),
            ),
            vec![],
        ),
        // case insensitive matching
        RulePasswordTestItem(
            Box::new(UsernameRule::with_match_backwards_and_ignore_case(
                false, true,
            )),
            PasswordData::with_password_and_user(
                "p4t3stu$er#n65".to_string(),
                Some("testuser".to_string()),
            ),
            vec![],
        ),
        RulePasswordTestItem(
            Box::new(UsernameRule::with_match_backwards_and_ignore_case(
                false, true,
            )),
            PasswordData::with_password_and_user(
                "p4testuser#n65".to_string(),
                Some("testuser".to_string()),
            ),
            vec![ERROR_CODE],
        ),
        RulePasswordTestItem(
            Box::new(UsernameRule::with_match_backwards_and_ignore_case(
                false, true,
            )),
            PasswordData::with_password_and_user(
                "p4testuser#n65".to_string(),
                Some("TestUser".to_string()),
            ),
            vec![ERROR_CODE],
        ),
        RulePasswordTestItem(
            Box::new(UsernameRule::with_match_backwards_and_ignore_case(
                false, true,
            )),
            PasswordData::with_password_and_user(
                "p4resutset#n65".to_string(),
                Some("testuser".to_string()),
            ),
            vec![],
        ),
        RulePasswordTestItem(
            Box::new(UsernameRule::with_match_backwards_and_ignore_case(
                false, true,
            )),
            PasswordData::with_password_and_user(
                "p4TEStuSER#n65".to_string(),
                Some("testuser".to_string()),
            ),
            vec![ERROR_CODE],
        ),
        RulePasswordTestItem(
            Box::new(UsernameRule::with_match_backwards_and_ignore_case(
                false, true,
            )),
            PasswordData::with_password_and_user(
                "p4RESUTsET#n65".to_string(),
                Some("testuser".to_string()),
            ),
            vec![],
        ),
        // both backwards and case-insensitive matching
        RulePasswordTestItem(
            Box::new(UsernameRule::with_match_backwards_and_ignore_case(
                true, true,
            )),
            PasswordData::with_password_and_user(
                "p4t3stu$er#n65".to_string(),
                Some("testuser".to_string()),
            ),
            vec![],
        ),
        RulePasswordTestItem(
            Box::new(UsernameRule::with_match_backwards_and_ignore_case(
                true, true,
            )),
            PasswordData::with_password_and_user(
                "p4testuser#n65".to_string(),
                Some("testuser".to_string()),
            ),
            vec![ERROR_CODE],
        ),
        RulePasswordTestItem(
            Box::new(UsernameRule::with_match_backwards_and_ignore_case(
                true, true,
            )),
            PasswordData::with_password_and_user(
                "p4testuser#n65".to_string(),
                Some("TestUser".to_string()),
            ),
            vec![ERROR_CODE],
        ),
        RulePasswordTestItem(
            Box::new(UsernameRule::with_match_backwards_and_ignore_case(
                true, true,
            )),
            PasswordData::with_password_and_user(
                "p4resutset#n65".to_string(),
                Some("testuser".to_string()),
            ),
            vec![ERROR_CODE_REVERSED],
        ),
        RulePasswordTestItem(
            Box::new(UsernameRule::with_match_backwards_and_ignore_case(
                true, true,
            )),
            PasswordData::with_password_and_user(
                "p4resutset#n65".to_string(),
                Some("TestUser".to_string()),
            ),
            vec![ERROR_CODE_REVERSED],
        ),
        RulePasswordTestItem(
            Box::new(UsernameRule::with_match_backwards_and_ignore_case(
                true, true,
            )),
            PasswordData::with_password_and_user(
                "p4TEStuSER#n65".to_string(),
                Some("testuser".to_string()),
            ),
            vec![ERROR_CODE],
        ),
        RulePasswordTestItem(
            Box::new(UsernameRule::with_match_backwards_and_ignore_case(
                true, true,
            )),
            PasswordData::with_password_and_user(
                "p4RESUTsET#n65".to_string(),
                Some("testuser".to_string()),
            ),
            vec![ERROR_CODE_REVERSED],
        ),
        // test match behavior
        RulePasswordTestItem(
            Box::new(UsernameRule::with_match_behavior(MatchBehavior::StartsWith)),
            PasswordData::with_password_and_user(
                "testuser#n65".to_string(),
                Some("testuser".to_string()),
            ),
            vec![ERROR_CODE],
        ),
        RulePasswordTestItem(
            Box::new(UsernameRule::with_match_behavior(MatchBehavior::StartsWith)),
            PasswordData::with_password_and_user(
                "p4testuser#n65".to_string(),
                Some("testuser".to_string()),
            ),
            vec![],
        ),
        RulePasswordTestItem(
            Box::new(UsernameRule::with_match_behavior(MatchBehavior::EndsWith)),
            PasswordData::with_password_and_user(
                "p4#n65testuser".to_string(),
                Some("testuser".to_string()),
            ),
            vec![ERROR_CODE],
        ),
        RulePasswordTestItem(
            Box::new(UsernameRule::with_match_behavior(MatchBehavior::EndsWith)),
            PasswordData::with_password_and_user(
                "p4testuser#n65".to_string(),
                Some("testuser".to_string()),
            ),
            vec![],
        ),
    ];
    check_passwords(test_cases);
}

#[test]
fn username_test_messages() {
    let username = "testuser";
    let test_cases: Vec<RulePasswordTestItem> = vec![
        RulePasswordTestItem(
            Box::new(UsernameRule::default()),
            PasswordData::with_password_and_user(
                "p4testuser#n65".to_string(),
                Some(username.to_string()),
            ),
            vec!["ILLEGAL_USERNAME,contains,testuser"],
        ),
        RulePasswordTestItem(
            Box::new(UsernameRule::with_match_backwards_and_ignore_case(
                true, false,
            )),
            PasswordData::with_password_and_user(
                "p4resutset#n65".to_string(),
                Some(username.to_string()),
            ),
            vec!["ILLEGAL_USERNAME_REVERSED,contains,testuser"],
        ),
        RulePasswordTestItem(
            Box::new(UsernameRule::with_match_behavior(MatchBehavior::StartsWith)),
            PasswordData::with_password_and_user(
                "testuser#n65".to_string(),
                Some(username.to_string()),
            ),
            vec!["ILLEGAL_USERNAME,starts with,testuser"],
        ),
        RulePasswordTestItem(
            Box::new(UsernameRule::with_match_behavior(MatchBehavior::EndsWith)),
            PasswordData::with_password_and_user(
                "p4#n65testuser".to_string(),
                Some(username.to_string()),
            ),
            vec!["ILLEGAL_USERNAME,ends with,testuser"],
        ),
    ];
    check_messages(test_cases);
}
