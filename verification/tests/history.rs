use passay_rs::rule::message_resolver::{DebugMessageResolver, MessageResolver};
use passay_rs::rule::rule_result::RuleResult;
use passay_rs::rule::{PasswordData, Rule};
use passay_rs::rule::history::{HistoricalReference, HistoryRule, ERROR_CODE};
use passay_rs::rule::reference::Reference;

pub struct RulePasswordTestItem<'a>(pub Box<dyn Rule>, pub PasswordData, pub Vec<&'a str>);

pub fn check_passwords(items: Vec<RulePasswordTestItem>) {
    for (case_num, item) in items.iter().enumerate() {
        let rule = &item.0;
        let password = &item.1;
        let expected_errors = &item.2;

        let result = rule.validate(password);
        if !expected_errors.is_empty() {
            if !result.valid() {
                assert!(!result.valid());
            }
            assert_eq!(
                expected_errors.len(),
                result.details().len(),
                "[CASE:{}] expected {} errors but got {}",
                case_num,
                expected_errors.len(),
                result.details().len()
            );
            for error_code in expected_errors {
                has_error_code(error_code, &result);
            }
        } else {
            assert!(result.valid(), "[CASE:{}] expected a valid password", case_num);
        }
    }
}

pub fn check_messages(items: Vec<RulePasswordTestItem>) {
    for item in items {
        let resolver = DebugMessageResolver;
        let rule = item.0;
        let password = &item.1;
        let expected_errors = item.2;
        let result = rule.validate(password);
        assert!(!result.valid(), "rule result should be invalid");
        assert_eq!(expected_errors.len(), result.details().len());

        for i in 0..result.details().len() {
            let result_detail = result.details().get(i).unwrap();
            let error = expected_errors[i];
            let resolved_message = resolver.resolve(result_detail);
            for part in error.split(",") {
                if part.is_empty() {
                    panic!("empty error part is not allowed")
                }
                assert!(
                    resolved_message.contains(part),
                    "expected {part:?} not found in resolved message: {resolved_message:?}"
                );
            }
        }
    }
}

fn has_error_code(code: &str, result: &RuleResult) -> bool {
    for detail in result.details() {
        if code == detail.error_code() {
            return true;
        }
    }
    false
}

#[test]
fn history_test_passwords() {
    let rule = HistoryRule::default();
    let rule_report_first = HistoryRule::new(false);
    let empty_rule = HistoryRule::default();
    let test_cases: Vec<RulePasswordTestItem> = vec![
        RulePasswordTestItem(
            Box::new(rule.clone()),
            PasswordData::new(
                "t3stUs3r00".to_string(),
                Some("testuser".to_string()),
                setup_history(),
            ),
            vec![],
        ),
        RulePasswordTestItem(
            Box::new(rule.clone()),
            PasswordData::new(
                "t3stUs3r01".to_string(),
                Some("testuser".to_string()),
                setup_history(),
            ),
            vec![ERROR_CODE],
        ),
        RulePasswordTestItem(
            Box::new(rule.clone()),
            PasswordData::new(
                "t3stUs3r02".to_string(),
                Some("testuser".to_string()),
                setup_history(),
            ),
            vec![ERROR_CODE, ERROR_CODE],
        ),
        RulePasswordTestItem(
            Box::new(rule.clone()),
            PasswordData::new(
                "t3stUs3r03".to_string(),
                Some("testuser".to_string()),
                setup_history(),
            ),
            vec![ERROR_CODE],
        ),
        RulePasswordTestItem(
            Box::new(rule_report_first.clone()),
            PasswordData::new(
                "t3stUs3r00".to_string(),
                Some("testuser".to_string()),
                setup_history(),
            ),
            vec![],
        ),
        RulePasswordTestItem(
            Box::new(rule_report_first.clone()),
            PasswordData::new(
                "t3stUs3r01".to_string(),
                Some("testuser".to_string()),
                setup_history(),
            ),
            vec![ERROR_CODE],
        ),
        RulePasswordTestItem(
            Box::new(rule_report_first.clone()),
            PasswordData::new(
                "t3stUs3r02".to_string(),
                Some("testuser".to_string()),
                setup_history(),
            ),
            vec![ERROR_CODE],
        ),
        RulePasswordTestItem(
            Box::new(rule_report_first.clone()),
            PasswordData::new(
                "t3stUs3r03".to_string(),
                Some("testuser".to_string()),
                setup_history(),
            ),
            vec![ERROR_CODE],
        ),
        RulePasswordTestItem(
            Box::new(empty_rule.clone()),
            PasswordData::with_password_and_user(
                "t3stUs3r00".to_string(),
                Some("testuser".to_string()),
            ),
            vec![],
        ),
        RulePasswordTestItem(
            Box::new(empty_rule.clone()),
            PasswordData::with_password_and_user(
                "t3stUs3r01".to_string(),
                Some("testuser".to_string()),
            ),
            vec![],
        ),
        RulePasswordTestItem(
            Box::new(empty_rule.clone()),
            PasswordData::with_password_and_user(
                "t3stUs3r02".to_string(),
                Some("testuser".to_string()),
            ),
            vec![],
        ),
        RulePasswordTestItem(
            Box::new(empty_rule.clone()),
            PasswordData::with_password_and_user(
                "t3stUs3r03".to_string(),
                Some("testuser".to_string()),
            ),
            vec![],
        ),
    ];
    check_passwords(test_cases);
}

#[test]
fn history_test_messages() {
    let rule = HistoryRule::default();
    let rule_report_first = HistoryRule::new(false);

    let history_len = setup_history().len();
    let message = "HISTORY_VIOLATION,".to_owned() + history_len.to_string().as_str();

    let test_cases: Vec<RulePasswordTestItem> = vec![
        RulePasswordTestItem(
            Box::new(rule.clone()),
            PasswordData::new(
                "t3stUs3r01".to_string(),
                Some("testuser".to_string()),
                setup_history(),
            ),
            vec![&message],
        ),
        RulePasswordTestItem(
            Box::new(rule.clone()),
            PasswordData::new(
                "t3stUs3r02".to_string(),
                Some("testuser".to_string()),
                setup_history(),
            ),
            vec![&message, &message],
        ),
        RulePasswordTestItem(
            Box::new(rule_report_first),
            PasswordData::new(
                "t3stUs3r02".to_string(),
                Some("testuser".to_string()),
                setup_history(),
            ),
            vec![&message],
        ),
    ];
    check_messages(test_cases);
}

fn setup_history() -> Vec<Box<dyn Reference>> {
    vec![
        Box::new(HistoricalReference::with_password_label(
            "t3stUs3r01".to_string(),
            "history".to_string(),
        )),
        Box::new(HistoricalReference::with_password_label(
            "t3stUs3r02".to_string(),
            "history".to_string(),
        )),
        Box::new(HistoricalReference::with_password_label(
            "t3stUs3r03".to_string(),
            "history".to_string(),
        )),
        Box::new(HistoricalReference::with_password_label(
            "t3stUs3r02".to_string(),
            "history".to_string(),
        )),
    ]
}
