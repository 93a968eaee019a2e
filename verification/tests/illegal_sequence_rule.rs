use passay_rs::rule::message_resolver::{DebugMessageResolver, MessageResolver};
use passay_rs::rule::rule_result::RuleResult;
use passay_rs::rule::{PasswordData, Rule};
use passay_rs::rule::illegal_sequence_rule::IllegalSequenceRule;
use passay_rs::rule::password_validator::PasswordValidator;
use passay_rs::rule::sequence_data::{
    CyrillicSequenceData, CzechSequenceData, EnglishSequenceData, GermanSequenceData,
    PolishSequenceData, SequenceData,
};

pub struct RulePasswordTestItem<'a>(pub Box<dyn Rule>, pub PasswordData, pub Vec<&'a str>);

pub fn check_passwords(items: Vec<RulePasswordTestItem>) {
    for (case_num, item) in items.iter().enumerate() {
        let rule = &item.0;
        let password = &item.1;
        let expected_errors = &item.2;

        let result = rule.validate(password);
        if !expected_errors.is_empty() {
            if !result.valid() {
                assert!(!result.valid());
            }
            assert_eq!(
                expected_errors.len(),
                result.details().len(),
                "[CASE:{}] expected {} errors but got {}",
                case_num,
                expected_errors.len(),
                result.details().len()
            );
            for error_code in expected_errors {
                has_error_code(error_code, &result);
            }
        } else {
            assert!(result.valid(), "[CASE:{}] expected a valid password", case_num);
        }
    }
}

pub fn check_messages(items: Vec<RulePasswordTestItem>) {
    for item in items {
        let resolver = DebugMessageResolver;
        let rule = item.0;
        let password = &item.1;
        let expected_errors = item.2;
        let result = rule.validate(password);
        assert!(!result.valid(), "rule result should be invalid");
        assert_eq!(expected_errors.len(), result.details().len());

        for i in 0..result.details().len() {
            let result_detail = result.details().get(i).unwrap();
            let error = expected_errors[i];
            let resolved_message = resolver.resolve(result_detail);
            for part in error.split(",") {
                if part.is_empty() {
                    panic!("empty error part is not allowed")
                }
                assert!(
                    resolved_message.contains(part),
                    "expected {part:?} not found in resolved message: {resolved_message:?}"
                );
            }
        }
    }
}

fn has_error_code(code: &str, result: &RuleResult) -> bool {
    for detail in result.details() {
        if code == detail.error_code() {
            return true;
        }
    }
    false
}

#[test]
fn illegal_sequence_rule_test_passwords() {
    let test_cases: Vec<RulePasswordTestItem> = vec![
        /* QWERTY SEQUENCE */
        // Test valid password
        RulePasswordTestItem(
            Box::new(IllegalSequenceRule::with_sequence_data(
                EnglishSequenceData::USQwerty,
            )),
            PasswordData::with_password("p4zRcv8#n65".to_string()),
            vec![],
        ),
        // Has qwerty sequence
        RulePasswordTestItem(
            Box::new(IllegalSequenceRule::with_warp(
                EnglishSequenceData::USQwerty,
                6,
                false,
            )),
            PasswordData::with_password("pqwerty#n65".to_string()),
            vec![EnglishSequenceData::USQwerty.error_code()],
        ),
        // Has qwerty sequence at beginning
        RulePasswordTestItem(
            Box::new(IllegalSequenceRule::with_warp(
                EnglishSequenceData::USQwerty,
                6,
                false,
            )),
            PasswordData::with_password("qwerty#n65".to_string()),
            vec![EnglishSequenceData::USQwerty.error_code()],
        ),
        // Has qwerty sequence at end
        RulePasswordTestItem(
            Box::new(IllegalSequenceRule::with_warp(
                EnglishSequenceData::USQwerty,
                6,
                false,
            )),
            PasswordData::with_password("ppqwerty".to_string()),
            vec![EnglishSequenceData::USQwerty.error_code()],
        ),
        // Has qwerty sequence in entirety
        RulePasswordTestItem(
            Box::new(IllegalSequenceRule::with_warp(
                EnglishSequenceData::USQwerty,
                6,
                false,
            )),
            PasswordData::with_password("qwerty".to_string()),
            vec![EnglishSequenceData::USQwerty.error_code()],
        ),
        // Has two qwerty sequences
        RulePasswordTestItem(
            Box::new(IllegalSequenceRule::with_warp(
                EnglishSequenceData::USQwerty,
                6,
                false,
            )),
            PasswordData::with_password("pqwerty#n65tyuiop".to_string()),
            vec![
                EnglishSequenceData::USQwerty.error_code(),
                EnglishSequenceData::USQwerty.error_code(),
            ],
        ),
        // Has two joined qwerty sequences
        RulePasswordTestItem(
            Box::new(IllegalSequenceRule::with_warp(
                EnglishSequenceData::USQwerty,
                6,
                false,
            )),
            PasswordData::with_password("qwertytrewq".to_string()),
            vec![
                EnglishSequenceData::USQwerty.error_code(),
                EnglishSequenceData::USQwerty.error_code(),
            ],
        ),
        // Has two joined qwerty sequences with padding
        RulePasswordTestItem(
            Box::new(IllegalSequenceRule::with_warp(
                EnglishSequenceData::USQwerty,
                6,
                false,
            )),
            PasswordData::with_password("pqwertytrewqp".to_string()),
            vec![
                EnglishSequenceData::USQwerty.error_code(),
                EnglishSequenceData::USQwerty.error_code(),
            ],
        ),
        // Has wrapping qwerty sequence with wrap=false
        RulePasswordTestItem(
            Box::new(IllegalSequenceRule::with_sequence_data(
                EnglishSequenceData::USQwerty,
            )),
            PasswordData::with_password("pkl;'a#n65".to_string()),
            vec![],
        ),
        // Has wrapping qwerty sequence with wrap=true
        RulePasswordTestItem(
            Box::new(IllegalSequenceRule::with_warp(
                EnglishSequenceData::USQwerty,
                8,
                true,
            )),
            PasswordData::with_password("piop{}|qw#n65".to_string()),
            vec![EnglishSequenceData::USQwerty.error_code()],
        ),
        // Has backward qwerty sequence
        RulePasswordTestItem(
            Box::new(IllegalSequenceRule::with_warp(
                EnglishSequenceData::USQwerty,
                4,
                false,
            )),
            PasswordData::with_password("p7^54#n65".to_string()),
            vec![EnglishSequenceData::USQwerty.error_code()],
        ),
        // Has backward wrapping qwerty sequence with wrap=false
        RulePasswordTestItem(
            Box::new(IllegalSequenceRule::with_warp(
                EnglishSequenceData::USQwerty,
                8,
                false,
            )),
            PasswordData::with_password("phgfdsa\";#n65".to_string()),
            vec![],
        ),
        // Has backward wrapping qwerty sequence with wrap=true
        RulePasswordTestItem(
            Box::new(IllegalSequenceRule::with_warp(
                EnglishSequenceData::USQwerty,
                6,
                true,
            )),
            PasswordData::with_password("p@1`+_0#n65".to_string()),
            vec![EnglishSequenceData::USQwerty.error_code()],
        ),
        RulePasswordTestItem(
            Box::new(IllegalSequenceRule::with_warp(
                EnglishSequenceData::USQwerty,
                6,
                false,
            )),
            PasswordData::with_password("pQ∑eR†y#n65".to_string()),
            vec![EnglishSequenceData::USQwerty.error_code()],
        ),
        // Has wrapping alt qwerty sequence with wrap=false
        RulePasswordTestItem(
            Box::new(IllegalSequenceRule::with_sequence_data(
                EnglishSequenceData::USQwerty,
            )),
            PasswordData::with_password("pK¬;æA#n65".to_string()),
            vec![],
        ),
        // Has wrapping qwerty sequence with wrap=true
        RulePasswordTestItem(
            Box::new(IllegalSequenceRule::with_warp(
                EnglishSequenceData::USQwerty,
                8,
                true,
            )),
            PasswordData::with_password("pIøp“}|œW#n65".to_string()),
            vec![EnglishSequenceData::USQwerty.error_code()],
        ),
        // Has backwards alt qwerty sequence
        RulePasswordTestItem(
            Box::new(IllegalSequenceRule::with_warp(
                EnglishSequenceData::USQwerty,
                4,
                false,
            )),
            PasswordData::with_password("p7§5›#n65".to_string()),
            vec![EnglishSequenceData::USQwerty.error_code()],
        ),
        // Has backward alt wrapping qwerty sequence with wrap=false
        RulePasswordTestItem(
            Box::new(IllegalSequenceRule::with_warp(
                EnglishSequenceData::USQwerty,
                8,
                false,
            )),
            PasswordData::with_password("ph©fÎßa\"…#n65".to_string()),
            vec![],
        ),
        // Has backward alt wrapping qwerty sequence with wrap=true
        RulePasswordTestItem(
            Box::new(IllegalSequenceRule::with_warp(
                EnglishSequenceData::USQwerty,
                6,
                true,
            )),
            PasswordData::with_password("p@1~≠_º#n65".to_string()),
            vec![EnglishSequenceData::USQwerty.error_code()],
        ),
        // report single error
        RulePasswordTestItem(
            Box::new(IllegalSequenceRule::new(
                EnglishSequenceData::USQwerty,
                6,
                false,
                false,
            )),
            PasswordData::with_password("pqwertyui#n65".to_string()),
            vec![EnglishSequenceData::USQwerty.error_code()],
        ),
        // German QWERTZ SEQUENCE
        // Test valid password
        RulePasswordTestItem(
            Box::new(IllegalSequenceRule::with_sequence_data(
                GermanSequenceData::DEQwertz,
            )),
            PasswordData::with_password("p4zRcv8#n65".to_string()),
            vec![],
        ),
        // Has one 6 character qwertz sequence
        RulePasswordTestItem(
            Box::new(IllegalSequenceRule::with_warp(
                GermanSequenceData::DEQwertz,
                6,
                false,
            )),
            PasswordData::with_password("pqwertz#n65".to_string()),
            vec![GermanSequenceData::Alphabetical.error_code()],
        ),
        // Has two 5 character qwertz sequences
        RulePasswordTestItem(
            Box::new(IllegalSequenceRule::with_warp(
                GermanSequenceData::DEQwertz,
                5,
                false,
            )),
            PasswordData::with_password("wertz#~yxcvb".to_string()),
            vec![
                GermanSequenceData::Alphabetical.error_code(),
                GermanSequenceData::Alphabetical.error_code(),
            ],
        ),
        // Has one 4 character backward qwertz sequence
        RulePasswordTestItem(
            Box::new(IllegalSequenceRule::with_warp(
                GermanSequenceData::DEQwertz,
                4,
                false,
            )),
            PasswordData::with_password("1xäölk2y".to_string()),
            vec![GermanSequenceData::Alphabetical.error_code()],
        ),
        /* ALPHABETICAL SEQUENCE */
        // Test valid password
        RulePasswordTestItem(
            Box::new(IllegalSequenceRule::with_sequence_data(
                EnglishSequenceData::Alphabetical,
            )),
            PasswordData::with_password("p4zRcv8#n65".to_string()),
            vec![],
        ),
        // Has alphabetical sequence
        RulePasswordTestItem(
            Box::new(IllegalSequenceRule::with_warp(
                EnglishSequenceData::Alphabetical,
                7,
                false,
            )),
            PasswordData::with_password("phijklmn#n65".to_string()),
            vec![EnglishSequenceData::Alphabetical.error_code()],
        ),
        // Has wrapping alphabetical sequence with wrap=false
        RulePasswordTestItem(
            Box::new(IllegalSequenceRule::with_warp(
                EnglishSequenceData::Alphabetical,
                4,
                false,
            )),
            PasswordData::with_password("pXyza#n65".to_string()),
            vec![],
        ),
        // Has wrapping alphabetical sequence with wrap=true
        RulePasswordTestItem(
            Box::new(IllegalSequenceRule::with_warp(
                EnglishSequenceData::Alphabetical,
                4,
                true,
            )),
            PasswordData::with_password("pxyzA#n65".to_string()),
            vec![EnglishSequenceData::Alphabetical.error_code()],
        ),
        // Has backward alphabetical sequence
        RulePasswordTestItem(
            Box::new(IllegalSequenceRule::with_sequence_data(
                EnglishSequenceData::Alphabetical,
            )),
            PasswordData::with_password("ptSrqp#n65".to_string()),
            vec![EnglishSequenceData::Alphabetical.error_code()],
        ),
        // Has backward wrapping alphabetical sequence with wrap=false
        RulePasswordTestItem(
            Box::new(IllegalSequenceRule::with_warp(
                EnglishSequenceData::Alphabetical,
                8,
                false,
            )),
            PasswordData::with_password("pcBazyXwv#n65".to_string()),
            vec![],
        ),
        // Has backward wrapping alphabetical sequence with wrap=true
        RulePasswordTestItem(
            Box::new(IllegalSequenceRule::with_warp(
                EnglishSequenceData::Alphabetical,
                8,
                true,
            )),
            PasswordData::with_password("pcbazyxwv#n65".to_string()),
            vec![EnglishSequenceData::Alphabetical.error_code()],
        ),
        // Has forward alphabetical sequence that ends with 'y'
        RulePasswordTestItem(
            Box::new(IllegalSequenceRule::with_warp(
                EnglishSequenceData::Alphabetical,
                3,
                false,
            )),
            PasswordData::with_password("wxy".to_string()),
            vec![EnglishSequenceData::Alphabetical.error_code()],
        ),
        // Has forward alphabetical sequence that ends with 'z'
        RulePasswordTestItem(
            Box::new(IllegalSequenceRule::with_warp(
                EnglishSequenceData::Alphabetical,
                3,
                false,
            )),
            PasswordData::with_password("xyz".to_string()),
            vec![EnglishSequenceData::Alphabetical.error_code()],
        ),
        // Has forward alphabetical sequence that ends with 'a' with wrap=false
        RulePasswordTestItem(
            Box::new(IllegalSequenceRule::with_warp(
                EnglishSequenceData::Alphabetical,
                3,
                false,
            )),
            PasswordData::with_password("yza".to_string()),
            vec![],
        ),
        // Has forward alphabetical sequence that ends with 'a' with wrap=true
        RulePasswordTestItem(
            Box::new(IllegalSequenceRule::with_warp(
                EnglishSequenceData::Alphabetical,
                3,
                true,
            )),
            PasswordData::with_password("yza".to_string()),
            vec![EnglishSequenceData::Alphabetical.error_code()],
        ),
        // Has backward alphabetical sequence that ends with 'b'
        RulePasswordTestItem(
            Box::new(IllegalSequenceRule::with_warp(
                EnglishSequenceData::Alphabetical,
                3,
                false,
            )),
            PasswordData::with_password("dcb".to_string()),
            vec![EnglishSequenceData::Alphabetical.error_code()],
        ),
        // Has backward alphabetical sequence that ends with 'a'
        RulePasswordTestItem(
            Box::new(IllegalSequenceRule::with_warp(
                EnglishSequenceData::Alphabetical,
                3,
                false,
            )),
            PasswordData::with_password("cba".to_string()),
            vec![EnglishSequenceData::Alphabetical.error_code()],
        ),
        // Has backward alphabetical sequence that ends with 'z' with wrap=false
        RulePasswordTestItem(
            Box::new(IllegalSequenceRule::with_warp(
                EnglishSequenceData::Alphabetical,
                3,
                false,
            )),
            PasswordData::with_password("baz".to_string()),
            vec![],
        ),
        // Has backward alphabetical sequence that ends with 'z' with wrap=true
        RulePasswordTestItem(
            Box::new(IllegalSequenceRule::with_warp(
                EnglishSequenceData::Alphabetical,
                3,
                true,
            )),
            PasswordData::with_password("baz".to_string()),
            vec![EnglishSequenceData::Alphabetical.error_code()],
        ),
        // report single error
        RulePasswordTestItem(
            Box::new(IllegalSequenceRule::new(
                EnglishSequenceData::Alphabetical,
                5,
                false,
                false,
            )),
            PasswordData::with_password("phijklmn#n65".to_string()),
            vec![EnglishSequenceData::Alphabetical.error_code()],
        ),
        // NUMERICAL SEQUENCE
        // Test valid password
        RulePasswordTestItem(
            Box::new(IllegalSequenceRule::with_sequence_data(
                EnglishSequenceData::Numerical,
            )),
            PasswordData::with_password("p4zRcv8#n65".to_string()),
            vec![],
        ),
        // Has numerical sequence
        RulePasswordTestItem(
            Box::new(IllegalSequenceRule::with_warp(
                EnglishSequenceData::Numerical,
                4,
                false,
            )),
            PasswordData::with_password("p3456#n65".to_string()),
            vec![EnglishSequenceData::Numerical.error_code()],
        ),
        // Has wrapping numerical sequence with wrap=false
        RulePasswordTestItem(
            Box::new(IllegalSequenceRule::with_warp(
                EnglishSequenceData::Numerical,
                7,
                false,
            )),
            PasswordData::with_password("p4zRcv2#n8901234".to_string()),
            vec![],
        ),
        // Has wrapping numerical sequence with wrap=true
        RulePasswordTestItem(
            Box::new(IllegalSequenceRule::with_warp(
                EnglishSequenceData::Numerical,
                7,
                true,
            )),
            PasswordData::with_password("p4zRcv2#n8901234".to_string()),
            vec![EnglishSequenceData::Numerical.error_code()],
        ),
        // Has backward numerical sequence
        RulePasswordTestItem(
            Box::new(IllegalSequenceRule::with_sequence_data(
                EnglishSequenceData::Numerical,
            )),
            PasswordData::with_password("p54321#n65".to_string()),
            vec![EnglishSequenceData::Numerical.error_code()],
        ),
        // Has backward wrapping numerical sequence with wrap=false
        RulePasswordTestItem(
            Box::new(IllegalSequenceRule::with_warp(
                EnglishSequenceData::Numerical,
                5,
                false,
            )),
            PasswordData::with_password("p987#n32109".to_string()),
            vec![],
        ),
        // Has backward wrapping numerical sequence with wrap=true
        RulePasswordTestItem(
            Box::new(IllegalSequenceRule::with_warp(
                EnglishSequenceData::Numerical,
                8,
                true,
            )),
            PasswordData::with_password("p54321098#n65".to_string()),
            vec![EnglishSequenceData::Numerical.error_code()],
        ),
        // a run that reaches the end of the password
        RulePasswordTestItem(
            Box::new(IllegalSequenceRule::with_warp(
                EnglishSequenceData::Numerical,
                5,
                true,
            )),
            PasswordData::with_password("1234567".to_string()),
            vec![EnglishSequenceData::Numerical.error_code()],
        ),
        // report single error
        RulePasswordTestItem(
            Box::new(IllegalSequenceRule::new(
                EnglishSequenceData::Numerical,
                5,
                true,
                false,
            )),
            PasswordData::with_password("1234567".to_string()),
            vec![EnglishSequenceData::Numerical.error_code()],
        ),
        // Polish and English
        RulePasswordTestItem(
            Box::new(PasswordValidator::new(vec![
                Box::new(IllegalSequenceRule::new(
                    EnglishSequenceData::Alphabetical,
                    5,
                    true,
                    false,
                )),
                Box::new(IllegalSequenceRule::new(
                    PolishSequenceData::Alphabetical,
                    5,
                    true,
                    false,
                )),
            ])),
            PasswordData::with_password("p987rw3sśtuwxyzź".to_string()),
            vec![PolishSequenceData::Alphabetical.error_code()],
        ),
        // german and english
        RulePasswordTestItem(
            Box::new(PasswordValidator::new(vec![
                Box::new(IllegalSequenceRule::new(
                    EnglishSequenceData::Alphabetical,
                    5,
                    true,
                    false,
                )),
                Box::new(IllegalSequenceRule::new(
                    GermanSequenceData::Alphabetical,
                    5,
                    true,
                    false,
                )),
            ])),
            PasswordData::with_password("P987xyzäö".to_string()),
            vec![GermanSequenceData::Alphabetical.error_code()],
        ),
        // czech and english
        RulePasswordTestItem(
            Box::new(PasswordValidator::new(vec![
                Box::new(IllegalSequenceRule::new(
                    EnglishSequenceData::Alphabetical,
                    5,
                    true,
                    false,
                )),
                Box::new(IllegalSequenceRule::new(
                    CzechSequenceData::Alphabetical,
                    5,
                    true,
                    false,
                )),
            ])),
            PasswordData::with_password("ABCx12y34zcčdĎeě".to_string()),
            vec![CzechSequenceData::Alphabetical.error_code()],
        ),
        // cyrillic and english
        RulePasswordTestItem(
            Box::new(PasswordValidator::new(vec![
                Box::new(IllegalSequenceRule::new(
                    EnglishSequenceData::Alphabetical,
                    5,
                    true,
                    false,
                )),
                Box::new(IllegalSequenceRule::new(
                    CyrillicSequenceData::Alphabetical,
                    5,
                    true,
                    false,
                )),
            ])),
            PasswordData::with_password("ABCx12y34zcабвгд".to_string()),
            vec![CyrillicSequenceData::Alphabetical.error_code()],
        ),
    ];
    check_passwords(test_cases);
}

#[test]
fn illegal_sequence_rule_test_messages() {
    let test_cases: Vec<RulePasswordTestItem> = vec![
        RulePasswordTestItem(
            Box::new(IllegalSequenceRule::with_sequence_data(
                EnglishSequenceData::USQwerty,
            )),
            PasswordData::with_password("pkwerty#n65".to_string()),
            vec!["ILLEGAL_QWERTY_SEQUENCE,werty"],
        ),
        RulePasswordTestItem(
            Box::new(IllegalSequenceRule::new(
                EnglishSequenceData::USQwerty,
                5,
                true,
                false,
            )),
            PasswordData::with_password("pkl;'asd65".to_string()),
            vec!["ILLEGAL_QWERTY_SEQUENCE,kl;'asd"],
        ),
        RulePasswordTestItem(
            Box::new(IllegalSequenceRule::with_sequence_data(
                EnglishSequenceData::Alphabetical,
            )),
            PasswordData::with_password("phijkl#n65".to_string()),
            vec!["ILLEGAL_ALPHABETICAL_SEQUENCE,hijkl"],
        ),
        RulePasswordTestItem(
            Box::new(IllegalSequenceRule::new(
                EnglishSequenceData::Alphabetical,
                5,
                true,
                false,
            )),
            PasswordData::with_password("phijklmno#n65".to_string()),
            vec!["ILLEGAL_ALPHABETICAL_SEQUENCE,hijklmno"],
        ),
        RulePasswordTestItem(
            Box::new(IllegalSequenceRule::with_sequence_data(
                EnglishSequenceData::Numerical,
            )),
            PasswordData::with_password("p34567n65".to_string()),
            vec!["ILLEGAL_NUMERICAL_SEQUENCE,34567"],
        ),
        RulePasswordTestItem(
            Box::new(IllegalSequenceRule::new(
                EnglishSequenceData::Numerical,
                5,
                false,
                false,
            )),
            PasswordData::with_password("p3456789n65".to_string()),
            vec!["ILLEGAL_NUMERICAL_SEQUENCE,3456789"],
        ),
    ];

    check_messages(test_cases);
}
