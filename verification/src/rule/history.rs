//! A rule that refuses passwords that the user had before.
use crate::rule::reference::{Reference, ReferenceKind, ReferenceView, Salt, salt_view};
use crate::rule::rule_result::{
    error_detail, parameter, parameter_texts, result_of, ParameterTexts, ResultView,
    RuleResult,
};
use crate::rule::{optional_text, PasswordData, PasswordView, Rule};
use crate::text::{decimal_digits, decimal_usize, same_text};
use vstd::prelude::*;

verus! {

/// The error code of the rule.
pub const ERROR_CODE: &'static str = "HISTORY_VIOLATION";

/// Refuses passwords that are among the earlier passwords of the user.
#[derive(Clone)]
pub struct HistoryRule {
    report_all: bool,
}

/// The references of a list that are of a kind, in order.
pub open spec fn of_kind(references: Seq<ReferenceView>, kind: ReferenceKind) -> Seq<
    ReferenceView,
>
    decreases references.len(),
{
    if references.len() == 0 {
        Seq::empty()
    } else if references.last().kind == kind {
        of_kind(references.drop_last(), kind).push(references.last())
    } else {
        of_kind(references.drop_last(), kind)
    }
}

/// The number of members of a list that are true.
pub open spec fn hits(matches: Seq<bool>) -> nat
    decreases matches.len(),
{
    if matches.len() == 0 {
        0
    } else if matches.last() {
        hits(matches.drop_last()) + 1
    } else {
        hits(matches.drop_last())
    }
}

/// The named value of a failure: the number of earlier passwords.
pub open spec fn history_parameters(size: nat) -> ParameterTexts {
    seq![("historySize"@, decimal_digits(size))]
}

/// The number of failures that are reported of a number that were found.
pub open spec fn reported(found: nat, report_all: bool) -> nat {
    if report_all || found == 0 {
        found
    } else {
        1
    }
}

/// The result for a history of `size` passwords of which those marked in
/// `matches` are equal to the candidate: one failure for each, or one
/// failure for all of them.
pub open spec fn history_outcome(report_all: bool, size: nat, matches: Seq<bool>) -> ResultView {
    result_of(
        Seq::new(
            reported(hits(matches), report_all),
            |i: int| error_detail("HISTORY_VIOLATION"@, history_parameters(size)),
        ),
        Map::empty(),
    )
}

/// For each reference of a list, whether its password is the given one.
pub open spec fn same_passwords(references: Seq<ReferenceView>, password: Seq<char>) -> Seq<bool> {
    Seq::new(references.len(), |i: int| references[i].password == password)
}

impl HistoryRule {
    /// Whether every earlier password that is equal to the candidate is
    /// reported, or the first alone.
    pub closed spec fn reports_all(&self) -> bool {
        self.report_all
    }

    /// The result of the rule.
    pub open spec fn outcome(&self, data: PasswordView) -> ResultView {
        let history = of_kind(data.references, ReferenceKind::Historical);
        history_outcome(
            self.reports_all(),
            history.len(),
            same_passwords(history, data.password),
        )
    }

    /// Creates a rule.
    pub fn new(report_all: bool) -> (rule: HistoryRule)
        ensures
            rule.reports_all() == report_all,
    {
        HistoryRule { report_all }
    }
}

/// Makes the named value of a failure.
pub fn create_rule_result_detail_parameters(len: usize) -> (map: Vec<(String, String)>)
    ensures
        parameter_texts(map@) == history_parameters(len as nat),
{
    let mut map: Vec<(String, String)> = Vec::new();
    map.push(parameter("historySize", decimal_usize(len)));
    assert(parameter_texts(map@) =~= history_parameters(len as nat));
    map
}

/// Counts the references of a kind.
pub(crate) fn count_of_kind(references: &Vec<Box<dyn Reference>>, kind: ReferenceKind) -> (n: usize)
    ensures
        n == of_kind(crate::rule::reference_views(references@), kind).len(),
{
    let ghost views = crate::rule::reference_views(references@);
    let mut n: usize = 0;
    let mut i: usize = 0;
    proof {
        assert(views.take(0) =~= Seq::<ReferenceView>::empty());
    }
    while i < references.len()
        invariant
            i <= references.len(),
            n <= i,
            views == crate::rule::reference_views(references@),
            n == of_kind(views.take(i as int), kind).len(),
        decreases references.len() - i,
    {
        proof {
            assert(views.take(i + 1).drop_last() =~= views.take(i as int));
            assert(views.take(i + 1).last() == references@[i as int].model());
        }
        if references[i].kind() == kind {
            n += 1;
        }
        i += 1;
    }
    proof {
        assert(views.take(i as int) =~= views);
    }
    n
}

/// Gives the result for a history of `len` passwords of which those marked
/// in `matches` are equal to the candidate.
pub fn validate_with_history_references(report_all: bool, len: usize, matches: &Vec<bool>) -> (result:
    RuleResult)
    ensures
        result@ == history_outcome(report_all, len as nat, matches@),
{
    let mut result = RuleResult::default();
    let mut i: usize = 0;
    proof {
        reveal_strlit("HISTORY_VIOLATION");
        assert(matches@.take(0) =~= Seq::<bool>::empty());
        assert(result@.details =~= history_outcome(
            report_all,
            len as nat,
            matches@.take(0),
        ).details);
    }
    while i < matches.len()
        invariant
            i <= matches.len(),
            "HISTORY_VIOLATION"@.len() > 0,
            result@ == history_outcome(report_all, len as nat, matches@.take(i as int)),
        decreases matches.len() - i,
    {
        proof {
            assert(matches@.take(i + 1).drop_last() =~= matches@.take(i as int));
        }
        if matches[i] && (report_all || result.details().len() == 0) {
            result.add_error("HISTORY_VIOLATION", Some(create_rule_result_detail_parameters(len)));
        }
        proof {
            assert(result@.details =~= history_outcome(
                report_all,
                len as nat,
                matches@.take(i + 1),
            ).details);
        }
        i += 1;
    }
    proof {
        assert(matches@.take(i as int) =~= matches@);
    }
    result
}

impl Rule for HistoryRule {
    open spec fn admits(&self, data: PasswordView, result: ResultView) -> bool {
        result == self.outcome(data)
    }

    fn validate(&self, password_data: &PasswordData) -> (result: RuleResult) {
        let references = password_data.password_references();
        let len = count_of_kind(references, ReferenceKind::Historical);
        let ghost views = password_data@.references;
        let ghost password = password_data@.password;
        let mut found: Vec<bool> = Vec::new();
        let mut i: usize = 0;
        proof {
            assert(views.take(0) =~= Seq::<ReferenceView>::empty());
            assert(found@ =~= same_passwords(
                of_kind(views.take(0), ReferenceKind::Historical),
                password,
            ));
        }
        while i < references.len()
            invariant
                i <= references.len(),
                views == crate::rule::reference_views(references@),
                password == password_data@.password,
                found@ == same_passwords(
                    of_kind(views.take(i as int), ReferenceKind::Historical),
                    password,
                ),
            decreases references.len() - i,
        {
            proof {
                assert(views.take(i + 1).drop_last() =~= views.take(i as int));
                assert(views.take(i + 1).last() == references@[i as int].model());
            }
            let rf = &references[i];
            if rf.kind() == ReferenceKind::Historical {
                let ghost before = found@;
                found.push(matches(password_data.password(), rf.password()));
                proof {
                    assert(found@ =~= same_passwords(
                        of_kind(views.take(i + 1), ReferenceKind::Historical),
                        password,
                    ));
                }
            }
            i += 1;
        }
        proof {
            assert(views.take(i as int) =~= views);
        }
        validate_with_history_references(self.report_all, len, &found)
    }

    fn as_has_characters(&self) -> (r: Option<&dyn crate::rule::HasCharacters>) {
        None
    }

    fn as_dictionary_rule(&self) -> (r: Option<&dyn crate::rule::DictionaryRuleTrait>) {
        None
    }
}

impl Default for HistoryRule {
    fn default() -> (rule: Self)
        ensures
            rule.reports_all(),
    {
        Self { report_all: true }
    }
}

/// Says whether the candidate is the reference password.
pub fn matches(password: &str, reference_password: &str) -> (same: bool)
    ensures
        same == (password@ == reference_password@),
{
    same_text(password, reference_password)
}

/// An earlier password of the user.
pub struct HistoricalReference {
    label: Option<String>,
    password: String,
    salt: Option<Salt>,
}

impl HistoricalReference {
    /// Creates a reference from a password, a label and a salt.
    pub fn new(password: String, label: Option<String>, salt: Option<Salt>) -> (reference:
        HistoricalReference)
        ensures
            reference.model() == (ReferenceView {
                kind: ReferenceKind::Historical,
                password: password@,
                salt: salt_view(salt),
                label: optional_text(label),
            }),
    {
        HistoricalReference { password, label, salt }
    }

    /// Creates a reference from a password.
    pub fn with_password(password: String) -> (reference: HistoricalReference)
        ensures
            reference.model() == (ReferenceView {
                kind: ReferenceKind::Historical,
                password: password@,
                salt: None,
                label: None,
            }),
    {
        Self::new(password, None, None)
    }

    /// Creates a reference from a password and a label.
    pub fn with_password_label(password: String, label: String) -> (reference:
        HistoricalReference)
        ensures
            reference.model() == (ReferenceView {
                kind: ReferenceKind::Historical,
                password: password@,
                salt: None,
                label: Some(label@),
            }),
    {
        Self::new(password, Some(label), None)
    }
}

impl Reference for HistoricalReference {
    closed spec fn model(&self) -> ReferenceView {
        ReferenceView {
            kind: ReferenceKind::Historical,
            password: self.password@,
            salt: salt_view(self.salt),
            label: optional_text(self.label),
        }
    }

    fn kind(&self) -> (kind: ReferenceKind) {
        ReferenceKind::Historical
    }

    fn password(&self) -> (password: &str) {
        self.password.as_str()
    }

    fn salt(&self) -> (salt: &Option<Salt>) {
        &self.salt
    }

    fn label_text(&self) -> (label: Option<&str>) {
        match &self.label {
            Some(label) => Some(label.as_str()),
            None => None,
        }
    }
}

} // verus!
