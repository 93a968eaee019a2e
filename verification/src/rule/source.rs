//! A rule that refuses passwords that the user has in another system.
use crate::rule::history::of_kind;
use crate::rule::reference::{Reference, ReferenceKind, ReferenceView, Salt, salt_view};
use crate::rule::rule_result::{
    error_detail, first_or_all, parameter, parameter_texts, result_of, DetailView, ResultView, RuleResult,
};
use crate::rule::{PasswordData, PasswordView, Rule};
use crate::text::texts;
use vstd::prelude::*;

verus! {

/// The error code of the rule.
pub const ERROR_CODE: &'static str = "SOURCE_VIOLATION";

/// Refuses passwords that are among the user's passwords in other
/// systems.
#[derive(Clone)]
pub struct SourceRule {
    report_all: bool,
}

/// The label of a reference, or the empty text if it has none.
pub open spec fn label_of(reference: ReferenceView) -> Seq<char> {
    match reference.label {
        Some(label) => label,
        None => Seq::empty(),
    }
}

/// The labels of the references that are marked, in order.
pub open spec fn marked_labels(references: Seq<ReferenceView>, marks: Seq<bool>) -> Seq<Seq<char>>
    decreases references.len(),
{
    if references.len() == 0 || marks.len() != references.len() {
        Seq::empty()
    } else if marks.last() {
        marked_labels(references.drop_last(), marks.drop_last()).push(
            label_of(references.last()),
        )
    } else {
        marked_labels(references.drop_last(), marks.drop_last())
    }
}

/// The detail that reports the system with the given label.
pub open spec fn source_detail(label: Seq<char>) -> DetailView {
    error_detail("SOURCE_VIOLATION"@, seq![("source"@, label)])
}

/// The result for the systems with the given labels, in which the user
/// has the candidate as password.
pub open spec fn source_outcome(report_all: bool, labels: Seq<Seq<char>>) -> ResultView {
    let sources = first_or_all(labels, report_all);
    result_of(Seq::new(sources.len(), |i: int| source_detail(sources[i])), Map::empty())
}

/// For each reference of a list, whether its password is the given one.
pub open spec fn same_password_marks(references: Seq<ReferenceView>, password: Seq<char>) -> Seq<
    bool,
> {
    Seq::new(references.len(), |i: int| references[i].password == password)
}

impl SourceRule {
    /// Whether every system is reported, or the first alone.
    pub closed spec fn reports_all(&self) -> bool {
        self.report_all
    }

    /// The result of the rule.
    pub open spec fn outcome(&self, data: PasswordView) -> ResultView {
        let sources = of_kind(data.references, ReferenceKind::Source);
        source_outcome(
            self.reports_all(),
            marked_labels(sources, same_password_marks(sources, data.password)),
        )
    }

    /// Creates a rule.
    pub fn new(report_all: bool) -> (rule: SourceRule)
        ensures
            rule.reports_all() == report_all,
    {
        SourceRule { report_all }
    }
}

impl Default for SourceRule {
    fn default() -> (rule: Self)
        ensures
            rule.reports_all(),
    {
        SourceRule::new(true)
    }
}

/// Gives the result for the systems with the given labels, in which the
/// user has the candidate as password.
pub fn validate_with_source_references(report_all: bool, labels: &Vec<String>) -> (result:
    RuleResult)
    ensures
        result@ == source_outcome(report_all, texts(labels@)),
{
    let mut result = RuleResult::default();
    let ghost all = texts(labels@);
    let ghost sources = first_or_all(all, report_all);
    let shown: usize = if report_all || labels.len() == 0 {
        labels.len()
    } else {
        1
    };
    let mut i: usize = 0;
    proof {
        reveal_strlit("SOURCE_VIOLATION");
        assert(result@.details =~= Seq::new(0, |k: int| source_detail(sources[k])));
    }
    while i < shown
        invariant
            i <= shown <= labels.len(),
            shown == sources.len(),
            all == texts(labels@),
            sources == first_or_all(all, report_all),
            "SOURCE_VIOLATION"@.len() > 0,
            result@ == result_of(
                Seq::new(i as nat, |k: int| source_detail(sources[k])),
                Map::empty(),
            ),
        decreases shown - i,
    {
        let map = create_rule_result_detail_parameters(labels[i].as_str());
        result.add_error("SOURCE_VIOLATION", Some(map));
        proof {
            assert(sources[i as int] == labels@[i as int]@);
            assert(result@.details =~= Seq::new(
                (i + 1) as nat,
                |k: int| source_detail(sources[k]),
            ));
        }
        i += 1;
    }
    result
}

/// Makes the named value of a failure: the label of the system.
fn create_rule_result_detail_parameters(source: &str) -> (map: Vec<(String, String)>)
    ensures
        parameter_texts(map@) == seq![("source"@, source@)],
{
    let mut map: Vec<(String, String)> = Vec::new();
    map.push(parameter("source", String::from_str(source)));
    assert(parameter_texts(map@) =~= seq![("source"@, source@)]);
    map
}

/// Returns the label of a reference, or the empty text if it has none.
pub(crate) fn label_or_empty(reference: &Box<dyn Reference>) -> (label: String)
    ensures
        label@ == label_of(reference.model()),
{
    match reference.label_text() {
        Some(label) => String::from_str(label),
        None => String::new(),
    }
}

impl Rule for SourceRule {
    open spec fn admits(&self, data: PasswordView, result: ResultView) -> bool {
        result == self.outcome(data)
    }

    fn validate(&self, password_data: &PasswordData) -> (result: RuleResult) {
        let references = password_data.password_references();
        let ghost views = password_data@.references;
        let ghost password = password_data@.password;
        let mut found: Vec<String> = Vec::new();
        let mut i: usize = 0;
        proof {
            assert(views.take(0) =~= Seq::<ReferenceView>::empty());
            assert(texts(found@) =~= Seq::<Seq<char>>::empty());
        }
        while i < references.len()
            invariant
                i <= references.len(),
                views == crate::rule::reference_views(references@),
                password == password_data@.password,
                texts(found@) == marked_labels(
                    of_kind(views.take(i as int), ReferenceKind::Source),
                    same_password_marks(
                        of_kind(views.take(i as int), ReferenceKind::Source),
                        password,
                    ),
                ),
            decreases references.len() - i,
        {
            proof {
                assert(views.take(i + 1).drop_last() =~= views.take(i as int));
                assert(views.take(i + 1).last() == references@[i as int].model());
            }
            let rf = &references[i];
            if rf.kind() == ReferenceKind::Source {
                let ghost earlier = of_kind(views.take(i as int), ReferenceKind::Source);
                let ghost now = of_kind(views.take(i + 1), ReferenceKind::Source);
                proof {
                    assert(now.drop_last() =~= earlier);
                    assert(same_password_marks(now, password).drop_last() =~= same_password_marks(
                        earlier,
                        password,
                    ));
                }
                if crate::rule::history::matches(password_data.password(), rf.password()) {
                    let ghost before = texts(found@);
                    let label = label_or_empty(rf);
                    found.push(label);
                    proof {
                        assert(texts(found@) =~= before.push(label@));
                    }
                }
            }
            i += 1;
        }
        proof {
            assert(views.take(i as int) =~= views);
        }
        validate_with_source_references(self.report_all, &found)
    }

    fn as_has_characters(&self) -> (r: Option<&dyn crate::rule::HasCharacters>) {
        None
    }

    fn as_dictionary_rule(&self) -> (r: Option<&dyn crate::rule::DictionaryRuleTrait>) {
        None
    }
}

/// The user's password in another system.
pub struct SourceReference {
    label: String,
    password: String,
    salt: Option<Salt>,
}

impl SourceReference {
    /// Creates a reference from the system's label, a password and the
    /// salt of its digest.
    pub fn new(label: String, password: String, salt: Salt) -> (reference: Self)
        ensures
            reference.model() == (ReferenceView {
                kind: ReferenceKind::Source,
                password: password@,
                salt: Some(salt@),
                label: Some(label@),
            }),
    {
        SourceReference { label, password, salt: Some(salt) }
    }

    /// Creates a reference from the system's label and a password.
    pub fn with_label_and_password(label: String, password: String) -> (reference: Self)
        ensures
            reference.model() == (ReferenceView {
                kind: ReferenceKind::Source,
                password: password@,
                salt: None,
                label: Some(label@),
            }),
    {
        SourceReference { label, password, salt: None }
    }

    /// Returns the system's label.
    pub fn label(&self) -> (label: &str)
        ensures
            Some(label@) == self.model().label,
    {
        self.label.as_str()
    }
}

impl Reference for SourceReference {
    closed spec fn model(&self) -> ReferenceView {
        ReferenceView {
            kind: ReferenceKind::Source,
            password: self.password@,
            salt: salt_view(self.salt),
            label: Some(self.label@),
        }
    }

    fn kind(&self) -> (kind: ReferenceKind) {
        ReferenceKind::Source
    }

    fn password(&self) -> (password: &str) {
        self.password.as_str()
    }

    fn salt(&self) -> (salt: &Option<Salt>) {
        &self.salt
    }

    fn label_text(&self) -> (label: Option<&str>) {
        Some(self.label.as_str())
    }
}

} // verus!
