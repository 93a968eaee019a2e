//! A rule that refuses passwords whose digest is among the digests of
//! the user's earlier passwords.
use crate::hash::Hasher;
use crate::rule::history::{
    count_of_kind, history_outcome, of_kind, validate_with_history_references,
};
use crate::rule::reference::{Reference, ReferenceKind, ReferenceView, Salt, undigested};
use crate::rule::rule_result::{ResultView, RuleResult};
use crate::rule::{PasswordData, PasswordView, Rule};
use vstd::prelude::*;

verus! {

/// The text whose digest a reference's digest is compared with: the
/// candidate with the reference's salt on its side.
pub(crate) fn undigested_text(password: &str, salt: &Option<Salt>) -> (text: String)
    ensures
        text@ == undigested(crate::rule::reference::salt_view(*salt), password@),
{
    let pass = String::from_str(password);
    match salt {
        None => pass,
        Some(salt) => salt.apply_to(pass),
    }
}

/// Says through the hasher whether the reference's digest is that of the
/// candidate; a hasher that fails says no. Nothing is known of the answer.
pub(crate) fn digest_matches<H: Hasher<String>>(hasher: &H, password: &str, rf: &Box<dyn Reference>) -> (same:
    bool) {
    let text = undigested_text(password, rf.salt());
    let hash = rf.password().as_bytes();
    let data = text.as_str().as_bytes();
    let answer = hasher.compare(hash, data);
    answered_yes(&answer)
}

/// Asks the hasher about each reference of a kind, up to the first that
/// matches if only that one is wanted, and marks those that match.
pub(crate) fn digest_marks<H: Hasher<String>>(
    hasher: &H,
    password_data: &PasswordData,
    kind: ReferenceKind,
    report_all: bool,
) -> (marks: Vec<bool>)
    ensures
        marks@.len() <= of_kind(password_data@.references, kind).len(),
        report_all ==> marks@.len() == of_kind(password_data@.references, kind).len(),
        !report_all ==> stops_at_first_yes(
            marks@,
            of_kind(password_data@.references, kind).len(),
        ),
{
    let references = password_data.password_references();
    let ghost views = password_data@.references;
    let mut marks: Vec<bool> = Vec::new();
    let mut i: usize = 0;
    proof {
        assert(views.take(0) =~= Seq::<ReferenceView>::empty());
    }
    proof {
        if references.len() == 0 {
            assert(views.take(0) =~= views);
        }
    }
    while i < references.len()
        invariant_except_break
            marks@.len() == of_kind(views.take(i as int), kind).len(),
            i == references.len() ==> marks@.len() == of_kind(views, kind).len(),
            !report_all ==> forall|k: int| 0 <= k < marks@.len() ==> !marks@[k],
        invariant
            i <= references.len(),
            views == crate::rule::reference_views(references@),
        ensures
            marks@.len() <= of_kind(views, kind).len(),
            report_all ==> marks@.len() == of_kind(views, kind).len(),
            !report_all ==> stops_at_first_yes(marks@, of_kind(views, kind).len()),
        decreases references.len() - i,
    {
        proof {
            assert(views.take(i + 1).drop_last() =~= views.take(i as int));
            assert(views.take(i + 1).last() == references@[i as int].model());
        }
        let rf = &references[i];
        if rf.kind() == kind {
            let same = digest_matches(hasher, password_data.password(), rf);
            marks.push(same);
            proof {
                assert(of_kind(views.take(i + 1), kind).len() == of_kind(
                    views.take(i as int),
                    kind,
                ).len() + 1);
            }
            if same && !report_all {
                proof {
                    lemma_of_kind_grows(views, i + 1, kind);
                }
                break ;
            }
        }
        i += 1;
        proof {
            if i == references.len() {
                assert(views.take(i as int) =~= views);
            }
        }
    }
    marks
}

/// What a rule makes of a hasher's answer: a match where the hasher says
/// yes; a hasher that fails, or says no, gives none.
pub(crate) fn answered_yes(answer: &Result<bool, String>) -> (same: bool)
    ensures
        same == (*answer == Ok::<bool, String>(true)),
{
    match answer {
        Ok(same) => *same,
        Err(_) => false,
    }
}

/// Whether the marks are those of references that were asked about one
/// after the other up to the first match: all but the last are no, and if
/// fewer than all `asked` were asked about, the last is a yes.
pub open spec fn stops_at_first_yes(marks: Seq<bool>, asked: nat) -> bool {
    &&& forall|k: int| 0 <= k < marks.len() - 1 ==> !marks[k]
    &&& marks.len() < asked ==> marks.len() > 0 && marks.last()
}

/// Taking more of a list never gives fewer references of a kind.
pub(crate) proof fn lemma_of_kind_grows(views: Seq<ReferenceView>, n: int, kind: ReferenceKind)
    requires
        0 <= n <= views.len(),
    ensures
        of_kind(views.take(n), kind).len() <= of_kind(views, kind).len(),
    decreases views.len() - n,
{
    if n < views.len() {
        assert(views.take(n + 1).drop_last() =~= views.take(n));
        lemma_of_kind_grows(views, n + 1, kind);
    } else {
        assert(views.take(n) =~= views);
    }
}

/// Refuses passwords whose digest, as the hasher tells, is among the
/// digests of the user's earlier passwords.
pub struct DigestHistoryRule<H: Hasher<String>> {
    hasher: H,
    report_all: bool,
}

impl<H: Hasher<String>> DigestHistoryRule<H> {
    /// Whether every earlier password that matches is reported, or the
    /// first alone.
    pub closed spec fn reports_all(&self) -> bool {
        self.report_all
    }

    /// Creates a rule from a hasher and the reporting policy.
    pub fn new(hasher: H, report_all: bool) -> (rule: Self)
        ensures
            rule.reports_all() == report_all,
    {
        Self { hasher, report_all }
    }
}

impl<H: Hasher<String>> Rule for DigestHistoryRule<H> {
    /// The result is that of a history of which the hasher found some
    /// digests to match: which ones is the hasher's matter.
    open spec fn admits(&self, data: PasswordView, result: ResultView) -> bool {
        exists|marks: Seq<bool>|
            marks.len() <= of_kind(data.references, ReferenceKind::Historical).len() && result
                == #[trigger] history_outcome(
                self.reports_all(),
                of_kind(data.references, ReferenceKind::Historical).len(),
                marks,
            )
    }

    fn validate(&self, password_data: &PasswordData) -> (result: RuleResult) {
        let len = count_of_kind(password_data.password_references(), ReferenceKind::Historical);
        let marks = digest_marks(
            &self.hasher,
            password_data,
            ReferenceKind::Historical,
            self.report_all,
        );
        let result = validate_with_history_references(self.report_all, len, &marks);
        proof {
            assert(result@ == history_outcome(
                self.reports_all(),
                of_kind(password_data@.references, ReferenceKind::Historical).len(),
                marks@,
            ));
        }
        result
    }

    fn as_has_characters(&self) -> (r: Option<&dyn crate::rule::HasCharacters>) {
        None
    }

    fn as_dictionary_rule(&self) -> (r: Option<&dyn crate::rule::DictionaryRuleTrait>) {
        None
    }
}

} // verus!
