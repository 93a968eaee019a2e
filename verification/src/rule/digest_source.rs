//! A rule that refuses passwords whose digest is among the digests of
//! the user's passwords in other systems.
use crate::hash::Hasher;
use crate::rule::digest_history::{digest_matches, lemma_of_kind_grows};
use crate::rule::history::of_kind;
use crate::rule::reference::{Reference, ReferenceKind, ReferenceView};
use crate::rule::rule_result::{ResultView, RuleResult};
use crate::rule::source::{
    label_of, label_or_empty, source_outcome, validate_with_source_references,
};
use crate::rule::{PasswordData, PasswordView, Rule};
use crate::text::texts;
use vstd::prelude::*;

verus! {

/// Whether each label of `labels` is that of a reference of the list.
pub open spec fn are_labels_of(labels: Seq<Seq<char>>, references: Seq<ReferenceView>) -> bool {
    forall|i: int|
        0 <= i < labels.len() ==> exists|k: int|
            0 <= k < references.len() && #[trigger] labels[i] == label_of(
                #[trigger] references[k],
            )
}

/// Refuses passwords whose digest, as the hasher tells, is among the
/// digests of the user's passwords in other systems.
pub struct DigestSourceRule<H: Hasher<String>> {
    hasher: H,
    report_all: bool,
}

impl<H: Hasher<String>> DigestSourceRule<H> {
    /// Whether every system is reported, or the first alone.
    pub closed spec fn reports_all(&self) -> bool {
        self.report_all
    }

    /// Creates a rule from a hasher and the reporting policy.
    pub fn new(hasher: H, report_all: bool) -> (rule: Self)
        ensures
            rule.reports_all() == report_all,
    {
        Self { hasher, report_all }
    }
}

impl<H: Hasher<String>> Rule for DigestSourceRule<H> {
    /// The result is that for some of the other systems: which ones is the
    /// hasher's matter.
    open spec fn admits(&self, data: PasswordView, result: ResultView) -> bool {
        exists|labels: Seq<Seq<char>>|
            labels.len() <= of_kind(data.references, ReferenceKind::Source).len()
                && are_labels_of(labels, data.references) && result == #[trigger] source_outcome(
                self.reports_all(),
                labels,
            )
    }

    fn validate(&self, password_data: &PasswordData) -> (result: RuleResult) {
        let references = password_data.password_references();
        let ghost views = password_data@.references;
        let mut found: Vec<String> = Vec::new();
        let mut i: usize = 0;
        proof {
            assert(views.take(0) =~= Seq::<ReferenceView>::empty());
        }
        proof {
            if references.len() == 0 {
                assert(views.take(0) =~= views);
            }
        }
        while i < references.len()
            invariant_except_break
                found@.len() <= of_kind(views.take(i as int), ReferenceKind::Source).len(),
                i == references.len() ==> found@.len() <= of_kind(
                    views,
                    ReferenceKind::Source,
                ).len(),
            invariant
                i <= references.len(),
                views == crate::rule::reference_views(references@),
                are_labels_of(texts(found@), views),
            ensures
                found@.len() <= of_kind(views, ReferenceKind::Source).len(),
                are_labels_of(texts(found@), views),
            decreases references.len() - i,
        {
            proof {
                assert(views.take(i + 1).drop_last() =~= views.take(i as int));
                assert(views.take(i + 1).last() == references@[i as int].model());
            }
            let rf = &references[i];
            if rf.kind() == ReferenceKind::Source {
                proof {
                    assert(of_kind(views.take(i + 1), ReferenceKind::Source).len() == of_kind(
                        views.take(i as int),
                        ReferenceKind::Source,
                    ).len() + 1);
                }
                if digest_matches(&self.hasher, password_data.password(), rf) {
                    let ghost before = texts(found@);
                    let label = label_or_empty(rf);
                    found.push(label);
                    proof {
                        let now = texts(found@);
                        assert(now =~= before.push(label@));
                        assert forall|a: int| 0 <= a < now.len() implies exists|k: int|
                            0 <= k < views.len() && #[trigger] now[a] == label_of(
                                #[trigger] views[k],
                            ) by {
                            if a < before.len() {
                                let k = choose|k: int|
                                    0 <= k < views.len() && #[trigger] before[a] == label_of(
                                        #[trigger] views[k],
                                    );
                                assert(now[a] == label_of(views[k]));
                            } else {
                                assert(now[a] == label_of(views[i as int]));
                            }
                        }
                    }
                    if !self.report_all {
                        proof {
                            lemma_of_kind_grows(views, i + 1, ReferenceKind::Source);
                        }
                        break ;
                    }
                }
            }
            i += 1;
            proof {
                if i == references.len() {
                    assert(views.take(i as int) =~= views);
                }
            }
        }
        let result = validate_with_source_references(self.report_all, &found);
        proof {
            assert(result@ == source_outcome(self.reports_all(), texts(found@)));
        }
        result
    }

    fn as_has_characters(&self) -> (r: Option<&dyn crate::rule::HasCharacters>) {
        None
    }

    fn as_dictionary_rule(&self) -> (r: Option<&dyn crate::rule::DictionaryRuleTrait>) {
        None
    }
}

} // verus!
