//! The outcome of a rule: whether the password passed, the details of each
//! failure, and counts gathered on the way.
use crate::text::texts;
use vstd::prelude::*;

verus! {

/// What a count in the metadata of a result counts.
#[derive(Debug, Eq, PartialEq, Hash, Clone, Copy, Structural)]
pub enum CountCategory {
    /// password length.
    Length,
    /// lowercase characters.
    LowerCase,
    /// uppercase characters.
    UpperCase,
    /// digit characters.
    Digit,
    /// special characters.
    Special,
    /// whitespace characters.
    Whitespace,
    /// allowed characters.
    Allowed,
    /// illegal characters.
    Illegal,
}

/// The named values of a failure, as texts, in the order they were given.
pub type ParameterTexts = Seq<(Seq<char>, Seq<char>)>;

/// The texts of a list of named values.
pub open spec fn parameter_texts(parameters: Seq<(String, String)>) -> ParameterTexts {
    Seq::new(parameters.len(), |i: int| (parameters[i].0@, parameters[i].1@))
}

/// What a failure detail says.
pub struct DetailView {
    /// The error codes, from the most specific to the least specific.
    pub error_codes: Seq<Seq<char>>,
    /// The named values that describe the failure.
    pub parameters: ParameterTexts,
}

/// What a result says.
pub struct ResultView {
    /// Whether the password passed.
    pub valid: bool,
    /// The failures, in the order they were found.
    pub details: Seq<DetailView>,
    /// The counts by category.
    pub counts: Map<CountCategory, usize>,
}

/// The views of a list of details.
pub open spec fn detail_views(details: Seq<RuleResultDetail>) -> Seq<DetailView> {
    Seq::new(details.len(), |i: int| details[i]@)
}

/// Whether a list of error codes may stand in a detail: there is at least
/// one code, and none is empty.
pub open spec fn are_error_codes(codes: Seq<Seq<char>>) -> bool {
    &&& codes.len() > 0
    &&& forall|i: int| 0 <= i < codes.len() ==> (#[trigger] codes[i]).len() > 0
}

/// One failure of a password against a rule: error codes and named values
/// for a message.
#[derive(Debug)]
pub struct RuleResultDetail {
    error_codes: Vec<String>,
    parameters: Vec<(String, String)>,
}

impl View for RuleResultDetail {
    type V = DetailView;

    closed spec fn view(&self) -> DetailView {
        DetailView {
            error_codes: texts(self.error_codes@),
            parameters: parameter_texts(self.parameters@),
        }
    }
}

impl RuleResultDetail {
    #[verifier::type_invariant]
    spec fn coded(&self) -> bool {
        are_error_codes(texts(self.error_codes@))
    }

    /// Creates a detail from at least one error code, none of them empty,
    /// and the named values of the failure.
    pub fn new(error_codes: Vec<String>, parameters: Option<Vec<(String, String)>>) -> (detail:
        Self)
        requires
            are_error_codes(texts(error_codes@)),
        ensures
            detail@.error_codes == texts(error_codes@),
            detail@.parameters == match parameters {
                Some(given) => parameter_texts(given@),
                None => Seq::empty(),
            },
    {
        let parameters = match parameters {
            Some(given) => given,
            None => {
                let none: Vec<(String, String)> = Vec::new();
                assert(parameter_texts(none@) =~= Seq::empty());
                none
            },
        };
        Self { error_codes, parameters }
    }

    /// Returns the least specific error code.
    pub fn error_code(&self) -> (code: &str)
        ensures
            self@.error_codes.len() > 0,
            code@ == self@.error_codes.last(),
    {
        proof {
            use_type_invariant(self);
        }
        self.error_codes[self.error_codes.len() - 1].as_str()
    }

    /// Returns the error codes as given at creation.
    pub fn error_codes(&self) -> (codes: &[String])
        ensures
            texts(codes@) == self@.error_codes,
            are_error_codes(self@.error_codes),
    {
        proof {
            use_type_invariant(self);
        }
        self.error_codes.as_slice()
    }

    /// Returns the named values as given at creation.
    pub fn parameters(&self) -> (parameters: &Vec<(String, String)>)
        ensures
            parameter_texts(parameters@) == self@.parameters,
    {
        &self.parameters
    }
}

/// Counts gathered while a rule looked at a password, by category.
pub struct RuleResultMetadata {
    length: Option<usize>,
    lower_case: Option<usize>,
    upper_case: Option<usize>,
    digit: Option<usize>,
    special: Option<usize>,
    whitespace: Option<usize>,
    allowed: Option<usize>,
    illegal: Option<usize>,
}

impl RuleResultMetadata {
    /// The count of a category, if there is one.
    pub closed spec fn count(&self, category: CountCategory) -> Option<usize> {
        match category {
            CountCategory::Length => self.length,
            CountCategory::LowerCase => self.lower_case,
            CountCategory::UpperCase => self.upper_case,
            CountCategory::Digit => self.digit,
            CountCategory::Special => self.special,
            CountCategory::Whitespace => self.whitespace,
            CountCategory::Allowed => self.allowed,
            CountCategory::Illegal => self.illegal,
        }
    }

    /// Creates metadata with one count.
    pub fn new(category: CountCategory, value: usize) -> (metadata: Self)
        ensures
            metadata@ == Map::<CountCategory, usize>::empty().insert(category, value),
    {
        let mut metadata = Self::default();
        match category {
            CountCategory::Length => {
                metadata.length = Some(value);
            },
            CountCategory::LowerCase => {
                metadata.lower_case = Some(value);
            },
            CountCategory::UpperCase => {
                metadata.upper_case = Some(value);
            },
            CountCategory::Digit => {
                metadata.digit = Some(value);
            },
            CountCategory::Special => {
                metadata.special = Some(value);
            },
            CountCategory::Whitespace => {
                metadata.whitespace = Some(value);
            },
            CountCategory::Allowed => {
                metadata.allowed = Some(value);
            },
            CountCategory::Illegal => {
                metadata.illegal = Some(value);
            },
        }
        assert(metadata@ =~= Map::<CountCategory, usize>::empty().insert(category, value));
        metadata
    }

    /// Returns the count of a category, if there is one.
    pub fn get_count(&self, category: CountCategory) -> (count: Option<usize>)
        ensures
            count == if self@.contains_key(category) {
                Some(self@[category])
            } else {
                None
            },
    {
        match category {
            CountCategory::Length => self.length,
            CountCategory::LowerCase => self.lower_case,
            CountCategory::UpperCase => self.upper_case,
            CountCategory::Digit => self.digit,
            CountCategory::Special => self.special,
            CountCategory::Whitespace => self.whitespace,
            CountCategory::Allowed => self.allowed,
            CountCategory::Illegal => self.illegal,
        }
    }

    /// Takes over the counts of `other`; where both have a count of a
    /// category, that of `other` stays.
    pub fn merge(&mut self, other: &RuleResultMetadata)
        ensures
            final(self)@ == old(self)@.union_prefer_right(other@),
    {
        if other.length.is_some() {
            self.length = other.length;
        }
        if other.lower_case.is_some() {
            self.lower_case = other.lower_case;
        }
        if other.upper_case.is_some() {
            self.upper_case = other.upper_case;
        }
        if other.digit.is_some() {
            self.digit = other.digit;
        }
        if other.special.is_some() {
            self.special = other.special;
        }
        if other.whitespace.is_some() {
            self.whitespace = other.whitespace;
        }
        if other.allowed.is_some() {
            self.allowed = other.allowed;
        }
        if other.illegal.is_some() {
            self.illegal = other.illegal;
        }
        assert(self@ =~= old(self)@.union_prefer_right(other@));
    }
}

impl View for RuleResultMetadata {
    type V = Map<CountCategory, usize>;

    closed spec fn view(&self) -> Map<CountCategory, usize> {
        Map::new(
            |category: CountCategory| self.count(category) is Some,
            |category: CountCategory| self.count(category).unwrap(),
        )
    }
}

impl Default for RuleResultMetadata {
    fn default() -> (metadata: Self)
        ensures
            metadata@ == Map::<CountCategory, usize>::empty(),
    {
        let metadata = Self {
            length: None,
            lower_case: None,
            upper_case: None,
            digit: None,
            special: None,
            whitespace: None,
            allowed: None,
            illegal: None,
        };
        assert(metadata@ =~= Map::<CountCategory, usize>::empty());
        metadata
    }
}

/// The result of one rule, or of several taken together.
pub struct RuleResult {
    valid: bool,
    details: Vec<RuleResultDetail>,
    metadata: RuleResultMetadata,
}

impl View for RuleResult {
    type V = ResultView;

    closed spec fn view(&self) -> ResultView {
        ResultView {
            valid: self.valid,
            details: detail_views(self.details@),
            counts: self.metadata@,
        }
    }
}

/// The detail that an error with one code adds to a result.
pub open spec fn error_detail(code: Seq<char>, parameters: ParameterTexts) -> DetailView {
    DetailView { error_codes: seq![code], parameters }
}

/// The result after a failure was added to it.
pub open spec fn with_detail(result: ResultView, detail: DetailView) -> ResultView {
    ResultView { valid: false, details: result.details.push(detail), counts: result.counts }
}

/// The result that holds nothing but its verdict.
pub open spec fn bare_result(valid: bool) -> ResultView {
    ResultView { valid, details: Seq::empty(), counts: Map::empty() }
}

/// The named values given with an error, as texts.
pub open spec fn given_parameters(params: Option<Vec<(String, String)>>) -> ParameterTexts {
    match params {
        Some(given) => parameter_texts(given@),
        None => Seq::empty(),
    }
}

impl RuleResult {
    /// Creates a result without details or counts.
    pub fn new(valid: bool) -> (result: Self)
        ensures
            result@ == bare_result(valid),
    {
        let result = Self { valid, details: Vec::new(), metadata: RuleResultMetadata::default() };
        assert(detail_views(result.details@) =~= Seq::empty());
        result
    }

    /// Adds a failure with one error code; the result is invalid from then
    /// on.
    pub fn add_error(&mut self, code: &str, params: Option<Vec<(String, String)>>)
        requires
            code@.len() > 0,
        ensures
            final(self)@ == with_detail(old(self)@, error_detail(code@, given_parameters(params))),
    {
        self.valid = false;
        let mut codes: Vec<String> = Vec::new();
        codes.push(String::from_str(code));
        assert(texts(codes@) =~= seq![code@]);
        let detail = RuleResultDetail::new(codes, params);
        let ghost before = detail_views(self.details@);
        self.details.push(detail);
        assert(detail_views(self.details@) =~= before.push(detail@));
    }

    /// Adds a failure with several error codes, from the most specific to
    /// the least specific; the result is invalid from then on.
    pub fn add_error_with_codes(&mut self, codes: &[String], params: Option<Vec<(String, String)>>)
        requires
            are_error_codes(texts(codes@)),
        ensures
            final(self)@ == with_detail(
                old(self)@,
                DetailView { error_codes: texts(codes@), parameters: given_parameters(params) },
            ),
    {
        self.valid = false;
        let mut error_codes: Vec<String> = Vec::new();
        let mut i: usize = 0;
        while i < codes.len()
            invariant
                i <= codes@.len(),
                texts(error_codes@) =~= texts(codes@).take(i as int),
            decreases codes@.len() - i,
        {
            let code = codes[i].clone();
            let ghost before = error_codes@;
            error_codes.push(code);
            proof {
                assert(code@ == codes@[i as int]@);
                assert(error_codes@ == before.push(code));
                assert(texts(error_codes@) =~= texts(before).push(code@));
            }
            i += 1;
        }
        assert(texts(codes@).take(i as int) =~= texts(codes@));
        let detail = RuleResultDetail::new(error_codes, params);
        let ghost before = detail_views(self.details@);
        self.details.push(detail);
        assert(detail_views(self.details@) =~= before.push(detail@));
    }

    /// Adds failures that were found elsewhere, after those already here.
    /// The verdict stays as it is.
    pub fn add_details(&mut self, details: Vec<RuleResultDetail>)
        ensures
            final(self)@ == (ResultView {
                details: old(self)@.details + detail_views(details@),
                ..old(self)@
            }),
    {
        let ghost before = detail_views(self.details@);
        let ghost added = detail_views(details@);
        let mut details = details;
        self.details.append(&mut details);
        assert(detail_views(self.details@) =~= before + added);
    }

    /// Takes over counts that were gathered elsewhere; where both have a
    /// count of a category, the one taken over stays.
    pub fn merge_metadata(&mut self, other: &RuleResultMetadata)
        ensures
            final(self)@ == (ResultView {
                counts: old(self)@.counts.union_prefer_right(other@),
                ..old(self)@
            }),
    {
        self.metadata.merge(other);
    }

    /// Takes the result apart into its verdict, its details and its counts.
    pub fn into_parts(self) -> (parts: (bool, Vec<RuleResultDetail>, RuleResultMetadata))
        ensures
            parts.0 == self@.valid,
            detail_views(parts.1@) == self@.details,
            parts.2@ == self@.counts,
    {
        (self.valid, self.details, self.metadata)
    }

    /// Returns the counts.
    pub fn metadata(&self) -> (metadata: &RuleResultMetadata)
        ensures
            metadata@ == self@.counts,
    {
        &self.metadata
    }

    /// Gives access to the counts for changing them.
    pub fn metadata_mut(&mut self) -> (metadata: &mut RuleResultMetadata)
        ensures
            (*metadata)@ == old(self)@.counts,
            final(self)@ == (ResultView { counts: (*final(metadata))@, ..old(self)@ }),
    {
        &mut self.metadata
    }

    /// Replaces the counts.
    pub fn set_metadata(&mut self, metadata: RuleResultMetadata)
        ensures
            final(self)@ == (ResultView { counts: metadata@, ..old(self)@ }),
    {
        self.metadata = metadata;
    }

    /// Returns whether the password passed.
    pub fn valid(&self) -> (valid: bool)
        ensures
            valid == self@.valid,
    {
        self.valid
    }

    /// Sets the verdict.
    pub fn set_valid(&mut self, valid: bool)
        ensures
            final(self)@ == (ResultView { valid, ..old(self)@ }),
    {
        self.valid = valid;
    }

    /// Returns the failures.
    pub fn details(&self) -> (details: &Vec<RuleResultDetail>)
        ensures
            detail_views(details@) == self@.details,
    {
        &self.details
    }

    /// Gives access to the failures for changing them.
    pub fn details_mut(&mut self) -> (details: &mut Vec<RuleResultDetail>)
        ensures
            detail_views((*details)@) == old(self)@.details,
            final(self)@ == (ResultView {
                details: detail_views((*final(details))@),
                ..old(self)@
            }),
    {
        &mut self.details
    }
}

impl Default for RuleResult {
    fn default() -> (result: Self)
        ensures
            result@ == bare_result(true),
    {
        RuleResult::new(true)
    }
}

/// Makes one named value of a failure.
pub fn parameter(name: &str, value: String) -> (pair: (String, String))
    ensures
        pair.0@ == name@,
        pair.1@ == value@,
{
    (String::from_str(name), value)
}


/// What is reported of what was found: all of it, or the first alone.
pub open spec fn first_or_all<A>(found: Seq<A>, report_all: bool) -> Seq<A> {
    if report_all || found.len() == 0 {
        found
    } else {
        seq![found[0]]
    }
}

/// The result of a rule that found the given failures and counts: it is
/// valid if there is no failure.
pub open spec fn result_of(details: Seq<DetailView>, counts: Map<CountCategory, usize>)
    -> ResultView {
    ResultView { valid: details.len() == 0, details, counts }
}

/// The members of `candidates[..n]` that meet `bad`, each once, in the
/// order of their first occurrence.
pub open spec fn distinct_offenders(candidates: Seq<char>, bad: spec_fn(char) -> bool, n: int)
    -> Seq<char>
    decreases n,
{
    if n <= 0 {
        Seq::empty()
    } else {
        let before = distinct_offenders(candidates, bad, n - 1);
        let c = candidates[n - 1];
        if bad(c) && !before.contains(c) {
            before.push(c)
        } else {
            before
        }
    }
}

} // verus!
