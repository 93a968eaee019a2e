//! A rule that refuses runs of neighbouring characters of a sequence, such
//! as `qwerty` or `54321`. One pass over the password per sequence keeps the
//! run that ends at the current character and reports it when it ends.
use crate::rule::character_sequence::{form_matches, position_below, position_of, CharacterSequence};
use crate::rule::rule_result::{
    error_detail, DetailView, ResultView, RuleResult, parameter,
};
use crate::rule::sequence_data::{sequence_views, SequenceData};
use crate::rule::{PasswordData, PasswordView, Rule};
use crate::text::{chars_of, string_of};
use vstd::prelude::*;

verus! {

/// The run length from which on a run is refused, unless another is given.
pub const DEFAULT_SEQUENCE_LENGTH: usize = 5;

/// The character that is scanned after the password to end a run that
/// reaches the password's end.
pub open spec fn sentinel() -> char {
    '\u{ffff}'
}

/// What a scan knows after a character.
pub struct ScanState {
    /// +1 while a run ascends, -1 while it descends, 0 outside a run.
    pub direction: int,
    /// The position of the last character in the sequence, or -1.
    pub prev_position: int,
    /// The run that ends at the last character.
    pub run: Seq<char>,
    /// The runs reported so far.
    pub found: Seq<Seq<char>>,
}

/// The state before the first character, with the runs found earlier.
pub open spec fn start_state(found: Seq<Seq<char>>) -> ScanState {
    ScanState { direction: 0, prev_position: -1, run: Seq::empty(), found }
}

/// The step from the previous position to this one: their difference if
/// both characters stand in the sequence, and 0 if not. With wrapping, a
/// step from one end of the sequence to the other is moved by the length of
/// the sequence towards zero, so that it counts as one step.
pub open spec fn step_of(position: int, prev_position: int, cs_length: int, wrap: bool) -> int {
    let diff = if position < 0 || prev_position < 0 {
        0
    } else {
        position - prev_position
    };
    if wrap && (diff == cs_length - 1 || diff == 1 - cs_length) {
        if diff > 0 {
            diff - cs_length
        } else if diff < 0 {
            diff + cs_length
        } else {
            diff
        }
    } else {
        diff
    }
}

/// The state after one more character. A run of at least `length`
/// characters is reported when the step leaves its direction. A step of +1
/// or -1 continues the run in that direction, or starts one from the last
/// character; any other step starts afresh.
pub open spec fn scan_step(
    state: ScanState,
    forms: Seq<Seq<char>>,
    c: char,
    length: int,
    wrap: bool,
) -> ScanState {
    let position = position_of(forms, c);
    let diff = step_of(position, state.prev_position, forms[0].len() as int, wrap);
    let found = if diff != state.direction && state.run.len() >= length {
        state.found.push(state.run)
    } else {
        state.found
    };
    if diff == 1 || diff == -1 {
        if diff != state.direction {
            ScanState {
                direction: diff,
                prev_position: position,
                run: seq![state.run.last(), c],
                found,
            }
        } else {
            ScanState { direction: diff, prev_position: position, run: state.run.push(c), found }
        }
    } else {
        ScanState { direction: 0, prev_position: position, run: seq![c], found }
    }
}

/// The state after the characters of `text`, one after the other.
pub open spec fn scan_chars(
    state: ScanState,
    forms: Seq<Seq<char>>,
    text: Seq<char>,
    length: int,
    wrap: bool,
) -> ScanState
    decreases text.len(),
{
    if text.len() == 0 {
        state
    } else {
        scan_step(
            scan_chars(state, forms, text.drop_last(), length, wrap),
            forms,
            text.last(),
            length,
            wrap,
        )
    }
}

/// The runs found earlier and those of the password in one sequence.
pub open spec fn scan_sequence(
    found: Seq<Seq<char>>,
    forms: Seq<Seq<char>>,
    password: Seq<char>,
    length: int,
    wrap: bool,
) -> Seq<Seq<char>> {
    scan_chars(start_state(found), forms, password.push(sentinel()), length, wrap).found
}

/// The runs of the password in the sequences of a catalog, sequence by
/// sequence.
pub open spec fn scan_catalog(
    sequences: Seq<Seq<Seq<char>>>,
    password: Seq<char>,
    length: int,
    wrap: bool,
) -> Seq<Seq<char>>
    decreases sequences.len(),
{
    if sequences.len() == 0 {
        Seq::empty()
    } else {
        scan_sequence(
            scan_catalog(sequences.drop_last(), password, length, wrap),
            sequences.last(),
            password,
            length,
            wrap,
        )
    }
}

/// The runs that are reported: all of them, or the first alone.
pub open spec fn reported_runs(found: Seq<Seq<char>>, report_all: bool) -> Seq<Seq<char>> {
    if report_all || found.len() == 0 {
        found
    } else {
        seq![found[0]]
    }
}

/// The detail that reports a run.
pub open spec fn run_detail(code: Seq<char>, run: Seq<char>) -> DetailView {
    error_detail(code, seq![("sequence"@, run)])
}

/// The result that reports the given runs.
pub open spec fn runs_result(code: Seq<char>, found: Seq<Seq<char>>, report_all: bool)
    -> ResultView {
    let reported = reported_runs(found, report_all);
    ResultView {
        valid: found.len() == 0,
        details: Seq::new(reported.len(), |i: int| run_detail(code, reported[i])),
        counts: Map::empty(),
    }
}

/// Refuses passwords that hold a run of neighbouring characters of one of
/// the sequences of a catalog, ascending or descending.
pub struct IllegalSequenceRule<S: SequenceData> {
    sequence_data: S,
    length: usize,
    wrap: bool,
    report_all: bool,
}

proof fn lemma_position_found(forms: Seq<Seq<char>>, c: char, at: int, limit: int)
    requires
        0 <= at < limit,
        position_below(forms, c, at) == -1,
        form_matches(forms, at, c),
    ensures
        position_below(forms, c, limit) == at,
    decreases limit,
{
    if limit > at + 1 {
        lemma_position_found(forms, c, at, limit - 1);
    }
}

/// Returns the first position of the sequence at which the character
/// stands in one of the forms, or -1 if it stands nowhere.
pub fn index_of(sequence: &CharacterSequence, c: char) -> (position: i128)
    ensures
        position == position_of(sequence@, c),
        -1 <= position < sequence@[0].len(),
{
    let n: usize = sequence.length();
    let mut i: usize = 0;
    while i < n
        invariant
            i <= n,
            n == sequence@[0].len(),
            sequence@.len() > 0,
            position_below(sequence@, c, i as int) == -1,
        decreases n - i,
    {
        if sequence.matches(i, c) {
            proof {
                lemma_position_found(sequence@, c, i as int, n as int);
            }
            return i as i128;
        }
        i += 1;
    }
    -1
}

impl<S: SequenceData> IllegalSequenceRule<S> {
    /// The catalog of the rule.
    pub closed spec fn catalog(&self) -> S {
        self.sequence_data
    }

    /// The least length of a run that is refused.
    pub closed spec fn min_length(&self) -> usize {
        self.length
    }

    /// Whether the two ends of a sequence count as neighbours.
    pub closed spec fn wraps(&self) -> bool {
        self.wrap
    }

    /// Whether every run is reported, or the first alone.
    pub closed spec fn reports_all(&self) -> bool {
        self.report_all
    }

    /// The result of the rule for a password.
    pub open spec fn outcome(&self, password: Seq<char>) -> ResultView {
        runs_result(
            self.catalog().code(),
            scan_catalog(
                self.catalog().sequences(),
                password,
                self.min_length() as int,
                self.wraps(),
            ),
            self.reports_all(),
        )
    }

    /// Creates a rule from a catalog, the least run length to refuse, and
    /// the two policies.
    pub fn new(sequence_data: S, length: usize, wrap: bool, report_all: bool) -> (rule: Self)
        ensures
            rule.catalog() == sequence_data,
            rule.min_length() == length,
            rule.wraps() == wrap,
            rule.reports_all() == report_all,
    {
        Self { sequence_data, length, wrap, report_all }
    }

    /// Creates a rule that refuses runs of five characters, without
    /// wrapping, and reports them all.
    pub fn with_sequence_data(sequence_data: S) -> (rule: Self)
        ensures
            rule.catalog() == sequence_data,
            rule.min_length() == DEFAULT_SEQUENCE_LENGTH,
            !rule.wraps(),
            rule.reports_all(),
    {
        Self::new(sequence_data, DEFAULT_SEQUENCE_LENGTH, false, true)
    }

    /// Creates a rule that reports all runs.
    pub fn with_warp(sequence_data: S, length: usize, wrap: bool) -> (rule: Self)
        ensures
            rule.catalog() == sequence_data,
            rule.min_length() == length,
            rule.wraps() == wrap,
            rule.reports_all(),
    {
        Self::new(sequence_data, length, wrap, true)
    }

    /// Reports a run, unless only the first is to be reported and one was
    /// reported already.
    fn add_error(&self, result: &mut RuleResult, match_str: &Vec<char>, Ghost(found): Ghost<
        Seq<Seq<char>>,
    >)
        requires
            old(result)@ == runs_result(self.catalog().code(), found, self.reports_all()),
        ensures
            final(result)@ == runs_result(
                self.catalog().code(),
                found.push(match_str@),
                self.reports_all(),
            ),
    {
        let ghost code = self.catalog().code();
        let ghost before = reported_runs(found, self.report_all);
        let ghost after = reported_runs(found.push(match_str@), self.report_all);
        assert(result@.details.len() == before.len());
        if self.report_all || result.details().len() == 0 {
            proof {
                reveal_strlit("sequence");
            }
            let mut map: Vec<(String, String)> = Vec::new();
            map.push(parameter("sequence", string_of(match_str)));
            assert(crate::rule::rule_result::parameter_texts(map@) =~= seq![
                ("sequence"@, match_str@),
            ]);
            result.add_error(self.sequence_data.error_code(), Some(map));
            proof {
                assert(after =~= before.push(match_str@));
                assert(result@.details =~= runs_result(
                    code,
                    found.push(match_str@),
                    self.report_all,
                ).details);
            }
        } else {
            proof {
                assert(after =~= before);
                assert(result@.details =~= runs_result(
                    code,
                    found.push(match_str@),
                    self.report_all,
                ).details);
            }
        }
    }
}

impl<S: SequenceData> Rule for IllegalSequenceRule<S> {
    open spec fn admits(&self, data: PasswordView, result: ResultView) -> bool {
        result == self.outcome(data.password)
    }

    fn validate(&self, password_data: &PasswordData) -> (result: RuleResult) {
        let mut result = RuleResult::default();
        let mut password = chars_of(password_data.password());
        password.push('\u{ffff}');
        let sequences = self.sequence_data.get_sequences();
        let ghost all = self.sequence_data.sequences();
        let ghost text = password_data@.password;
        let ghost length = self.length as int;
        let ghost mut found: Seq<Seq<char>> = Seq::empty();
        proof {
            assert(all.take(0) =~= Seq::empty());
            assert(result@.details =~= runs_result(
                self.catalog().code(),
                found,
                self.report_all,
            ).details);
        }
        let mut s: usize = 0;
        while s < sequences.len()
            invariant
                s <= sequences.len(),
                sequence_views(sequences@) == all,
                all == self.catalog().sequences(),
                password@ == text.push(sentinel()),
                length == self.length as int,
                found == scan_catalog(all.take(s as int), text, length, self.wrap),
                result@ == runs_result(self.catalog().code(), found, self.report_all),
            decreases sequences.len() - s,
        {
            let cs = &sequences[s];
            let ghost forms = cs@;
            assert(forms == all[s as int]);
            let cs_length: i128 = cs.length() as i128;
            let mut direction: i128 = 0;
            let mut prev_position: i128 = -1;
            let mut match_builder: Vec<char> = Vec::new();
            let ghost base = found;
            let mut i: usize = 0;
            proof {
                assert(password@.take(0) =~= Seq::<char>::empty());
            }
            while i < password.len()
                invariant
                    i <= password.len(),
                    forms == cs@,
                    forms.len() > 0,
                    cs_length == forms[0].len(),
                    length == self.length as int,
                    -1 <= direction <= 1,
                    -1 <= prev_position < cs_length,
                    prev_position >= 0 ==> match_builder@.len() > 0,
                    scan_chars(
                        start_state(base),
                        forms,
                        password@.take(i as int),
                        length,
                        self.wrap,
                    ) == (ScanState {
                        direction: direction as int,
                        prev_position: prev_position as int,
                        run: match_builder@,
                        found,
                    }),
                    result@ == runs_result(self.catalog().code(), found, self.report_all),
                decreases password.len() - i,
            {
                let c = password[i];
                proof {
                    assert(password@.take(i + 1).drop_last() =~= password@.take(i as int));
                    assert(password@.take(i + 1).last() == c);
                }
                let position = index_of(cs, c);
                // +1 for a step up the sequence, -1 for a step down,
                // anything else for neither
                let mut diff: i128 = if position < 0 || prev_position < 0 {
                    0
                } else {
                    position - prev_position
                };
                if self.wrap && (diff == cs_length - 1 || diff == 1 - cs_length) {
                    if diff > 0 {
                        diff -= cs_length;
                    } else if diff < 0 {
                        diff += cs_length;
                    }
                }
                assert(diff == step_of(
                    position as int,
                    prev_position as int,
                    cs_length as int,
                    self.wrap,
                ));
                // a run that has reached its end is reported
                if diff != direction && match_builder.len() >= self.length {
                    self.add_error(&mut result, &match_builder, Ghost(found));
                    proof {
                        found = found.push(match_builder@);
                    }
                }
                // the run that may go on
                let ghost run = match_builder@;
                if diff == 1 || diff == -1 {
                    if diff != direction {
                        let last = match_builder[match_builder.len() - 1];
                        match_builder.clear();
                        match_builder.push(last);
                        direction = diff;
                        proof {
                            assert(match_builder@.push(c) =~= seq![run.last(), c]);
                        }
                    }
                } else {
                    match_builder.clear();
                    direction = 0;
                    proof {
                        assert(match_builder@.push(c) =~= seq![c]);
                    }
                }
                match_builder.push(c);
                prev_position = position;
                i += 1;
            }
            proof {
                assert(password@.take(i as int) =~= password@);
                assert(all.take(s + 1).drop_last() =~= all.take(s as int));
                assert(all.take(s + 1).last() == forms);
            }
            s += 1;
        }
        proof {
            assert(all.take(s as int) =~= all);
        }
        result
    }

    fn as_has_characters(&self) -> (r: Option<&dyn crate::rule::HasCharacters>) {
        None
    }

    fn as_dictionary_rule(&self) -> (r: Option<&dyn crate::rule::DictionaryRuleTrait>) {
        None
    }
}

/// Scanning a password twice with the same rule gives the same result: a
/// scan keeps nothing from one call to the next.
pub proof fn scan_is_repeatable<S: SequenceData>(
    rule: IllegalSequenceRule<S>,
    data: PasswordView,
    first: ResultView,
    second: ResultView,
)
    requires
        rule.admits(data, first),
        rule.admits(data, second),
    ensures
        first == second,
{
}


/// Whether each character of `run` after the first stands one step in
/// `direction` from the character before it.
pub open spec fn steps_through(
    forms: Seq<Seq<char>>,
    run: Seq<char>,
    direction: int,
    wrap: bool,
) -> bool {
    forall|k: int|
        0 < k < run.len() ==> step_of(
            position_of(forms, #[trigger] run[k]),
            position_of(forms, run[k - 1]),
            forms[0].len() as int,
            wrap,
        ) == direction
}

/// Whether `run` is a run of the sequence that may be reported: it has at
/// least `length` characters, and if it has two or more, they step
/// through the sequence upwards or downwards.
pub open spec fn is_reportable(forms: Seq<Seq<char>>, run: Seq<char>, length: int, wrap: bool)
    -> bool {
    &&& run.len() >= length
    &&& run.len() >= 2 ==> (steps_through(forms, run, 1, wrap) || steps_through(
        forms,
        run,
        -1,
        wrap,
    ))
}

/// Whether `part` stands in `text` without a gap.
pub open spec fn is_part_of(part: Seq<char>, text: Seq<char>) -> bool {
    exists|from: int|
        0 <= from && from + part.len() <= text.len() && #[trigger] text.subrange(
            from,
            from + part.len(),
        ) == part
}

/// What holds of the run of a scan after each character: the run is the
/// end of what was scanned and steps through the sequence in the scan's
/// direction.
spec fn run_holds(state: ScanState, forms: Seq<Seq<char>>, scanned: Seq<char>, wrap: bool) -> bool {
    &&& state.run.len() <= scanned.len()
    &&& state.run == scanned.subrange(scanned.len() - state.run.len(), scanned.len() as int)
    &&& scanned.len() > 0 ==> state.run.len() >= 1 && state.prev_position == position_of(
        forms,
        scanned.last(),
    )
    &&& scanned.len() == 0 ==> state.prev_position == -1 && state.direction == 0
    &&& -1 <= state.direction <= 1
    &&& state.direction == 0 ==> state.run.len() <= 1
    &&& state.direction != 0 ==> state.run.len() >= 2
    &&& steps_through(forms, state.run, state.direction, wrap)
}

/// What holds of the runs that a scan has found from position `base` of
/// its list on: each may be reported and stands in what was scanned before
/// the last character.
spec fn found_hold(
    state: ScanState,
    forms: Seq<Seq<char>>,
    scanned: Seq<char>,
    length: int,
    wrap: bool,
    base: int,
) -> bool {
    &&& 0 <= base <= state.found.len()
    &&& scanned.len() == 0 ==> state.found.len() == base
    &&& forall|i: int|
        base <= i < state.found.len() ==> is_reportable(
            forms,
            #[trigger] state.found[i],
            length,
            wrap,
        ) && is_part_of(state.found[i], scanned.drop_last())
}

/// What holds of a scan after each character.
spec fn scan_holds(
    state: ScanState,
    forms: Seq<Seq<char>>,
    scanned: Seq<char>,
    length: int,
    wrap: bool,
    base: int,
) -> bool {
    run_holds(state, forms, scanned, wrap) && found_hold(
        state,
        forms,
        scanned,
        length,
        wrap,
        base,
    )
}

proof fn lemma_part_of_longer(part: Seq<char>, text: Seq<char>, c: char)
    requires
        is_part_of(part, text),
    ensures
        is_part_of(part, text.push(c)),
{
    let from = choose|from: int|
        0 <= from && from + part.len() <= text.len() && #[trigger] text.subrange(
            from,
            from + part.len(),
        ) == part;
    assert(text.push(c).subrange(from, from + part.len()) =~= part);
}

proof fn lemma_step_keeps_run(
    state: ScanState,
    forms: Seq<Seq<char>>,
    scanned: Seq<char>,
    c: char,
    length: int,
    wrap: bool,
)
    requires
        run_holds(state, forms, scanned, wrap),
    ensures
        run_holds(scan_step(state, forms, c, length, wrap), forms, scanned.push(c), wrap),
{
    let next = scan_step(state, forms, c, length, wrap);
    let longer = scanned.push(c);
    assert(next.run =~= longer.subrange(longer.len() - next.run.len(), longer.len() as int));
    assert forall|k: int| 0 < k < next.run.len() implies step_of(
        position_of(forms, #[trigger] next.run[k]),
        position_of(forms, next.run[k - 1]),
        forms[0].len() as int,
        wrap,
    ) == next.direction by {
        if k < next.run.len() - 1 {
            assert(next.run[k] == state.run[k]);
            assert(next.run[k - 1] == state.run[k - 1]);
        } else {
            assert(next.run[k] == c);
            assert(next.run[k - 1] == scanned.last());
        }
    }
}

#[verifier::spinoff_prover]
proof fn lemma_step_keeps_found(
    state: ScanState,
    forms: Seq<Seq<char>>,
    scanned: Seq<char>,
    c: char,
    length: int,
    wrap: bool,
    base: int,
)
    requires
        run_holds(state, forms, scanned, wrap),
        found_hold(state, forms, scanned, length, wrap, base),
    ensures
        found_hold(
            scan_step(state, forms, c, length, wrap),
            forms,
            scanned.push(c),
            length,
            wrap,
            base,
        ),
{
    let next = scan_step(state, forms, c, length, wrap);
    let longer = scanned.push(c);
    assert(longer.drop_last() =~= scanned);
    assert forall|i: int| base <= i < next.found.len() implies is_reportable(
        forms,
        #[trigger] next.found[i],
        length,
        wrap,
    ) && is_part_of(next.found[i], longer.drop_last()) by {
        if i < state.found.len() {
            assert(next.found[i] == state.found[i]);
            assert(is_reportable(forms, state.found[i], length, wrap));
            assert(scanned.len() > 0);
            assert(scanned.drop_last().push(scanned.last()) =~= scanned);
            lemma_part_of_longer(state.found[i], scanned.drop_last(), scanned.last());
            assert(is_part_of(next.found[i], scanned));
        } else {
            let run = state.run;
            assert(next.found[i] == run);
            assert(run.len() >= length);
            if run.len() >= 2 {
                assert(state.direction == 1 || state.direction == -1);
                assert(steps_through(forms, run, state.direction, wrap));
            }
            let from = scanned.len() - run.len();
            assert(scanned.subrange(from, from + run.len()) == run);
            assert(is_part_of(run, scanned));
        }
    }
}

proof fn lemma_scan_step_holds(
    state: ScanState,
    forms: Seq<Seq<char>>,
    scanned: Seq<char>,
    c: char,
    length: int,
    wrap: bool,
    base: int,
)
    requires
        scan_holds(state, forms, scanned, length, wrap, base),
    ensures
        scan_holds(
            scan_step(state, forms, c, length, wrap),
            forms,
            scanned.push(c),
            length,
            wrap,
            base,
        ),
{
    lemma_step_keeps_run(state, forms, scanned, c, length, wrap);
    lemma_step_keeps_found(state, forms, scanned, c, length, wrap, base);
}

proof fn lemma_scan_chars_holds(
    found: Seq<Seq<char>>,
    forms: Seq<Seq<char>>,
    text: Seq<char>,
    length: int,
    wrap: bool,
)
    ensures
        scan_holds(
            scan_chars(start_state(found), forms, text, length, wrap),
            forms,
            text,
            length,
            wrap,
            found.len() as int,
        ),
        scan_chars(start_state(found), forms, text, length, wrap).found.take(found.len() as int)
            == found,
    decreases text.len(),
{
    if text.len() == 0 {
        let state = start_state(found);
        assert(state.run =~= text.subrange(0, 0));
        assert(state.found.take(found.len() as int) =~= found);
    } else {
        lemma_scan_chars_holds(found, forms, text.drop_last(), length, wrap);
        let before = scan_chars(start_state(found), forms, text.drop_last(), length, wrap);
        lemma_scan_step_holds(
            before,
            forms,
            text.drop_last(),
            text.last(),
            length,
            wrap,
            found.len() as int,
        );
        assert(text.drop_last().push(text.last()) =~= text);
        let after = scan_step(before, forms, text.last(), length, wrap);
        assert(after.found.take(found.len() as int) =~= before.found.take(found.len() as int));
    }
}

/// What a scan of one sequence adds to the runs found earlier are runs of
/// that sequence: each has at least the least length, stands in the
/// password without a gap, and, if it has two characters or more, steps
/// through the sequence upwards or downwards. The runs found earlier stay
/// as they are.
pub proof fn scanned_runs_are_runs(
    found: Seq<Seq<char>>,
    forms: Seq<Seq<char>>,
    password: Seq<char>,
    length: int,
    wrap: bool,
)
    ensures
        found.len() <= scan_sequence(found, forms, password, length, wrap).len(),
        scan_sequence(found, forms, password, length, wrap).take(found.len() as int) == found,
        forall|i: int|
            found.len() <= i < scan_sequence(found, forms, password, length, wrap).len()
                ==> is_reportable(
                forms,
                #[trigger] scan_sequence(found, forms, password, length, wrap)[i],
                length,
                wrap,
            ) && is_part_of(scan_sequence(found, forms, password, length, wrap)[i], password),
{
    let text = password.push(sentinel());
    lemma_scan_chars_holds(found, forms, text, length, wrap);
    assert(text.drop_last() =~= password);
}

/// Every run that a scan of a catalog reports is a run of one of its
/// sequences: it has at least the least length, stands in the password
/// without a gap, and, if it has two characters or more, steps through
/// that sequence upwards or downwards.
pub proof fn reported_runs_are_runs(
    sequences: Seq<Seq<Seq<char>>>,
    password: Seq<char>,
    length: int,
    wrap: bool,
)
    ensures
        forall|i: int|
            0 <= i < scan_catalog(sequences, password, length, wrap).len() ==> (#[trigger] scan_catalog(
                sequences,
                password,
                length,
                wrap,
            )[i]).len() >= length && is_part_of(
                scan_catalog(sequences, password, length, wrap)[i],
                password,
            ) && exists|s: int|
                0 <= s < sequences.len() && is_reportable(
                    #[trigger] sequences[s],
                    scan_catalog(sequences, password, length, wrap)[i],
                    length,
                    wrap,
                ),
    decreases sequences.len(),
{
    if sequences.len() > 0 {
        let earlier = scan_catalog(sequences.drop_last(), password, length, wrap);
        let all = scan_catalog(sequences, password, length, wrap);
        reported_runs_are_runs(sequences.drop_last(), password, length, wrap);
        scanned_runs_are_runs(earlier, sequences.last(), password, length, wrap);
        assert forall|i: int| 0 <= i < all.len() implies (#[trigger] all[i]).len() >= length
            && is_part_of(all[i], password) && exists|s: int|
            0 <= s < sequences.len() && is_reportable(
                #[trigger] sequences[s],
                all[i],
                length,
                wrap,
            ) by {
            if i < earlier.len() {
                assert(all.take(earlier.len() as int)[i] == all[i]);
                assert(all[i] == earlier[i]);
                let s = choose|s: int|
                    0 <= s < sequences.len() - 1 && is_reportable(
                        #[trigger] sequences.drop_last()[s],
                        earlier[i],
                        length,
                        wrap,
                    );
                assert(sequences[s] == sequences.drop_last()[s]);
                assert(is_reportable(sequences[s], all[i], length, wrap));
            } else {
                assert(is_reportable(sequences[sequences.len() - 1], all[i], length, wrap));
            }
        }
    }
}

} // verus!
