//! The error reporter: it gathers validation errors, counts them, and
//! proposes what to do about them.

use vstd::prelude::*;
use crate::text::{
    contains_text, has_subtext, join2, join3, lemma_precedes_irreflexive, lemma_precedes_total,
    lemma_precedes_transitive, owned, precedes, same_text, text_precedes,
};
use crate::value::{Json, Value};

verus! {

/// Kinds of validation errors, whatever part of the library found them.
#[derive(Debug, Clone, Copy, PartialEq, Eq, Hash, Structural)]
pub enum ValidationErrorType {
    SchemaValidation,
    TypeValidation,
    IntegrityViolation,
    ConstraintViolation,
    FormatError,
    RequiredFieldMissing,
    InvalidValue,
    CustomValidation,
}

/// How much an error weighs.
#[derive(Debug, Clone, Copy, PartialEq, Eq, Hash, Structural)]
pub enum ErrorSeverity {
    Info,
    Warning,
    Error,
    Critical,
}

/// The content of what a suggestion asks the user to do.
pub enum ActionView {
    Fix,
    Replace,
    Add,
    Remove,
    Convert,
    Validate,
    Custom(Seq<char>),
}

/// What a suggestion asks the user to do.
#[derive(Debug, Clone, PartialEq)]
pub enum SuggestionAction {
    Fix,
    Replace,
    Add,
    Remove,
    Convert,
    Validate,
    Custom(String),
}

impl View for SuggestionAction {
    type V = ActionView;

    open spec fn view(&self) -> ActionView {
        match self {
            SuggestionAction::Fix => ActionView::Fix,
            SuggestionAction::Replace => ActionView::Replace,
            SuggestionAction::Add => ActionView::Add,
            SuggestionAction::Remove => ActionView::Remove,
            SuggestionAction::Convert => ActionView::Convert,
            SuggestionAction::Validate => ActionView::Validate,
            SuggestionAction::Custom(label) => ActionView::Custom(label@),
        }
    }
}

impl SuggestionAction {
    /// A copy of the action.
    pub fn duplicate(&self) -> (copy: SuggestionAction)
        ensures
            copy@ == self@,
    {
        match self {
            SuggestionAction::Fix => SuggestionAction::Fix,
            SuggestionAction::Replace => SuggestionAction::Replace,
            SuggestionAction::Add => SuggestionAction::Add,
            SuggestionAction::Remove => SuggestionAction::Remove,
            SuggestionAction::Convert => SuggestionAction::Convert,
            SuggestionAction::Validate => SuggestionAction::Validate,
            SuggestionAction::Custom(label) => SuggestionAction::Custom(label.clone()),
        }
    }
}

/// The content of a suggestion.
pub struct SuggestionView {
    pub title: Seq<char>,
    pub description: Seq<char>,
    pub action: ActionView,
    pub confidence: u8,
}

/// A proposal for mending an error. The confidence is given in hundredths,
/// from 0 to 100.
#[derive(Debug, Clone)]
pub struct ValidationSuggestion {
    pub title: String,
    pub description: String,
    pub action: SuggestionAction,
    pub confidence: u8,
}

impl View for ValidationSuggestion {
    type V = SuggestionView;

    open spec fn view(&self) -> SuggestionView {
        SuggestionView {
            title: self.title@,
            description: self.description@,
            action: self.action@,
            confidence: self.confidence,
        }
    }
}

/// The content of each suggestion, in order.
pub open spec fn suggestion_views(list: Seq<ValidationSuggestion>) -> Seq<SuggestionView> {
    Seq::new(list.len(), |i: int| list[i]@)
}

/// The content of a validation error.
pub struct ValidationErrorView {
    pub error_type: ValidationErrorType,
    pub path: Seq<char>,
    pub message: Seq<char>,
    pub severity: ErrorSeverity,
    pub suggestion: Option<SuggestionView>,
    pub context: Option<Json>,
    pub timestamp: i64,
}

/// A validation error in the shape that all parts of the library share. The
/// time is given by the caller, in the unit and from the epoch the caller chooses.
#[derive(Debug, Clone)]
pub struct ValidationError {
    pub error_type: ValidationErrorType,
    pub path: String,
    pub message: String,
    pub severity: ErrorSeverity,
    pub suggestion: Option<ValidationSuggestion>,
    pub context: Option<Value>,
    pub timestamp: i64,
}

impl View for ValidationError {
    type V = ValidationErrorView;

    open spec fn view(&self) -> ValidationErrorView {
        ValidationErrorView {
            error_type: self.error_type,
            path: self.path@,
            message: self.message@,
            severity: self.severity,
            suggestion: match self.suggestion {
                Some(s) => Some(s@),
                None => None,
            },
            context: match self.context {
                Some(v) => Some(v@),
                None => None,
            },
            timestamp: self.timestamp,
        }
    }
}

/// The content of each error, in order.
pub open spec fn error_views(list: Seq<ValidationError>) -> Seq<ValidationErrorView> {
    Seq::new(list.len(), |i: int| list[i]@)
}

/// The content of each borrowed error, in order.
pub open spec fn borrowed_views(list: Seq<&ValidationError>) -> Seq<ValidationErrorView> {
    Seq::new(list.len(), |i: int| list[i]@)
}

/// The content of an error pattern.
pub struct ErrorPatternView {
    pub pattern: Seq<char>,
    pub error_type: ValidationErrorType,
    pub severity: ErrorSeverity,
    pub suggestion_template: Seq<char>,
}

/// A text whose presence in a document is an error of the given kind.
#[derive(Debug, Clone)]
pub struct ErrorPattern {
    pub pattern: String,
    pub error_type: ValidationErrorType,
    pub severity: ErrorSeverity,
    pub suggestion_template: String,
}

impl View for ErrorPattern {
    type V = ErrorPatternView;

    open spec fn view(&self) -> ErrorPatternView {
        ErrorPatternView {
            pattern: self.pattern@,
            error_type: self.error_type,
            severity: self.severity,
            suggestion_template: self.suggestion_template@,
        }
    }
}

/// The content of each error pattern, in order.
pub open spec fn error_pattern_views(list: Seq<ErrorPattern>) -> Seq<ErrorPatternView> {
    Seq::new(list.len(), |i: int| list[i]@)
}

/// The content of a suggestion pattern.
pub struct SuggestionPatternView {
    pub pattern: Seq<char>,
    pub suggestion_template: Seq<char>,
    pub confidence: u8,
    pub action: ActionView,
}

/// A text whose presence in an error's message or path calls for the given suggestion.
#[derive(Debug, Clone)]
pub struct SuggestionPattern {
    pub pattern: String,
    pub suggestion_template: String,
    pub confidence: u8,
    pub action: SuggestionAction,
}

impl View for SuggestionPattern {
    type V = SuggestionPatternView;

    open spec fn view(&self) -> SuggestionPatternView {
        SuggestionPatternView {
            pattern: self.pattern@,
            suggestion_template: self.suggestion_template@,
            confidence: self.confidence,
            action: self.action@,
        }
    }
}

/// The content of each suggestion pattern, in order.
pub open spec fn suggestion_pattern_views(list: Seq<SuggestionPattern>) -> Seq<SuggestionPatternView> {
    Seq::new(list.len(), |i: int| list[i]@)
}

/// The name of a kind of error.
pub open spec fn kind_text(kind: ValidationErrorType) -> Seq<char> {
    match kind {
        ValidationErrorType::SchemaValidation => "SchemaValidation"@,
        ValidationErrorType::TypeValidation => "TypeValidation"@,
        ValidationErrorType::IntegrityViolation => "IntegrityViolation"@,
        ValidationErrorType::ConstraintViolation => "ConstraintViolation"@,
        ValidationErrorType::FormatError => "FormatError"@,
        ValidationErrorType::RequiredFieldMissing => "RequiredFieldMissing"@,
        ValidationErrorType::InvalidValue => "InvalidValue"@,
        ValidationErrorType::CustomValidation => "CustomValidation"@,
    }
}

/// The suggestion that the kind of an error alone calls for.
pub open spec fn generic_suggestion(kind: ValidationErrorType) -> SuggestionView {
    match kind {
        ValidationErrorType::SchemaValidation => SuggestionView {
            title: "Fix Schema Validation"@,
            description: "Update the data to match the required schema"@,
            action: ActionView::Fix,
            confidence: 70,
        },
        ValidationErrorType::TypeValidation => SuggestionView {
            title: "Fix Type Validation"@,
            description: "Convert the value to the expected type"@,
            action: ActionView::Convert,
            confidence: 80,
        },
        ValidationErrorType::RequiredFieldMissing => SuggestionView {
            title: "Add Required Field"@,
            description: "Add the missing required field"@,
            action: ActionView::Add,
            confidence: 90,
        },
        ValidationErrorType::ConstraintViolation => SuggestionView {
            title: "Fix Constraint Violation"@,
            description: "Update the value to meet the constraint requirements"@,
            action: ActionView::Fix,
            confidence: 80,
        },
        _ => SuggestionView {
            title: "Fix Validation Error"@,
            description: "Review and correct the validation error"@,
            action: ActionView::Validate,
            confidence: 50,
        },
    }
}

/// Whether a pattern occurs in the message or in the path of an error.
pub open spec fn pattern_applies(error: ValidationErrorView, pattern: Seq<char>) -> bool {
    has_subtext(error.message, pattern) || has_subtext(error.path, pattern)
}

/// Position of the first of the first `n` patterns that applies to the error.
pub open spec fn first_applying(error: ValidationErrorView, patterns: Seq<SuggestionPatternView>, n: nat) -> Option<
    int,
>
    decreases n,
{
    if n == 0 || n > patterns.len() {
        None
    } else {
        match first_applying(error, patterns, (n - 1) as nat) {
            Some(i) => Some(i),
            None => if pattern_applies(error, patterns[n - 1].pattern) {
                Some(n - 1)
            } else {
                None
            },
        }
    }
}

/// The suggestion for an error: that of the first registered pattern that
/// applies to it, or else the one that its kind calls for.
pub open spec fn suggestion_for(error: ValidationErrorView, patterns: Seq<SuggestionPatternView>) -> SuggestionView {
    match first_applying(error, patterns, patterns.len()) {
        Some(i) => SuggestionView {
            title: "Fix "@ + kind_text(error.error_type),
            description: patterns[i].suggestion_template,
            action: patterns[i].action,
            confidence: patterns[i].confidence,
        },
        None => generic_suggestion(error.error_type),
    }
}

/// The suggestion for each error, in order.
pub open spec fn suggestions_for(errors: Seq<ValidationErrorView>, patterns: Seq<SuggestionPatternView>) -> Seq<
    SuggestionView,
> {
    Seq::new(errors.len(), |i: int| suggestion_for(errors[i], patterns))
}

/// Whether a list holds a suggestion of the given title.
pub open spec fn has_title(list: Seq<SuggestionView>, title: Seq<char>) -> bool {
    exists|k: int| 0 <= k < list.len() && #[trigger] list[k].title == title
}

/// Whether no earlier suggestion bears the title of suggestion `i`.
pub open spec fn is_first_of_title(list: Seq<SuggestionView>, i: int) -> bool {
    forall|j: int| 0 <= j < i ==> #[trigger] list[j].title != list[i].title
}

/// Whether `s` is, among the first `n` of `list`, the first suggestion of its title.
pub open spec fn is_first_among(s: SuggestionView, list: Seq<SuggestionView>, n: int) -> bool {
    exists|i: int| 0 <= i < n && #[trigger] list[i] == s && is_first_of_title(list, i)
}

/// Whether the titles stand in the order of dictionaries, each title once.
pub open spec fn sorted_by_title(list: Seq<SuggestionView>) -> bool {
    forall|i: int, j: int|
        0 <= i < j < list.len() ==> precedes(#[trigger] list[i].title, #[trigger] list[j].title)
}

/// Whether `out` is what is left of the first `n` of `all` when they are put
/// in the order of their titles and of each title only the first is kept.
pub open spec fn is_digest(out: Seq<SuggestionView>, all: Seq<SuggestionView>, n: int) -> bool {
    &&& sorted_by_title(out)
    &&& forall|k: int| 0 <= k < out.len() ==> is_first_among(#[trigger] out[k], all, n)
    &&& forall|i: int| 0 <= i < n ==> has_title(out, #[trigger] all[i].title)
}

/// How many of the first `n` errors are of the given kind.
pub open spec fn count_of_kind(errors: Seq<ValidationErrorView>, kind: ValidationErrorType, n: nat) -> nat
    decreases n,
{
    if n == 0 || n > errors.len() {
        0
    } else {
        count_of_kind(errors, kind, (n - 1) as nat) + (if errors[n - 1].error_type == kind {
            1nat
        } else {
            0nat
        })
    }
}

/// How many of the first `n` errors are of the given severity.
pub open spec fn count_of_severity(errors: Seq<ValidationErrorView>, severity: ErrorSeverity, n: nat) -> nat
    decreases n,
{
    if n == 0 || n > errors.len() {
        0
    } else {
        count_of_severity(errors, severity, (n - 1) as nat) + (if errors[n - 1].severity
            == severity {
            1nat
        } else {
            0nat
        })
    }
}

/// Those of the first `n` errors that `keep` holds of.
pub open spec fn selected(errors: Seq<ValidationErrorView>, keep: spec_fn(ValidationErrorView) -> bool, n: nat) -> Seq<
    ValidationErrorView,
>
    decreases n,
{
    if n == 0 || n > errors.len() {
        Seq::empty()
    } else {
        selected(errors, keep, (n - 1) as nat) + (if keep(errors[n - 1]) {
            seq![errors[n - 1]]
        } else {
            Seq::empty()
        })
    }
}

/// The error that a pattern found in a text of the document makes.
pub open spec fn detected_error(p: ErrorPatternView, data: Json, path: Seq<char>, now: i64) -> ValidationErrorView {
    ValidationErrorView {
        error_type: p.error_type,
        path,
        message: "Pattern '"@ + p.pattern + "' detected in data"@,
        severity: p.severity,
        suggestion: Some(
            SuggestionView {
                title: "Fix Pattern Match"@,
                description: p.suggestion_template,
                action: ActionView::Fix,
                confidence: 80,
            },
        ),
        context: Some(data),
        timestamp: now,
    }
}

/// The errors that the first `n` patterns find in the document: one for
/// each pattern that occurs in it, when the document is a text.
pub open spec fn detected_errors(
    patterns: Seq<ErrorPatternView>,
    data: Json,
    path: Seq<char>,
    now: i64,
    n: nat,
) -> Seq<ValidationErrorView>
    decreases n,
{
    if n == 0 || n > patterns.len() {
        Seq::empty()
    } else {
        detected_errors(patterns, data, path, now, (n - 1) as nat) + (match data {
            Json::String(text) => if has_subtext(text, patterns[n - 1].pattern) {
                seq![detected_error(patterns[n - 1], data, path, now)]
            } else {
                Seq::empty()
            },
            _ => Seq::empty(),
        })
    }
}

/// The counts of a summary, one for each kind of error.
#[derive(Debug, Clone, Copy, PartialEq, Eq, Structural)]
pub struct KindCounts {
    pub schema_validation: usize,
    pub type_validation: usize,
    pub integrity_violation: usize,
    pub constraint_violation: usize,
    pub format_error: usize,
    pub required_field_missing: usize,
    pub invalid_value: usize,
    pub custom_validation: usize,
}

/// The counts of a summary, one for each severity.
#[derive(Debug, Clone, Copy, PartialEq, Eq, Structural)]
pub struct SeverityCounts {
    pub info: usize,
    pub warning: usize,
    pub error: usize,
    pub critical: usize,
}

/// Counts over the gathered errors.
#[derive(Debug, Clone)]
pub struct ErrorSummary {
    pub total_errors: usize,
    pub critical_errors: usize,
    pub high_errors: usize,
    pub warnings: usize,
    pub info: usize,
    pub error_types: KindCounts,
    pub severity_distribution: SeverityCounts,
    pub has_errors: bool,
    pub has_critical_errors: bool,
}

/// Proposes suggestions for errors.
pub struct SuggestionEngine {
    /// The registered patterns, in the order in which their texts were first registered.
    pub patterns: Vec<SuggestionPattern>,
    /// The confidence below which a suggestion is held to be a guess, in hundredths.
    pub confidence_threshold: u8,
}

proof fn lemma_applying_found(error: ValidationErrorView, patterns: Seq<SuggestionPatternView>, i: int, n: nat)
    requires
        0 <= i < n <= patterns.len(),
        pattern_applies(error, patterns[i].pattern),
        first_applying(error, patterns, i as nat) is None,
    ensures
        first_applying(error, patterns, n) == Some(i),
    decreases n,
{
    if n > i + 1 {
        lemma_applying_found(error, patterns, i, (n - 1) as nat);
    }
}

/// The patterns with `pattern` in the place of the first of the same text, or else at the end.
pub open spec fn with_pattern(patterns: Seq<SuggestionPatternView>, pattern: SuggestionPatternView, n: nat) -> Seq<
    SuggestionPatternView,
>
    decreases patterns.len() - n,
{
    if n >= patterns.len() {
        patterns.push(pattern)
    } else if patterns[n as int].pattern == pattern.pattern {
        patterns.update(n as int, pattern)
    } else {
        with_pattern(patterns, pattern, n + 1)
    }
}

/// The error patterns with `pattern` in the place of the first of the same text, or else at the end.
pub open spec fn with_error_pattern(patterns: Seq<ErrorPatternView>, pattern: ErrorPatternView, n: nat) -> Seq<
    ErrorPatternView,
>
    decreases patterns.len() - n,
{
    if n >= patterns.len() {
        patterns.push(pattern)
    } else if patterns[n as int].pattern == pattern.pattern {
        patterns.update(n as int, pattern)
    } else {
        with_error_pattern(patterns, pattern, n + 1)
    }
}

impl SuggestionEngine {
    /// The content of the registered patterns.
    pub open spec fn patterns(&self) -> Seq<SuggestionPatternView> {
        suggestion_pattern_views(self.patterns@)
    }

    pub fn new() -> (e: SuggestionEngine)
        ensures
            e.patterns() == Seq::<SuggestionPatternView>::empty(),
            e.confidence_threshold == 50,
    {
        let e = SuggestionEngine { patterns: Vec::new(), confidence_threshold: 50 };
        assert(e.patterns() =~= Seq::empty());
        e
    }

    /// Registers a pattern, in the place of an earlier pattern of the same text.
    pub fn add_pattern(&mut self, pattern: SuggestionPattern)
        ensures
            final(self).patterns() == with_pattern(old(self).patterns(), pattern@, 0),
            final(self).confidence_threshold == old(self).confidence_threshold,
    {
        let mut i: usize = 0;
        while i < self.patterns.len()
            invariant
                i <= self.patterns.len(),
                *self == *old(self),
                with_pattern(self.patterns(), pattern@, 0) == with_pattern(
                    self.patterns(),
                    pattern@,
                    i as nat,
                ),
            decreases self.patterns.len() - i,
        {
            assert(self.patterns()[i as int] == self.patterns@[i as int]@);
            if same_text(self.patterns[i].pattern.as_str(), pattern.pattern.as_str()) {
                self.patterns.set(i, pattern);
                assert(final(self).patterns() =~= old(self).patterns().update(i as int, pattern@));
                return ;
            }
            i = i + 1;
        }
        self.patterns.push(pattern);
        assert(final(self).patterns() =~= old(self).patterns().push(pattern@));
    }

    /// Whether a pattern occurs in the message or in the path of an error.
    pub fn matches_pattern(error: &ValidationError, pattern: &str) -> (b: bool)
        ensures
            b == pattern_applies(error@, pattern@),
    {
        contains_text(error.message.as_str(), pattern) || contains_text(
            error.path.as_str(),
            pattern,
        )
    }

    /// The suggestion that the kind of an error alone calls for.
    pub fn generate_generic_suggestion(error: &ValidationError) -> (r: Option<ValidationSuggestion>)
        ensures
            r matches Some(s) && s@ == generic_suggestion(error@.error_type),
    {
        match error.error_type {
            ValidationErrorType::SchemaValidation => Some(
                ValidationSuggestion {
                    title: owned("Fix Schema Validation"),
                    description: owned("Update the data to match the required schema"),
                    action: SuggestionAction::Fix,
                    confidence: 70,
                },
            ),
            ValidationErrorType::TypeValidation => Some(
                ValidationSuggestion {
                    title: owned("Fix Type Validation"),
                    description: owned("Convert the value to the expected type"),
                    action: SuggestionAction::Convert,
                    confidence: 80,
                },
            ),
            ValidationErrorType::RequiredFieldMissing => Some(
                ValidationSuggestion {
                    title: owned("Add Required Field"),
                    description: owned("Add the missing required field"),
                    action: SuggestionAction::Add,
                    confidence: 90,
                },
            ),
            ValidationErrorType::ConstraintViolation => Some(
                ValidationSuggestion {
                    title: owned("Fix Constraint Violation"),
                    description: owned("Update the value to meet the constraint requirements"),
                    action: SuggestionAction::Fix,
                    confidence: 80,
                },
            ),
            _ => Some(
                ValidationSuggestion {
                    title: owned("Fix Validation Error"),
                    description: owned("Review and correct the validation error"),
                    action: SuggestionAction::Validate,
                    confidence: 50,
                },
            ),
        }
    }

    /// The suggestion for an error.
    pub fn generate_suggestion(&self, error: &ValidationError) -> (r: Option<ValidationSuggestion>)
        ensures
            r matches Some(s) && s@ == suggestion_for(error@, self.patterns()),
    {
        let mut i: usize = 0;
        while i < self.patterns.len()
            invariant
                i <= self.patterns.len(),
                first_applying(error@, self.patterns(), i as nat) is None,
            decreases self.patterns.len() - i,
        {
            assert(self.patterns()[i as int] == self.patterns@[i as int]@);
            if Self::matches_pattern(error, self.patterns[i].pattern.as_str()) {
                proof {
                    lemma_applying_found(
                        error@,
                        self.patterns(),
                        i as int,
                        self.patterns.len() as nat,
                    );
                }
                return Some(
                    ValidationSuggestion {
                        title: join2("Fix ", kind_name(error.error_type)),
                        description: self.patterns[i].suggestion_template.clone(),
                        action: self.patterns[i].action.duplicate(),
                        confidence: self.patterns[i].confidence,
                    },
                );
            }
            i = i + 1;
        }
        Self::generate_generic_suggestion(error)
    }
}

/// The name of a kind of error.
pub fn kind_name(kind: ValidationErrorType) -> (name: &'static str)
    ensures
        name@ == kind_text(kind),
{
    match kind {
        ValidationErrorType::SchemaValidation => "SchemaValidation",
        ValidationErrorType::TypeValidation => "TypeValidation",
        ValidationErrorType::IntegrityViolation => "IntegrityViolation",
        ValidationErrorType::ConstraintViolation => "ConstraintViolation",
        ValidationErrorType::FormatError => "FormatError",
        ValidationErrorType::RequiredFieldMissing => "RequiredFieldMissing",
        ValidationErrorType::InvalidValue => "InvalidValue",
        ValidationErrorType::CustomValidation => "CustomValidation",
    }
}

/// Puts `s` in its place by title, unless the list holds its title already.
fn insert_by_title(list: &mut Vec<ValidationSuggestion>, s: ValidationSuggestion)
    requires
        sorted_by_title(suggestion_views(old(list)@)),
    ensures
        sorted_by_title(suggestion_views(final(list)@)),
        has_title(suggestion_views(old(list)@), s@.title) ==> suggestion_views(final(list)@)
            == suggestion_views(old(list)@),
        !has_title(suggestion_views(old(list)@), s@.title) ==> exists|p: int|
            0 <= p <= old(list)@.len() && #[trigger] suggestion_views(old(list)@).insert(p, s@)
                == suggestion_views(final(list)@),
{
    let ghost views = suggestion_views(list@);
    let mut p: usize = 0;
    while p < list.len() && text_precedes(list[p].title.as_str(), s.title.as_str())
        invariant
            p <= list.len(),
            *list == *old(list),
            views == suggestion_views(list@),
            forall|k: int| 0 <= k < p ==> precedes(#[trigger] views[k].title, s@.title),
        decreases list.len() - p,
    {
        assert(views[p as int] == list@[p as int]@);
        p = p + 1;
    }
    if p < list.len() {
        assert(views[p as int] == list@[p as int]@);
    }
    if p < list.len() && same_text(list[p].title.as_str(), s.title.as_str()) {
        assert(views[p as int].title == s@.title);
        return ;
    }
    proof {
        assert forall|k: int| 0 <= k < views.len() implies #[trigger] views[k].title
            != s@.title by {
            if k < p {
                lemma_precedes_irreflexive(s@.title);
            } else {
                lemma_precedes_total(views[p as int].title, s@.title);
                assert(precedes(s@.title, views[p as int].title));
                if k > p {
                    assert(precedes(views[p as int].title, views[k].title));
                    lemma_precedes_transitive(s@.title, views[p as int].title, views[k].title);
                }
                lemma_precedes_irreflexive(s@.title);
            }
        }
        assert(!has_title(views, s@.title));
    }
    list.insert(p, s);
    proof {
        let after = suggestion_views(list@);
        assert(after =~= views.insert(p as int, s@));
        assert forall|i: int, j: int| 0 <= i < j < after.len() implies precedes(
            #[trigger] after[i].title,
            #[trigger] after[j].title,
        ) by {
            if j < p {
                assert(after[i] == views[i] && after[j] == views[j]);
            } else if j == p {
                assert(after[i] == views[i]);
            } else if i == p {
                assert(after[j] == views[j - 1]);
                lemma_precedes_total(views[p as int].title, s@.title);
                if j - 1 > p {
                    assert(precedes(views[p as int].title, views[j - 1].title));
                    lemma_precedes_transitive(s@.title, views[p as int].title, views[j - 1].title);
                }
            } else if i < p {
                assert(after[i] == views[i] && after[j] == views[j - 1]);
            } else {
                assert(after[i] == views[i - 1] && after[j] == views[j - 1]);
            }
        }
    }
}

/// Gathers validation errors and reports on them.
pub struct ValidationErrorReporter {
    errors: Vec<ValidationError>,
    error_patterns: Vec<ErrorPattern>,
    suggestion_engine: SuggestionEngine,
}

fn push_borrowed<'a>(list: &mut Vec<&'a ValidationError>, e: &'a ValidationError)
    ensures
        borrowed_views(final(list)@) == borrowed_views(old(list)@) + seq![e@],
{
    list.push(e);
    assert(borrowed_views(list@) =~= borrowed_views(old(list)@) + seq![e@]);
}

impl ValidationErrorReporter {
    /// The gathered errors, in the order in which they were added.
    pub closed spec fn errors(&self) -> Seq<ValidationErrorView> {
        error_views(self.errors@)
    }

    /// The registered error patterns.
    pub closed spec fn error_patterns(&self) -> Seq<ErrorPatternView> {
        error_pattern_views(self.error_patterns@)
    }

    /// The patterns of the suggestion engine.
    pub closed spec fn suggestion_patterns(&self) -> Seq<SuggestionPatternView> {
        self.suggestion_engine.patterns()
    }

    pub fn new() -> (r: ValidationErrorReporter)
        ensures
            r.errors() == Seq::<ValidationErrorView>::empty(),
            r.error_patterns() == Seq::<ErrorPatternView>::empty(),
            r.suggestion_patterns() == Seq::<SuggestionPatternView>::empty(),
    {
        let r = ValidationErrorReporter {
            errors: Vec::new(),
            error_patterns: Vec::new(),
            suggestion_engine: SuggestionEngine::new(),
        };
        assert(r.errors() =~= Seq::empty());
        assert(r.error_patterns() =~= Seq::empty());
        r
    }

    /// Adds one error.
    pub fn add_error(&mut self, error: ValidationError)
        ensures
            final(self).errors() == old(self).errors().push(error@),
            final(self).error_patterns() == old(self).error_patterns(),
            final(self).suggestion_patterns() == old(self).suggestion_patterns(),
    {
        self.errors.push(error);
        assert(final(self).errors() =~= old(self).errors().push(error@));
    }

    /// Adds the errors, in their order.
    pub fn add_errors(&mut self, errors: Vec<ValidationError>)
        ensures
            final(self).errors() == old(self).errors() + error_views(errors@),
            final(self).error_patterns() == old(self).error_patterns(),
            final(self).suggestion_patterns() == old(self).suggestion_patterns(),
    {
        let mut errors = errors;
        let ghost added = error_views(errors@);
        self.errors.append(&mut errors);
        assert(final(self).errors() =~= old(self).errors() + added);
    }

    /// Registers a pattern for the suggestions, in the place of an earlier
    /// pattern of the same text.
    pub fn add_suggestion_pattern(&mut self, pattern: SuggestionPattern)
        ensures
            final(self).suggestion_patterns() == with_pattern(
                old(self).suggestion_patterns(),
                pattern@,
                0,
            ),
            final(self).errors() == old(self).errors(),
            final(self).error_patterns() == old(self).error_patterns(),
    {
        self.suggestion_engine.add_pattern(pattern);
    }

    /// The gathered errors.
    pub fn get_errors(&self) -> (r: &Vec<ValidationError>)
        ensures
            error_views(r@) == self.errors(),
    {
        &self.errors
    }

    /// The gathered errors of the given kind.
    pub fn get_errors_by_type(&self, error_type: &ValidationErrorType) -> (hits: Vec<
        &ValidationError,
    >)
        ensures
            borrowed_views(hits@) == selected(
                self.errors(),
                |e: ValidationErrorView| e.error_type == *error_type,
                self.errors().len(),
            ),
    {
        let ghost keep = |e: ValidationErrorView| e.error_type == *error_type;
        let mut hits: Vec<&ValidationError> = Vec::new();
        let mut i: usize = 0;
        assert(borrowed_views(hits@) =~= selected(self.errors(), keep, 0));
        while i < self.errors.len()
            invariant
                i <= self.errors.len(),
                keep == |e: ValidationErrorView| e.error_type == *error_type,
                borrowed_views(hits@) == selected(self.errors(), keep, i as nat),
            decreases self.errors.len() - i,
        {
            assert(self.errors()[i as int] == self.errors@[i as int]@);
            if self.errors[i].error_type == *error_type {
                push_borrowed(&mut hits, &self.errors[i]);
            }
            i = i + 1;
            assert(borrowed_views(hits@) =~= selected(self.errors(), keep, i as nat));
        }
        hits
    }

    /// The gathered errors of the given severity.
    pub fn get_errors_by_severity(&self, severity: &ErrorSeverity) -> (hits: Vec<&ValidationError>)
        ensures
            borrowed_views(hits@) == selected(
                self.errors(),
                |e: ValidationErrorView| e.severity == *severity,
                self.errors().len(),
            ),
    {
        let ghost keep = |e: ValidationErrorView| e.severity == *severity;
        let mut hits: Vec<&ValidationError> = Vec::new();
        let mut i: usize = 0;
        assert(borrowed_views(hits@) =~= selected(self.errors(), keep, 0));
        while i < self.errors.len()
            invariant
                i <= self.errors.len(),
                keep == |e: ValidationErrorView| e.severity == *severity,
                borrowed_views(hits@) == selected(self.errors(), keep, i as nat),
            decreases self.errors.len() - i,
        {
            assert(self.errors()[i as int] == self.errors@[i as int]@);
            if self.errors[i].severity == *severity {
                push_borrowed(&mut hits, &self.errors[i]);
            }
            i = i + 1;
            assert(borrowed_views(hits@) =~= selected(self.errors(), keep, i as nat));
        }
        hits
    }

    /// The gathered errors whose path holds `path`.
    pub fn get_errors_by_path(&self, path: &str) -> (hits: Vec<&ValidationError>)
        ensures
            borrowed_views(hits@) == selected(
                self.errors(),
                |e: ValidationErrorView| has_subtext(e.path, path@),
                self.errors().len(),
            ),
    {
        let ghost keep = |e: ValidationErrorView| has_subtext(e.path, path@);
        let mut hits: Vec<&ValidationError> = Vec::new();
        let mut i: usize = 0;
        assert(borrowed_views(hits@) =~= selected(self.errors(), keep, 0));
        while i < self.errors.len()
            invariant
                i <= self.errors.len(),
                keep == |e: ValidationErrorView| has_subtext(e.path, path@),
                borrowed_views(hits@) == selected(self.errors(), keep, i as nat),
            decreases self.errors.len() - i,
        {
            assert(self.errors()[i as int] == self.errors@[i as int]@);
            if contains_text(self.errors[i].path.as_str(), path) {
                push_borrowed(&mut hits, &self.errors[i]);
            }
            i = i + 1;
            assert(borrowed_views(hits@) =~= selected(self.errors(), keep, i as nat));
        }
        hits
    }

    fn count_kind(&self, kind: ValidationErrorType) -> (n: usize)
        ensures
            n == count_of_kind(self.errors(), kind, self.errors().len()),
    {
        let mut n: usize = 0;
        let mut i: usize = 0;
        while i < self.errors.len()
            invariant
                i <= self.errors.len(),
                n <= i,
                n == count_of_kind(self.errors(), kind, i as nat),
            decreases self.errors.len() - i,
        {
            assert(self.errors()[i as int] == self.errors@[i as int]@);
            if self.errors[i].error_type == kind {
                n = n + 1;
            }
            i = i + 1;
        }
        n
    }

    fn count_severity(&self, severity: ErrorSeverity) -> (n: usize)
        ensures
            n == count_of_severity(self.errors(), severity, self.errors().len()),
    {
        let mut n: usize = 0;
        let mut i: usize = 0;
        while i < self.errors.len()
            invariant
                i <= self.errors.len(),
                n <= i,
                n == count_of_severity(self.errors(), severity, i as nat),
            decreases self.errors.len() - i,
        {
            assert(self.errors()[i as int] == self.errors@[i as int]@);
            if self.errors[i].severity == severity {
                n = n + 1;
            }
            i = i + 1;
        }
        n
    }

    /// How many errors of each kind were gathered.
    pub fn get_error_type_counts(&self) -> (c: KindCounts)
        ensures
            is_kind_counts(c, self.errors()),
    {
        KindCounts {
            schema_validation: self.count_kind(ValidationErrorType::SchemaValidation),
            type_validation: self.count_kind(ValidationErrorType::TypeValidation),
            integrity_violation: self.count_kind(ValidationErrorType::IntegrityViolation),
            constraint_violation: self.count_kind(ValidationErrorType::ConstraintViolation),
            format_error: self.count_kind(ValidationErrorType::FormatError),
            required_field_missing: self.count_kind(ValidationErrorType::RequiredFieldMissing),
            invalid_value: self.count_kind(ValidationErrorType::InvalidValue),
            custom_validation: self.count_kind(ValidationErrorType::CustomValidation),
        }
    }

    /// How many errors of each severity were gathered.
    pub fn get_severity_distribution(&self) -> (c: SeverityCounts)
        ensures
            is_severity_counts(c, self.errors()),
    {
        SeverityCounts {
            info: self.count_severity(ErrorSeverity::Info),
            warning: self.count_severity(ErrorSeverity::Warning),
            error: self.count_severity(ErrorSeverity::Error),
            critical: self.count_severity(ErrorSeverity::Critical),
        }
    }

    /// Counts over the gathered errors.
    pub fn generate_summary(&self) -> (summary: ErrorSummary)
        ensures
            summary.total_errors == self.errors().len(),
            is_severity_counts(summary.severity_distribution, self.errors()),
            is_kind_counts(summary.error_types, self.errors()),
            summary.critical_errors == summary.severity_distribution.critical,
            summary.high_errors == summary.severity_distribution.error,
            summary.warnings == summary.severity_distribution.warning,
            summary.info == summary.severity_distribution.info,
            summary.has_errors == (self.errors().len() > 0),
            summary.has_critical_errors == (summary.critical_errors > 0),
    {
        let distribution = self.get_severity_distribution();
        let total = self.errors.len();
        ErrorSummary {
            total_errors: total,
            critical_errors: distribution.critical,
            high_errors: distribution.error,
            warnings: distribution.warning,
            info: distribution.info,
            error_types: self.get_error_type_counts(),
            severity_distribution: distribution,
            has_errors: total > 0,
            has_critical_errors: distribution.critical > 0,
        }
    }

    /// One suggestion for each title that the suggestions for the gathered
    /// errors bear: in the order of the titles, and of each title the
    /// suggestion for the earliest error.
    pub fn generate_suggestions(&self) -> (out: Vec<ValidationSuggestion>)
        ensures
            is_digest(
                suggestion_views(out@),
                suggestions_for(self.errors(), self.suggestion_patterns()),
                self.errors().len() as int,
            ),
    {
        let ghost all = suggestions_for(self.errors(), self.suggestion_patterns());
        let mut out: Vec<ValidationSuggestion> = Vec::new();
        let mut i: usize = 0;
        while i < self.errors.len()
            invariant
                i <= self.errors.len(),
                all == suggestions_for(self.errors(), self.suggestion_patterns()),
                all.len() == self.errors.len(),
                is_digest(suggestion_views(out@), all, i as int),
            decreases self.errors.len() - i,
        {
            assert(self.errors()[i as int] == self.errors@[i as int]@);
            let ghost before = suggestion_views(out@);
            if let Some(s) = self.suggestion_engine.generate_suggestion(&self.errors[i]) {
                assert(s@ == all[i as int]);
                insert_by_title(&mut out, s);
                proof {
                    let after = suggestion_views(out@);
                    lemma_digest_grows(before, after, all, i as int);
                }
            }
            i = i + 1;
        }
        out
    }

    /// Forgets every error.
    pub fn clear_errors(&mut self)
        ensures
            final(self).errors() == Seq::<ValidationErrorView>::empty(),
            final(self).error_patterns() == old(self).error_patterns(),
            final(self).suggestion_patterns() == old(self).suggestion_patterns(),
    {
        self.errors.clear();
        assert(final(self).errors() =~= Seq::empty());
    }

    /// Registers an error pattern, in the place of an earlier pattern of the same text.
    pub fn add_error_pattern(&mut self, pattern: ErrorPattern)
        ensures
            final(self).error_patterns() == with_error_pattern(
                old(self).error_patterns(),
                pattern@,
                0,
            ),
            final(self).errors() == old(self).errors(),
            final(self).suggestion_patterns() == old(self).suggestion_patterns(),
    {
        let mut i: usize = 0;
        while i < self.error_patterns.len()
            invariant
                i <= self.error_patterns.len(),
                *self == *old(self),
                with_error_pattern(self.error_patterns(), pattern@, 0) == with_error_pattern(
                    self.error_patterns(),
                    pattern@,
                    i as nat,
                ),
            decreases self.error_patterns.len() - i,
        {
            assert(self.error_patterns()[i as int] == self.error_patterns@[i as int]@);
            if same_text(self.error_patterns[i].pattern.as_str(), pattern.pattern.as_str()) {
                self.error_patterns.set(i, pattern);
                assert(final(self).error_patterns() =~= old(self).error_patterns().update(
                    i as int,
                    pattern@,
                ));
                return ;
            }
            i = i + 1;
        }
        self.error_patterns.push(pattern);
        assert(final(self).error_patterns() =~= old(self).error_patterns().push(pattern@));
    }

    /// The error that a pattern makes when it occurs in the document and the
    /// document is a text.
    pub fn match_error_pattern(data: &Value, pattern: &ErrorPattern, path: &str, now: i64) -> (r:
        Option<ValidationError>)
        ensures
            match r {
                Some(e) => data@ matches Json::String(text) && has_subtext(text, pattern@.pattern)
                    && e@ == detected_error(pattern@, data@, path@, now),
                None => !(data@ matches Json::String(text) && has_subtext(text, pattern@.pattern)),
            },
    {
        if let Value::String(text) = data {
            if contains_text(text.as_str(), pattern.pattern.as_str()) {
                return Some(
                    ValidationError {
                        error_type: pattern.error_type,
                        path: owned(path),
                        message: join3("Pattern '", pattern.pattern.as_str(), "' detected in data"),
                        severity: pattern.severity,
                        suggestion: Some(
                            ValidationSuggestion {
                                title: owned("Fix Pattern Match"),
                                description: pattern.suggestion_template.clone(),
                                action: SuggestionAction::Fix,
                                confidence: 80,
                            },
                        ),
                        context: Some(data.duplicate()),
                        timestamp: now,
                    },
                );
            }
        }
        None
    }

    /// Looks for the registered patterns in the document itself, not in
    /// its members or items, and adds an error at `path`, dated `now`, for
    /// each pattern that occurs.
    pub fn detect_errors(&mut self, data: &Value, path: &str, now: i64)
        ensures
            final(self).errors() == old(self).errors() + detected_errors(
                old(self).error_patterns(),
                data@,
                path@,
                now,
                old(self).error_patterns().len(),
            ),
            final(self).error_patterns() == old(self).error_patterns(),
            final(self).suggestion_patterns() == old(self).suggestion_patterns(),
    {
        let ghost patterns = self.error_patterns();
        let ghost before = self.errors();
        let mut i: usize = 0;
        assert(self.errors() =~= before + detected_errors(patterns, data@, path@, now, 0));
        while i < self.error_patterns.len()
            invariant
                i <= self.error_patterns.len(),
                patterns == self.error_patterns(),
                self.error_patterns() == old(self).error_patterns(),
                self.suggestion_patterns() == old(self).suggestion_patterns(),
                self.errors() == before + detected_errors(patterns, data@, path@, now, i as nat),
            decreases self.error_patterns.len() - i,
        {
            assert(patterns[i as int] == self.error_patterns@[i as int]@);
            let ghost so_far = self.errors();
            if let Some(e) = Self::match_error_pattern(data, &self.error_patterns[i], path, now) {
                self.errors.push(e);
                assert(self.errors() =~= so_far.push(e@));
            }
            i = i + 1;
            assert(self.errors() =~= before + detected_errors(
                patterns,
                data@,
                path@,
                now,
                i as nat,
            ));
        }
    }
}

/// Whether the counts are those of the errors, kind by kind.
pub open spec fn is_kind_counts(c: KindCounts, errors: Seq<ValidationErrorView>) -> bool {
    &&& c.schema_validation == count_of_kind(
        errors,
        ValidationErrorType::SchemaValidation,
        errors.len(),
    )
    &&& c.type_validation == count_of_kind(errors, ValidationErrorType::TypeValidation, errors.len())
    &&& c.integrity_violation == count_of_kind(
        errors,
        ValidationErrorType::IntegrityViolation,
        errors.len(),
    )
    &&& c.constraint_violation == count_of_kind(
        errors,
        ValidationErrorType::ConstraintViolation,
        errors.len(),
    )
    &&& c.format_error == count_of_kind(errors, ValidationErrorType::FormatError, errors.len())
    &&& c.required_field_missing == count_of_kind(
        errors,
        ValidationErrorType::RequiredFieldMissing,
        errors.len(),
    )
    &&& c.invalid_value == count_of_kind(errors, ValidationErrorType::InvalidValue, errors.len())
    &&& c.custom_validation == count_of_kind(
        errors,
        ValidationErrorType::CustomValidation,
        errors.len(),
    )
}

/// Whether the counts are those of the errors, severity by severity.
pub open spec fn is_severity_counts(c: SeverityCounts, errors: Seq<ValidationErrorView>) -> bool {
    &&& c.info == count_of_severity(errors, ErrorSeverity::Info, errors.len())
    &&& c.warning == count_of_severity(errors, ErrorSeverity::Warning, errors.len())
    &&& c.error == count_of_severity(errors, ErrorSeverity::Error, errors.len())
    &&& c.critical == count_of_severity(errors, ErrorSeverity::Critical, errors.len())
}

/// Putting suggestion `n` in its place by title, or leaving it out when its
/// title is there already, turns the digest of the first `n` suggestions
/// into that of the first `n + 1`.
proof fn lemma_digest_grows(before: Seq<SuggestionView>, after: Seq<SuggestionView>, all: Seq<SuggestionView>, n: int)
    requires
        0 <= n < all.len(),
        is_digest(before, all, n),
        sorted_by_title(after),
        has_title(before, all[n].title) ==> after == before,
        !has_title(before, all[n].title) ==> exists|p: int|
            0 <= p <= before.len() && #[trigger] before.insert(p, all[n]) == after,
    ensures
        is_digest(after, all, n + 1),
{
    if has_title(before, all[n].title) {
        assert forall|k: int| 0 <= k < after.len() implies is_first_among(
            #[trigger] after[k],
            all,
            n + 1,
        ) by {
            assert(is_first_among(before[k], all, n));
            let i = choose|i: int| 0 <= i < n && #[trigger] all[i] == before[k] && is_first_of_title(all, i);
            assert(0 <= i < n + 1 && all[i] == after[k] && is_first_of_title(all, i));
        }
        assert forall|i: int| 0 <= i < n + 1 implies has_title(after, #[trigger] all[i].title) by {
            if i < n {
                assert(has_title(before, all[i].title));
            }
        }
    } else {
        let p = choose|p: int| 0 <= p <= before.len() && #[trigger] before.insert(p, all[n]) == after;
        assert(after == before.insert(p, all[n]));
        assert forall|j: int| 0 <= j < n implies #[trigger] all[j].title != all[n].title by {
            assert(has_title(before, all[j].title));
            let k = choose|k: int| 0 <= k < before.len() && #[trigger] before[k].title == all[j].title;
            if all[j].title == all[n].title {
                assert(before[k].title == all[n].title);
                assert(has_title(before, all[n].title));
            }
        }
        assert(is_first_of_title(all, n));
        assert forall|k: int| 0 <= k < after.len() implies is_first_among(
            #[trigger] after[k],
            all,
            n + 1,
        ) by {
            if k == p {
                assert(after[k] == all[n]);
                assert(0 <= n < n + 1 && all[n] == after[k] && is_first_of_title(all, n));
            } else {
                let k0 = if k < p {
                    k
                } else {
                    k - 1
                };
                assert(after[k] == before[k0]);
                assert(is_first_among(before[k0], all, n));
                let i = choose|i: int| 0 <= i < n && #[trigger] all[i] == before[k0] && is_first_of_title(all, i);
                assert(0 <= i < n + 1 && all[i] == after[k] && is_first_of_title(all, i));
            }
        }
        assert forall|i: int| 0 <= i < n + 1 implies has_title(after, #[trigger] all[i].title) by {
            if i < n {
                assert(has_title(before, all[i].title));
                let k = choose|k: int| 0 <= k < before.len() && #[trigger] before[k].title == all[i].title;
                let k1 = if k < p {
                    k
                } else {
                    k + 1
                };
                assert(after[k1] == before[k]);
                assert(0 <= k1 < after.len() && after[k1].title == all[i].title);
            } else {
                assert(after[p] == all[n]);
                assert(0 <= p < after.len() && after[p].title == all[n].title);
            }
        }
    }
}

} // verus!
