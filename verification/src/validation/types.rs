//! Named types with constraints, and conversion between kinds of values.

use vstd::prelude::*;
use crate::error::{Error, ErrorView};
use crate::number::{
    names_no_number, normalized, parse_decimal, parse_integer, Decimal, Number,
};
use crate::pattern::{match_outcome, match_pattern};
use crate::text::{
    char_count, decimal_string, decimal_text, eq_ignoring_case, join2, join3, join4, join5, owned,
    same_ignoring_case, same_text,
};
use crate::value::{json_same, json_text, lemma_view_items, view_items, Json, Value};

verus! {

/// Kinds of type validation errors.
#[derive(Debug, Clone, Copy, PartialEq, Eq, Structural)]
pub enum TypeErrorType {
    TypeMismatch,
    ConstraintViolation,
    ConversionError,
    RangeViolation,
    FormatError,
    RequiredFieldMissing,
    InvalidValue,
}

/// Kinds of constraints on a value.
#[derive(Debug, Clone, Copy, PartialEq, Eq, Structural)]
pub enum ConstraintType {
    Required,
    MinLength,
    MaxLength,
    MinValue,
    MaxValue,
    Pattern,
    Enum,
    Custom,
}

/// How much a failed constraint weighs: a warning leaves the value valid.
#[derive(Debug, Clone, Copy, PartialEq, Eq, Structural)]
pub enum ConstraintSeverity {
    Warning,
    Error,
    Critical,
}

/// The content of a type validation error.
pub struct TypeErrorView {
    pub path: Seq<char>,
    pub message: Seq<char>,
    pub error_type: TypeErrorType,
    pub suggestion: Option<Seq<char>>,
}

/// A type validation error.
#[derive(Debug, Clone)]
pub struct TypeError {
    pub path: String,
    pub message: String,
    pub error_type: TypeErrorType,
    pub suggestion: Option<String>,
}

impl View for TypeError {
    type V = TypeErrorView;

    open spec fn view(&self) -> TypeErrorView {
        TypeErrorView {
            path: self.path@,
            message: self.message@,
            error_type: self.error_type,
            suggestion: match self.suggestion {
                Some(s) => Some(s@),
                None => None,
            },
        }
    }
}

/// The content of each error, in order.
pub open spec fn error_views(errors: Seq<TypeError>) -> Seq<TypeErrorView> {
    Seq::new(errors.len(), |i: int| errors[i]@)
}

/// The content of a constraint.
pub struct ConstraintView {
    pub name: Seq<char>,
    pub constraint_type: ConstraintType,
    pub value: Option<Json>,
    pub severity: ConstraintSeverity,
}

/// A constraint on a value: its kind, the value the kind compares with, and its weight.
#[derive(Debug, Clone)]
pub struct TypeConstraint {
    pub name: String,
    pub constraint_type: ConstraintType,
    pub value: Option<Value>,
    pub severity: ConstraintSeverity,
}

impl View for TypeConstraint {
    type V = ConstraintView;

    open spec fn view(&self) -> ConstraintView {
        ConstraintView {
            name: self.name@,
            constraint_type: self.constraint_type,
            value: match self.value {
                Some(v) => Some(v@),
                None => None,
            },
            severity: self.severity,
        }
    }
}

/// The content of each constraint, in order.
pub open spec fn constraint_views(constraints: Seq<TypeConstraint>) -> Seq<ConstraintView> {
    Seq::new(constraints.len(), |i: int| constraints[i]@)
}

/// The content of a type definition.
pub struct TypeDefinitionView {
    pub name: Seq<char>,
    pub base_type: Seq<char>,
    pub constraints: Seq<ConstraintView>,
    pub description: Option<Seq<char>>,
}

/// A named type: a base type and the constraints its values must meet.
#[derive(Debug, Clone)]
pub struct TypeDefinition {
    pub name: String,
    pub base_type: String,
    pub constraints: Vec<TypeConstraint>,
    pub description: Option<String>,
}

impl View for TypeDefinition {
    type V = TypeDefinitionView;

    open spec fn view(&self) -> TypeDefinitionView {
        TypeDefinitionView {
            name: self.name@,
            base_type: self.base_type@,
            constraints: constraint_views(self.constraints@),
            description: match self.description {
                Some(s) => Some(s@),
                None => None,
            },
        }
    }
}

/// The content of each definition, in order.
pub open spec fn definition_views(definitions: Seq<TypeDefinition>) -> Seq<TypeDefinitionView> {
    Seq::new(definitions.len(), |i: int| definitions[i]@)
}

/// The outcome of validating one value against a type.
#[derive(Debug, Clone)]
pub struct TypeValidationResult {
    pub is_valid: bool,
    pub actual_type: String,
    pub expected_type: String,
    pub errors: Vec<TypeError>,
    pub warnings: Vec<TypeError>,
    /// Time spent, for the caller to fill in; the validator itself reads no clock.
    pub validation_time_ms: u64,
}

/// Whether a value of kind `actual` may stand where `expected` is asked for:
/// the same name, or `number` and `integer` for each other.
pub open spec fn compatible(actual: Seq<char>, expected: Seq<char>) -> bool {
    ||| actual == expected
    ||| actual == "number"@ && expected == "integer"@
    ||| actual == "integer"@ && expected == "number"@
}

/// The names a base type can bear.
pub open spec fn is_base_type(name: Seq<char>) -> bool {
    ||| name == "string"@
    ||| name == "number"@
    ||| name == "integer"@
    ||| name == "boolean"@
    ||| name == "array"@
    ||| name == "object"@
    ||| name == "null"@
}

pub open spec fn type_mismatch(expected: Seq<char>, actual: Seq<char>) -> TypeErrorView {
    TypeErrorView {
        path: "root"@,
        message: "Type mismatch: expected '"@ + expected + "', got '"@ + actual + "'"@,
        error_type: TypeErrorType::TypeMismatch,
        suggestion: Some("Convert the value to type '"@ + expected + "'"@),
    }
}

pub open spec fn base_mismatch(path: Seq<char>, expected: Seq<char>, actual: Seq<char>) -> TypeErrorView {
    TypeErrorView {
        path,
        message: "Base type mismatch: expected '"@ + expected + "', got '"@ + actual + "'"@,
        error_type: TypeErrorType::TypeMismatch,
        suggestion: Some("Convert the value to base type '"@ + expected + "'"@),
    }
}

pub open spec fn required_error(name: Seq<char>) -> TypeErrorView {
    TypeErrorView {
        path: "root"@,
        message: "Required field '"@ + name + "' is missing"@,
        error_type: TypeErrorType::RequiredFieldMissing,
        suggestion: Some("Provide a value for this required field"@),
    }
}

pub open spec fn too_short(len: nat, bound: Decimal) -> TypeErrorView {
    TypeErrorView {
        path: "root"@,
        message: "String length "@ + decimal_text(len) + " is less than minimum "@ + bound.text(),
        error_type: TypeErrorType::ConstraintViolation,
        suggestion: Some("Increase the string length"@),
    }
}

pub open spec fn too_long(len: nat, bound: Decimal) -> TypeErrorView {
    TypeErrorView {
        path: "root"@,
        message: "String length "@ + decimal_text(len) + " exceeds maximum "@ + bound.text(),
        error_type: TypeErrorType::ConstraintViolation,
        suggestion: Some("Decrease the string length"@),
    }
}

pub open spec fn below_minimum(value: Decimal, bound: Decimal) -> TypeErrorView {
    TypeErrorView {
        path: "root"@,
        message: "Value "@ + value.text() + " is less than minimum "@ + bound.text(),
        error_type: TypeErrorType::RangeViolation,
        suggestion: Some("Increase the value"@),
    }
}

pub open spec fn above_maximum(value: Decimal, bound: Decimal) -> TypeErrorView {
    TypeErrorView {
        path: "root"@,
        message: "Value "@ + value.text() + " exceeds maximum "@ + bound.text(),
        error_type: TypeErrorType::RangeViolation,
        suggestion: Some("Decrease the value"@),
    }
}

pub open spec fn pattern_mismatch(text: Seq<char>, pattern: Seq<char>) -> TypeErrorView {
    TypeErrorView {
        path: "root"@,
        message: "Value '"@ + text + "' does not match pattern '"@ + pattern + "'"@,
        error_type: TypeErrorType::FormatError,
        suggestion: Some("Update the value to match pattern '"@ + pattern + "'"@),
    }
}

pub open spec fn not_allowed(value: Json) -> TypeErrorView {
    TypeErrorView {
        path: "root"@,
        message: "Value '"@ + json_text(value) + "' is not in allowed values"@,
        error_type: TypeErrorType::InvalidValue,
        suggestion: Some("Use one of the allowed values"@),
    }
}

/// Whether one of the first `n` of `options` is the same value as `value`.
pub open spec fn among(options: Seq<Json>, value: Json, n: nat) -> bool
    decreases n,
{
    if n == 0 || n > options.len() {
        false
    } else {
        among(options, value, (n - 1) as nat) || json_same(options[n - 1], value)
    }
}

/// `Required`: null is refused.
pub open spec fn required_finding(value: Json, c: ConstraintView) -> Option<TypeErrorView> {
    if value is Null {
        Some(required_error(c.name))
    } else {
        None
    }
}

/// `MinLength`: a text has at least as many characters as the number says;
/// a number that is no whole number, or a negative one, bounds nothing.
pub open spec fn min_length_finding(value: Json, c: ConstraintView) -> Option<TypeErrorView> {
    match (value, c.value) {
        (Json::String(s), Some(Json::Number(bound))) => if bound.above_count(s.len()) {
            Some(too_short(s.len(), bound))
        } else {
            None
        },
        _ => None,
    }
}

/// `MaxLength`: a text has at most as many characters as the number says;
/// a number that is no whole number, or a negative one, bounds nothing.
pub open spec fn max_length_finding(value: Json, c: ConstraintView) -> Option<TypeErrorView> {
    match (value, c.value) {
        (Json::String(s), Some(Json::Number(bound))) => if bound.under_count(s.len()) {
            Some(too_long(s.len(), bound))
        } else {
            None
        },
        _ => None,
    }
}

/// `MinValue`: a number is not below the bound.
pub open spec fn min_value_finding(value: Json, c: ConstraintView) -> Option<TypeErrorView> {
    match (value, c.value) {
        (Json::Number(x), Some(Json::Number(bound))) => if x.lt(bound) {
            Some(below_minimum(x, bound))
        } else {
            None
        },
        _ => None,
    }
}

/// `MaxValue`: a number is not above the bound.
pub open spec fn max_value_finding(value: Json, c: ConstraintView) -> Option<TypeErrorView> {
    match (value, c.value) {
        (Json::Number(x), Some(Json::Number(bound))) => if bound.lt(x) {
            Some(above_maximum(x, bound))
        } else {
            None
        },
        _ => None,
    }
}

/// `Pattern`: a text matches the pattern; a pattern that is no regular
/// expression is passed over.
pub open spec fn pattern_finding(value: Json, c: ConstraintView) -> Option<TypeErrorView> {
    match (value, c.value) {
        (Json::String(s), Some(Json::String(pattern))) => if match_outcome(pattern, s) == Some(
            false,
        ) {
            Some(pattern_mismatch(s, pattern))
        } else {
            None
        },
        _ => None,
    }
}

/// `Enum`: the value is the same as one of the values of the array.
pub open spec fn enum_finding(value: Json, c: ConstraintView) -> Option<TypeErrorView> {
    match c.value {
        Some(Json::Array(options)) => if among(options, value, options.len()) {
            None
        } else {
            Some(not_allowed(value))
        },
        _ => None,
    }
}

/// The error that `value` draws from one constraint, if it fails it.
/// `Custom` never fails.
pub open spec fn constraint_error(value: Json, c: ConstraintView) -> Option<TypeErrorView> {
    match c.constraint_type {
        ConstraintType::Required => required_finding(value, c),
        ConstraintType::MinLength => min_length_finding(value, c),
        ConstraintType::MaxLength => max_length_finding(value, c),
        ConstraintType::MinValue => min_value_finding(value, c),
        ConstraintType::MaxValue => max_value_finding(value, c),
        ConstraintType::Pattern => pattern_finding(value, c),
        ConstraintType::Enum => enum_finding(value, c),
        ConstraintType::Custom => None,
    }
}

/// The errors (`as_warnings` false) or the warnings (`as_warnings` true) that
/// `value` draws from the first `n` constraints: a failed constraint of
/// severity `Warning` gives a warning, any other an error.
pub open spec fn routed(value: Json, constraints: Seq<ConstraintView>, as_warnings: bool, n: nat) -> Seq<
    TypeErrorView,
>
    decreases n,
{
    if n == 0 || n > constraints.len() {
        Seq::empty()
    } else {
        let c = constraints[n - 1];
        routed(value, constraints, as_warnings, (n - 1) as nat) + (match constraint_error(value, c) {
            Some(e) => if (c.severity == ConstraintSeverity::Warning) == as_warnings {
                seq![e]
            } else {
                Seq::empty()
            },
            None => Seq::empty(),
        })
    }
}

/// The first of the first `n` definitions that bears `name`.
pub open spec fn first_definition(definitions: Seq<TypeDefinitionView>, name: Seq<char>, n: nat) -> Option<
    int,
>
    decreases n,
{
    if n == 0 || n > definitions.len() {
        None
    } else {
        match first_definition(definitions, name, (n - 1) as nat) {
            Some(i) => Some(i),
            None => if definitions[n - 1].name == name {
                Some(n - 1)
            } else {
                None
            },
        }
    }
}

/// The position of the definition registered under `name`.
pub open spec fn definition_index(definitions: Seq<TypeDefinitionView>, name: Seq<char>) -> Option<int> {
    first_definition(definitions, name, definitions.len())
}

/// What checking against a type definition adds: a mismatch with the base
/// type, then what the definition's constraints give.
pub open spec fn definition_findings(
    value: Json,
    definition: TypeDefinitionView,
    path: Seq<char>,
    as_warnings: bool,
) -> Seq<TypeErrorView> {
    (if as_warnings || compatible(value.kind_name(), definition.base_type) {
        Seq::empty()
    } else {
        seq![base_mismatch(path, definition.base_type, value.kind_name())]
    }) + routed(value, definition.constraints, as_warnings, definition.constraints.len())
}

/// The errors (or, with `as_warnings`, the warnings) of `value` against the
/// type `type_label`: the kind of the value against the name, then the
/// registered definition of that name if there is one, then the constraints
/// that hold for every value.
pub open spec fn type_findings(
    value: Json,
    type_label: Seq<char>,
    definitions: Seq<TypeDefinitionView>,
    globals: Seq<ConstraintView>,
    as_warnings: bool,
) -> Seq<TypeErrorView> {
    (if as_warnings || compatible(value.kind_name(), type_label) {
        Seq::empty()
    } else {
        seq![type_mismatch(type_label, value.kind_name())]
    }) + (match definition_index(definitions, type_label) {
        Some(i) => definition_findings(value, definitions[i], Seq::empty(), as_warnings),
        None => Seq::empty(),
    }) + routed(value, globals, as_warnings, globals.len())
}

/// Whether a text says yes: `true`, `1`, `yes` or `on`, in any case.
pub open spec fn says_yes(s: Seq<char>) -> bool {
    ||| same_ignoring_case(s, "true"@)
    ||| same_ignoring_case(s, "1"@)
    ||| same_ignoring_case(s, "yes"@)
    ||| same_ignoring_case(s, "on"@)
}

/// Whether a text says no: `false`, `0`, `no` or `off`, in any case.
pub open spec fn says_no(s: Seq<char>) -> bool {
    ||| same_ignoring_case(s, "false"@)
    ||| same_ignoring_case(s, "0"@)
    ||| same_ignoring_case(s, "no"@)
    ||| same_ignoring_case(s, "off"@)
}

/// The integer `v` as a number.
pub open spec fn integer_decimal(v: int) -> Decimal {
    normalized(v < 0, Decimal::of_int(v).coefficient, 0)
}

/// What converting `value` to the kind `target` gives: the converted value,
/// or the message of the failure. A text becomes the number that it writes
/// as a decimal literal, and zero where it names infinity or no number.
pub open spec fn converted(value: Json, target: Seq<char>) -> Result<Json, Seq<char>> {
    if target == "string"@ {
        Ok(Json::String(json_text(value)))
    } else if target == "number"@ {
        match value {
            Json::Number(n) => Ok(Json::Number(n)),
            Json::String(s) => match parse_decimal(s) {
                Some(n) => Ok(Json::Number(n)),
                None => if names_no_number(s) {
                    Ok(Json::Number(Decimal::of_nat(0)))
                } else {
                    Err("Cannot convert to number"@)
                },
            },
            _ => Err("Cannot convert to number"@),
        }
    } else if target == "integer"@ {
        match value {
            Json::Number(n) => Ok(Json::Number(integer_decimal(n.clamped()))),
            Json::String(s) => match parse_integer(s) {
                Some(v) => Ok(Json::Number(integer_decimal(v))),
                None => Err("Cannot convert to integer"@),
            },
            _ => Err("Cannot convert to integer"@),
        }
    } else if target == "boolean"@ {
        match value {
            Json::Boolean(b) => Ok(Json::Boolean(b)),
            Json::String(s) => if says_yes(s) {
                Ok(Json::Boolean(true))
            } else if says_no(s) {
                Ok(Json::Boolean(false))
            } else {
                Err("Cannot convert to boolean"@)
            },
            _ => Err("Cannot convert to boolean"@),
        }
    } else if target == "array"@ {
        match value {
            Json::Array(items) => Ok(Json::Array(items)),
            _ => Ok(Json::Array(seq![value])),
        }
    } else if target == "object"@ {
        match value {
            Json::Object(members) => Ok(Json::Object(members)),
            _ => Err("Cannot convert to object"@),
        }
    } else if target == "null"@ {
        Ok(Json::Null)
    } else {
        Err("Unknown target type: "@ + target)
    }
}

fn push_finding(list: &mut Vec<TypeError>, e: TypeError)
    ensures
        error_views(final(list)@) == error_views(old(list)@) + seq![e@],
{
    list.push(e);
    assert(error_views(list@) =~= error_views(old(list)@) + seq![e@]);
}

fn make_error(path: &str, message: String, error_type: TypeErrorType, suggestion: String) -> (e:
    TypeError)
    ensures
        e@ == (TypeErrorView {
            path: path@,
            message: message@,
            error_type,
            suggestion: Some(suggestion@),
        }),
{
    TypeError { path: owned(path), message, error_type, suggestion: Some(suggestion) }
}

/// Validates values against named types and converts between kinds.
pub struct TypeValidator {
    type_registry: Vec<TypeDefinition>,
    constraints: Vec<TypeConstraint>,
}

/// The message with which a type definition is refused, if it is.
pub open spec fn definition_complaint(definition: TypeDefinitionView) -> Option<Seq<char>> {
    if definition.name.len() == 0 {
        Some("Type name cannot be empty"@)
    } else if definition.base_type.len() == 0 {
        Some("Base type cannot be empty"@)
    } else if !is_base_type(definition.base_type) {
        Some("Invalid base type: "@ + definition.base_type)
    } else {
        None
    }
}

/// The definitions with `definition` under its name: in the place of an
/// earlier definition of that name, or else at the end.
pub open spec fn with_definition(
    definitions: Seq<TypeDefinitionView>,
    definition: TypeDefinitionView,
) -> Seq<TypeDefinitionView> {
    match definition_index(definitions, definition.name) {
        Some(i) => definitions.update(i, definition),
        None => definitions.push(definition),
    }
}

proof fn lemma_definition_found(definitions: Seq<TypeDefinitionView>, name: Seq<char>, i: int, n: nat)
    requires
        0 <= i < n <= definitions.len(),
        definitions[i].name == name,
        first_definition(definitions, name, i as nat) is None,
    ensures
        first_definition(definitions, name, n) == Some(i),
    decreases n,
{
    if n > i + 1 {
        lemma_definition_found(definitions, name, i, (n - 1) as nat);
    }
}

impl TypeValidator {
    /// The registered definitions, in the order in which their names were first registered.
    pub closed spec fn definitions(&self) -> Seq<TypeDefinitionView> {
        definition_views(self.type_registry@)
    }

    /// The constraints that hold for every value, in the order in which they were added.
    pub closed spec fn globals(&self) -> Seq<ConstraintView> {
        constraint_views(self.constraints@)
    }

    pub fn new() -> (v: TypeValidator)
        ensures
            v.definitions() == Seq::<TypeDefinitionView>::empty(),
            v.globals() == Seq::<ConstraintView>::empty(),
    {
        let v = TypeValidator { type_registry: Vec::new(), constraints: Vec::new() };
        assert(v.definitions() =~= Seq::empty());
        assert(v.globals() =~= Seq::empty());
        v
    }

    fn find_definition(&self, name: &str) -> (r: Option<usize>)
        ensures
            match r {
                Some(i) => definition_index(self.definitions(), name@) == Some(i as int) && i
                    < self.type_registry.len(),
                None => definition_index(self.definitions(), name@) is None,
            },
    {
        let mut i: usize = 0;
        while i < self.type_registry.len()
            invariant
                i <= self.type_registry.len(),
                first_definition(self.definitions(), name@, i as nat) is None,
            decreases self.type_registry.len() - i,
        {
            if same_text(self.type_registry[i].name.as_str(), name) {
                proof {
                    lemma_definition_found(
                        self.definitions(),
                        name@,
                        i as int,
                        self.type_registry.len() as nat,
                    );
                }
                return Some(i);
            }
            i = i + 1;
        }
        None
    }

    /// Checks a type definition itself: a name, and a base type among the seven kinds.
    pub fn validate_type_definition(definition: &TypeDefinition) -> (r: Result<(), Error>)
        ensures
            match r {
                Ok(()) => definition_complaint(definition@) is None,
                Err(e) => definition_complaint(definition@) matches Some(m) && e@
                    == ErrorView::Validation(m),
            },
    {
        if definition.name.as_str().is_empty() {
            return Err(Error::validation("Type name cannot be empty"));
        }
        if definition.base_type.as_str().is_empty() {
            return Err(Error::validation("Base type cannot be empty"));
        }
        let base = definition.base_type.as_str();
        if same_text(base, "string") || same_text(base, "number") || same_text(base, "integer")
            || same_text(base, "boolean") || same_text(base, "array") || same_text(base, "object")
            || same_text(base, "null") {
            Ok(())
        } else {
            Err(Error::Validation(join2("Invalid base type: ", base)))
        }
    }

    /// Registers a type definition under its name, in the place of any earlier
    /// definition of that name.
    pub fn register_type(&mut self, definition: TypeDefinition) -> (r: Result<(), Error>)
        ensures
            final(self).globals() == old(self).globals(),
            match r {
                Ok(()) => definition_complaint(definition@) is None && final(self).definitions()
                    == with_definition(old(self).definitions(), definition@),
                Err(e) => definition_complaint(definition@) matches Some(m) && e@
                    == ErrorView::Validation(m) && final(self).definitions() == old(self).definitions(),
            },
    {
        match Self::validate_type_definition(&definition) {
            Err(e) => Err(e),
            Ok(()) => {
                match self.find_definition(definition.name.as_str()) {
                    Some(i) => {
                        self.type_registry.set(i, definition);
                    },
                    None => {
                        self.type_registry.push(definition);
                    },
                }
                assert(final(self).definitions() =~= with_definition(
                    old(self).definitions(),
                    definition@,
                ));
                Ok(())
            },
        }
    }

    /// Adds a constraint that holds for every value.
    pub fn add_constraint(&mut self, constraint: TypeConstraint)
        ensures
            final(self).globals() == old(self).globals().push(constraint@),
            final(self).definitions() == old(self).definitions(),
    {
        self.constraints.push(constraint);
        assert(final(self).globals() =~= old(self).globals().push(constraint@));
    }

    /// The names of the registered types.
    pub fn get_registered_types(&self) -> (names: Vec<String>)
        ensures
            names@.len() == self.definitions().len(),
            forall|i: int| 0 <= i < names@.len() ==> names@[i]@ == self.definitions()[i].name,
    {
        let mut names: Vec<String> = Vec::new();
        let mut i: usize = 0;
        while i < self.type_registry.len()
            invariant
                i <= self.type_registry.len(),
                names@.len() == i,
                forall|k: int| 0 <= k < i ==> names@[k]@ == self.definitions()[k].name,
            decreases self.type_registry.len() - i,
        {
            names.push(self.type_registry[i].name.clone());
            i = i + 1;
        }
        names
    }

    /// Whether a type is registered under `name`.
    pub fn has_type(&self, name: &str) -> (b: bool)
        ensures
            b == (definition_index(self.definitions(), name@) is Some),
    {
        self.find_definition(name).is_some()
    }

    /// Takes the definition registered under `name` out of the registry.
    pub fn remove_type(&mut self, name: &str) -> (r: Option<TypeDefinition>)
        ensures
            final(self).globals() == old(self).globals(),
            match r {
                Some(definition) => definition_index(old(self).definitions(), name@) matches Some(
                    i,
                ) && definition@ == old(self).definitions()[i] && final(self).definitions() == old(self).definitions().remove(i),
                None => definition_index(old(self).definitions(), name@) is None && final(self).definitions() == old(self).definitions(),
            },
    {
        match self.find_definition(name) {
            Some(i) => {
                let removed = self.type_registry.remove(i);
                assert(final(self).definitions() =~= old(self).definitions().remove(i as int));
                Some(removed)
            },
            None => None,
        }
    }

    /// The name of the value's kind.
    pub fn get_value_type(value: &Value) -> (name: String)
        ensures
            name@ == value@.kind_name(),
    {
        owned(value.kind_name())
    }

    /// Whether a value of kind `actual` may stand where `expected` is asked for.
    pub fn is_type_compatible(actual: &str, expected: &str) -> (b: bool)
        ensures
            b == compatible(actual@, expected@),
    {
        if same_text(actual, "number") && same_text(expected, "integer") {
            true
        } else if same_text(actual, "integer") && same_text(expected, "number") {
            true
        } else {
            same_text(actual, expected)
        }
    }

    fn list_holds(options: &Vec<Value>, value: &Value) -> (b: bool)
        ensures
            b == among(view_items(options@), value@, options.len() as nat),
    {
        let mut i: usize = 0;
        proof {
            lemma_view_items(options@);
        }
        while i < options.len()
            invariant
                i <= options.len(),
                view_items(options@).len() == options.len(),
                !among(view_items(options@), value@, i as nat),
            decreases options.len() - i,
        {
            proof {
                lemma_view_items(options@);
                assert(view_items(options@)[i as int] == options@[i as int]@);
            }
            if options[i].same_as(value) {
                proof {
                    lemma_among_found(view_items(options@), value@, i as int, options.len() as nat);
                }
                return true;
            }
            i = i + 1;
        }
        false
    }

    /// The error for a text that was held against `pattern` with the given
    /// outcome: one when the pattern is a regular expression and does not
    /// match, none when it matches or is no regular expression.
    pub fn pattern_verdict(outcome: Option<bool>, text: &str, pattern: &str) -> (r: Option<
        TypeError,
    >)
        ensures
            match r {
                Some(e) => outcome == Some(false) && e@ == pattern_mismatch(text@, pattern@),
                None => outcome != Some(false),
            },
    {
        match outcome {
            Some(false) => Some(
                make_error(
                    "root",
                    join5("Value '", text, "' does not match pattern '", pattern, "'"),
                    TypeErrorType::FormatError,
                    join3("Update the value to match pattern '", pattern, "'"),
                ),
            ),
            _ => None,
        }
    }

    /// The error that `value` draws from one constraint, if it fails it.
    pub fn validate_constraint(value: &Value, constraint: &TypeConstraint) -> (r: Option<TypeError>)
        ensures
            match r {
                Some(e) => constraint_error(value@, constraint@) == Some(e@),
                None => constraint_error(value@, constraint@) is None,
            },
    {
        match constraint.constraint_type {
            ConstraintType::Required => Self::validate_required_constraint(value, constraint),
            ConstraintType::MinLength => Self::validate_min_length_constraint(value, constraint),
            ConstraintType::MaxLength => Self::validate_max_length_constraint(value, constraint),
            ConstraintType::MinValue => Self::validate_min_value_constraint(value, constraint),
            ConstraintType::MaxValue => Self::validate_max_value_constraint(value, constraint),
            ConstraintType::Pattern => Self::validate_pattern_constraint(value, constraint),
            ConstraintType::Enum => Self::validate_enum_constraint(value, constraint),
            ConstraintType::Custom => Self::validate_custom_constraint(value, constraint),
        }
    }

    /// `Required`: null is refused.
    pub fn validate_required_constraint(value: &Value, constraint: &TypeConstraint) -> (r: Option<
        TypeError,
    >)
        ensures
            match r {
                Some(e) => required_finding(value@, constraint@) == Some(e@),
                None => required_finding(value@, constraint@) is None,
            },
    {
        if value.is_null() {
            Some(
                make_error(
                    "root",
                    join3("Required field '", constraint.name.as_str(), "' is missing"),
                    TypeErrorType::RequiredFieldMissing,
                    owned("Provide a value for this required field"),
                ),
            )
        } else {
            None
        }
    }

    /// `MinLength`: a text has at least as many characters as the number says;
/// a number that is no whole number, or a negative one, bounds nothing.
    pub fn validate_min_length_constraint(value: &Value, constraint: &TypeConstraint) -> (r:
        Option<TypeError>)
        ensures
            match r {
                Some(e) => min_length_finding(value@, constraint@) == Some(e@),
                None => min_length_finding(value@, constraint@) is None,
            },
    {
        if let Value::String(s) = value {
            if let Some(Value::Number(bound)) = &constraint.value {
                let len = char_count(s.as_str());
                if bound.exceeds_count(len as u64) {
                    return Some(
                        make_error(
                            "root",
                            join4(
                                "String length ",
                                decimal_string(len as u64).as_str(),
                                " is less than minimum ",
                                bound.to_text().as_str(),
                            ),
                            TypeErrorType::ConstraintViolation,
                            owned("Increase the string length"),
                        ),
                    );
                }
            }
        }
        None
    }

    /// `MaxLength`: a text has at most as many characters as the number says;
/// a number that is no whole number, or a negative one, bounds nothing.
    pub fn validate_max_length_constraint(value: &Value, constraint: &TypeConstraint) -> (r:
        Option<TypeError>)
        ensures
            match r {
                Some(e) => max_length_finding(value@, constraint@) == Some(e@),
                None => max_length_finding(value@, constraint@) is None,
            },
    {
        if let Value::String(s) = value {
            if let Some(Value::Number(bound)) = &constraint.value {
                let len = char_count(s.as_str());
                if bound.below_count(len as u64) {
                    return Some(
                        make_error(
                            "root",
                            join4(
                                "String length ",
                                decimal_string(len as u64).as_str(),
                                " exceeds maximum ",
                                bound.to_text().as_str(),
                            ),
                            TypeErrorType::ConstraintViolation,
                            owned("Decrease the string length"),
                        ),
                    );
                }
            }
        }
        None
    }

    /// `MinValue`: a number is not below the bound.
    pub fn validate_min_value_constraint(value: &Value, constraint: &TypeConstraint) -> (r: Option<
        TypeError,
    >)
        ensures
            match r {
                Some(e) => min_value_finding(value@, constraint@) == Some(e@),
                None => min_value_finding(value@, constraint@) is None,
            },
    {
        if let Value::Number(x) = value {
            if let Some(Value::Number(bound)) = &constraint.value {
                if x.lt(bound) {
                    return Some(
                        make_error(
                            "root",
                            join4(
                                "Value ",
                                x.to_text().as_str(),
                                " is less than minimum ",
                                bound.to_text().as_str(),
                            ),
                            TypeErrorType::RangeViolation,
                            owned("Increase the value"),
                        ),
                    );
                }
            }
        }
        None
    }

    /// `MaxValue`: a number is not above the bound.
    pub fn validate_max_value_constraint(value: &Value, constraint: &TypeConstraint) -> (r: Option<
        TypeError,
    >)
        ensures
            match r {
                Some(e) => max_value_finding(value@, constraint@) == Some(e@),
                None => max_value_finding(value@, constraint@) is None,
            },
    {
        if let Value::Number(x) = value {
            if let Some(Value::Number(bound)) = &constraint.value {
                if x.gt(bound) {
                    return Some(
                        make_error(
                            "root",
                            join4(
                                "Value ",
                                x.to_text().as_str(),
                                " exceeds maximum ",
                                bound.to_text().as_str(),
                            ),
                            TypeErrorType::RangeViolation,
                            owned("Decrease the value"),
                        ),
                    );
                }
            }
        }
        None
    }

    /// `Pattern`: a text matches the pattern; a pattern that is no regular
    /// expression is passed over.
    pub fn validate_pattern_constraint(value: &Value, constraint: &TypeConstraint) -> (r: Option<
        TypeError,
    >)
        ensures
            match r {
                Some(e) => pattern_finding(value@, constraint@) == Some(e@),
                None => pattern_finding(value@, constraint@) is None,
            },
    {
        if let Value::String(s) = value {
            if let Some(Value::String(pattern)) = &constraint.value {
                let outcome = match_pattern(pattern.as_str(), s.as_str());
                return Self::pattern_verdict(outcome, s.as_str(), pattern.as_str());
            }
        }
        None
    }

    /// `Enum`: the value is the same as one of the values of the array.
    pub fn validate_enum_constraint(value: &Value, constraint: &TypeConstraint) -> (r: Option<
        TypeError,
    >)
        ensures
            match r {
                Some(e) => enum_finding(value@, constraint@) == Some(e@),
                None => enum_finding(value@, constraint@) is None,
            },
    {
        if let Some(Value::Array(options)) = &constraint.value {
            proof {
                lemma_view_items(options@);
            }
            if !Self::list_holds(options, value) {
                return Some(
                    make_error(
                        "root",
                        join3(
                            "Value '",
                            value.to_json_text().as_str(),
                            "' is not in allowed values",
                        ),
                        TypeErrorType::InvalidValue,
                        owned("Use one of the allowed values"),
                    ),
                );
            }
        }
        None
    }

    /// `Custom`: a place for checks of the caller's own; none is made.
    pub fn validate_custom_constraint(value: &Value, constraint: &TypeConstraint) -> (r: Option<
        TypeError,
    >)
        ensures
            r is None,
    {
        None
    }

    /// Checks `value` against each of `constraints` and files what fails
    /// under `errors` or, for severity `Warning`, under `warnings`.
    pub fn validate_constraints(
        value: &Value,
        constraints: &Vec<TypeConstraint>,
        errors: &mut Vec<TypeError>,
        warnings: &mut Vec<TypeError>,
    )
        ensures
            error_views(final(errors)@) == error_views(old(errors)@) + routed(
                value@,
                constraint_views(constraints@),
                false,
                constraints.len() as nat,
            ),
            error_views(final(warnings)@) == error_views(old(warnings)@) + routed(
                value@,
                constraint_views(constraints@),
                true,
                constraints.len() as nat,
            ),
    {
        let ghost cs = constraint_views(constraints@);
        let mut i: usize = 0;
        assert(error_views(errors@) =~= error_views(old(errors)@) + routed(value@, cs, false, 0));
        assert(error_views(warnings@) =~= error_views(old(warnings)@) + routed(value@, cs, true, 0));
        while i < constraints.len()
            invariant
                i <= constraints.len(),
                cs == constraint_views(constraints@),
                error_views(errors@) == error_views(old(errors)@) + routed(
                    value@,
                    cs,
                    false,
                    i as nat,
                ),
                error_views(warnings@) == error_views(old(warnings)@) + routed(
                    value@,
                    cs,
                    true,
                    i as nat,
                ),
            decreases constraints.len() - i,
        {
            assert(cs[i as int] == constraints@[i as int]@);
            if let Some(e) = Self::validate_constraint(value, &constraints[i]) {
                match constraints[i].severity {
                    ConstraintSeverity::Warning => {
                        push_finding(warnings, e);
                    },
                    _ => {
                        push_finding(errors, e);
                    },
                }
            }
            i = i + 1;
            assert(error_views(errors@) =~= error_views(old(errors)@) + routed(
                value@,
                cs,
                false,
                i as nat,
            ));
            assert(error_views(warnings@) =~= error_views(old(warnings)@) + routed(
                value@,
                cs,
                true,
                i as nat,
            ));
        }
    }

    /// Checks `value` against a type definition: its base type, then its constraints.
    pub fn validate_against_type_definition(
        value: &Value,
        definition: &TypeDefinition,
        path: &str,
        errors: &mut Vec<TypeError>,
        warnings: &mut Vec<TypeError>,
    )
        ensures
            error_views(final(errors)@) == error_views(old(errors)@) + definition_findings(
                value@,
                definition@,
                path@,
                false,
            ),
            error_views(final(warnings)@) == error_views(old(warnings)@) + definition_findings(
                value@,
                definition@,
                path@,
                true,
            ),
    {
        let actual = value.kind_name();
        let base = definition.base_type.as_str();
        if !Self::is_type_compatible(actual, base) {
            let e = make_error(
                path,
                join5("Base type mismatch: expected '", base, "', got '", actual, "'"),
                TypeErrorType::TypeMismatch,
                join3("Convert the value to base type '", base, "'"),
            );
            push_finding(errors, e);
        }
        Self::validate_constraints(value, &definition.constraints, errors, warnings);
        assert(error_views(errors@) =~= error_views(old(errors)@) + definition_findings(
            value@,
            definition@,
            path@,
            false,
        ));
        assert(error_views(warnings@) =~= error_views(old(warnings)@) + definition_findings(
            value@,
            definition@,
            path@,
            true,
        ));
    }

    /// Validates `value` against the type `type_label`.
    ///
    /// The value is valid exactly when there is no error; warnings do not count.
    pub fn validate_type(&self, value: &Value, type_label: &str) -> (r: Result<
        TypeValidationResult,
        Error,
    >)
        ensures
            r matches Ok(outcome) && {
                &&& outcome.actual_type@ == value@.kind_name()
                &&& outcome.expected_type@ == type_label@
                &&& error_views(outcome.errors@) == type_findings(
                    value@,
                    type_label@,
                    self.definitions(),
                    self.globals(),
                    false,
                )
                &&& error_views(outcome.warnings@) == type_findings(
                    value@,
                    type_label@,
                    self.definitions(),
                    self.globals(),
                    true,
                )
                &&& outcome.is_valid == (outcome.errors@.len() == 0)
                &&& outcome.validation_time_ms == 0
            },
    {
        let actual = value.kind_name();
        let mut errors: Vec<TypeError> = Vec::new();
        let mut warnings: Vec<TypeError> = Vec::new();
        assert(error_views(errors@) =~= Seq::empty());
        assert(error_views(warnings@) =~= Seq::empty());
        if !Self::is_type_compatible(actual, type_label) {
            let e = make_error(
                "root",
                join5("Type mismatch: expected '", type_label, "', got '", actual, "'"),
                TypeErrorType::TypeMismatch,
                join3("Convert the value to type '", type_label, "'"),
            );
            push_finding(&mut errors, e);
        }
        if let Some(i) = self.find_definition(type_label) {
            assert(self.definitions()[i as int] == self.type_registry@[i as int]@);
            Self::validate_against_type_definition(
                value,
                &self.type_registry[i],
                "",
                &mut errors,
                &mut warnings,
            );
        }
        proof {
            reveal_strlit("");
            assert(""@ =~= Seq::<char>::empty());
        }
        Self::validate_constraints(value, &self.constraints, &mut errors, &mut warnings);
        assert(error_views(errors@) =~= type_findings(
            value@,
            type_label@,
            self.definitions(),
            self.globals(),
            false,
        ));
        assert(error_views(warnings@) =~= type_findings(
            value@,
            type_label@,
            self.definitions(),
            self.globals(),
            true,
        ));
        let is_valid = errors.is_empty();
        Ok(
            TypeValidationResult {
                is_valid,
                actual_type: owned(actual),
                expected_type: owned(type_label),
                errors,
                warnings,
                validation_time_ms: 0,
            },
        )
    }

    /// Converts `value` to the kind `target` as far as that can be done.
    pub fn convert_type(&self, value: &Value, target: &str) -> (r: Result<Value, Error>)
        ensures
            match r {
                Ok(v) => converted(value@, target@) == Ok::<Json, Seq<char>>(v@),
                Err(e) => converted(value@, target@) matches Err(m) && e@ == ErrorView::Validation(
                    m,
                ),
            },
    {
        if same_text(target, "string") {
            Ok(Value::String(value.to_json_text()))
        } else if same_text(target, "number") {
            match value {
                Value::Number(n) => Ok(Value::Number(*n)),
                Value::String(s) => match Number::parse(s.as_str()) {
                    Some(n) => Ok(Value::Number(n)),
                    None => if Number::names_none(s.as_str()) {
                        Ok(Value::Number(Number::zero()))
                    } else {
                        Err(Error::validation("Cannot convert to number"))
                    },
                },
                _ => Err(Error::validation("Cannot convert to number")),
            }
        } else if same_text(target, "integer") {
            match value {
                Value::Number(n) => Ok(Value::Number(Number::from_i64(n.truncate_i64()))),
                Value::String(s) => match Number::parse_i64(s.as_str()) {
                    Some(v) => Ok(Value::Number(Number::from_i64(v))),
                    None => Err(Error::validation("Cannot convert to integer")),
                },
                _ => Err(Error::validation("Cannot convert to integer")),
            }
        } else if same_text(target, "boolean") {
            match value {
                Value::Boolean(b) => Ok(Value::Boolean(*b)),
                Value::String(s) => {
                    let t = s.as_str();
                    if eq_ignoring_case(t, "true") || eq_ignoring_case(t, "1") || eq_ignoring_case(
                        t,
                        "yes",
                    ) || eq_ignoring_case(t, "on") {
                        Ok(Value::Boolean(true))
                    } else if eq_ignoring_case(t, "false") || eq_ignoring_case(t, "0")
                        || eq_ignoring_case(t, "no") || eq_ignoring_case(t, "off") {
                        Ok(Value::Boolean(false))
                    } else {
                        Err(Error::validation("Cannot convert to boolean"))
                    }
                },
                _ => Err(Error::validation("Cannot convert to boolean")),
            }
        } else if same_text(target, "array") {
            match value {
                Value::Array(_) => Ok(value.duplicate()),
                _ => {
                    let mut items: Vec<Value> = Vec::new();
                    items.push(value.duplicate());
                    proof {
                        lemma_view_items(items@);
                        assert(view_items(items@) =~= seq![value@]);
                    }
                    Ok(Value::Array(items))
                },
            }
        } else if same_text(target, "object") {
            match value {
                Value::Object(_) => Ok(value.duplicate()),
                _ => Err(Error::validation("Cannot convert to object")),
            }
        } else if same_text(target, "null") {
            Ok(Value::Null)
        } else {
            Err(Error::Validation(join2("Unknown target type: ", target)))
        }
    }
}

/// Once option `i` is the same as the value, every longer search finds one.
pub proof fn lemma_among_found(options: Seq<Json>, value: Json, i: int, n: nat)
    requires
        0 <= i < n <= options.len(),
        json_same(options[i], value),
    ensures
        among(options, value, n),
    decreases n,
{
    if n > i + 1 {
        lemma_among_found(options, value, i, (n - 1) as nat);
    }
}

} // verus!
