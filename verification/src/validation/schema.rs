//! Validation of a document against a schema document.

use vstd::prelude::*;
use crate::error::{Error, ErrorView};
use crate::number::{Decimal, Number};
use crate::pattern::{match_outcome, match_pattern};
use crate::validation::conformance::{conforms, lemma_clean_iff_conforms};
use crate::text::{char_count, decimal_string, decimal_text, join2, join3, join4, join5, owned, same_text};
use crate::value::{
    find_index, find_member, has_key, index_of_key, lemma_lookup, lemma_view_items,
    lemma_view_members, lookup, view_items, view_members, Json, Value,
};

verus! {

/// The members of an object, or the schemas of a table, by name.
pub type Members = Seq<(Seq<char>, Json)>;

/// Kinds of schema validation errors.
#[derive(Debug, Clone, Copy, PartialEq, Eq, Structural)]
pub enum SchemaErrorType {
    RequiredFieldMissing,
    InvalidType,
    ConstraintViolation,
    FormatError,
    PatternMismatch,
    ArrayConstraintViolation,
    ObjectConstraintViolation,
    CustomValidationFailed,
}

/// The content of a schema validation error.
pub struct SchemaErrorView {
    pub path: Seq<char>,
    pub message: Seq<char>,
    pub error_type: SchemaErrorType,
    pub suggestion: Option<Seq<char>>,
}

/// What a schema node asks for, by the first of its keys that decides.
pub enum Node {
    /// `$ref` names a registered schema.
    Reference(Seq<char>),
    AllOf(Seq<Json>),
    AnyOf(Seq<Json>),
    OneOf(Seq<Json>),
    Not(Json),
    /// No reference and no combinator: the node's own keys are checked.
    Plain(Members),
    /// The schema is no object and asks for nothing.
    Inert,
}

/// The registered schema that `$ref` names, if it names one.
pub open spec fn reference_of(keys: Members, table: Members) -> Option<Seq<char>> {
    match lookup(keys, "$ref"@) {
        Some(Json::String(name)) => if has_key(table, name) {
            Some(name)
        } else {
            None
        },
        _ => None,
    }
}

/// The sub-schemas under the combinator `key`, when it holds an array.
pub open spec fn branches_of(keys: Members, key: Seq<char>) -> Option<Seq<Json>> {
    match lookup(keys, key) {
        Some(Json::Array(subs)) => Some(subs),
        _ => None,
    }
}

/// Precedence of the keys of a schema node: a resolvable `$ref` first, then
/// `allOf`, `anyOf`, `oneOf` and `not`; the first one present decides and the
/// node's other keys are not looked at.
pub open spec fn classify(schema: Json, table: Members) -> Node {
    match schema {
        Json::Object(keys) => {
            if reference_of(keys, table) is Some {
                Node::Reference(reference_of(keys, table)->0)
            } else if branches_of(keys, "allOf"@) is Some {
                Node::AllOf(branches_of(keys, "allOf"@)->0)
            } else if branches_of(keys, "anyOf"@) is Some {
                Node::AnyOf(branches_of(keys, "anyOf"@)->0)
            } else if branches_of(keys, "oneOf"@) is Some {
                Node::OneOf(branches_of(keys, "oneOf"@)->0)
            } else if lookup(keys, "not"@) is Some {
                Node::Not(lookup(keys, "not"@)->0)
            } else {
                Node::Plain(keys)
            }
        },
        _ => Node::Inert,
    }
}

/// The value of a member is smaller than the members.
pub proof fn lemma_lookup_decreases(members: Members, key: Seq<char>)
    ensures
        lookup(members, key) matches Some(v) ==> decreases_to!(members => v),
{
    lemma_lookup(members, key);
}

/// The path of the member `name` of the value at `path`.
pub open spec fn member_path(path: Seq<char>, name: Seq<char>) -> Seq<char> {
    if path.len() == 0 {
        name
    } else {
        path + "."@ + name
    }
}

/// The path of a member that a schema names but that is not looked up through
/// `properties`: always with a dot, also at the root.
pub open spec fn dotted_path(path: Seq<char>, name: Seq<char>) -> Seq<char> {
    path + "."@ + name
}

/// The path of item `index` of the array at `path`.
pub open spec fn item_path(path: Seq<char>, index: nat) -> Seq<char> {
    path + "["@ + decimal_text(index) + "]"@
}

pub open spec fn invalid_type(path: Seq<char>, expected: Seq<char>, actual: Seq<char>) -> SchemaErrorView {
    SchemaErrorView {
        path,
        message: "Expected type '"@ + expected + "', got '"@ + actual + "'"@,
        error_type: SchemaErrorType::InvalidType,
        suggestion: Some("Convert the value to type '"@ + expected + "'"@),
    }
}

pub open spec fn required_missing(path: Seq<char>, name: Seq<char>) -> SchemaErrorView {
    SchemaErrorView {
        path: dotted_path(path, name),
        message: "Required field '"@ + name + "' is missing"@,
        error_type: SchemaErrorType::RequiredFieldMissing,
        suggestion: Some("Add the required field '"@ + name + "'"@),
    }
}

pub open spec fn additional_property(path: Seq<char>, name: Seq<char>) -> SchemaErrorView {
    SchemaErrorView {
        path: dotted_path(path, name),
        message: "Additional property '"@ + name + "' is not allowed"@,
        error_type: SchemaErrorType::ObjectConstraintViolation,
        suggestion: Some("Remove the additional property or update the schema"@),
    }
}

pub open spec fn matches_not(path: Seq<char>) -> SchemaErrorView {
    SchemaErrorView {
        path,
        message: "Value matches 'not' schema"@,
        error_type: SchemaErrorType::CustomValidationFailed,
        suggestion: Some("Value should not match the specified schema"@),
    }
}

pub open spec fn not_exactly_one(path: Seq<char>, clean: nat) -> SchemaErrorView {
    SchemaErrorView {
        path,
        message: "Value matches "@ + decimal_text(clean) + " of the 'oneOf' schemas"@,
        error_type: SchemaErrorType::CustomValidationFailed,
        suggestion: Some("Value should match exactly one of the specified schemas"@),
    }
}

/// What `oneOf` reports for `clean` clean branches of which the others gave
/// the errors `found`: nothing for exactly one clean branch; else the errors
/// of the branches as they are; and where the branches gave none, because
/// more than one is clean and none fails or because there is no branch, the
/// one error that says how many branches the value matches.
pub open spec fn one_of_errors(path: Seq<char>, clean: nat, found: Seq<SchemaErrorView>) -> Seq<
    SchemaErrorView,
> {
    if clean == 1 {
        Seq::empty()
    } else if found.len() > 0 {
        found
    } else {
        seq![not_exactly_one(path, clean)]
    }
}

pub open spec fn cyclic_reference(path: Seq<char>, name: Seq<char>) -> SchemaErrorView {
    SchemaErrorView {
        path,
        message: "Reference '"@ + name + "' leads back to itself"@,
        error_type: SchemaErrorType::CustomValidationFailed,
        suggestion: Some("Break the cycle of references"@),
    }
}

pub open spec fn too_short(path: Seq<char>, len: nat, bound: Decimal) -> SchemaErrorView {
    SchemaErrorView {
        path,
        message: "String length "@ + decimal_text(len) + " is less than minimum "@ + bound.text(),
        error_type: SchemaErrorType::ConstraintViolation,
        suggestion: Some("Increase the string length"@),
    }
}

pub open spec fn too_long(path: Seq<char>, len: nat, bound: Decimal) -> SchemaErrorView {
    SchemaErrorView {
        path,
        message: "String length "@ + decimal_text(len) + " exceeds maximum "@ + bound.text(),
        error_type: SchemaErrorType::ConstraintViolation,
        suggestion: Some("Decrease the string length"@),
    }
}

pub open spec fn pattern_mismatch(path: Seq<char>, pattern: Seq<char>) -> SchemaErrorView {
    SchemaErrorView {
        path,
        message: "String does not match pattern: "@ + pattern,
        error_type: SchemaErrorType::PatternMismatch,
        suggestion: Some("Update the string to match the required pattern"@),
    }
}

pub open spec fn below_minimum(path: Seq<char>, value: Decimal, bound: Decimal) -> SchemaErrorView {
    SchemaErrorView {
        path,
        message: "Value "@ + value.text() + " is less than minimum "@ + bound.text(),
        error_type: SchemaErrorType::ConstraintViolation,
        suggestion: Some("Increase the value"@),
    }
}

pub open spec fn above_maximum(path: Seq<char>, value: Decimal, bound: Decimal) -> SchemaErrorView {
    SchemaErrorView {
        path,
        message: "Value "@ + value.text() + " exceeds maximum "@ + bound.text(),
        error_type: SchemaErrorType::ConstraintViolation,
        suggestion: Some("Decrease the value"@),
    }
}

pub open spec fn too_few_items(path: Seq<char>, len: nat, bound: Decimal) -> SchemaErrorView {
    SchemaErrorView {
        path,
        message: "Array length "@ + decimal_text(len) + " is less than minimum "@ + bound.text(),
        error_type: SchemaErrorType::ArrayConstraintViolation,
        suggestion: Some("Add more items to the array"@),
    }
}

pub open spec fn too_many_items(path: Seq<char>, len: nat, bound: Decimal) -> SchemaErrorView {
    SchemaErrorView {
        path,
        message: "Array length "@ + decimal_text(len) + " exceeds maximum "@ + bound.text(),
        error_type: SchemaErrorType::ArrayConstraintViolation,
        suggestion: Some("Remove items from the array"@),
    }
}

/// The number under `key`, if the member holds one.
pub open spec fn bound_of(keys: Members, key: Seq<char>) -> Option<Decimal> {
    match lookup(keys, key) {
        Some(Json::Number(bound)) => Some(bound),
        _ => None,
    }
}

/// The text under `key`, if the member holds one.
pub open spec fn text_of_key(keys: Members, key: Seq<char>) -> Option<Seq<char>> {
    match lookup(keys, key) {
        Some(Json::String(text)) => Some(text),
        _ => None,
    }
}

/// `type`: the value's kind must bear the name the schema gives.
pub open spec fn type_errors(data: Json, keys: Members, path: Seq<char>) -> Seq<SchemaErrorView> {
    match text_of_key(keys, "type"@) {
        Some(expected) => if data.kind_name() != expected {
            seq![invalid_type(path, expected, data.kind_name())]
        } else {
            Seq::empty()
        },
        None => Seq::empty(),
    }
}

/// One error for each of the first `n` names of `required` that no member bears.
pub open spec fn missing_errors(members: Members, names: Seq<Json>, path: Seq<char>, n: nat) -> Seq<
    SchemaErrorView,
>
    decreases n,
{
    if n == 0 || n > names.len() {
        Seq::empty()
    } else {
        missing_errors(members, names, path, (n - 1) as nat) + (match names[n - 1] {
            Json::String(name) => if has_key(members, name) {
                Seq::empty()
            } else {
                seq![required_missing(path, name)]
            },
            _ => Seq::empty(),
        })
    }
}

/// `required`: checked when it is an array and the value an object.
pub open spec fn required_errors(data: Json, keys: Members, path: Seq<char>) -> Seq<SchemaErrorView> {
    match (lookup(keys, "required"@), data) {
        (Some(Json::Array(names)), Json::Object(members)) => missing_errors(
            members,
            names,
            path,
            names.len(),
        ),
        _ => Seq::empty(),
    }
}

/// `minLength`, `maxLength` and `pattern` on a text. A length that is no
/// whole number, or a negative one, bounds nothing.
pub open spec fn string_errors(text: Seq<char>, keys: Members, path: Seq<char>) -> Seq<SchemaErrorView> {
    (match bound_of(keys, "minLength"@) {
        Some(bound) => if bound.above_count(text.len()) {
            seq![too_short(path, text.len(), bound)]
        } else {
            Seq::empty()
        },
        None => Seq::empty(),
    }) + (match bound_of(keys, "maxLength"@) {
        Some(bound) => if bound.under_count(text.len()) {
            seq![too_long(path, text.len(), bound)]
        } else {
            Seq::empty()
        },
        None => Seq::empty(),
    }) + (match text_of_key(keys, "pattern"@) {
        Some(pattern) => if match_outcome(pattern, text) == Some(false) {
            seq![pattern_mismatch(path, pattern)]
        } else {
            Seq::empty()
        },
        None => Seq::empty(),
    })
}

/// `minimum` and `maximum` on a number.
pub open spec fn number_errors(value: Decimal, keys: Members, path: Seq<char>) -> Seq<SchemaErrorView> {
    (match bound_of(keys, "minimum"@) {
        Some(bound) => if value.lt(bound) {
            seq![below_minimum(path, value, bound)]
        } else {
            Seq::empty()
        },
        None => Seq::empty(),
    }) + (match bound_of(keys, "maximum"@) {
        Some(bound) => if bound.lt(value) {
            seq![above_maximum(path, value, bound)]
        } else {
            Seq::empty()
        },
        None => Seq::empty(),
    })
}

/// `minItems` and `maxItems` on an array of `len` items. A number of items
/// that is no whole number, or a negative one, bounds nothing.
pub open spec fn array_errors(len: nat, keys: Members, path: Seq<char>) -> Seq<SchemaErrorView> {
    (match bound_of(keys, "minItems"@) {
        Some(bound) => if bound.above_count(len) {
            seq![too_few_items(path, len, bound)]
        } else {
            Seq::empty()
        },
        None => Seq::empty(),
    }) + (match bound_of(keys, "maxItems"@) {
        Some(bound) => if bound.under_count(len) {
            seq![too_many_items(path, len, bound)]
        } else {
            Seq::empty()
        },
        None => Seq::empty(),
    })
}

/// The leaf constraints that apply to the value's kind.
pub open spec fn constraint_errors(data: Json, keys: Members, path: Seq<char>) -> Seq<SchemaErrorView> {
    match data {
        Json::String(text) => string_errors(text, keys, path),
        Json::Number(value) => number_errors(value, keys, path),
        Json::Array(items) => array_errors(items.len(), keys, path),
        _ => Seq::empty(),
    }
}

/// The errors of `data` against `schema`, in the order in which the checks are made.
///
/// `table` holds the registered schemas by name. `fuel` bounds the references
/// that may be followed before the walk moves on to a member or item of `data`:
/// with `fuel` at least the number of registered schemas, only a cycle of
/// references can exhaust it.
pub open spec fn node_errors(data: Json, schema: Json, table: Members, path: Seq<char>, fuel: nat) -> Seq<
    SchemaErrorView,
>
    decreases data, fuel, schema, 0nat,
{
    match classify(schema, table) {
        Node::Reference(name) => if fuel == 0 {
            seq![cyclic_reference(path, name)]
        } else {
            node_errors(data, lookup(table, name)->0, table, path, (fuel - 1) as nat)
        },
        Node::AllOf(subs) => {
            proof {
                lemma_lookup_decreases(schema->Object_0, "allOf"@);
            }
            branch_errors(data, subs, table, path, fuel, subs.len())
        },
        Node::AnyOf(subs) => {
            proof {
                lemma_lookup_decreases(schema->Object_0, "anyOf"@);
            }
            if clean_branches(data, subs, table, path, fuel, subs.len()) > 0 {
                Seq::empty()
            } else {
                branch_errors(data, subs, table, path, fuel, subs.len())
            }
        },
        Node::OneOf(subs) => {
            proof {
                lemma_lookup_decreases(schema->Object_0, "oneOf"@);
            }
            one_of_errors(
                path,
                clean_branches(data, subs, table, path, fuel, subs.len()),
                branch_errors(data, subs, table, path, fuel, subs.len()),
            )
        },
        Node::Not(inner) => {
            proof {
                lemma_lookup_decreases(schema->Object_0, "not"@);
            }
            if node_errors(data, inner, table, path, fuel).len() == 0 {
                seq![matches_not(path)]
            } else {
                Seq::empty()
            }
        },
        Node::Plain(keys) => plain_errors(data, keys, table, path, fuel),
        Node::Inert => Seq::empty(),
    }
}

/// The errors of `data` against a plain node with the members `keys`: its
/// type, its required members, its declared and its additional properties,
/// its items, and its leaf constraints, in this order.
pub open spec fn plain_errors(data: Json, keys: Members, table: Members, path: Seq<char>, fuel: nat) -> Seq<
    SchemaErrorView,
>
    decreases data, fuel, keys, 1nat,
{
    type_errors(data, keys, path) + required_errors(data, keys, path) + declared_errors(
        data,
        keys,
        table,
        path,
        fuel,
    ) + undeclared_errors(data, keys, table, path, fuel) + element_errors(
        data,
        keys,
        table,
        path,
        fuel,
    ) + constraint_errors(data, keys, path)
}

/// `properties`, when it is an object and the value is one.
pub open spec fn declared_errors(
    data: Json,
    keys: Members,
    table: Members,
    path: Seq<char>,
    fuel: nat,
) -> Seq<SchemaErrorView>
    decreases data, fuel, keys, 0nat,
{
    match (lookup(keys, "properties"@), data) {
        (Some(Json::Object(props)), Json::Object(members)) => {
            proof {
                lemma_lookup_decreases(keys, "properties"@);
            }
            property_errors(members, props, table, path, props.len())
        },
        _ => Seq::empty(),
    }
}

/// `additionalProperties`, when `properties` is an object and the value is one.
pub open spec fn undeclared_errors(
    data: Json,
    keys: Members,
    table: Members,
    path: Seq<char>,
    fuel: nat,
) -> Seq<SchemaErrorView>
    decreases data, fuel, keys, 0nat,
{
    match (lookup(keys, "additionalProperties"@), lookup(keys, "properties"@), data) {
        (Some(extra), Some(Json::Object(props)), Json::Object(members)) => {
            proof {
                lemma_lookup_decreases(keys, "additionalProperties"@);
            }
            additional_errors(members, props, extra, table, path, members.len())
        },
        _ => Seq::empty(),
    }
}

/// `items`, when the value is an array.
pub open spec fn element_errors(
    data: Json,
    keys: Members,
    table: Members,
    path: Seq<char>,
    fuel: nat,
) -> Seq<SchemaErrorView>
    decreases data, fuel, keys, 0nat,
{
    match (lookup(keys, "items"@), data) {
        (Some(items), Json::Array(elements)) => {
            proof {
                lemma_lookup_decreases(keys, "items"@);
            }
            item_errors(elements, items, table, path, elements.len())
        },
        _ => Seq::empty(),
    }
}

/// The errors of `data` against the first `n` of `subs`, one branch after the other.
pub open spec fn branch_errors(
    data: Json,
    subs: Seq<Json>,
    table: Members,
    path: Seq<char>,
    fuel: nat,
    n: nat,
) -> Seq<SchemaErrorView>
    decreases data, fuel, subs, n,
{
    if n == 0 || n > subs.len() {
        Seq::empty()
    } else {
        branch_errors(data, subs, table, path, fuel, (n - 1) as nat) + node_errors(
            data,
            subs[n - 1],
            table,
            path,
            fuel,
        )
    }
}

/// How many of the first `n` of `subs` the value meets without an error.
pub open spec fn clean_branches(
    data: Json,
    subs: Seq<Json>,
    table: Members,
    path: Seq<char>,
    fuel: nat,
    n: nat,
) -> nat
    decreases data, fuel, subs, n,
{
    if n == 0 || n > subs.len() {
        0
    } else {
        clean_branches(data, subs, table, path, fuel, (n - 1) as nat) + (if node_errors(
            data,
            subs[n - 1],
            table,
            path,
            fuel,
        ).len() == 0 {
            1nat
        } else {
            0nat
        })
    }
}

/// `properties`: each of the first `n` declared properties that the object
/// holds is checked against its schema.
pub open spec fn property_errors(
    members: Members,
    props: Members,
    table: Members,
    path: Seq<char>,
    n: nat,
) -> Seq<SchemaErrorView>
    decreases members, table.len(), props, n,
{
    if n == 0 || n > props.len() {
        Seq::empty()
    } else {
        property_errors(members, props, table, path, (n - 1) as nat) + (match lookup(
            members,
            props[n - 1].0,
        ) {
            Some(child) => {
                proof {
                    lemma_lookup_decreases(members, props[n - 1].0);
                }
                node_errors(child, props[n - 1].1, table, member_path(path, props[n - 1].0), table.len())
            },
            None => Seq::empty(),
        })
    }
}

/// `additionalProperties`: each of the first `n` members that `properties`
/// does not declare is refused when `extra` is `false`, and checked against
/// `extra` when that is a schema object.
pub open spec fn additional_errors(
    members: Members,
    props: Members,
    extra: Json,
    table: Members,
    path: Seq<char>,
    n: nat,
) -> Seq<SchemaErrorView>
    decreases members, table.len(), extra, n,
{
    if n == 0 || n > members.len() {
        Seq::empty()
    } else {
        additional_errors(members, props, extra, table, path, (n - 1) as nat) + (if has_key(
            props,
            members[n - 1].0,
        ) {
            Seq::empty()
        } else {
            match extra {
                Json::Boolean(false) => seq![additional_property(path, members[n - 1].0)],
                Json::Object(_) => node_errors(
                    members[n - 1].1,
                    extra,
                    table,
                    dotted_path(path, members[n - 1].0),
                    table.len(),
                ),
                _ => Seq::empty(),
            }
        })
    }
}

/// `items`: each of the first `n` items is checked against the one schema.
pub open spec fn item_errors(
    elements: Seq<Json>,
    items: Json,
    table: Members,
    path: Seq<char>,
    n: nat,
) -> Seq<SchemaErrorView>
    decreases elements, table.len(), items, n,
{
    if n == 0 || n > elements.len() {
        Seq::empty()
    } else {
        item_errors(elements, items, table, path, (n - 1) as nat) + node_errors(
            elements[n - 1],
            items,
            table,
            item_path(path, (n - 1) as nat),
            table.len(),
        )
    }
}

/// The errors of a document against a schema, from the root of the document.
pub open spec fn validation_errors(data: Json, schema: Json, table: Members) -> Seq<SchemaErrorView> {
    node_errors(data, schema, table, Seq::empty(), table.len())
}

/// A schema validation error.
#[derive(Debug, Clone)]
pub struct SchemaError {
    pub path: String,
    pub message: String,
    pub error_type: SchemaErrorType,
    pub suggestion: Option<String>,
}

impl View for SchemaError {
    type V = SchemaErrorView;

    open spec fn view(&self) -> SchemaErrorView {
        SchemaErrorView {
            path: self.path@,
            message: self.message@,
            error_type: self.error_type,
            suggestion: match self.suggestion {
                Some(s) => Some(s@),
                None => None,
            },
        }
    }
}

/// The content of each error, in order.
pub open spec fn error_views(errors: Seq<SchemaError>) -> Seq<SchemaErrorView> {
    Seq::new(errors.len(), |i: int| errors[i]@)
}

/// The outcome of validating one document.
#[derive(Debug, Clone)]
pub struct SchemaValidationResult {
    pub is_valid: bool,
    pub errors: Vec<SchemaError>,
    pub warnings: Vec<SchemaError>,
    /// Time spent, for the caller to fill in; the validator itself reads no clock.
    pub validation_time_ms: u64,
}

/// What an outcome holds when validation found `errors`: those errors in
/// order, no warnings, validity exactly when there is no error, and no time taken.
pub open spec fn is_outcome(outcome: SchemaValidationResult, errors: Seq<SchemaErrorView>) -> bool {
    &&& error_views(outcome.errors@) == errors
    &&& outcome.warnings@.len() == 0
    &&& outcome.is_valid == (errors.len() == 0)
    &&& outcome.validation_time_ms == 0
}

fn push_error(errors: &mut Vec<SchemaError>, e: SchemaError)
    ensures
        error_views(final(errors)@) == error_views(old(errors)@) + seq![e@],
{
    errors.push(e);
    assert(error_views(errors@) =~= error_views(old(errors)@) + seq![e@]);
}

fn append_errors(errors: &mut Vec<SchemaError>, more: &mut Vec<SchemaError>)
    ensures
        error_views(final(errors)@) == error_views(old(errors)@) + error_views(old(more)@),
        final(more)@.len() == 0,
{
    errors.append(more);
    assert(error_views(errors@) =~= error_views(old(errors)@) + error_views(old(more)@));
}

fn make_error(path: String, message: String, error_type: SchemaErrorType, suggestion: String) -> (e:
    SchemaError)
    ensures
        e@ == (SchemaErrorView {
            path: path@,
            message: message@,
            error_type,
            suggestion: Some(suggestion@),
        }),
{
    SchemaError { path, message, error_type, suggestion: Some(suggestion) }
}

fn child_path(path: &str, name: &str) -> (r: String)
    ensures
        r@ == member_path(path@, name@),
{
    if path.is_empty() {
        owned(name)
    } else {
        join3(path, ".", name)
    }
}

fn index_path(path: &str, index: usize) -> (r: String)
    ensures
        r@ == item_path(path@, index as nat),
{
    let digits = decimal_string(index as u64);
    join4(path, "[", digits.as_str(), "]")
}

/// The parts of a schema node that its kind needs, borrowed from the schema.
pub enum NodeRef<'a> {
    Reference(&'a str, &'a Value),
    AllOf(&'a Vec<Value>),
    AnyOf(&'a Vec<Value>),
    OneOf(&'a Vec<Value>),
    Not(&'a Value),
    Plain(&'a Vec<(String, Value)>),
    Inert,
}

impl<'a> NodeRef<'a> {
    /// The kind of node that the borrowed parts stand for.
    pub open spec fn node(self) -> Node {
        match self {
            NodeRef::Reference(name, _) => Node::Reference(name@),
            NodeRef::AllOf(subs) => Node::AllOf(view_items(subs@)),
            NodeRef::AnyOf(subs) => Node::AnyOf(view_items(subs@)),
            NodeRef::OneOf(subs) => Node::OneOf(view_items(subs@)),
            NodeRef::Not(inner) => Node::Not(inner@),
            NodeRef::Plain(keys) => Node::Plain(view_members(keys@)),
            NodeRef::Inert => Node::Inert,
        }
    }
}

fn find_branches<'a>(keys: &'a Vec<(String, Value)>, key: &str) -> (r: Option<&'a Vec<Value>>)
    ensures
        match r {
            Some(subs) => branches_of(view_members(keys@), key@) == Some(view_items(subs@)),
            None => branches_of(view_members(keys@), key@) is None,
        },
{
    match find_member(keys, key) {
        Some(Value::Array(subs)) => Some(subs),
        _ => None,
    }
}

fn find_bound<'a>(keys: &'a Vec<(String, Value)>, key: &str) -> (r: Option<&'a Number>)
    ensures
        match r {
            Some(n) => bound_of(view_members(keys@), key@) == Some(n@),
            None => bound_of(view_members(keys@), key@) is None,
        },
{
    match find_member(keys, key) {
        Some(Value::Number(n)) => Some(n),
        _ => None,
    }
}

fn find_text<'a>(keys: &'a Vec<(String, Value)>, key: &str) -> (r: Option<&'a String>)
    ensures
        match r {
            Some(t) => text_of_key(view_members(keys@), key@) == Some(t@),
            None => text_of_key(view_members(keys@), key@) is None,
        },
{
    match find_member(keys, key) {
        Some(Value::String(t)) => Some(t),
        _ => None,
    }
}

/// Reads off what a schema node asks for.
pub fn classify_node<'a>(schema: &'a Value, table: &'a Vec<(String, Value)>) -> (r: NodeRef<'a>)
    ensures
        r.node() == classify(schema@, view_members(table@)),
        r matches NodeRef::Reference(name, target) ==> lookup(view_members(table@), name@) == Some(
            target@,
        ),
{
    match schema {
        Value::Object(keys) => {
            if let Some(name) = find_text(keys, "$ref") {
                if let Some(target) = find_member(table, name.as_str()) {
                    return NodeRef::Reference(name.as_str(), target);
                }
            }
            if let Some(subs) = find_branches(keys, "allOf") {
                return NodeRef::AllOf(subs);
            }
            if let Some(subs) = find_branches(keys, "anyOf") {
                return NodeRef::AnyOf(subs);
            }
            if let Some(subs) = find_branches(keys, "oneOf") {
                return NodeRef::OneOf(subs);
            }
            if let Some(inner) = find_member(keys, "not") {
                return NodeRef::Not(inner);
            }
            NodeRef::Plain(keys)
        },
        _ => NodeRef::Inert,
    }
}

/// Validates documents against schemas, inline or registered by name.
pub struct SchemaValidator {
    schemas: Vec<(String, Value)>,
}

/// The table with `schema` under `name`: in the place of an earlier schema of
/// that name, or else at the end.
pub open spec fn upsert(table: Members, name: Seq<char>, schema: Json) -> Members {
    match index_of_key(table, name) {
        Some(i) => table.update(i, (name, schema)),
        None => table.push((name, schema)),
    }
}

/// Whether a document can be registered as a schema: an object with a `type`,
/// a `$ref` or an `allOf`.
pub open spec fn is_schema_shaped(schema: Json) -> bool {
    schema matches Json::Object(keys) && (has_key(keys, "type"@) || has_key(keys, "$ref"@)
        || has_key(keys, "allOf"@))
}

/// The message with which a document is refused as a schema.
pub open spec fn shape_complaint(schema: Json) -> Seq<char> {
    if schema is Object {
        "Schema must have 'type', '$ref', or 'allOf' property"@
    } else {
        "Schema must be a JSON object"@
    }
}

impl SchemaValidator {
    /// The registered schemas by name, in the order in which their names were
    /// first registered.
    pub closed spec fn table(&self) -> Members {
        view_members(self.schemas@)
    }

    pub fn new() -> (v: SchemaValidator)
        ensures
            v.table() == Seq::<(Seq<char>, Json)>::empty(),
    {
        SchemaValidator { schemas: Vec::new() }
    }

    /// Checks the shape of a schema document itself.
    pub fn validate_schema_structure(schema: &Value) -> (r: Result<(), Error>)
        ensures
            r is Ok <==> is_schema_shaped(schema@),
            r matches Err(e) ==> e@ == ErrorView::Validation(shape_complaint(schema@)),
    {
        match schema {
            Value::Object(keys) => {
                if find_member(keys, "type").is_none() && find_member(keys, "$ref").is_none()
                    && find_member(keys, "allOf").is_none() {
                    Err(Error::validation("Schema must have 'type', '$ref', or 'allOf' property"))
                } else {
                    Ok(())
                }
            },
            _ => Err(Error::validation("Schema must be a JSON object")),
        }
    }

    /// Registers `schema` under `name`, in the place of any earlier schema of that name.
    pub fn register_schema(&mut self, name: &str, schema: Value) -> (r: Result<(), Error>)
        ensures
            r is Ok <==> is_schema_shaped(schema@),
            r is Ok ==> final(self).table() == upsert(old(self).table(), name@, schema@),
            r matches Err(e) ==> e@ == ErrorView::Validation(shape_complaint(schema@))
                && final(self).table() == old(self).table(),
    {
        match Self::validate_schema_structure(&schema) {
            Err(e) => Err(e),
            Ok(()) => {
                proof {
                    lemma_view_members(self.schemas@);
                }
                match find_index(&self.schemas, name) {
                    Some(i) => {
                        self.schemas.set(i, (owned(name), schema));
                    },
                    None => {
                        self.schemas.push((owned(name), schema));
                    },
                }
                proof {
                    lemma_view_members(self.schemas@);
                    assert(final(self).table() =~= upsert(old(self).table(), name@, schema@));
                }
                Ok(())
            },
        }
    }

    /// The names of the registered schemas.
    pub fn get_schema_names(&self) -> (names: Vec<String>)
        ensures
            names@.len() == self.table().len(),
            forall|i: int| 0 <= i < names@.len() ==> names@[i]@ == self.table()[i].0,
    {
        let mut names: Vec<String> = Vec::new();
        let mut i: usize = 0;
        proof {
            lemma_view_members(self.schemas@);
        }
        while i < self.schemas.len()
            invariant
                i <= self.schemas.len(),
                names@.len() == i,
                self.table().len() == self.schemas.len(),
                forall|k: int| 0 <= k < i ==> names@[k]@ == self.table()[k].0,
            decreases self.schemas.len() - i,
        {
            proof {
                lemma_view_members(self.schemas@);
                assert(view_members(self.schemas@)[i as int].0 == self.schemas@[i as int].0@);
            }
            names.push(self.schemas[i].0.clone());
            i = i + 1;
        }
        names
    }

    /// Whether a schema is registered under `name`.
    pub fn has_schema(&self, name: &str) -> (b: bool)
        ensures
            b == has_key(self.table(), name@),
    {
        find_index(&self.schemas, name).is_some()
    }

    /// Takes the schema registered under `name` out of the table.
    pub fn remove_schema(&mut self, name: &str) -> (r: Option<Value>)
        ensures
            match r {
                Some(schema) => index_of_key(old(self).table(), name@) matches Some(i) && schema@
                    == old(self).table()[i].1 && final(self).table() == old(self).table().remove(i),
                None => !has_key(old(self).table(), name@) && final(self).table() == old(self).table(),
            },
    {
        match find_index(&self.schemas, name) {
            Some(i) => {
                proof {
                    lemma_view_members(self.schemas@);
                    assert(view_members(self.schemas@)[i as int].1 == self.schemas@[i as int].1@);
                }
                let removed = self.schemas.remove(i);
                proof {
                    lemma_view_members(self.schemas@);
                    assert(final(self).table() =~= old(self).table().remove(i as int));
                }
                Some(removed.1)
            },
            None => None,
        }
    }

    /// `type`: one error when the value's kind bears another name than `expected`.
    pub fn validate_type(data: &Value, expected: &str, path: &str, errors: &mut Vec<SchemaError>)
        ensures
            error_views(final(errors)@) == error_views(old(errors)@) + (if data@.kind_name()
                != expected@ {
                seq![invalid_type(path@, expected@, data@.kind_name())]
            } else {
                Seq::empty()
            }),
    {
        let actual = data.kind_name();
        if !same_text(actual, expected) {
            let e = make_error(
                owned(path),
                join5("Expected type '", expected, "', got '", actual, "'"),
                SchemaErrorType::InvalidType,
                join3("Convert the value to type '", expected, "'"),
            );
            push_error(errors, e);
        } else {
            assert(error_views(errors@) =~= error_views(old(errors)@) + Seq::empty());
        }
    }

    /// The error for a text that was held against `pattern` with the given
    /// outcome: one when the pattern is a regular expression and does not
    /// match, none when it matches or is no regular expression.
    pub fn pattern_verdict(outcome: Option<bool>, pattern: &str, path: &str) -> (r: Option<
        SchemaError,
    >)
        ensures
            match r {
                Some(e) => outcome == Some(false) && e@ == pattern_mismatch(path@, pattern@),
                None => outcome != Some(false),
            },
    {
        match outcome {
            Some(false) => Some(
                make_error(
                    owned(path),
                    join2("String does not match pattern: ", pattern),
                    SchemaErrorType::PatternMismatch,
                    owned("Update the string to match the required pattern"),
                ),
            ),
            _ => None,
        }
    }

    /// The leaf constraints of a plain node: lengths and pattern of a text,
    /// bounds of a number, item counts of an array.
    pub fn validate_constraints(
        data: &Value,
        keys: &Vec<(String, Value)>,
        path: &str,
        errors: &mut Vec<SchemaError>,
    )
        ensures
            error_views(final(errors)@) == error_views(old(errors)@) + constraint_errors(
                data@,
                view_members(keys@),
                path@,
            ),
    {
        let ghost before = error_views(errors@);
        match data {
            Value::String(text) => {
                let len = char_count(text.as_str());
                if let Some(bound) = find_bound(keys, "minLength") {
                    if bound.exceeds_count(len as u64) {
                        let e = make_error(
                            owned(path),
                            join4(
                                "String length ",
                                decimal_string(len as u64).as_str(),
                                " is less than minimum ",
                                bound.to_text().as_str(),
                            ),
                            SchemaErrorType::ConstraintViolation,
                            owned("Increase the string length"),
                        );
                        push_error(errors, e);
                    }
                }
                if let Some(bound) = find_bound(keys, "maxLength") {
                    if bound.below_count(len as u64) {
                        let e = make_error(
                            owned(path),
                            join4(
                                "String length ",
                                decimal_string(len as u64).as_str(),
                                " exceeds maximum ",
                                bound.to_text().as_str(),
                            ),
                            SchemaErrorType::ConstraintViolation,
                            owned("Decrease the string length"),
                        );
                        push_error(errors, e);
                    }
                }
                if let Some(pattern) = find_text(keys, "pattern") {
                    let outcome = match_pattern(pattern.as_str(), text.as_str());
                    if let Some(e) = Self::pattern_verdict(outcome, pattern.as_str(), path) {
                        push_error(errors, e);
                    }
                }
                assert(error_views(errors@) =~= before + string_errors(
                    text@,
                    view_members(keys@),
                    path@,
                ));
            },
            Value::Number(value) => {
                if let Some(bound) = find_bound(keys, "minimum") {
                    if value.lt(bound) {
                        let e = make_error(
                            owned(path),
                            join4(
                                "Value ",
                                value.to_text().as_str(),
                                " is less than minimum ",
                                bound.to_text().as_str(),
                            ),
                            SchemaErrorType::ConstraintViolation,
                            owned("Increase the value"),
                        );
                        push_error(errors, e);
                    }
                }
                if let Some(bound) = find_bound(keys, "maximum") {
                    if value.gt(bound) {
                        let e = make_error(
                            owned(path),
                            join4(
                                "Value ",
                                value.to_text().as_str(),
                                " exceeds maximum ",
                                bound.to_text().as_str(),
                            ),
                            SchemaErrorType::ConstraintViolation,
                            owned("Decrease the value"),
                        );
                        push_error(errors, e);
                    }
                }
                assert(error_views(errors@) =~= before + number_errors(
                    value@,
                    view_members(keys@),
                    path@,
                ));
            },
            Value::Array(items) => {
                let len = items.len();
                proof {
                    lemma_view_items(items@);
                }
                if let Some(bound) = find_bound(keys, "minItems") {
                    if bound.exceeds_count(len as u64) {
                        let e = make_error(
                            owned(path),
                            join4(
                                "Array length ",
                                decimal_string(len as u64).as_str(),
                                " is less than minimum ",
                                bound.to_text().as_str(),
                            ),
                            SchemaErrorType::ArrayConstraintViolation,
                            owned("Add more items to the array"),
                        );
                        push_error(errors, e);
                    }
                }
                if let Some(bound) = find_bound(keys, "maxItems") {
                    if bound.below_count(len as u64) {
                        let e = make_error(
                            owned(path),
                            join4(
                                "Array length ",
                                decimal_string(len as u64).as_str(),
                                " exceeds maximum ",
                                bound.to_text().as_str(),
                            ),
                            SchemaErrorType::ArrayConstraintViolation,
                            owned("Remove items from the array"),
                        );
                        push_error(errors, e);
                    }
                }
                assert(error_views(errors@) =~= before + array_errors(
                    items@.len(),
                    view_members(keys@),
                    path@,
                ));
            },
            _ => {
                assert(error_views(errors@) =~= before + Seq::empty());
            },
        }
    }

    /// Validates `data` against the schema registered under `schema_name`.
    pub fn validate(&self, data: &Value, schema_name: &str) -> (r: Result<
        SchemaValidationResult,
        Error,
    >)
        ensures
            match r {
                Ok(outcome) => lookup(self.table(), schema_name@) matches Some(schema)
                    && is_outcome(outcome, validation_errors(data@, schema, self.table()))
                    && outcome.is_valid == conforms(
                    data@,
                    schema,
                    self.table(),
                    self.table().len(),
                ),
                Err(e) => !has_key(self.table(), schema_name@) && e@ == ErrorView::Validation(
                    "Schema '"@ + schema_name@ + "' not found"@,
                ),
            },
    {
        match find_member(&self.schemas, schema_name) {
            Some(schema) => Ok(self.run(data, schema)),
            None => Err(Error::Validation(join3("Schema '", schema_name, "' not found"))),
        }
    }

    /// Validates `data` against `schema`; references in it are resolved among
    /// the registered schemas.
    pub fn validate_against_schema(&self, data: &Value, schema: &Value) -> (r: Result<
        SchemaValidationResult,
        Error,
    >)
        ensures
            r matches Ok(outcome) && is_outcome(
                outcome,
                validation_errors(data@, schema@, self.table()),
            ) && outcome.is_valid == conforms(data@, schema@, self.table(), self.table().len()),
    {
        Ok(self.run(data, schema))
    }

    fn run(&self, data: &Value, schema: &Value) -> (outcome: SchemaValidationResult)
        ensures
            is_outcome(outcome, validation_errors(data@, schema@, self.table())),
            outcome.is_valid == conforms(data@, schema@, self.table(), self.table().len()),
    {
        proof {
            lemma_clean_iff_conforms(
                data@,
                schema@,
                self.table(),
                Seq::empty(),
                self.table().len(),
            );
        }
        let mut errors: Vec<SchemaError> = Vec::new();
        proof {
            lemma_view_members(self.schemas@);
        }
        self.validate_value(data, schema, "", &mut errors, self.schemas.len());
        proof {
            reveal_strlit("");
            assert(""@ =~= Seq::<char>::empty());
            assert(error_views(Seq::<SchemaError>::empty()) =~= Seq::empty());
            assert(error_views(errors@) =~= validation_errors(data@, schema@, self.table()));
        }
        let is_valid = errors.is_empty();
        SchemaValidationResult { is_valid, errors, warnings: Vec::new(), validation_time_ms: 0 }
    }

    /// `required`: one error for each listed name that the object does not hold.
    pub fn validate_required(
        data: &Value,
        keys: &Vec<(String, Value)>,
        path: &str,
        errors: &mut Vec<SchemaError>,
    )
        ensures
            error_views(final(errors)@) == error_views(old(errors)@) + required_errors(
                data@,
                view_members(keys@),
                path@,
            ),
    {
        let ghost before = error_views(errors@);
        if let Some(Value::Array(names)) = find_member(keys, "required") {
            if let Value::Object(members) = data {
                proof {
                    lemma_view_items(names@);
                }
                let mut i: usize = 0;
                while i < names.len()
                    invariant
                        i <= names.len(),
                        view_items(names@).len() == names.len(),
                        error_views(errors@) == before + missing_errors(
                            view_members(members@),
                            view_items(names@),
                            path@,
                            i as nat,
                        ),
                    decreases names.len() - i,
                {
                    proof {
                        lemma_view_items(names@);
                        assert(view_items(names@)[i as int] == names@[i as int]@);
                    }
                    if let Value::String(name) = &names[i] {
                        if find_member(members, name.as_str()).is_none() {
                            let e = make_error(
                                join3(path, ".", name.as_str()),
                                join3("Required field '", name.as_str(), "' is missing"),
                                SchemaErrorType::RequiredFieldMissing,
                                join3("Add the required field '", name.as_str(), "'"),
                            );
                            push_error(errors, e);
                        }
                    }
                    i = i + 1;
                    assert(error_views(errors@) =~= before + missing_errors(
                        view_members(members@),
                        view_items(names@),
                        path@,
                        i as nat,
                    ));
                }
                return ;
            }
        }
        assert(error_views(errors@) =~= before + Seq::empty());
    }

    /// Validates `data` against `schema` and appends what it finds to `errors`.
    ///
    /// A `$ref` to a registered schema is followed while `fuel` lasts; members
    /// and items of `data` are checked with as much fuel as schemas are registered.
    pub fn validate_value(
        &self,
        data: &Value,
        schema: &Value,
        path: &str,
        errors: &mut Vec<SchemaError>,
        fuel: usize,
    )
        ensures
            error_views(final(errors)@) == error_views(old(errors)@) + node_errors(
                data@,
                schema@,
                self.table(),
                path@,
                fuel as nat,
            ),
        decreases data@, fuel, schema@, 0nat,
    {
        let ghost before = error_views(errors@);
        match classify_node(schema, &self.schemas) {
            NodeRef::Reference(name, target) => {
                if fuel == 0 {
                    let e = make_error(
                        owned(path),
                        join3("Reference '", name, "' leads back to itself"),
                        SchemaErrorType::CustomValidationFailed,
                        owned("Break the cycle of references"),
                    );
                    push_error(errors, e);
                } else {
                    self.validate_value(data, target, path, errors, fuel - 1);
                }
            },
            NodeRef::AllOf(subs) => {
                proof {
                    lemma_lookup_decreases(schema@->Object_0, "allOf"@);
                    lemma_view_items(subs@);
                }
                let _ = self.validate_branches(data, subs, path, errors, fuel);
            },
            NodeRef::AnyOf(subs) => {
                proof {
                    lemma_lookup_decreases(schema@->Object_0, "anyOf"@);
                    lemma_view_items(subs@);
                }
                let mut collected: Vec<SchemaError> = Vec::new();
                let clean = self.validate_branches(data, subs, path, &mut collected, fuel);
                if clean == 0 {
                    append_errors(errors, &mut collected);
                    assert(error_views(Seq::<SchemaError>::empty()) =~= Seq::empty());
                } else {
                    assert(error_views(errors@) =~= before + Seq::empty());
                }
            },
            NodeRef::OneOf(subs) => {
                proof {
                    lemma_lookup_decreases(schema@->Object_0, "oneOf"@);
                    lemma_view_items(subs@);
                }
                let mut collected: Vec<SchemaError> = Vec::new();
                let clean = self.validate_branches(data, subs, path, &mut collected, fuel);
                assert(error_views(Seq::<SchemaError>::empty()) =~= Seq::empty());
                if clean == 1 {
                    assert(error_views(errors@) =~= before + Seq::empty());
                } else if !collected.is_empty() {
                    append_errors(errors, &mut collected);
                } else {
                    let e = make_error(
                        owned(path),
                        join3(
                            "Value matches ",
                            decimal_string(clean as u64).as_str(),
                            " of the 'oneOf' schemas",
                        ),
                        SchemaErrorType::CustomValidationFailed,
                        owned("Value should match exactly one of the specified schemas"),
                    );
                    push_error(errors, e);
                }
            },
            NodeRef::Not(inner) => {
                proof {
                    lemma_lookup_decreases(schema@->Object_0, "not"@);
                }
                let mut found: Vec<SchemaError> = Vec::new();
                self.validate_value(data, inner, path, &mut found, fuel);
                assert(error_views(Seq::<SchemaError>::empty()) =~= Seq::empty());
                if found.is_empty() {
                    let e = make_error(
                        owned(path),
                        owned("Value matches 'not' schema"),
                        SchemaErrorType::CustomValidationFailed,
                        owned("Value should not match the specified schema"),
                    );
                    push_error(errors, e);
                } else {
                    assert(error_views(errors@) =~= before + Seq::empty());
                }
            },
            NodeRef::Plain(keys) => {
                self.validate_plain(data, keys, path, errors, fuel);
            },
            NodeRef::Inert => {
                assert(error_views(errors@) =~= before + Seq::empty());
            },
        }
    }

    /// Validates `data` against a plain node with the members `keys`.
    pub fn validate_plain(
        &self,
        data: &Value,
        keys: &Vec<(String, Value)>,
        path: &str,
        errors: &mut Vec<SchemaError>,
        fuel: usize,
    )
        ensures
            error_views(final(errors)@) == error_views(old(errors)@) + plain_errors(
                data@,
                view_members(keys@),
                self.table(),
                path@,
                fuel as nat,
            ),
        decreases data@, fuel, view_members(keys@), 1nat,
    {
        let ghost before = error_views(errors@);
        let ghost ks = view_members(keys@);
        let ghost table = self.table();
        let ghost of_type = type_errors(data@, ks, path@);
        let ghost of_required = required_errors(data@, ks, path@);
        let ghost of_declared = declared_errors(data@, ks, table, path@, fuel as nat);
        let ghost of_undeclared = undeclared_errors(data@, ks, table, path@, fuel as nat);
        let ghost of_elements = element_errors(data@, ks, table, path@, fuel as nat);
        let ghost of_leaves = constraint_errors(data@, ks, path@);
        if let Some(expected) = find_text(keys, "type") {
            Self::validate_type(data, expected.as_str(), path, errors);
        }
        assert(error_views(errors@) =~= before + of_type);
        Self::validate_required(data, keys, path, errors);
        assert(error_views(errors@) =~= before + of_type + of_required);
        self.validate_declared(data, keys, path, errors, fuel);
        assert(error_views(errors@) =~= before + of_type + of_required + of_declared);
        self.validate_undeclared(data, keys, path, errors, fuel);
        assert(error_views(errors@) =~= before + of_type + of_required + of_declared + of_undeclared);
        self.validate_elements(data, keys, path, errors, fuel);
        assert(error_views(errors@) =~= before + of_type + of_required + of_declared + of_undeclared + of_elements);
        Self::validate_constraints(data, keys, path, errors);
        assert(error_views(errors@) =~= before + (of_type + of_required + of_declared + of_undeclared + of_elements + of_leaves));
    }

    fn validate_declared(
        &self,
        data: &Value,
        keys: &Vec<(String, Value)>,
        path: &str,
        errors: &mut Vec<SchemaError>,
        fuel: usize,
    )
        ensures
            error_views(final(errors)@) == error_views(old(errors)@) + declared_errors(
                data@,
                view_members(keys@),
                self.table(),
                path@,
                fuel as nat,
            ),
        decreases data@, fuel, view_members(keys@), 0nat,
    {
        if let Some(Value::Object(props)) = find_member(keys, "properties") {
            if let Value::Object(members) = data {
                proof {
                    assert(data@->Object_0 == view_members(members@));
                    lemma_view_members(props@);
                }
                self.validate_properties(members, props, path, errors);
                return ;
            }
        }
        assert(error_views(errors@) =~= error_views(old(errors)@) + Seq::empty());
    }

    fn validate_undeclared(
        &self,
        data: &Value,
        keys: &Vec<(String, Value)>,
        path: &str,
        errors: &mut Vec<SchemaError>,
        fuel: usize,
    )
        ensures
            error_views(final(errors)@) == error_views(old(errors)@) + undeclared_errors(
                data@,
                view_members(keys@),
                self.table(),
                path@,
                fuel as nat,
            ),
        decreases data@, fuel, view_members(keys@), 0nat,
    {
        if let Some(extra) = find_member(keys, "additionalProperties") {
            if let Some(Value::Object(props)) = find_member(keys, "properties") {
                if let Value::Object(members) = data {
                    proof {
                        assert(data@->Object_0 == view_members(members@));
                        lemma_view_members(members@);
                    }
                    self.validate_additional(members, props, extra, path, errors);
                    return ;
                }
            }
        }
        assert(error_views(errors@) =~= error_views(old(errors)@) + Seq::empty());
    }

    fn validate_elements(
        &self,
        data: &Value,
        keys: &Vec<(String, Value)>,
        path: &str,
        errors: &mut Vec<SchemaError>,
        fuel: usize,
    )
        ensures
            error_views(final(errors)@) == error_views(old(errors)@) + element_errors(
                data@,
                view_members(keys@),
                self.table(),
                path@,
                fuel as nat,
            ),
        decreases data@, fuel, view_members(keys@), 0nat,
    {
        if let Some(items) = find_member(keys, "items") {
            if let Value::Array(elements) = data {
                proof {
                    assert(data@->Array_0 == view_items(elements@));
                    lemma_view_items(elements@);
                }
                self.validate_items(elements, items, path, errors);
                return ;
            }
        }
        assert(error_views(errors@) =~= error_views(old(errors)@) + Seq::empty());
    }

    /// Validates `data` against each of `subs` in turn, appends all errors to
    /// `errors` and counts the branches that gave none.
    pub fn validate_branches(
        &self,
        data: &Value,
        subs: &Vec<Value>,
        path: &str,
        errors: &mut Vec<SchemaError>,
        fuel: usize,
    ) -> (clean: usize)
        ensures
            error_views(final(errors)@) == error_views(old(errors)@) + branch_errors(
                data@,
                view_items(subs@),
                self.table(),
                path@,
                fuel as nat,
                subs.len() as nat,
            ),
            clean == clean_branches(
                data@,
                view_items(subs@),
                self.table(),
                path@,
                fuel as nat,
                subs.len() as nat,
            ),
        decreases data@, fuel, view_items(subs@), 0nat,
    {
        let ghost before = error_views(errors@);
        let mut clean: usize = 0;
        let mut i: usize = 0;
        proof {
            lemma_view_items(subs@);
        }
        while i < subs.len()
            invariant
                i <= subs.len(),
                clean <= i,
                view_items(subs@).len() == subs.len(),
                error_views(errors@) == before + branch_errors(
                    data@,
                    view_items(subs@),
                    self.table(),
                    path@,
                    fuel as nat,
                    i as nat,
                ),
                clean == clean_branches(
                    data@,
                    view_items(subs@),
                    self.table(),
                    path@,
                    fuel as nat,
                    i as nat,
                ),
            decreases subs.len() - i,
        {
            proof {
                lemma_view_items(subs@);
                assert(view_items(subs@)[i as int] == subs@[i as int]@);
            }
            let mut found: Vec<SchemaError> = Vec::new();
            self.validate_value(data, &subs[i], path, &mut found, fuel);
            assert(error_views(Seq::<SchemaError>::empty()) =~= Seq::empty());
            if found.is_empty() {
                clean = clean + 1;
            }
            append_errors(errors, &mut found);
            i = i + 1;
            assert(error_views(errors@) =~= before + branch_errors(
                data@,
                view_items(subs@),
                self.table(),
                path@,
                fuel as nat,
                i as nat,
            ));
        }
        clean
    }

    /// `properties`: each declared property that the object holds is checked
    /// against its schema, under the member's path.
    pub fn validate_properties(
        &self,
        members: &Vec<(String, Value)>,
        props: &Vec<(String, Value)>,
        path: &str,
        errors: &mut Vec<SchemaError>,
    )
        ensures
            error_views(final(errors)@) == error_views(old(errors)@) + property_errors(
                view_members(members@),
                view_members(props@),
                self.table(),
                path@,
                props.len() as nat,
            ),
        decreases view_members(members@), self.table().len(), view_members(props@), 0nat,
    {
        let ghost before = error_views(errors@);
        let mut i: usize = 0;
        proof {
            lemma_view_members(props@);
            lemma_view_members(self.schemas@);
        }
        while i < props.len()
            invariant
                i <= props.len(),
                view_members(props@).len() == props.len(),
                self.table().len() == self.schemas.len(),
                error_views(errors@) == before + property_errors(
                    view_members(members@),
                    view_members(props@),
                    self.table(),
                    path@,
                    i as nat,
                ),
            decreases props.len() - i,
        {
            proof {
                lemma_view_members(props@);
                assert(view_members(props@)[i as int].0 == props@[i as int].0@);
                assert(view_members(props@)[i as int].1 == props@[i as int].1@);
                lemma_lookup_decreases(view_members(members@), props@[i as int].0@);
            }
            if let Some(child) = find_member(members, props[i].0.as_str()) {
                let at = child_path(path, props[i].0.as_str());
                self.validate_value(child, &props[i].1, at.as_str(), errors, self.schemas.len());
            }
            i = i + 1;
            assert(error_views(errors@) =~= before + property_errors(
                view_members(members@),
                view_members(props@),
                self.table(),
                path@,
                i as nat,
            ));
        }
    }

    /// `additionalProperties`: each member that `properties` does not declare
    /// is refused when `extra` is `false`, and checked against `extra` when
    /// that is a schema object.
    pub fn validate_additional(
        &self,
        members: &Vec<(String, Value)>,
        props: &Vec<(String, Value)>,
        extra: &Value,
        path: &str,
        errors: &mut Vec<SchemaError>,
    )
        ensures
            error_views(final(errors)@) == error_views(old(errors)@) + additional_errors(
                view_members(members@),
                view_members(props@),
                extra@,
                self.table(),
                path@,
                members.len() as nat,
            ),
        decreases view_members(members@), self.table().len(), extra@, 0nat,
    {
        let ghost before = error_views(errors@);
        let mut i: usize = 0;
        proof {
            lemma_view_members(members@);
            lemma_view_members(self.schemas@);
        }
        while i < members.len()
            invariant
                i <= members.len(),
                view_members(members@).len() == members.len(),
                self.table().len() == self.schemas.len(),
                error_views(errors@) == before + additional_errors(
                    view_members(members@),
                    view_members(props@),
                    extra@,
                    self.table(),
                    path@,
                    i as nat,
                ),
            decreases members.len() - i,
        {
            proof {
                lemma_view_members(members@);
                assert(view_members(members@)[i as int].0 == members@[i as int].0@);
                assert(view_members(members@)[i as int].1 == members@[i as int].1@);
            }
            let key = members[i].0.as_str();
            if find_member(props, key).is_none() {
                match extra {
                    Value::Boolean(false) => {
                        let e = make_error(
                            join3(path, ".", key),
                            join3("Additional property '", key, "' is not allowed"),
                            SchemaErrorType::ObjectConstraintViolation,
                            owned("Remove the additional property or update the schema"),
                        );
                        push_error(errors, e);
                    },
                    Value::Object(_) => {
                        let at = join3(path, ".", key);
                        self.validate_value(&members[i].1, extra, at.as_str(), errors, self.schemas.len());
                    },
                    _ => {},
                }
            }
            i = i + 1;
            assert(error_views(errors@) =~= before + additional_errors(
                view_members(members@),
                view_members(props@),
                extra@,
                self.table(),
                path@,
                i as nat,
            ));
        }
    }

    /// `items`: each item of the array is checked against the one schema,
    /// under the item's path.
    pub fn validate_items(
        &self,
        elements: &Vec<Value>,
        items: &Value,
        path: &str,
        errors: &mut Vec<SchemaError>,
    )
        ensures
            error_views(final(errors)@) == error_views(old(errors)@) + item_errors(
                view_items(elements@),
                items@,
                self.table(),
                path@,
                elements.len() as nat,
            ),
        decreases view_items(elements@), self.table().len(), items@, 0nat,
    {
        let ghost before = error_views(errors@);
        let mut i: usize = 0;
        proof {
            lemma_view_items(elements@);
            lemma_view_members(self.schemas@);
        }
        while i < elements.len()
            invariant
                i <= elements.len(),
                view_items(elements@).len() == elements.len(),
                self.table().len() == self.schemas.len(),
                error_views(errors@) == before + item_errors(
                    view_items(elements@),
                    items@,
                    self.table(),
                    path@,
                    i as nat,
                ),
            decreases elements.len() - i,
        {
            proof {
                lemma_view_items(elements@);
                assert(view_items(elements@)[i as int] == elements@[i as int]@);
            }
            let at = index_path(path, i);
            self.validate_value(&elements[i], items, at.as_str(), errors, self.schemas.len());
            i = i + 1;
            assert(error_views(errors@) =~= before + item_errors(
                view_items(elements@),
                items@,
                self.table(),
                path@,
                i as nat,
            ));
        }
    }
}

} // verus!
