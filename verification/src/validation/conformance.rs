//! What it means for a document to meet a schema, said without regard to the
//! errors that validation reports, and the proof that validation reports no
//! error exactly for the documents that meet the schema.

use vstd::prelude::*;
use crate::number::Decimal;
use crate::pattern::match_outcome;
use crate::value::{has_key, index_of_key, lemma_lookup, lookup, Json};
use crate::validation::schema::{
    additional_errors, array_errors, bound_of, branch_errors, classify, clean_branches,
    constraint_errors, declared_errors, element_errors, item_errors, item_path, dotted_path,
    lemma_lookup_decreases, member_path, missing_errors, node_errors, number_errors,
    plain_errors, property_errors, required_errors, string_errors, text_of_key, type_errors,
    undeclared_errors, Members, Node,
};

verus! {

/// `type`: the value is of the kind that the schema names.
pub open spec fn type_met(data: Json, keys: Members) -> bool {
    match text_of_key(keys, "type"@) {
        Some(expected) => data.kind_name() == expected,
        None => true,
    }
}

/// `required`: an object holds every member that the array names.
pub open spec fn required_met(data: Json, keys: Members) -> bool {
    match (lookup(keys, "required"@), data) {
        (Some(Json::Array(names)), Json::Object(members)) => forall|i: int|
            0 <= i < names.len() && (#[trigger] names[i]) is String ==> has_key(
                members,
                names[i]->String_0,
            ),
        _ => true,
    }
}

/// The leaf constraints: a text is within `minLength` and `maxLength`
/// characters and matches `pattern` where that is a regular expression, a
/// number lies within `minimum` and `maximum`, an array holds between
/// `minItems` and `maxItems` items. A bound on a length or on a number of
/// items counts only where it is a whole number that is not negative.
pub open spec fn leaves_met(data: Json, keys: Members) -> bool {
    match data {
        Json::String(text) => {
            &&& match bound_of(keys, "minLength"@) {
                Some(bound) => !bound.above_count(text.len()),
                None => true,
            }
            &&& match bound_of(keys, "maxLength"@) {
                Some(bound) => !bound.under_count(text.len()),
                None => true,
            }
            &&& match text_of_key(keys, "pattern"@) {
                Some(pattern) => match_outcome(pattern, text) != Some(false),
                None => true,
            }
        },
        Json::Number(value) => {
            &&& match bound_of(keys, "minimum"@) {
                Some(bound) => !value.lt(bound),
                None => true,
            }
            &&& match bound_of(keys, "maximum"@) {
                Some(bound) => !bound.lt(value),
                None => true,
            }
        },
        Json::Array(items) => {
            &&& match bound_of(keys, "minItems"@) {
                Some(bound) => !bound.above_count(items.len()),
                None => true,
            }
            &&& match bound_of(keys, "maxItems"@) {
                Some(bound) => !bound.under_count(items.len()),
                None => true,
            }
        },
        _ => true,
    }
}

/// Whether `data` meets `schema`.
///
/// A resolved `$ref` stands for the schema it names; `allOf` asks for every
/// branch, `anyOf` for some branch unless there is none, `oneOf` for exactly
/// one, `not` for the contrary of its schema; a plain node asks for what its
/// own keys say.
/// `fuel` is the number of references that may be followed before a member
/// or an item of `data` is reached.
pub open spec fn conforms(data: Json, schema: Json, table: Members, fuel: nat) -> bool
    decreases data, fuel, schema, 0nat,
{
    match classify(schema, table) {
        Node::Reference(name) => fuel > 0 && conforms(
            data,
            lookup(table, name)->0,
            table,
            (fuel - 1) as nat,
        ),
        Node::AllOf(subs) => {
            proof {
                lemma_lookup_decreases(schema->Object_0, "allOf"@);
            }
            forall|i: int| 0 <= i < subs.len() ==> conforms(data, #[trigger] subs[i], table, fuel)
        },
        Node::AnyOf(subs) => {
            proof {
                lemma_lookup_decreases(schema->Object_0, "anyOf"@);
            }
            subs.len() == 0 || exists|i: int|
                0 <= i < subs.len() && conforms(data, #[trigger] subs[i], table, fuel)
        },
        Node::OneOf(subs) => {
            proof {
                lemma_lookup_decreases(schema->Object_0, "oneOf"@);
            }
            met_branches(data, subs, table, fuel, subs.len()) == 1
        },
        Node::Not(inner) => {
            proof {
                lemma_lookup_decreases(schema->Object_0, "not"@);
            }
            !conforms(data, inner, table, fuel)
        },
        Node::Plain(keys) => plain_conforms(data, keys, table, fuel),
        Node::Inert => true,
    }
}

/// How many of the first `n` of `subs` the value meets.
pub open spec fn met_branches(data: Json, subs: Seq<Json>, table: Members, fuel: nat, n: nat) -> nat
    decreases data, fuel, subs, n,
{
    if n == 0 || n > subs.len() {
        0
    } else {
        met_branches(data, subs, table, fuel, (n - 1) as nat) + (if conforms(
            data,
            subs[n - 1],
            table,
            fuel,
        ) {
            1nat
        } else {
            0nat
        })
    }
}

/// Whether `data` meets a plain node with the members `keys`.
pub open spec fn plain_conforms(data: Json, keys: Members, table: Members, fuel: nat) -> bool
    decreases data, fuel, keys, 1nat,
{
    &&& type_met(data, keys)
    &&& required_met(data, keys)
    &&& leaves_met(data, keys)
    &&& match (lookup(keys, "properties"@), data) {
        (Some(Json::Object(props)), Json::Object(members)) => {
            proof {
                lemma_lookup_decreases(keys, "properties"@);
            }
            forall|i: int, j: int|
                0 <= i < props.len() && 0 <= j < members.len() && index_of_key(
                    members,
                    (#[trigger] props[i]).0,
                ) == Some(j) ==> conforms((#[trigger] members[j]).1, props[i].1, table, table.len())
        },
        _ => true,
    }
    &&& match (lookup(keys, "additionalProperties"@), lookup(keys, "properties"@), data) {
        (Some(extra), Some(Json::Object(props)), Json::Object(members)) => {
            proof {
                lemma_lookup_decreases(keys, "additionalProperties"@);
            }
            forall|j: int|
                0 <= j < members.len() && !has_key(props, (#[trigger] members[j]).0) ==> extra
                    != Json::Boolean(false) && (extra is Object ==> conforms(
                    members[j].1,
                    extra,
                    table,
                    table.len(),
                ))
        },
        _ => true,
    }
    &&& match (lookup(keys, "items"@), data) {
        (Some(items), Json::Array(elements)) => {
            proof {
                lemma_lookup_decreases(keys, "items"@);
            }
            forall|i: int|
                0 <= i < elements.len() ==> conforms(#[trigger] elements[i], items, table, table.len())
        },
        _ => true,
    }
}

/// No name of `required` is reported missing exactly when the object holds them all.
pub proof fn lemma_missing_none(members: Members, names: Seq<Json>, path: Seq<char>, n: nat)
    requires
        n <= names.len(),
    ensures
        (missing_errors(members, names, path, n).len() == 0) == (forall|i: int|
            0 <= i < n && (#[trigger] names[i]) is String ==> has_key(members, names[i]->String_0)),
    decreases n,
{
    if n > 0 {
        lemma_missing_none(members, names, path, (n - 1) as nat);
    }
}

/// The leaf constraints report nothing exactly when the value meets them.
pub proof fn lemma_leaves(data: Json, keys: Members, path: Seq<char>)
    ensures
        (constraint_errors(data, keys, path).len() == 0) == leaves_met(data, keys),
{
}

/// Validation reports no error exactly for the documents that meet the
/// schema; where the error is reported plays no part in it.
pub proof fn lemma_clean_iff_conforms(data: Json, schema: Json, table: Members, path: Seq<char>, fuel: nat)
    ensures
        (node_errors(data, schema, table, path, fuel).len() == 0) == conforms(
            data,
            schema,
            table,
            fuel,
        ),
    decreases data, fuel, schema, 0nat,
{
    match classify(schema, table) {
        Node::Reference(name) => {
            if fuel > 0 {
                lemma_clean_iff_conforms(
                    data,
                    lookup(table, name)->0,
                    table,
                    path,
                    (fuel - 1) as nat,
                );
            }
        },
        Node::AllOf(subs) => {
            lemma_lookup_decreases(schema->Object_0, "allOf"@);
            lemma_branches(data, subs, table, path, fuel, subs.len());
        },
        Node::AnyOf(subs) => {
            lemma_lookup_decreases(schema->Object_0, "anyOf"@);
            lemma_branches(data, subs, table, path, fuel, subs.len());
        },
        Node::OneOf(subs) => {
            lemma_lookup_decreases(schema->Object_0, "oneOf"@);
            lemma_branches(data, subs, table, path, fuel, subs.len());
        },
        Node::Not(inner) => {
            lemma_lookup_decreases(schema->Object_0, "not"@);
            lemma_clean_iff_conforms(data, inner, table, path, fuel);
        },
        Node::Plain(keys) => {
            lemma_plain(data, keys, table, path, fuel);
        },
        Node::Inert => {},
    }
}

/// The branches report what the value does not meet: no error exactly when
/// it meets them all, and as many clean branches as branches that it meets.
pub proof fn lemma_branches(
    data: Json,
    subs: Seq<Json>,
    table: Members,
    path: Seq<char>,
    fuel: nat,
    n: nat,
)
    requires
        n <= subs.len(),
    ensures
        (branch_errors(data, subs, table, path, fuel, n).len() == 0) == (forall|i: int|
            0 <= i < n ==> conforms(data, #[trigger] subs[i], table, fuel)),
        clean_branches(data, subs, table, path, fuel, n) == met_branches(
            data,
            subs,
            table,
            fuel,
            n,
        ),
        (clean_branches(data, subs, table, path, fuel, n) > 0) == (exists|i: int|
            0 <= i < n && conforms(data, #[trigger] subs[i], table, fuel)),
    decreases data, fuel, subs, n,
{
    if n > 0 {
        lemma_branches(data, subs, table, path, fuel, (n - 1) as nat);
        lemma_clean_iff_conforms(data, subs[n - 1], table, path, fuel);
        let last = conforms(data, subs[n - 1], table, fuel);
        if clean_branches(data, subs, table, path, fuel, n) > 0 {
            if last {
                assert(0 <= n - 1 < n && conforms(data, subs[n - 1], table, fuel));
            } else {
                let i = choose|i: int|
                    0 <= i < n - 1 && conforms(data, #[trigger] subs[i], table, fuel);
                assert(0 <= i < n && conforms(data, subs[i], table, fuel));
            }
        }
    }
}

/// A plain node reports no error exactly when the value meets it.
pub proof fn lemma_plain(data: Json, keys: Members, table: Members, path: Seq<char>, fuel: nat)
    ensures
        (plain_errors(data, keys, table, path, fuel).len() == 0) == plain_conforms(
            data,
            keys,
            table,
            fuel,
        ),
    decreases data, fuel, keys, 1nat,
{
    lemma_leaves(data, keys, path);
    match (lookup(keys, "required"@), data) {
        (Some(Json::Array(names)), Json::Object(members)) => {
            lemma_missing_none(members, names, path, names.len());
        },
        _ => {},
    }
    match (lookup(keys, "properties"@), data) {
        (Some(Json::Object(props)), Json::Object(members)) => {
            lemma_lookup_decreases(keys, "properties"@);
            lemma_properties(members, props, table, path, props.len());
        },
        _ => {},
    }
    match (lookup(keys, "additionalProperties"@), lookup(keys, "properties"@), data) {
        (Some(extra), Some(Json::Object(props)), Json::Object(members)) => {
            lemma_lookup_decreases(keys, "additionalProperties"@);
            lemma_additional(members, props, extra, table, path, members.len());
        },
        _ => {},
    }
    match (lookup(keys, "items"@), data) {
        (Some(items), Json::Array(elements)) => {
            lemma_lookup_decreases(keys, "items"@);
            lemma_items(elements, items, table, path, elements.len());
        },
        _ => {},
    }
    let of_type = type_errors(data, keys, path);
    let of_required = required_errors(data, keys, path);
    let of_declared = declared_errors(data, keys, table, path, fuel);
    let of_undeclared = undeclared_errors(data, keys, table, path, fuel);
    let of_elements = element_errors(data, keys, table, path, fuel);
    let of_leaves = constraint_errors(data, keys, path);
    assert(plain_errors(data, keys, table, path, fuel) == of_type + of_required + of_declared + of_undeclared + of_elements + of_leaves);
    assert((of_type + of_required + of_declared + of_undeclared + of_elements + of_leaves).len() == of_type.len() + of_required.len() + of_declared.len() + of_undeclared.len()
        + of_elements.len() + of_leaves.len());
}

/// `properties` reports no error exactly when each declared property that
/// the object holds meets its schema.
pub proof fn lemma_properties(
    members: Members,
    props: Members,
    table: Members,
    path: Seq<char>,
    n: nat,
)
    requires
        n <= props.len(),
    ensures
        (property_errors(members, props, table, path, n).len() == 0) == (forall|i: int, j: int|
            0 <= i < n && 0 <= j < members.len() && index_of_key(
                members,
                (#[trigger] props[i]).0,
            ) == Some(j) ==> conforms((#[trigger] members[j]).1, props[i].1, table, table.len())),
    decreases members, table.len(), props, n,
{
    if n > 0 {
        lemma_properties(members, props, table, path, (n - 1) as nat);
        let key = props[n - 1].0;
        lemma_lookup(members, key);
        lemma_lookup_decreases(members, key);
        match index_of_key(members, key) {
            Some(j) => {
                lemma_clean_iff_conforms(
                    members[j].1,
                    props[n - 1].1,
                    table,
                    member_path(path, key),
                    table.len(),
                );
                let here = conforms(members[j].1, props[n - 1].1, table, table.len());
                if property_errors(members, props, table, path, n).len() == 0 {
                    assert forall|i: int, k: int|
                        0 <= i < n && 0 <= k < members.len() && index_of_key(
                            members,
                            (#[trigger] props[i]).0,
                        ) == Some(k) implies conforms(
                        (#[trigger] members[k]).1,
                        props[i].1,
                        table,
                        table.len(),
                    ) by {
                        if i == n - 1 {
                            assert(k == j);
                        }
                    }
                } else if property_errors(members, props, table, path, (n - 1) as nat).len()
                    == 0 {
                    assert(!here);
                    assert(0 <= n - 1 < n && 0 <= j < members.len() && index_of_key(
                        members,
                        props[n - 1].0,
                    ) == Some(j) && !conforms(members[j].1, props[n - 1].1, table, table.len()));
                }
            },
            None => {},
        }
    }
}

/// `additionalProperties` reports no error exactly when no undeclared member
/// stands under `false` and each one meets a schema object.
pub proof fn lemma_additional(
    members: Members,
    props: Members,
    extra: Json,
    table: Members,
    path: Seq<char>,
    n: nat,
)
    requires
        n <= members.len(),
    ensures
        (additional_errors(members, props, extra, table, path, n).len() == 0) == (forall|j: int|
            0 <= j < n && !has_key(props, (#[trigger] members[j]).0) ==> extra != Json::Boolean(
                false,
            ) && (extra is Object ==> conforms(members[j].1, extra, table, table.len()))),
    decreases members, table.len(), extra, n,
{
    if n > 0 {
        lemma_additional(members, props, extra, table, path, (n - 1) as nat);
        if extra is Object {
            lemma_clean_iff_conforms(
                members[n - 1].1,
                extra,
                table,
                dotted_path(path, members[n - 1].0),
                table.len(),
            );
        }
        if additional_errors(members, props, extra, table, path, n).len() != 0
            && additional_errors(members, props, extra, table, path, (n - 1) as nat).len() == 0 {
            assert(0 <= n - 1 < n && !has_key(props, members[n - 1].0));
        }
    }
}

/// `items` reports no error exactly when each item meets the item schema.
pub proof fn lemma_items(elements: Seq<Json>, items: Json, table: Members, path: Seq<char>, n: nat)
    requires
        n <= elements.len(),
    ensures
        (item_errors(elements, items, table, path, n).len() == 0) == (forall|i: int|
            0 <= i < n ==> conforms(#[trigger] elements[i], items, table, table.len())),
    decreases elements, table.len(), items, n,
{
    if n > 0 {
        lemma_items(elements, items, table, path, (n - 1) as nat);
        lemma_clean_iff_conforms(
            elements[n - 1],
            items,
            table,
            item_path(path, (n - 1) as nat),
            table.len(),
        );
    }
}

} // verus!
