//! What validation without an error says about the document, and how the
//! combinators `not` and `oneOf` relate the results of their branches.

use vstd::prelude::*;
use crate::value::{lookup, Json};
use crate::validation::conformance::{
    conforms, leaves_met, lemma_clean_iff_conforms, plain_conforms, required_met, type_met,
};
use crate::validation::schema::{
    branch_errors, classify, clean_branches, node_errors, Members, Node,
};

verus! {

/// The keys that decide the kind of a schema node are five different texts.
pub proof fn lemma_keys_differ()
    ensures
        "$ref"@ != "allOf"@,
        "$ref"@ != "anyOf"@,
        "$ref"@ != "oneOf"@,
        "$ref"@ != "not"@,
        "allOf"@ != "anyOf"@,
        "allOf"@ != "oneOf"@,
        "allOf"@ != "not"@,
        "anyOf"@ != "oneOf"@,
        "anyOf"@ != "not"@,
        "oneOf"@ != "not"@,
{
    reveal_strlit("$ref");
    reveal_strlit("allOf");
    reveal_strlit("anyOf");
    reveal_strlit("oneOf");
    reveal_strlit("not");
    assert("allOf"@[1] == 'l');
    assert("anyOf"@[1] == 'n');
    assert("oneOf"@[1] == 'n');
    assert("anyOf"@[0] == 'a');
    assert("oneOf"@[0] == 'o');
    assert("$ref"@.len() == 4);
    assert("not"@.len() == 3);
    assert("allOf"@.len() == 5);
    assert("anyOf"@.len() == 5);
    assert("oneOf"@.len() == 5);
}

/// The schema `{"not": inner}`.
pub open spec fn not_schema(inner: Json) -> Json {
    Json::Object(seq![("not"@, inner)])
}

/// The schema `{"oneOf": [first, second]}`.
pub open spec fn one_of_schema(first: Json, second: Json) -> Json {
    Json::Object(seq![("oneOf"@, Json::Array(seq![first, second]))])
}

/// A document is clean against `{"not": S}` exactly when it is not clean against `S`.
pub proof fn lemma_not_inverts(data: Json, inner: Json, table: Members, path: Seq<char>, fuel: nat)
    ensures
        node_errors(data, not_schema(inner), table, path, fuel).len() == 0 <==> node_errors(
            data,
            inner,
            table,
            path,
            fuel,
        ).len() != 0,
{
    lemma_keys_differ();
    let keys = seq![("not"@, inner)];
    reveal_with_fuel(crate::value::first_index, 2);
    assert(lookup(keys, "$ref"@) is None);
    assert(lookup(keys, "allOf"@) is None);
    assert(lookup(keys, "anyOf"@) is None);
    assert(lookup(keys, "oneOf"@) is None);
    assert(lookup(keys, "not"@) == Some(inner));
    assert(classify(not_schema(inner), table) == Node::Not(inner));
}

/// A document is clean against `{"oneOf": [S1, S2]}` exactly when it is clean
/// against one of `S1` and `S2` and not against the other.
pub proof fn lemma_one_of_two(
    data: Json,
    first: Json,
    second: Json,
    table: Members,
    path: Seq<char>,
    fuel: nat,
)
    ensures
        node_errors(data, one_of_schema(first, second), table, path, fuel).len() == 0 <==> ((
            node_errors(data, first, table, path, fuel).len() == 0) != (node_errors(
            data,
            second,
            table,
            path,
            fuel,
        ).len() == 0)),
{
    lemma_keys_differ();
    let subs = seq![first, second];
    let keys = seq![("oneOf"@, Json::Array(subs))];
    reveal_with_fuel(crate::value::first_index, 2);
    assert(lookup(keys, "$ref"@) is None);
    assert(lookup(keys, "allOf"@) is None);
    assert(lookup(keys, "anyOf"@) is None);
    assert(lookup(keys, "oneOf"@) == Some(Json::Array(subs)));
    assert(classify(one_of_schema(first, second), table) == Node::OneOf(subs));
    assert(subs[0] == first && subs[1] == second);
    let c1: nat = if node_errors(data, first, table, path, fuel).len() == 0 {
        1
    } else {
        0
    };
    let c2: nat = if node_errors(data, second, table, path, fuel).len() == 0 {
        1
    } else {
        0
    };
    assert(clean_branches(data, subs, table, path, fuel, 0) == 0);
    assert(clean_branches(data, subs, table, path, fuel, 1) == c1);
    assert(clean_branches(data, subs, table, path, fuel, 2) == c1 + c2);
    let all = node_errors(data, one_of_schema(first, second), table, path, fuel);
    assert(all == crate::validation::schema::one_of_errors(
        path,
        c1 + c2,
        branch_errors(data, subs, table, path, fuel, 2),
    ));
}

/// Where no branch of `oneOf` is clean and there is a branch, the errors are
/// those of the branches, one branch after the other, and nothing else.
pub proof fn lemma_one_of_none_clean(data: Json, schema: Json, table: Members, path: Seq<char>, fuel: nat)
    requires
        classify(schema, table) is OneOf,
        classify(schema, table)->OneOf_0.len() > 0,
        clean_branches(
            data,
            classify(schema, table)->OneOf_0,
            table,
            path,
            fuel,
            classify(schema, table)->OneOf_0.len(),
        ) == 0,
    ensures
        node_errors(data, schema, table, path, fuel) == branch_errors(
            data,
            classify(schema, table)->OneOf_0,
            table,
            path,
            fuel,
            classify(schema, table)->OneOf_0.len(),
        ),
{
    let subs = classify(schema, table)->OneOf_0;
    lemma_some_branch_fails(data, subs, table, path, fuel, subs.len());
}

/// Branches of which none is clean give an error, if there is a branch.
proof fn lemma_some_branch_fails(
    data: Json,
    subs: Seq<Json>,
    table: Members,
    path: Seq<char>,
    fuel: nat,
    n: nat,
)
    requires
        0 < n <= subs.len(),
        clean_branches(data, subs, table, path, fuel, n) == 0,
    ensures
        branch_errors(data, subs, table, path, fuel, n).len() > 0,
    decreases n,
{
    if n > 1 {
        lemma_some_branch_fails(data, subs, table, path, fuel, (n - 1) as nat);
    }
}

/// A document without an error meets the schema: where the schema is a plain
/// node, the document is of the declared type, holds every member that
/// `required` names, meets every leaf constraint of its kind, and its
/// members and items meet the schemas given for them, so that the same holds
/// of each of them in turn.
pub proof fn lemma_clean_is_sound(data: Json, schema: Json, table: Members, path: Seq<char>, fuel: nat)
    requires
        node_errors(data, schema, table, path, fuel).len() == 0,
    ensures
        conforms(data, schema, table, fuel),
        classify(schema, table) matches Node::Plain(keys) ==> {
            &&& type_met(data, keys)
            &&& required_met(data, keys)
            &&& leaves_met(data, keys)
            &&& plain_conforms(data, keys, table, fuel)
        },
{
    lemma_clean_iff_conforms(data, schema, table, path, fuel);
    match classify(schema, table) {
        Node::Plain(keys) => {
            assert(conforms(data, schema, table, fuel) == plain_conforms(data, keys, table, fuel));
            assert(plain_conforms(data, keys, table, fuel) ==> type_met(data, keys) && required_met(
                data,
                keys,
            ) && leaves_met(data, keys));
        },
        _ => {},
    }
}

/// Whether a document is without an error does not depend on the path that
/// its errors would be reported under.
pub proof fn lemma_paths_do_not_matter(
    data: Json,
    schema: Json,
    table: Members,
    path: Seq<char>,
    other: Seq<char>,
    fuel: nat,
)
    ensures
        (node_errors(data, schema, table, path, fuel).len() == 0) == (node_errors(
            data,
            schema,
            table,
            other,
            fuel,
        ).len() == 0),
{
    lemma_clean_iff_conforms(data, schema, table, path, fuel);
    lemma_clean_iff_conforms(data, schema, table, other, fuel);
}

} // verus!
