//! A document whose objects name each member once is the same value as itself.

use vstd::prelude::*;
use crate::value::{items_same, json_same, lemma_lookup, lookup, members_same, Json};

verus! {

/// Whether no two members bear the same name.
pub open spec fn distinct_names(members: Seq<(Seq<char>, Json)>) -> bool {
    forall|i: int, j: int|
        0 <= i < j < members.len() ==> (#[trigger] members[i]).0 != (#[trigger] members[j]).0
}

/// Whether every object of the document names each of its members once.
pub open spec fn well_keyed(j: Json) -> bool
    decreases j,
{
    match j {
        Json::Array(items) => forall|i: int| 0 <= i < items.len() ==> well_keyed(#[trigger] items[i]),
        Json::Object(members) => distinct_names(members) && forall|i: int|
            0 <= i < members.len() ==> well_keyed((#[trigger] members[i]).1),
        _ => true,
    }
}

/// A document whose objects name each member once is the same value as itself.
pub proof fn lemma_same_as_itself(a: Json)
    requires
        well_keyed(a),
    ensures
        json_same(a, a),
    decreases a, 0nat,
{
    match a {
        Json::Array(items) => {
            lemma_items_same_as_themselves(items, items.len());
        },
        Json::Object(members) => {
            lemma_members_same_as_themselves(members, members.len());
        },
        _ => {},
    }
}

proof fn lemma_items_same_as_themselves(items: Seq<Json>, n: nat)
    requires
        n <= items.len(),
        forall|i: int| 0 <= i < items.len() ==> well_keyed(#[trigger] items[i]),
    ensures
        items_same(items, items, n),
    decreases items, n,
{
    if n > 0 {
        lemma_items_same_as_themselves(items, (n - 1) as nat);
        lemma_same_as_itself(items[n - 1]);
    }
}

proof fn lemma_members_same_as_themselves(members: Seq<(Seq<char>, Json)>, n: nat)
    requires
        n <= members.len(),
        distinct_names(members),
        forall|i: int| 0 <= i < members.len() ==> well_keyed((#[trigger] members[i]).1),
    ensures
        members_same(members, members, n),
    decreases members, n,
{
    if n > 0 {
        lemma_members_same_as_themselves(members, (n - 1) as nat);
        lemma_lookup(members, members[n - 1].0);
        assert(lookup(members, members[n - 1].0) == Some(members[n - 1].1));
        lemma_same_as_itself(members[n - 1].1);
    }
}

} // verus!
