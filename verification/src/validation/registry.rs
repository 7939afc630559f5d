//! The schema registry: schemas by name and version, with their history,
//! tags and dependencies.

use vstd::prelude::*;
use crate::error::{Error, ErrorView};
use crate::text::{contains_text, has_subtext, join2, join3, join5, list_contains, owned, same_text, texts};
use crate::validation::schema::{is_schema_shaped, shape_complaint, SchemaValidator};
use crate::value::{find_member, lemma_view_items, lemma_view_members, view_items, view_members, Json, Value};

verus! {

/// Kinds of registry errors.
#[derive(Debug, Clone, Copy, PartialEq, Eq, Structural)]
pub enum RegistryErrorType {
    SchemaNotFound,
    VersionNotFound,
    DuplicateSchema,
    InvalidSchema,
    DependencyNotFound,
    CircularDependency,
    AccessDenied,
    ValidationFailed,
}

/// A registry error with its kind.
#[derive(Debug, Clone)]
pub struct SchemaRegistryError {
    pub error_type: RegistryErrorType,
    pub message: String,
    pub suggestion: Option<String>,
}

/// Counts over the registry.
#[derive(Debug, Clone)]
pub struct RegistryStatistics {
    pub total_schemas: usize,
    pub total_versions: usize,
    pub deprecated_count: usize,
    pub tag_count: usize,
    pub schema_names: Vec<String>,
}

/// The content of a registered schema's metadata.
pub struct MetadataView {
    pub name: Seq<char>,
    pub version: Seq<char>,
    pub schema: Json,
    pub description: Option<Seq<char>>,
    pub tags: Seq<Seq<char>>,
    pub created_at: i64,
    pub updated_at: i64,
    pub author: Option<Seq<char>>,
    pub dependencies: Seq<Seq<char>>,
    pub is_deprecated: bool,
}

/// A schema with what the registry keeps about it. Times are given by the
/// caller, in the unit and from the epoch the caller chooses.
#[derive(Debug, Clone)]
pub struct SchemaMetadata {
    pub name: String,
    pub version: String,
    pub schema: Value,
    pub description: Option<String>,
    pub tags: Vec<String>,
    pub created_at: i64,
    pub updated_at: i64,
    pub author: Option<String>,
    pub dependencies: Vec<String>,
    pub is_deprecated: bool,
}

impl View for SchemaMetadata {
    type V = MetadataView;

    open spec fn view(&self) -> MetadataView {
        MetadataView {
            name: self.name@,
            version: self.version@,
            schema: self.schema@,
            description: match self.description {
                Some(s) => Some(s@),
                None => None,
            },
            tags: texts(self.tags@),
            created_at: self.created_at,
            updated_at: self.updated_at,
            author: match self.author {
                Some(s) => Some(s@),
                None => None,
            },
            dependencies: texts(self.dependencies@),
            is_deprecated: self.is_deprecated,
        }
    }
}

/// The content of one entry of a schema's version history.
pub struct VersionView {
    pub version: Seq<char>,
    pub schema: Json,
    pub created_at: i64,
    pub is_current: bool,
    pub changelog: Option<Seq<char>>,
}

/// One entry of a schema's version history: the schema as it was registered.
#[derive(Debug, Clone)]
pub struct SchemaVersion {
    pub version: String,
    pub schema: Value,
    pub created_at: i64,
    pub is_current: bool,
    pub changelog: Option<String>,
}

impl View for SchemaVersion {
    type V = VersionView;

    open spec fn view(&self) -> VersionView {
        VersionView {
            version: self.version@,
            schema: self.schema@,
            created_at: self.created_at,
            is_current: self.is_current,
            changelog: match self.changelog {
                Some(s) => Some(s@),
                None => None,
            },
        }
    }
}

/// The content of what the registry holds for one registered schema.
pub struct RecordView {
    pub metadata: MetadataView,
    pub history: VersionView,
}

/// What the registry holds for one registered schema: its metadata, and its
/// entry in the version history of its name.
pub struct Record {
    metadata: SchemaMetadata,
    history: SchemaVersion,
}

impl View for Record {
    type V = RecordView;

    closed spec fn view(&self) -> RecordView {
        RecordView { metadata: self.metadata@, history: self.history@ }
    }
}

/// The content of each record, in order.
pub closed spec fn record_views(records: Seq<Record>) -> Seq<RecordView> {
    Seq::new(records.len(), |i: int| records[i]@)
}

/// The history entry that registration makes for a schema.
pub open spec fn first_history(m: MetadataView) -> VersionView {
    VersionView {
        version: m.version,
        schema: m.schema,
        created_at: m.created_at,
        is_current: true,
        changelog: None,
    }
}

/// Position of the first of the first `n` records with this name and version.
pub open spec fn entry_index(records: Seq<RecordView>, name: Seq<char>, version: Seq<char>, n: nat) -> Option<
    int,
>
    decreases n,
{
    if n == 0 || n > records.len() {
        None
    } else {
        match entry_index(records, name, version, (n - 1) as nat) {
            Some(i) => Some(i),
            None => if records[n - 1].metadata.name == name && records[n - 1].metadata.version
                == version {
                Some(n - 1)
            } else {
                None
            },
        }
    }
}

/// Position of the last of the first `n` records with this name: the version
/// of the name that was registered last.
pub open spec fn latest_index(records: Seq<RecordView>, name: Seq<char>, n: nat) -> Option<int>
    decreases n,
{
    if n == 0 || n > records.len() {
        None
    } else if records[n - 1].metadata.name == name {
        Some(n - 1)
    } else {
        latest_index(records, name, (n - 1) as nat)
    }
}

/// Position of the first of the first `n` dependencies that no record bears the name of.
pub open spec fn missing_dependency(records: Seq<RecordView>, dependencies: Seq<Seq<char>>, n: nat) -> Option<
    int,
>
    decreases n,
{
    if n == 0 || n > dependencies.len() {
        None
    } else {
        match missing_dependency(records, dependencies, (n - 1) as nat) {
            Some(i) => Some(i),
            None => if latest_index(records, dependencies[n - 1], records.len()) is None {
                Some(n - 1)
            } else {
                None
            },
        }
    }
}

pub open spec fn already_exists(name: Seq<char>, version: Seq<char>) -> Seq<char> {
    "Schema '"@ + name + "' version '"@ + version + "' already exists"@
}

pub open spec fn version_not_found(name: Seq<char>, version: Seq<char>) -> Seq<char> {
    "Schema '"@ + name + "' version '"@ + version + "' not found"@
}

pub open spec fn schema_not_found(name: Seq<char>) -> Seq<char> {
    "Schema '"@ + name + "' not found"@
}

pub open spec fn dependency_not_found(name: Seq<char>) -> Seq<char> {
    "Dependency '"@ + name + "' not found"@
}

/// Why a schema cannot be registered, if it cannot: its document is not
/// shaped as a schema, its name and version are taken, or one of its
/// dependencies is not registered, in this order.
pub open spec fn registration_complaint(records: Seq<RecordView>, m: MetadataView) -> Option<Seq<char>> {
    if !is_schema_shaped(m.schema) {
        Some(shape_complaint(m.schema))
    } else if entry_index(records, m.name, m.version, records.len()) is Some {
        Some(already_exists(m.name, m.version))
    } else {
        match missing_dependency(records, m.dependencies, m.dependencies.len()) {
            Some(i) => Some(dependency_not_found(m.dependencies[i])),
            None => None,
        }
    }
}

/// The keys that a schema vocabulary knows.
pub open spec fn is_known_key(key: Seq<char>) -> bool {
    ||| key == "type"@
    ||| key == "$ref"@
    ||| key == "allOf"@
    ||| key == "anyOf"@
    ||| key == "oneOf"@
    ||| key == "not"@
    ||| key == "properties"@
    ||| key == "additionalProperties"@
    ||| key == "items"@
    ||| key == "required"@
    ||| key == "minLength"@
    ||| key == "maxLength"@
    ||| key == "pattern"@
    ||| key == "minimum"@
    ||| key == "maximum"@
    ||| key == "minItems"@
    ||| key == "maxItems"@
    ||| key == "uniqueItems"@
    ||| key == "enum"@
    ||| key == "const"@
    ||| key == "title"@
    ||| key == "description"@
    ||| key == "default"@
    ||| key == "examples"@
}

/// The unknown keys among the first `n` members of a schema node.
pub open spec fn own_unknown_keys(members: Seq<(Seq<char>, Json)>, n: nat) -> Seq<Seq<char>>
    decreases n,
{
    if n == 0 || n > members.len() {
        Seq::empty()
    } else {
        own_unknown_keys(members, (n - 1) as nat) + (if is_known_key(members[n - 1].0) {
            Seq::empty()
        } else {
            seq![members[n - 1].0]
        })
    }
}

/// The keys that the deeper pass over a schema finds unknown: those of the
/// node itself, then those of the schemas nested under `properties`,
/// `additionalProperties`, `items`, `allOf`, `anyOf`, `oneOf` and `not`, member by member.
pub open spec fn unknown_keys(schema: Json) -> Seq<Seq<char>>
    decreases schema, 0nat, 0nat,
{
    match schema {
        Json::Object(members) => own_unknown_keys(members, members.len()) + nested_unknown_keys(
            members,
            members.len(),
        ),
        _ => Seq::empty(),
    }
}

/// What the schemas nested under the first `n` members add.
pub open spec fn nested_unknown_keys(members: Seq<(Seq<char>, Json)>, n: nat) -> Seq<Seq<char>>
    decreases members, n, 0nat,
{
    if n == 0 || n > members.len() {
        Seq::empty()
    } else {
        let key = members[n - 1].0;
        let value = members[n - 1].1;
        nested_unknown_keys(members, (n - 1) as nat) + (if key == "properties"@ || key
            == "additionalProperties"@ || key == "items"@ {
            match value {
                Json::Object(nested) => member_unknown_keys(nested, nested.len()),
                _ => Seq::empty(),
            }
        } else if key == "allOf"@ || key == "anyOf"@ || key == "oneOf"@ {
            match value {
                Json::Array(items) => item_unknown_keys(items, items.len()),
                _ => Seq::empty(),
            }
        } else if key == "not"@ {
            unknown_keys(value)
        } else {
            Seq::empty()
        })
    }
}

/// What the values of the first `n` members, each taken as a schema, add.
pub open spec fn member_unknown_keys(members: Seq<(Seq<char>, Json)>, n: nat) -> Seq<Seq<char>>
    decreases members, n, 1nat,
{
    if n == 0 || n > members.len() {
        Seq::empty()
    } else {
        member_unknown_keys(members, (n - 1) as nat) + unknown_keys(members[n - 1].1)
    }
}

/// What the first `n` items, each taken as a schema, add.
pub open spec fn item_unknown_keys(items: Seq<Json>, n: nat) -> Seq<Seq<char>>
    decreases items, n, 1nat,
{
    if n == 0 || n > items.len() {
        Seq::empty()
    } else {
        item_unknown_keys(items, (n - 1) as nat) + unknown_keys(items[n - 1])
    }
}

/// The names of the first `n` records, each once, in the order of their first registration.
pub open spec fn distinct_names(records: Seq<RecordView>, n: nat) -> Seq<Seq<char>>
    decreases n,
{
    if n == 0 || n > records.len() {
        Seq::empty()
    } else {
        distinct_names(records, (n - 1) as nat) + (if latest_index(
            records,
            records[n - 1].metadata.name,
            (n - 1) as nat,
        ) is Some {
            Seq::empty()
        } else {
            seq![records[n - 1].metadata.name]
        })
    }
}

/// `seen` with each of the first `n` of `tags` that it does not hold yet.
pub open spec fn with_tags(seen: Seq<Seq<char>>, tags: Seq<Seq<char>>, n: nat) -> Seq<Seq<char>>
    decreases n,
{
    if n == 0 || n > tags.len() {
        seen
    } else {
        let before = with_tags(seen, tags, (n - 1) as nat);
        if before.contains(tags[n - 1]) {
            before
        } else {
            before.push(tags[n - 1])
        }
    }
}

/// The tags of the first `n` records, each once.
pub open spec fn distinct_tags(records: Seq<RecordView>, n: nat) -> Seq<Seq<char>>
    decreases n,
{
    if n == 0 || n > records.len() {
        Seq::empty()
    } else {
        with_tags(
            distinct_tags(records, (n - 1) as nat),
            records[n - 1].metadata.tags,
            records[n - 1].metadata.tags.len(),
        )
    }
}

/// How many of the first `n` records are deprecated.
pub open spec fn deprecated_among(records: Seq<RecordView>, n: nat) -> nat
    decreases n,
{
    if n == 0 || n > records.len() {
        0
    } else {
        deprecated_among(records, (n - 1) as nat) + (if records[n - 1].metadata.is_deprecated {
            1nat
        } else {
            0nat
        })
    }
}

/// The history of `name` among the first `n` records, oldest first.
pub open spec fn history_of(records: Seq<RecordView>, name: Seq<char>, n: nat) -> Seq<VersionView>
    decreases n,
{
    if n == 0 || n > records.len() {
        Seq::empty()
    } else {
        history_of(records, name, (n - 1) as nat) + (if records[n - 1].metadata.name == name {
            seq![records[n - 1].history]
        } else {
            Seq::empty()
        })
    }
}

/// Those of the first `n` records whose name holds `pattern`.
pub open spec fn search_hits(records: Seq<RecordView>, pattern: Seq<char>, n: nat) -> Seq<MetadataView>
    decreases n,
{
    if n == 0 || n > records.len() {
        Seq::empty()
    } else {
        search_hits(records, pattern, (n - 1) as nat) + (if has_subtext(
            records[n - 1].metadata.name,
            pattern,
        ) {
            seq![records[n - 1].metadata]
        } else {
            Seq::empty()
        })
    }
}

/// For each of the first `n` records that bears `tag`, the latest version of its name.
pub open spec fn tag_hits(records: Seq<RecordView>, tag: Seq<char>, n: nat) -> Seq<MetadataView>
    decreases n,
{
    if n == 0 || n > records.len() {
        Seq::empty()
    } else {
        tag_hits(records, tag, (n - 1) as nat) + (if records[n - 1].metadata.tags.contains(tag) {
            match latest_index(records, records[n - 1].metadata.name, records.len()) {
                Some(i) => seq![records[i].metadata],
                None => Seq::empty(),
            }
        } else {
            Seq::empty()
        })
    }
}

/// The content of each borrowed metadata, in order.
pub open spec fn metadata_views(list: Seq<&SchemaMetadata>) -> Seq<MetadataView> {
    Seq::new(list.len(), |i: int| list[i]@)
}

/// The content of each borrowed history entry, in order.
pub open spec fn version_views(list: Seq<&SchemaVersion>) -> Seq<VersionView> {
    Seq::new(list.len(), |i: int| list[i]@)
}

pub proof fn lemma_entry_index(records: Seq<RecordView>, name: Seq<char>, version: Seq<char>, n: nat)
    requires
        n <= records.len(),
    ensures
        match entry_index(records, name, version, n) {
            Some(i) => 0 <= i < n && records[i].metadata.name == name && records[i].metadata.version
                == version,
            None => forall|k: int|
                0 <= k < n ==> !(records[k].metadata.name == name && records[k].metadata.version
                    == version),
        },
    decreases n,
{
    if n > 0 {
        lemma_entry_index(records, name, version, (n - 1) as nat);
    }
}

proof fn lemma_entry_found(records: Seq<RecordView>, name: Seq<char>, version: Seq<char>, i: int, n: nat)
    requires
        0 <= i < n <= records.len(),
        records[i].metadata.name == name,
        records[i].metadata.version == version,
        entry_index(records, name, version, i as nat) is None,
    ensures
        entry_index(records, name, version, n) == Some(i),
    decreases n,
{
    if n > i + 1 {
        lemma_entry_found(records, name, version, i, (n - 1) as nat);
    }
}

proof fn lemma_missing_found(records: Seq<RecordView>, dependencies: Seq<Seq<char>>, i: int, n: nat)
    requires
        0 <= i < n <= dependencies.len(),
        latest_index(records, dependencies[i], records.len()) is None,
        missing_dependency(records, dependencies, i as nat) is None,
    ensures
        missing_dependency(records, dependencies, n) == Some(i),
    decreases n,
{
    if n > i + 1 {
        lemma_missing_found(records, dependencies, i, (n - 1) as nat);
    }
}

fn is_known(key: &str) -> (b: bool)
    ensures
        b == is_known_key(key@),
{
    same_text(key, "type") || same_text(key, "$ref") || same_text(key, "allOf") || same_text(
        key,
        "anyOf",
    ) || same_text(key, "oneOf") || same_text(key, "not") || same_text(key, "properties")
        || same_text(key, "additionalProperties") || same_text(key, "items") || same_text(
        key,
        "required",
    ) || same_text(key, "minLength") || same_text(key, "maxLength") || same_text(key, "pattern")
        || same_text(key, "minimum") || same_text(key, "maximum") || same_text(key, "minItems")
        || same_text(key, "maxItems") || same_text(key, "uniqueItems") || same_text(key, "enum")
        || same_text(key, "const") || same_text(key, "title") || same_text(key, "description")
        || same_text(key, "default") || same_text(key, "examples")
}

fn push_text(list: &mut Vec<String>, s: String)
    ensures
        texts(final(list)@) == texts(old(list)@) + seq![s@],
{
    list.push(s);
    assert(texts(list@) =~= texts(old(list)@) + seq![s@]);
}

/// The deeper pass over a schema: appends to `unknown` each key that the
/// schema vocabulary does not know, of the node and of the schemas nested in it.
pub fn validate_schema_recursive(schema: &Value, unknown: &mut Vec<String>)
    ensures
        texts(final(unknown)@) == texts(old(unknown)@) + unknown_keys(schema@),
    decreases schema@, 0nat, 0nat,
{
    let ghost before = texts(unknown@);
    if let Value::Object(members) = schema {
        let ghost ms = view_members(members@);
        proof {
            lemma_view_members(members@);
        }
        let mut i: usize = 0;
        assert(texts(unknown@) =~= before + own_unknown_keys(ms, 0));
        while i < members.len()
            invariant
                i <= members.len(),
                ms == view_members(members@),
                ms.len() == members.len(),
                texts(unknown@) == before + own_unknown_keys(ms, i as nat),
            decreases members.len() - i,
        {
            proof {
                lemma_view_members(members@);
                assert(ms[i as int].0 == members@[i as int].0@);
            }
            if !is_known(members[i].0.as_str()) {
                push_text(unknown, members[i].0.clone());
            }
            i = i + 1;
            assert(texts(unknown@) =~= before + own_unknown_keys(ms, i as nat));
        }
        assert(schema@->Object_0 == ms);
        check_nested(members, unknown);
        assert(texts(unknown@) =~= before + unknown_keys(schema@));
    } else {
        assert(texts(unknown@) =~= before + Seq::empty());
    }
}

fn check_nested(members: &Vec<(String, Value)>, unknown: &mut Vec<String>)
    ensures
        texts(final(unknown)@) == texts(old(unknown)@) + nested_unknown_keys(
            view_members(members@),
            members.len() as nat,
        ),
    decreases view_members(members@), members.len(), 0nat,
{
    let ghost before = texts(unknown@);
    let ghost ms = view_members(members@);
    proof {
        lemma_view_members(members@);
    }
    let mut i: usize = 0;
    assert(texts(unknown@) =~= before + nested_unknown_keys(ms, 0));
    while i < members.len()
        invariant
            i <= members.len(),
            ms == view_members(members@),
            ms.len() == members.len(),
            texts(unknown@) == before + nested_unknown_keys(ms, i as nat),
        decreases members.len() - i,
    {
        proof {
            lemma_view_members(members@);
            assert(ms[i as int].0 == members@[i as int].0@);
            assert(ms[i as int].1 == members@[i as int].1@);
        }
        let key = members[i].0.as_str();
        let value = &members[i].1;
        if same_text(key, "properties") || same_text(key, "additionalProperties") || same_text(
            key,
            "items",
        ) {
            if let Value::Object(nested) = value {
                assert(ms[i as int].1->Object_0 == view_members(nested@));
                check_member_schemas(nested, unknown);
                proof {
                    lemma_view_members(nested@);
                }
            }
        } else if same_text(key, "allOf") || same_text(key, "anyOf") || same_text(key, "oneOf") {
            if let Value::Array(items) = value {
                assert(ms[i as int].1->Array_0 == view_items(items@));
                check_item_schemas(items, unknown);
                proof {
                    lemma_view_items(items@);
                }
            }
        } else if same_text(key, "not") {
            validate_schema_recursive(value, unknown);
        }
        i = i + 1;
        assert(texts(unknown@) =~= before + nested_unknown_keys(ms, i as nat));
    }
}

fn check_member_schemas(members: &Vec<(String, Value)>, unknown: &mut Vec<String>)
    ensures
        texts(final(unknown)@) == texts(old(unknown)@) + member_unknown_keys(
            view_members(members@),
            members.len() as nat,
        ),
    decreases view_members(members@), members.len(), 1nat,
{
    let ghost before = texts(unknown@);
    let ghost ms = view_members(members@);
    proof {
        lemma_view_members(members@);
    }
    let mut i: usize = 0;
    assert(texts(unknown@) =~= before + member_unknown_keys(ms, 0));
    while i < members.len()
        invariant
            i <= members.len(),
            ms == view_members(members@),
            ms.len() == members.len(),
            texts(unknown@) == before + member_unknown_keys(ms, i as nat),
        decreases members.len() - i,
    {
        proof {
            lemma_view_members(members@);
            assert(ms[i as int].1 == members@[i as int].1@);
        }
        validate_schema_recursive(&members[i].1, unknown);
        i = i + 1;
        assert(texts(unknown@) =~= before + member_unknown_keys(ms, i as nat));
    }
}

fn check_item_schemas(items: &Vec<Value>, unknown: &mut Vec<String>)
    ensures
        texts(final(unknown)@) == texts(old(unknown)@) + item_unknown_keys(
            view_items(items@),
            items.len() as nat,
        ),
    decreases view_items(items@), items.len(), 1nat,
{
    let ghost before = texts(unknown@);
    let ghost its = view_items(items@);
    proof {
        lemma_view_items(items@);
    }
    let mut i: usize = 0;
    assert(texts(unknown@) =~= before + item_unknown_keys(its, 0));
    while i < items.len()
        invariant
            i <= items.len(),
            its == view_items(items@),
            its.len() == items.len(),
            texts(unknown@) == before + item_unknown_keys(its, i as nat),
        decreases items.len() - i,
    {
        proof {
            lemma_view_items(items@);
            assert(its[i as int] == items@[i as int]@);
        }
        validate_schema_recursive(&items[i], unknown);
        i = i + 1;
        assert(texts(unknown@) =~= before + item_unknown_keys(its, i as nat));
    }
}

/// Checks a document as a schema: its shape, then the deeper pass. The keys
/// that the pass does not know are handed back; they do not refuse the schema.
pub fn validate_schema(schema: &Value) -> (r: Result<Vec<String>, Error>)
    ensures
        match r {
            Ok(unknown) => is_schema_shaped(schema@) && texts(unknown@) == unknown_keys(schema@),
            Err(e) => !is_schema_shaped(schema@) && e@ == ErrorView::Validation(
                shape_complaint(schema@),
            ),
        },
{
    match SchemaValidator::validate_schema_structure(schema) {
        Err(e) => Err(e),
        Ok(()) => {
            let mut unknown: Vec<String> = Vec::new();
            assert(texts(unknown@) =~= Seq::empty());
            validate_schema_recursive(schema, &mut unknown);
            assert(texts(unknown@) =~= unknown_keys(schema@));
            Ok(unknown)
        },
    }
}

/// The registry of schemas.
pub struct SchemaRegistry {
    records: Vec<Record>,
}

impl SchemaRegistry {
    /// What the registry holds, in the order of registration.
    pub closed spec fn records(&self) -> Seq<RecordView> {
        record_views(self.records@)
    }

    pub fn new() -> (r: SchemaRegistry)
        ensures
            r.records() == Seq::<RecordView>::empty(),
    {
        let r = SchemaRegistry { records: Vec::new() };
        assert(r.records() =~= Seq::empty());
        r
    }

    fn find_entry(&self, name: &str, version: &str) -> (r: Option<usize>)
        ensures
            match r {
                Some(i) => i < self.records.len() && entry_index(
                    self.records(),
                    name@,
                    version@,
                    self.records().len(),
                ) == Some(i as int),
                None => entry_index(self.records(), name@, version@, self.records().len()) is None,
            },
    {
        let mut i: usize = 0;
        while i < self.records.len()
            invariant
                i <= self.records.len(),
                entry_index(self.records(), name@, version@, i as nat) is None,
            decreases self.records.len() - i,
        {
            assert(self.records()[i as int] == self.records@[i as int]@);
            if same_text(self.records[i].metadata.name.as_str(), name) && same_text(
                self.records[i].metadata.version.as_str(),
                version,
            ) {
                proof {
                    lemma_entry_found(
                        self.records(),
                        name@,
                        version@,
                        i as int,
                        self.records.len() as nat,
                    );
                }
                return Some(i);
            }
            i = i + 1;
        }
        None
    }

    fn find_latest(&self, name: &str) -> (r: Option<usize>)
        ensures
            match r {
                Some(i) => i < self.records.len() && latest_index(
                    self.records(),
                    name@,
                    self.records().len(),
                ) == Some(i as int),
                None => latest_index(self.records(), name@, self.records().len()) is None,
            },
    {
        let mut found: Option<usize> = None;
        let mut i: usize = 0;
        while i < self.records.len()
            invariant
                i <= self.records.len(),
                match found {
                    Some(k) => k < i && latest_index(self.records(), name@, i as nat) == Some(
                        k as int,
                    ),
                    None => latest_index(self.records(), name@, i as nat) is None,
                },
            decreases self.records.len() - i,
        {
            assert(self.records()[i as int] == self.records@[i as int]@);
            if same_text(self.records[i].metadata.name.as_str(), name) {
                found = Some(i);
            }
            i = i + 1;
        }
        found
    }

    /// Checks that each dependency is the name of a registered schema.
    pub fn validate_dependencies(&self, dependencies: &Vec<String>) -> (r: Result<(), Error>)
        ensures
            match r {
                Ok(()) => missing_dependency(
                    self.records(),
                    texts(dependencies@),
                    dependencies.len() as nat,
                ) is None,
                Err(e) => missing_dependency(
                    self.records(),
                    texts(dependencies@),
                    dependencies.len() as nat,
                ) matches Some(i) && e@ == ErrorView::Validation(
                    dependency_not_found(texts(dependencies@)[i]),
                ),
            },
    {
        let mut i: usize = 0;
        while i < dependencies.len()
            invariant
                i <= dependencies.len(),
                missing_dependency(self.records(), texts(dependencies@), i as nat) is None,
            decreases dependencies.len() - i,
        {
            assert(texts(dependencies@)[i as int] == dependencies@[i as int]@);
            if self.find_latest(dependencies[i].as_str()).is_none() {
                proof {
                    lemma_missing_found(
                        self.records(),
                        texts(dependencies@),
                        i as int,
                        dependencies.len() as nat,
                    );
                }
                return Err(
                    Error::Validation(join3("Dependency '", dependencies[i].as_str(), "' not found")),
                );
            }
            i = i + 1;
        }
        Ok(())
    }

    /// Registers a schema under its name and version.
    ///
    /// On success the registry holds one more record, the last one: the
    /// metadata as given, and its first history entry.
    pub fn register_schema(&mut self, metadata: SchemaMetadata) -> (r: Result<(), Error>)
        ensures
            match r {
                Ok(()) => registration_complaint(old(self).records(), metadata@) is None && final(self).records() == old(self).records().push(
                    RecordView { metadata: metadata@, history: first_history(metadata@) },
                ),
                Err(e) => registration_complaint(old(self).records(), metadata@) matches Some(m)
                    && e@ == ErrorView::Validation(m) && final(self).records() == old(self).records(),
            },
    {
        match validate_schema(&metadata.schema) {
            Err(e) => {
                return Err(e);
            },
            Ok(_) => {},
        }
        if self.find_entry(metadata.name.as_str(), metadata.version.as_str()).is_some() {
            return Err(
                Error::Validation(
                    join5(
                        "Schema '",
                        metadata.name.as_str(),
                        "' version '",
                        metadata.version.as_str(),
                        "' already exists",
                    ),
                ),
            );
        }
        match self.validate_dependencies(&metadata.dependencies) {
            Err(e) => {
                return Err(e);
            },
            Ok(()) => {},
        }
        let history = SchemaVersion {
            version: metadata.version.clone(),
            schema: metadata.schema.duplicate(),
            created_at: metadata.created_at,
            is_current: true,
            changelog: None,
        };
        self.records.push(Record { metadata, history });
        assert(final(self).records() =~= old(self).records().push(
            RecordView { metadata: metadata@, history: first_history(metadata@) },
        ));
        Ok(())
    }

    /// The schema registered under `name` and `version`.
    pub fn get_schema(&self, name: &str, version: &str) -> (r: Result<&SchemaMetadata, Error>)
        ensures
            match r {
                Ok(m) => entry_index(self.records(), name@, version@, self.records().len())
                    matches Some(i) && m@ == self.records()[i].metadata,
                Err(e) => entry_index(self.records(), name@, version@, self.records().len())
                    is None && e@ == ErrorView::Validation(version_not_found(name@, version@)),
            },
    {
        match self.find_entry(name, version) {
            Some(i) => {
                assert(self.records()[i as int] == self.records@[i as int]@);
                Ok(&self.records[i].metadata)
            },
            None => Err(
                Error::Validation(join5("Schema '", name, "' version '", version, "' not found")),
            ),
        }
    }

    /// The version of `name` that was registered last.
    pub fn get_latest_schema(&self, name: &str) -> (r: Result<&SchemaMetadata, Error>)
        ensures
            match r {
                Ok(m) => latest_index(self.records(), name@, self.records().len()) matches Some(i)
                    && m@ == self.records()[i].metadata,
                Err(e) => latest_index(self.records(), name@, self.records().len()) is None && e@
                    == ErrorView::Validation(schema_not_found(name@)),
            },
    {
        match self.find_latest(name) {
            Some(i) => {
                assert(self.records()[i as int] == self.records@[i as int]@);
                Ok(&self.records[i].metadata)
            },
            None => Err(Error::Validation(join3("Schema '", name, "' not found"))),
        }
    }

    /// The version history of `name`, oldest first.
    pub fn get_schema_versions(&self, name: &str) -> (r: Result<Vec<&SchemaVersion>, Error>)
        ensures
            match r {
                Ok(history) => latest_index(self.records(), name@, self.records().len()) is Some
                    && version_views(history@) == history_of(
                    self.records(),
                    name@,
                    self.records().len(),
                ),
                Err(e) => latest_index(self.records(), name@, self.records().len()) is None && e@
                    == ErrorView::Validation(schema_not_found(name@)),
            },
    {
        if self.find_latest(name).is_none() {
            return Err(Error::Validation(join3("Schema '", name, "' not found")));
        }
        let mut history: Vec<&SchemaVersion> = Vec::new();
        let mut i: usize = 0;
        assert(version_views(history@) =~= history_of(self.records(), name@, 0));
        while i < self.records.len()
            invariant
                i <= self.records.len(),
                version_views(history@) == history_of(self.records(), name@, i as nat),
            decreases self.records.len() - i,
        {
            assert(self.records()[i as int] == self.records@[i as int]@);
            let ghost before = version_views(history@);
            if same_text(self.records[i].metadata.name.as_str(), name) {
                history.push(&self.records[i].history);
                assert(version_views(history@) =~= before + seq![self.records()[i as int].history]);
            }
            i = i + 1;
        }
        Ok(history)
    }

    /// For each registered schema that bears `tag`, the latest version of its name.
    pub fn get_schemas_by_tag(&self, tag: &str) -> (hits: Vec<&SchemaMetadata>)
        ensures
            metadata_views(hits@) == tag_hits(self.records(), tag@, self.records().len()),
    {
        let mut hits: Vec<&SchemaMetadata> = Vec::new();
        let mut i: usize = 0;
        assert(metadata_views(hits@) =~= tag_hits(self.records(), tag@, 0));
        while i < self.records.len()
            invariant
                i <= self.records.len(),
                metadata_views(hits@) == tag_hits(self.records(), tag@, i as nat),
            decreases self.records.len() - i,
        {
            assert(self.records()[i as int] == self.records@[i as int]@);
            let ghost before = metadata_views(hits@);
            if list_contains(&self.records[i].metadata.tags, tag) {
                if let Some(k) = self.find_latest(self.records[i].metadata.name.as_str()) {
                    assert(self.records()[k as int] == self.records@[k as int]@);
                    hits.push(&self.records[k].metadata);
                    assert(metadata_views(hits@) =~= before + seq![
                        self.records()[k as int].metadata,
                    ]);
                }
            }
            i = i + 1;
        }
        hits
    }

    /// The registered schemas whose name holds `pattern`.
    pub fn search_schemas(&self, pattern: &str) -> (hits: Vec<&SchemaMetadata>)
        ensures
            metadata_views(hits@) == search_hits(self.records(), pattern@, self.records().len()),
    {
        let mut hits: Vec<&SchemaMetadata> = Vec::new();
        let mut i: usize = 0;
        assert(metadata_views(hits@) =~= search_hits(self.records(), pattern@, 0));
        while i < self.records.len()
            invariant
                i <= self.records.len(),
                metadata_views(hits@) == search_hits(self.records(), pattern@, i as nat),
            decreases self.records.len() - i,
        {
            assert(self.records()[i as int] == self.records@[i as int]@);
            let ghost before = metadata_views(hits@);
            if contains_text(self.records[i].metadata.name.as_str(), pattern) {
                hits.push(&self.records[i].metadata);
                assert(metadata_views(hits@) =~= before + seq![self.records()[i as int].metadata]);
            }
            i = i + 1;
        }
        hits
    }

    /// The names of the registered schemas, each once.
    pub fn list_schemas(&self) -> (names: Vec<String>)
        ensures
            texts(names@) == distinct_names(self.records(), self.records().len()),
    {
        let mut names: Vec<String> = Vec::new();
        let mut i: usize = 0;
        assert(texts(names@) =~= distinct_names(self.records(), 0));
        while i < self.records.len()
            invariant
                i <= self.records.len(),
                texts(names@) == distinct_names(self.records(), i as nat),
            decreases self.records.len() - i,
        {
            assert(self.records()[i as int] == self.records@[i as int]@);
            let name = self.records[i].metadata.name.as_str();
            let mut seen = false;
            let mut k: usize = 0;
            while k < i
                invariant
                    k <= i < self.records.len(),
                    name@ == self.records()[i as int].metadata.name,
                    seen == (latest_index(self.records(), name@, k as nat) is Some),
                decreases i - k,
            {
                assert(self.records()[k as int] == self.records@[k as int]@);
                if same_text(self.records[k].metadata.name.as_str(), name) {
                    seen = true;
                }
                k = k + 1;
            }
            if !seen {
                push_text(&mut names, self.records[i].metadata.name.clone());
            }
            i = i + 1;
            assert(texts(names@) =~= distinct_names(self.records(), i as nat));
        }
        names
    }

    /// Puts `new_schema` in the place of the schema registered under `name`
    /// and `version`, and notes `now` as the time of the update. The history
    /// keeps the schema as it was registered.
    pub fn update_schema(&mut self, name: &str, version: &str, new_schema: Value, now: i64) -> (r:
        Result<(), Error>)
        ensures
            match r {
                Ok(()) => {
                    &&& is_schema_shaped(new_schema@)
                    &&& entry_index(
                        old(self).records(),
                        name@,
                        version@,
                        old(self).records().len(),
                    ) matches Some(i)
                    &&& final(self).records() == old(self).records().update(
                        i,
                        RecordView {
                            metadata: MetadataView {
                                schema: new_schema@,
                                updated_at: now,
                                ..old(self).records()[i].metadata
                            },
                            history: old(self).records()[i].history,
                        },
                    )
                },
                Err(e) => final(self).records() == old(self).records() && (if !is_schema_shaped(
                    new_schema@,
                ) {
                    e@ == ErrorView::Validation(shape_complaint(new_schema@))
                } else {
                    entry_index(old(self).records(), name@, version@, old(self).records().len())
                        is None && e@ == ErrorView::Validation(version_not_found(name@, version@))
                }),
            },
    {
        match validate_schema(&new_schema) {
            Err(e) => {
                return Err(e);
            },
            Ok(_) => {},
        }
        match self.find_entry(name, version) {
            Some(i) => {
                assert(self.records()[i as int] == self.records@[i as int]@);
                let mut record = self.records.remove(i);
                record.metadata.schema = new_schema;
                record.metadata.updated_at = now;
                self.records.insert(i, record);
                assert(final(self).records() =~= old(self).records().update(
                    i as int,
                    RecordView {
                        metadata: MetadataView {
                            schema: new_schema@,
                            updated_at: now,
                            ..old(self).records()[i as int].metadata
                        },
                        history: old(self).records()[i as int].history,
                    },
                ));
                Ok(())
            },
            None => Err(
                Error::Validation(join5("Schema '", name, "' version '", version, "' not found")),
            ),
        }
    }

    /// Marks the schema registered under `name` and `version` as deprecated,
    /// and notes `now` as the time of the update. The schema stays registered.
    pub fn deprecate_schema(&mut self, name: &str, version: &str, now: i64) -> (r: Result<(), Error>)
        ensures
            match r {
                Ok(()) => entry_index(
                    old(self).records(),
                    name@,
                    version@,
                    old(self).records().len(),
                ) matches Some(i) && final(self).records() == old(self).records().update(
                    i,
                    RecordView {
                        metadata: MetadataView {
                            is_deprecated: true,
                            updated_at: now,
                            ..old(self).records()[i].metadata
                        },
                        history: old(self).records()[i].history,
                    },
                ),
                Err(e) => final(self).records() == old(self).records() && entry_index(
                    old(self).records(),
                    name@,
                    version@,
                    old(self).records().len(),
                ) is None && e@ == ErrorView::Validation(version_not_found(name@, version@)),
            },
    {
        match self.find_entry(name, version) {
            Some(i) => {
                assert(self.records()[i as int] == self.records@[i as int]@);
                let mut record = self.records.remove(i);
                record.metadata.is_deprecated = true;
                record.metadata.updated_at = now;
                self.records.insert(i, record);
                assert(final(self).records() =~= old(self).records().update(
                    i as int,
                    RecordView {
                        metadata: MetadataView {
                            is_deprecated: true,
                            updated_at: now,
                            ..old(self).records()[i as int].metadata
                        },
                        history: old(self).records()[i as int].history,
                    },
                ));
                Ok(())
            },
            None => Err(
                Error::Validation(join5("Schema '", name, "' version '", version, "' not found")),
            ),
        }
    }

    /// Takes the schema registered under `name` and `version` out of the
    /// registry, with its history entry and its tags.
    pub fn remove_schema(&mut self, name: &str, version: &str) -> (r: Result<SchemaMetadata, Error>)
        ensures
            match r {
                Ok(m) => entry_index(
                    old(self).records(),
                    name@,
                    version@,
                    old(self).records().len(),
                ) matches Some(i) && m@ == old(self).records()[i].metadata && final(self).records() == old(self).records().remove(i),
                Err(e) => final(self).records() == old(self).records() && entry_index(
                    old(self).records(),
                    name@,
                    version@,
                    old(self).records().len(),
                ) is None && e@ == ErrorView::Validation(version_not_found(name@, version@)),
            },
    {
        match self.find_entry(name, version) {
            Some(i) => {
                assert(self.records()[i as int] == self.records@[i as int]@);
                let record = self.records.remove(i);
                assert(final(self).records() =~= old(self).records().remove(i as int));
                Ok(record.metadata)
            },
            None => Err(
                Error::Validation(join5("Schema '", name, "' version '", version, "' not found")),
            ),
        }
    }

    /// Counts over the registry: the registered schemas, their history
    /// entries, the deprecated ones, the tags in use, and the names.
    pub fn get_statistics(&self) -> (stats: RegistryStatistics)
        ensures
            stats.total_schemas == self.records().len(),
            stats.total_versions == self.records().len(),
            stats.deprecated_count == deprecated_among(self.records(), self.records().len()),
            stats.tag_count == distinct_tags(self.records(), self.records().len()).len(),
            texts(stats.schema_names@) == distinct_names(self.records(), self.records().len()),
    {
        let mut deprecated: usize = 0;
        let mut tags: Vec<String> = Vec::new();
        let mut i: usize = 0;
        assert(texts(tags@) =~= distinct_tags(self.records(), 0));
        while i < self.records.len()
            invariant
                i <= self.records.len(),
                deprecated <= i,
                deprecated == deprecated_among(self.records(), i as nat),
                texts(tags@) == distinct_tags(self.records(), i as nat),
            decreases self.records.len() - i,
        {
            assert(self.records()[i as int] == self.records@[i as int]@);
            if self.records[i].metadata.is_deprecated {
                deprecated = deprecated + 1;
            }
            let own = &self.records[i].metadata.tags;
            let ghost start = texts(tags@);
            let mut k: usize = 0;
            while k < own.len()
                invariant
                    k <= own.len(),
                    texts(tags@) == with_tags(start, texts(own@), k as nat),
                decreases own.len() - k,
            {
                assert(texts(own@)[k as int] == own@[k as int]@);
                if !list_contains(&tags, own[k].as_str()) {
                    push_text(&mut tags, own[k].clone());
                    assert(texts(tags@) =~= with_tags(start, texts(own@), k as nat).push(
                        texts(own@)[k as int],
                    ));
                }
                k = k + 1;
            }
            i = i + 1;
        }
        RegistryStatistics {
            total_schemas: self.records.len(),
            total_versions: self.records.len(),
            deprecated_count: deprecated,
            tag_count: tags.len(),
            schema_names: self.list_schemas(),
        }
    }

    /// Forgets every schema.
    pub fn clear_registry(&mut self)
        ensures
            final(self).records() == Seq::<RecordView>::empty(),
    {
        self.records.clear();
        assert(final(self).records() =~= Seq::empty());
    }
}

/// A schema that was registered is refused when it is registered again
/// under the same name and version, whatever else it holds.
pub proof fn lemma_second_registration_refused(
    records: Seq<RecordView>,
    first: MetadataView,
    second: MetadataView,
)
    requires
        registration_complaint(records, first) is None,
        second.name == first.name,
        second.version == first.version,
    ensures
        registration_complaint(
            records.push(RecordView { metadata: first, history: first_history(first) }),
            second,
        ) is Some,
{
    let after = records.push(RecordView { metadata: first, history: first_history(first) });
    lemma_entry_index(after, second.name, second.version, after.len());
}

/// The latest version of a name is the one that was registered last.
pub proof fn lemma_latest_is_last_registered(records: Seq<RecordView>, m: MetadataView)
    ensures
        ({
            let after = records.push(RecordView { metadata: m, history: first_history(m) });
            latest_index(after, m.name, after.len()) == Some(records.len() as int)
        }),
{
}

/// Whether no two records bear the same name and version.
pub open spec fn distinct_entries(records: Seq<RecordView>) -> bool {
    forall|i: int, j: int|
        0 <= i < j < records.len() ==> !((#[trigger] records[i]).metadata.name == (
        #[trigger] records[j]).metadata.name && records[i].metadata.version
            == records[j].metadata.version)
}

/// A registry without a schema holds no name and version twice.
pub proof fn lemma_empty_is_distinct()
    ensures
        distinct_entries(Seq::<RecordView>::empty()),
{
}

/// Registration keeps every name and version single.
pub proof fn lemma_registration_keeps_distinct(records: Seq<RecordView>, m: MetadataView)
    requires
        distinct_entries(records),
        registration_complaint(records, m) is None,
    ensures
        distinct_entries(records.push(RecordView { metadata: m, history: first_history(m) })),
{
    lemma_entry_index(records, m.name, m.version, records.len());
}

/// Taking a schema out, putting another document in its place or marking it
/// as deprecated keeps every name and version single.
pub proof fn lemma_changes_keep_distinct(records: Seq<RecordView>, i: int, changed: RecordView)
    requires
        distinct_entries(records),
        0 <= i < records.len(),
        changed.metadata.name == records[i].metadata.name,
        changed.metadata.version == records[i].metadata.version,
    ensures
        distinct_entries(records.remove(i)),
        distinct_entries(records.update(i, changed)),
{
    let removed = records.remove(i);
    assert forall|a: int, b: int| 0 <= a < b < removed.len() implies !((
    #[trigger] removed[a]).metadata.name == (#[trigger] removed[b]).metadata.name
        && removed[a].metadata.version == removed[b].metadata.version) by {
        let a0 = if a < i {
            a
        } else {
            a + 1
        };
        let b0 = if b < i {
            b
        } else {
            b + 1
        };
        assert(removed[a] == records[a0] && removed[b] == records[b0]);
    }
    let updated = records.update(i, changed);
    assert forall|a: int, b: int| 0 <= a < b < updated.len() implies !((
    #[trigger] updated[a]).metadata.name == (#[trigger] updated[b]).metadata.name
        && updated[a].metadata.version == updated[b].metadata.version) by {
        assert(updated[a].metadata.name == records[a].metadata.name);
        assert(updated[a].metadata.version == records[a].metadata.version);
        assert(updated[b].metadata.name == records[b].metadata.name);
        assert(updated[b].metadata.version == records[b].metadata.version);
    }
}

/// A schema that was registered is found under its name and version.
pub proof fn lemma_registered_is_found(records: Seq<RecordView>, m: MetadataView)
    requires
        registration_complaint(records, m) is None,
    ensures
        ({
            let after = records.push(RecordView { metadata: m, history: first_history(m) });
            entry_index(after, m.name, m.version, after.len()) == Some(records.len() as int)
        }),
{
    let after = records.push(RecordView { metadata: m, history: first_history(m) });
    lemma_same_entries(records, after, m.name, m.version, records.len());
}

/// With the last version of a name taken out, the name is gone from the registry.
pub proof fn lemma_removed_name_is_gone(records: Seq<RecordView>, i: int)
    requires
        0 <= i < records.len(),
        forall|k: int|
            0 <= k < records.len() && k != i ==> (#[trigger] records[k]).metadata.name
                != records[i].metadata.name,
    ensures
        latest_index(records.remove(i), records[i].metadata.name, (records.len() - 1) as nat)
            is None,
{
    let name = records[i].metadata.name;
    let rest = records.remove(i);
    assert forall|k: int| 0 <= k < rest.len() implies (#[trigger] rest[k]).metadata.name
        != name by {
        let k0 = if k < i {
            k
        } else {
            k + 1
        };
        assert(rest[k] == records[k0]);
    }
    lemma_no_such_name(rest, name, rest.len());
}

proof fn lemma_no_such_name(records: Seq<RecordView>, name: Seq<char>, n: nat)
    requires
        n <= records.len(),
        forall|k: int| 0 <= k < records.len() ==> (#[trigger] records[k]).metadata.name != name,
    ensures
        latest_index(records, name, n) is None,
    decreases n,
{
    if n > 0 {
        lemma_no_such_name(records, name, (n - 1) as nat);
    }
}

proof fn lemma_same_entries(
    a: Seq<RecordView>,
    b: Seq<RecordView>,
    name: Seq<char>,
    version: Seq<char>,
    n: nat,
)
    requires
        n <= a.len(),
        n <= b.len(),
        forall|k: int| 0 <= k < n ==> a[k] == b[k],
    ensures
        entry_index(a, name, version, n) == entry_index(b, name, version, n),
    decreases n,
{
    if n > 0 {
        lemma_same_entries(a, b, name, version, (n - 1) as nat);
    }
}

} // verus!
