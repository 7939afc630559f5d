//! Integrity of a document: a checksum, constraints on the values at given
//! paths, and a score for what was found.

use vstd::prelude::*;
use crate::error::Error;
use crate::formats::{is_rfc3339, is_uuid, reads_as_rfc3339, reads_as_uuid};
use crate::number::Decimal;
use crate::text::{
    chars_of, has_prefix, has_subtext, contains_text, join2, join3, join4, join5, owned, same_text,
    starts_with_text, text_of,
};
use crate::value::{
    find_index, find_member, first_index, hex_char, index_of_key, json_same, json_text,
    lemma_view_members, lookup, view_members, Json, Value,
};

verus! {

/// Kinds of integrity violations.
#[derive(Debug, Clone, Copy, PartialEq, Eq, Structural)]
pub enum IntegrityViolationType {
    ChecksumMismatch,
    ReferentialIntegrityViolation,
    DataConsistencyViolation,
    ConstraintViolation,
    FormatViolation,
    DuplicateKeyViolation,
    NullConstraintViolation,
    RangeViolation,
}

/// How much a violation weighs.
#[derive(Debug, Clone, Copy, PartialEq, Eq, Structural)]
pub enum ViolationSeverity {
    Low,
    Medium,
    High,
    Critical,
}

/// Kinds of integrity constraints.
#[derive(Debug, Clone, Copy, PartialEq, Eq, Structural)]
pub enum ConstraintType {
    NotNull,
    Unique,
    ForeignKey,
    Range,
    Format,
    Custom,
}

/// The content of an integrity violation.
pub struct ViolationView {
    pub violation_type: IntegrityViolationType,
    pub path: Seq<char>,
    pub message: Seq<char>,
    pub severity: ViolationSeverity,
    pub suggestion: Option<Seq<char>>,
}

/// An integrity violation.
#[derive(Debug, Clone)]
pub struct IntegrityViolation {
    pub violation_type: IntegrityViolationType,
    pub path: String,
    pub message: String,
    pub severity: ViolationSeverity,
    pub suggestion: Option<String>,
}

impl View for IntegrityViolation {
    type V = ViolationView;

    open spec fn view(&self) -> ViolationView {
        ViolationView {
            violation_type: self.violation_type,
            path: self.path@,
            message: self.message@,
            severity: self.severity,
            suggestion: match self.suggestion {
                Some(s) => Some(s@),
                None => None,
            },
        }
    }
}

/// The content of each violation, in order.
pub open spec fn violation_views(violations: Seq<IntegrityViolation>) -> Seq<ViolationView> {
    Seq::new(violations.len(), |i: int| violations[i]@)
}

/// The content of an integrity constraint.
pub struct IntegrityConstraintView {
    pub name: Seq<char>,
    pub constraint_type: ConstraintType,
    pub path: Seq<char>,
    pub value: Option<Json>,
    pub severity: ViolationSeverity,
}

/// A constraint on the value at a path of the document.
#[derive(Debug, Clone)]
pub struct IntegrityConstraint {
    pub name: String,
    pub constraint_type: ConstraintType,
    pub path: String,
    pub value: Option<Value>,
    pub severity: ViolationSeverity,
}

impl View for IntegrityConstraint {
    type V = IntegrityConstraintView;

    open spec fn view(&self) -> IntegrityConstraintView {
        IntegrityConstraintView {
            name: self.name@,
            constraint_type: self.constraint_type,
            path: self.path@,
            value: match self.value {
                Some(v) => Some(v@),
                None => None,
            },
            severity: self.severity,
        }
    }
}

/// The content of each constraint, in order.
pub open spec fn constraint_views(constraints: Seq<IntegrityConstraint>) -> Seq<
    IntegrityConstraintView,
> {
    Seq::new(constraints.len(), |i: int| constraints[i]@)
}

/// The outcome of one integrity check.
#[derive(Debug, Clone)]
pub struct IntegrityResult {
    pub is_valid: bool,
    pub violations: Vec<IntegrityViolation>,
    pub checksum_valid: bool,
    /// From 100 for a document without violations down to 0, in whole points.
    pub consistency_score: u32,
    /// Time spent, for the caller to fill in; the checker itself reads no clock.
    pub check_time_ms: u64,
}

/// The points that one violation of the given severity costs.
pub open spec fn penalty(severity: ViolationSeverity) -> nat {
    match severity {
        ViolationSeverity::Low => 5,
        ViolationSeverity::Medium => 15,
        ViolationSeverity::High => 30,
        ViolationSeverity::Critical => 50,
    }
}

/// The points that the first `n` violations cost together.
pub open spec fn total_penalty(violations: Seq<ViolationView>, n: nat) -> nat
    decreases n,
{
    if n == 0 || n > violations.len() {
        0
    } else {
        total_penalty(violations, (n - 1) as nat) + penalty(violations[n - 1].severity)
    }
}

/// The consistency score: 100 less the penalty of each violation, and never below 0.
pub open spec fn consistency_score(violations: Seq<ViolationView>) -> nat {
    if total_penalty(violations, violations.len()) >= 100 {
        0
    } else {
        (100 - total_penalty(violations, violations.len())) as nat
    }
}

/// The position of the first `.` of `path` at or behind `from`, or the length
/// of `path` if there is none.
pub open spec fn next_dot(path: Seq<char>, from: int) -> int
    decreases path.len() - from,
{
    if from < 0 || from >= path.len() {
        path.len() as int
    } else if path[from] == '.' {
        from
    } else {
        next_dot(path, from + 1)
    }
}

/// The value that the names of `path` from position `from` on lead to,
/// member by member; `None` where a name is no member or the value no object.
pub open spec fn descend(data: Json, path: Seq<char>, from: int) -> Option<Json>
    decreases path.len() - from,
{
    if from < 0 || from > path.len() {
        None
    } else {
        let end = next_dot(path, from);
        proof {
            lemma_next_dot_bounds(path, from);
        }
        match data.get(path.subrange(from, end)) {
            Some(child) => if end >= path.len() {
                Some(child)
            } else {
                descend(child, path, end + 1)
            },
            None => None,
        }
    }
}

/// The value at `path`: the whole document for `root` and for the empty
/// path, else the member that the names between the dots lead to.
pub open spec fn value_at(data: Json, path: Seq<char>) -> Option<Json> {
    if path == "root"@ || path.len() == 0 {
        Some(data)
    } else {
        descend(data, path, 0)
    }
}

pub proof fn lemma_next_dot_bounds(path: Seq<char>, from: int)
    requires
        0 <= from <= path.len(),
    ensures
        from <= next_dot(path, from) <= path.len(),
        next_dot(path, from) < path.len() ==> path[next_dot(path, from)] == '.',
        forall|k: int| from <= k < next_dot(path, from) ==> path[k] != '.',
    decreases path.len() - from,
{
    if from < path.len() && path[from] != '.' {
        lemma_next_dot_bounds(path, from + 1);
    }
}

/// The first dot behind `from` is the first dot behind any later place
/// before which no dot stands.
pub proof fn lemma_next_dot_skips(path: Seq<char>, from: int, at: int)
    requires
        0 <= from <= at <= path.len(),
        forall|k: int| from <= k < at ==> path[k] != '.',
    ensures
        next_dot(path, from) == next_dot(path, at),
    decreases at - from,
{
    if from < at {
        lemma_next_dot_skips(path, from + 1, at);
    }
}

/// A well-formed e-mail address, as far as it is checked: it holds an `@` and a `.`.
pub open spec fn email_shaped(text: Seq<char>) -> bool {
    has_subtext(text, "@"@) && has_subtext(text, "."@)
}

/// A well-formed URL, as far as it is checked: it starts with `http://` or `https://`.
pub open spec fn url_shaped(text: Seq<char>) -> bool {
    has_prefix(text, "http://"@) || has_prefix(text, "https://"@)
}

/// Whether `text` is in the named format; a format without a name here holds
/// of every text.
pub open spec fn in_format(text: Seq<char>, format: Seq<char>) -> bool {
    if format == "email"@ {
        email_shaped(text)
    } else if format == "url"@ {
        url_shaped(text)
    } else if format == "date"@ {
        reads_as_rfc3339(text)
    } else if format == "uuid"@ {
        reads_as_uuid(text)
    } else {
        true
    }
}

pub open spec fn null_violation(c: IntegrityConstraintView) -> ViolationView {
    ViolationView {
        violation_type: IntegrityViolationType::NullConstraintViolation,
        path: c.path,
        message: "Field '"@ + c.path + "' cannot be null"@,
        severity: c.severity,
        suggestion: Some("Provide a non-null value for this field"@),
    }
}

pub open spec fn unique_violation(c: IntegrityConstraintView) -> ViolationView {
    ViolationView {
        violation_type: IntegrityViolationType::DuplicateKeyViolation,
        path: c.path,
        message: "Field '"@ + c.path + "' must be unique"@,
        severity: c.severity,
        suggestion: Some("Ensure the value is unique across all records"@),
    }
}

pub open spec fn reference_violation(c: IntegrityConstraintView) -> ViolationView {
    ViolationView {
        violation_type: IntegrityViolationType::ReferentialIntegrityViolation,
        path: c.path,
        message: "Foreign key '"@ + c.path + "' references non-existent value"@,
        severity: c.severity,
        suggestion: Some("Ensure the referenced value exists"@),
    }
}

pub open spec fn below_range(c: IntegrityConstraintView, value: Decimal, bound: Decimal) -> ViolationView {
    ViolationView {
        violation_type: IntegrityViolationType::RangeViolation,
        path: c.path,
        message: "Value "@ + value.text() + " is below minimum "@ + bound.text(),
        severity: c.severity,
        suggestion: Some("Increase the value to meet the minimum requirement"@),
    }
}

pub open spec fn above_range(c: IntegrityConstraintView, value: Decimal, bound: Decimal) -> ViolationView {
    ViolationView {
        violation_type: IntegrityViolationType::RangeViolation,
        path: c.path,
        message: "Value "@ + value.text() + " exceeds maximum "@ + bound.text(),
        severity: c.severity,
        suggestion: Some("Decrease the value to meet the maximum requirement"@),
    }
}

pub open spec fn format_violation(c: IntegrityConstraintView, text: Seq<char>, format: Seq<char>) -> ViolationView {
    ViolationView {
        violation_type: IntegrityViolationType::FormatViolation,
        path: c.path,
        message: "Value '"@ + text + "' does not match format '"@ + format + "'"@,
        severity: c.severity,
        suggestion: Some("Update the value to match format '"@ + format + "'"@),
    }
}

pub open spec fn checksum_violation(expected: Seq<char>, actual: Seq<char>) -> ViolationView {
    ViolationView {
        violation_type: IntegrityViolationType::ChecksumMismatch,
        path: "root"@,
        message: "Checksum mismatch: expected "@ + expected + ", got "@ + actual,
        severity: ViolationSeverity::Critical,
        suggestion: Some("Verify data source and recalculate checksum"@),
    }
}

pub open spec fn duplicate_violation(key: Seq<char>) -> ViolationView {
    ViolationView {
        violation_type: IntegrityViolationType::DuplicateKeyViolation,
        path: "root"@,
        message: "Duplicate key found: "@ + key,
        severity: ViolationSeverity::Medium,
        suggestion: Some("Remove duplicate keys"@),
    }
}

/// The number under `key` of a bounds object.
pub open spec fn range_bound(bounds: Json, key: Seq<char>) -> Option<Decimal> {
    match bounds.get(key) {
        Some(Json::Number(bound)) => Some(bound),
        _ => None,
    }
}

/// The violation of a range: the number at the path lies below the `min` of
/// the constraint's value, or else above its `max`. What is no number, or
/// has no bounds, breaks no range.
pub open spec fn range_violation(data: Json, c: IntegrityConstraintView) -> Option<ViolationView> {
    match (value_at(data, c.path), c.value) {
        (Some(Json::Number(x)), Some(bounds)) => {
            if range_bound(bounds, "min"@) matches Some(min) && x.lt(min) {
                Some(below_range(c, x, range_bound(bounds, "min"@)->0))
            } else if range_bound(bounds, "max"@) matches Some(max) && max.lt(x) {
                Some(above_range(c, x, range_bound(bounds, "max"@)->0))
            } else {
                None
            }
        },
        _ => None,
    }
}

/// `NotNull`: the value at the path is not null.
pub open spec fn not_null_violation(data: Json, c: IntegrityConstraintView) -> Option<ViolationView> {
    match value_at(data, c.path) {
        Some(Json::Null) => Some(null_violation(c)),
        _ => None,
    }
}

/// `Unique`: as far as one document can tell, the value at the path is not
/// null. Whether other documents hold the same value is for an index to
/// say that the checker does not have.
pub open spec fn uniqueness_violation(data: Json, c: IntegrityConstraintView) -> Option<ViolationView> {
    match value_at(data, c.path) {
        Some(Json::Null) => Some(unique_violation(c)),
        _ => None,
    }
}

/// `ForeignKey`: the value at the path is the same as the constraint's value.
pub open spec fn foreign_key_violation(data: Json, c: IntegrityConstraintView) -> Option<ViolationView> {
    match (value_at(data, c.path), c.value) {
        (Some(found), Some(expected)) => if json_same(found, expected) {
            None
        } else {
            Some(reference_violation(c))
        },
        _ => None,
    }
}

/// `Format`: the text at the path is in the format that the constraint's value names.
pub open spec fn format_violation_of(data: Json, c: IntegrityConstraintView) -> Option<ViolationView> {
    match (value_at(data, c.path), c.value) {
        (Some(Json::String(text)), Some(Json::String(format))) => if in_format(text, format) {
            None
        } else {
            Some(format_violation(c, text, format))
        },
        _ => None,
    }
}

/// The violation that the document draws from one constraint, if it breaks
/// it. `Custom` never fails, and a constraint whose path leads nowhere is met.
pub open spec fn violation_of(data: Json, c: IntegrityConstraintView) -> Option<ViolationView> {
    match c.constraint_type {
        ConstraintType::NotNull => not_null_violation(data, c),
        ConstraintType::Unique => uniqueness_violation(data, c),
        ConstraintType::ForeignKey => foreign_key_violation(data, c),
        ConstraintType::Range => range_violation(data, c),
        ConstraintType::Format => format_violation_of(data, c),
        ConstraintType::Custom => None,
    }
}

/// The violations of the first `n` constraints, in order.
pub open spec fn constraint_violations(data: Json, constraints: Seq<IntegrityConstraintView>, n: nat) -> Seq<
    ViolationView,
>
    decreases n,
{
    if n == 0 || n > constraints.len() {
        Seq::empty()
    } else {
        constraint_violations(data, constraints, (n - 1) as nat) + (match violation_of(
            data,
            constraints[n - 1],
        ) {
            Some(v) => seq![v],
            None => Seq::empty(),
        })
    }
}

/// One violation for each of the first `n` members whose name an earlier
/// member already bears.
pub open spec fn duplicate_violations(members: Seq<(Seq<char>, Json)>, n: nat) -> Seq<ViolationView>
    decreases n,
{
    if n == 0 || n > members.len() {
        Seq::empty()
    } else {
        duplicate_violations(members, (n - 1) as nat) + (if first_index(
            members,
            members[n - 1].0,
            (n - 1) as nat,
        ) is Some {
            seq![duplicate_violation(members[n - 1].0)]
        } else {
            Seq::empty()
        })
    }
}

/// What the checks that need no constraint find: names that stand twice at
/// the top of an object. A document is a tree, so it holds no cycle to report.
pub open spec fn consistency_violations(data: Json) -> Seq<ViolationView> {
    match data {
        Json::Object(members) => duplicate_violations(members, members.len()),
        _ => Seq::empty(),
    }
}

pub const HASH_SEED: u64 = 0xcbf2_9ce4_8422_2325;

pub const HASH_PRIME: u64 = 0x0000_0100_0000_01b3;

/// One step of the hash: the character is mixed in, then the state is multiplied.
pub open spec fn hash_step(state: u64, c: char) -> u64 {
    (((state ^ (c as u64)) as int * HASH_PRIME as int) % 0x1_0000_0000_0000_0000) as u64
}

/// The hash of the first `n` characters of `text`.
pub open spec fn text_hash(text: Seq<char>, n: nat) -> u64
    decreases n,
{
    if n == 0 || n > text.len() {
        HASH_SEED
    } else {
        hash_step(text_hash(text, (n - 1) as nat), text[n - 1])
    }
}

/// `n` in base sixteen, in lower case and without leading zeros.
pub open spec fn hex_text(n: nat) -> Seq<char>
    decreases n,
{
    if n < 16 {
        seq![hex_char(n as int)]
    } else {
        hex_text(n / 16).push(hex_char((n % 16) as int))
    }
}

/// The checksum of a document: the hash of its compact JSON text, in base sixteen.
pub open spec fn checksum_of(data: Json) -> Seq<char> {
    hex_text(text_hash(json_text(data), json_text(data).len()) as nat)
}

/// The violation for a checksum that does not fit, if one is registered
/// under `key` and differs from the document's.
pub open spec fn checksum_violations(data: Json, checksums: Seq<(Seq<char>, Seq<char>)>, key: Seq<char>) -> Seq<
    ViolationView,
> {
    match registered_checksum(checksums, key, checksums.len()) {
        Some(expected) => if expected == checksum_of(data) {
            Seq::empty()
        } else {
            seq![checksum_violation(expected, checksum_of(data))]
        },
        None => Seq::empty(),
    }
}

/// The checksum that the first of the first `n` entries named `key` gives.
pub open spec fn registered_checksum(checksums: Seq<(Seq<char>, Seq<char>)>, key: Seq<char>, n: nat) -> Option<
    Seq<char>,
>
    decreases n,
{
    if n == 0 || n > checksums.len() {
        None
    } else {
        match registered_checksum(checksums, key, (n - 1) as nat) {
            Some(found) => Some(found),
            None => if checksums[n - 1].0 == key {
                Some(checksums[n - 1].1)
            } else {
                None
            },
        }
    }
}

/// All violations of a document, in the order of the checks: the checksum,
/// the constraints, the consistency of the document itself.
pub open spec fn all_violations(
    data: Json,
    checksums: Seq<(Seq<char>, Seq<char>)>,
    constraints: Seq<IntegrityConstraintView>,
    key: Seq<char>,
) -> Seq<ViolationView> {
    checksum_violations(data, checksums, key) + constraint_violations(
        data,
        constraints,
        constraints.len(),
    ) + consistency_violations(data)
}

fn push_violation(list: &mut Vec<IntegrityViolation>, v: IntegrityViolation)
    ensures
        violation_views(final(list)@) == violation_views(old(list)@) + seq![v@],
{
    list.push(v);
    assert(violation_views(list@) =~= violation_views(old(list)@) + seq![v@]);
}

fn make_violation(
    violation_type: IntegrityViolationType,
    path: &str,
    message: String,
    severity: ViolationSeverity,
    suggestion: String,
) -> (v: IntegrityViolation)
    ensures
        v@ == (ViolationView {
            violation_type,
            path: path@,
            message: message@,
            severity,
            suggestion: Some(suggestion@),
        }),
{
    IntegrityViolation {
        violation_type,
        path: owned(path),
        message,
        severity,
        suggestion: Some(suggestion),
    }
}

fn push_hex(out: &mut Vec<char>, n: u64)
    ensures
        final(out)@ == old(out)@ + hex_text(n as nat),
    decreases n,
{
    if n >= 16 {
        push_hex(out, n / 16);
    }
    let d = n % 16;
    let c = if d == 0 {
        '0'
    } else if d == 1 {
        '1'
    } else if d == 2 {
        '2'
    } else if d == 3 {
        '3'
    } else if d == 4 {
        '4'
    } else if d == 5 {
        '5'
    } else if d == 6 {
        '6'
    } else if d == 7 {
        '7'
    } else if d == 8 {
        '8'
    } else if d == 9 {
        '9'
    } else if d == 10 {
        'a'
    } else if d == 11 {
        'b'
    } else if d == 12 {
        'c'
    } else if d == 13 {
        'd'
    } else if d == 14 {
        'e'
    } else {
        'f'
    };
    out.push(c);
}

/// The content of each registered checksum: the key and the checksum.
pub open spec fn checksum_views(checksums: Seq<(String, String)>) -> Seq<(Seq<char>, Seq<char>)> {
    Seq::new(checksums.len(), |i: int| (checksums[i].0@, checksums[i].1@))
}

proof fn lemma_checksum_found(checksums: Seq<(Seq<char>, Seq<char>)>, key: Seq<char>, i: int, n: nat)
    requires
        0 <= i < n <= checksums.len(),
        checksums[i].0 == key,
        registered_checksum(checksums, key, i as nat) is None,
    ensures
        registered_checksum(checksums, key, n) == Some(checksums[i].1),
    decreases n,
{
    if n > i + 1 {
        lemma_checksum_found(checksums, key, i, (n - 1) as nat);
    }
}

/// The score for the given violations.
pub fn calculate_consistency_score(violations: &Vec<IntegrityViolation>) -> (score: u32)
    ensures
        score == consistency_score(violation_views(violations@)),
        score <= 100,
{
    let ghost vs = violation_views(violations@);
    let mut lost: u32 = 0;
    let mut i: usize = 0;
    while i < violations.len()
        invariant
            i <= violations.len(),
            vs == violation_views(violations@),
            lost <= 100,
            lost == if total_penalty(vs, i as nat) >= 100 {
                100
            } else {
                total_penalty(vs, i as nat)
            },
        decreases violations.len() - i,
    {
        assert(vs[i as int] == violations@[i as int]@);
        let cost: u32 = match violations[i].severity {
            ViolationSeverity::Low => 5,
            ViolationSeverity::Medium => 15,
            ViolationSeverity::High => 30,
            ViolationSeverity::Critical => 50,
        };
        lost = if lost + cost >= 100 {
            100
        } else {
            lost + cost
        };
        i = i + 1;
    }
    100 - lost
}

/// The checksum of a document.
pub fn calculate_checksum(data: &Value) -> (checksum: String)
    ensures
        checksum@ == checksum_of(data@),
{
    let mut text: Vec<char> = Vec::new();
    data.write_json(&mut text);
    let mut state: u64 = HASH_SEED;
    let mut i: usize = 0;
    while i < text.len()
        invariant
            i <= text.len(),
            state == text_hash(text@, i as nat),
        decreases text.len() - i,
    {
        let mixed: u64 = state ^ (text[i] as u64);
        let product: u128 = (mixed as u128) * (HASH_PRIME as u128);
        state = (product % 0x1_0000_0000_0000_0000) as u64;
        i = i + 1;
    }
    let mut out: Vec<char> = Vec::new();
    push_hex(&mut out, state);
    text_of(&out)
}

/// The value at `path` of the document.
pub fn get_value_by_path<'a>(data: &'a Value, path: &str) -> (r: Option<&'a Value>)
    ensures
        match r {
            Some(v) => value_at(data@, path@) == Some(v@),
            None => value_at(data@, path@) is None,
        },
{
    if same_text(path, "root") || path.is_empty() {
        return Some(data);
    }
    let chars = chars_of(path);
    let mut current: &Value = data;
    let mut from: usize = 0;
    loop
        invariant
            chars@ == path@,
            from <= chars.len(),
            value_at(data@, path@) == descend(current@, path@, from as int),
        decreases chars.len() - from,
    {
        let mut end: usize = from;
        while end < chars.len() && chars[end] != '.'
            invariant
                from <= end <= chars.len(),
                forall|k: int| from <= k < end ==> chars@[k] != '.',
            decreases chars.len() - end,
        {
            end = end + 1;
        }
        proof {
            lemma_next_dot_skips(path@, from as int, end as int);
            lemma_next_dot_bounds(path@, from as int);
        }
        let mut name: Vec<char> = Vec::new();
        crate::text::push_range(&mut name, &chars, from, end);
        assert(name@ =~= path@.subrange(from as int, end as int));
        let segment = text_of(&name);
        match current.get(segment.as_str()) {
            Some(child) => {
                if end >= chars.len() {
                    return Some(child);
                }
                current = child;
                from = end + 1;
            },
            None => {
                return None;
            },
        }
    }
}

/// Whether `text` holds an `@` and a `.`.
pub fn is_valid_email(text: &str) -> (b: bool)
    ensures
        b == email_shaped(text@),
{
    contains_text(text, "@") && contains_text(text, ".")
}

/// Whether `text` starts with `http://` or `https://`.
pub fn is_valid_url(text: &str) -> (b: bool)
    ensures
        b == url_shaped(text@),
{
    starts_with_text(text, "http://") || starts_with_text(text, "https://")
}

/// Whether `text` is an RFC 3339 date and time.
pub fn is_valid_date(text: &str) -> (b: bool)
    ensures
        b == reads_as_rfc3339(text@),
{
    is_rfc3339(text)
}

/// Whether `text` is a UUID.
pub fn is_valid_uuid(text: &str) -> (b: bool)
    ensures
        b == reads_as_uuid(text@),
{
    is_uuid(text)
}

/// Whether `text` is in the named format.
pub fn validate_format(text: &str, format: &str) -> (b: bool)
    ensures
        b == in_format(text@, format@),
{
    if same_text(format, "email") {
        is_valid_email(text)
    } else if same_text(format, "url") {
        is_valid_url(text)
    } else if same_text(format, "date") {
        is_valid_date(text)
    } else if same_text(format, "uuid") {
        is_valid_uuid(text)
    } else {
        true
    }
}

/// The violation for a text that is not in the format it should be in.
pub fn check_format_outcome(constraint: &IntegrityConstraint, text: &str, format: &str, fits: bool) -> (r:
    Option<IntegrityViolation>)
    ensures
        match r {
            Some(v) => !fits && v@ == format_violation(constraint@, text@, format@),
            None => fits,
        },
{
    if fits {
        None
    } else {
        Some(
            make_violation(
                IntegrityViolationType::FormatViolation,
                constraint.path.as_str(),
                join5("Value '", text, "' does not match format '", format, "'"),
                constraint.severity,
                join3("Update the value to match format '", format, "'"),
            ),
        )
    }
}

fn bound_in<'a>(bounds: &'a Value, key: &str) -> (r: Option<&'a crate::number::Number>)
    ensures
        match r {
            Some(n) => range_bound(bounds@, key@) == Some(n@),
            None => range_bound(bounds@, key@) is None,
        },
{
    match bounds.get(key) {
        Some(Value::Number(n)) => Some(n),
        _ => None,
    }
}

/// The violation that the document draws from the bounds of a constraint.
pub fn check_range_constraint(data: &Value, constraint: &IntegrityConstraint) -> (r: Option<
    IntegrityViolation,
>)
    ensures
        match r {
            Some(v) => range_violation(data@, constraint@) == Some(v@),
            None => range_violation(data@, constraint@) is None,
        },
{
    if let Some(Value::Number(x)) = get_value_by_path(data, constraint.path.as_str()) {
        if let Some(bounds) = &constraint.value {
            if let Some(min) = bound_in(bounds, "min") {
                if x.lt(min) {
                    return Some(
                        make_violation(
                            IntegrityViolationType::RangeViolation,
                            constraint.path.as_str(),
                            join4(
                                "Value ",
                                x.to_text().as_str(),
                                " is below minimum ",
                                min.to_text().as_str(),
                            ),
                            constraint.severity,
                            owned("Increase the value to meet the minimum requirement"),
                        ),
                    );
                }
            }
            if let Some(max) = bound_in(bounds, "max") {
                if x.gt(max) {
                    return Some(
                        make_violation(
                            IntegrityViolationType::RangeViolation,
                            constraint.path.as_str(),
                            join4(
                                "Value ",
                                x.to_text().as_str(),
                                " exceeds maximum ",
                                max.to_text().as_str(),
                            ),
                            constraint.severity,
                            owned("Decrease the value to meet the maximum requirement"),
                        ),
                    );
                }
            }
        }
    }
    None
}

/// The violation that the document draws from one constraint, if it breaks it.
pub fn check_constraint(data: &Value, constraint: &IntegrityConstraint) -> (r: Option<
    IntegrityViolation,
>)
    ensures
        match r {
            Some(v) => violation_of(data@, constraint@) == Some(v@),
            None => violation_of(data@, constraint@) is None,
        },
{
    match constraint.constraint_type {
        ConstraintType::NotNull => check_not_null_constraint(data, constraint),
        ConstraintType::Unique => check_unique_constraint(data, constraint),
        ConstraintType::ForeignKey => check_foreign_key_constraint(data, constraint),
        ConstraintType::Range => check_range_constraint(data, constraint),
        ConstraintType::Format => check_format_constraint(data, constraint),
        ConstraintType::Custom => check_custom_constraint(data, constraint),
    }
}

/// `NotNull`: the value at the path is not null.
pub fn check_not_null_constraint(data: &Value, constraint: &IntegrityConstraint) -> (r: Option<
    IntegrityViolation,
>)
    ensures
        match r {
            Some(v) => not_null_violation(data@, constraint@) == Some(v@),
            None => not_null_violation(data@, constraint@) is None,
        },
{
    let path = constraint.path.as_str();
    if let Some(Value::Null) = get_value_by_path(data, path) {
        Some(
            make_violation(
                IntegrityViolationType::NullConstraintViolation,
                path,
                join3("Field '", path, "' cannot be null"),
                constraint.severity,
                owned("Provide a non-null value for this field"),
            ),
        )
    } else {
        None
    }
}

/// `Unique`: as far as one document can tell, the value at the path is not null.
pub fn check_unique_constraint(data: &Value, constraint: &IntegrityConstraint) -> (r: Option<
    IntegrityViolation,
>)
    ensures
        match r {
            Some(v) => uniqueness_violation(data@, constraint@) == Some(v@),
            None => uniqueness_violation(data@, constraint@) is None,
        },
{
    let path = constraint.path.as_str();
    if let Some(Value::Null) = get_value_by_path(data, path) {
        Some(
            make_violation(
                IntegrityViolationType::DuplicateKeyViolation,
                path,
                join3("Field '", path, "' must be unique"),
                constraint.severity,
                owned("Ensure the value is unique across all records"),
            ),
        )
    } else {
        None
    }
}

/// `ForeignKey`: the value at the path is the same as the constraint's value.
pub fn check_foreign_key_constraint(data: &Value, constraint: &IntegrityConstraint) -> (r: Option<
    IntegrityViolation,
>)
    ensures
        match r {
            Some(v) => foreign_key_violation(data@, constraint@) == Some(v@),
            None => foreign_key_violation(data@, constraint@) is None,
        },
{
    let path = constraint.path.as_str();
    if let Some(found) = get_value_by_path(data, path) {
        if let Some(expected) = &constraint.value {
            if !found.same_as(expected) {
                return Some(
                    make_violation(
                        IntegrityViolationType::ReferentialIntegrityViolation,
                        path,
                        join3("Foreign key '", path, "' references non-existent value"),
                        constraint.severity,
                        owned("Ensure the referenced value exists"),
                    ),
                );
            }
        }
    }
    None
}

/// `Format`: the text at the path is in the format that the constraint's value names.
pub fn check_format_constraint(data: &Value, constraint: &IntegrityConstraint) -> (r: Option<
    IntegrityViolation,
>)
    ensures
        match r {
            Some(v) => format_violation_of(data@, constraint@) == Some(v@),
            None => format_violation_of(data@, constraint@) is None,
        },
{
    if let Some(Value::String(text)) = get_value_by_path(data, constraint.path.as_str()) {
        if let Some(Value::String(format)) = &constraint.value {
            let fits = validate_format(text.as_str(), format.as_str());
            return check_format_outcome(constraint, text.as_str(), format.as_str(), fits);
        }
    }
    None
}

/// `Custom`: a place for checks of the caller's own; none is made.
pub fn check_custom_constraint(data: &Value, constraint: &IntegrityConstraint) -> (r: Option<
    IntegrityViolation,
>)
    ensures
        r is None,
{
    None
}

/// Whether the document refers back to itself: a document is a tree, so it never does.
pub fn has_circular_reference(data: &Value) -> (b: bool)
    ensures
        !b,
{
    false
}

/// The checks that need no constraint.
pub fn check_data_consistency(data: &Value) -> (violations: Vec<IntegrityViolation>)
    ensures
        violation_views(violations@) == consistency_violations(data@),
{
    let mut violations: Vec<IntegrityViolation> = Vec::new();
    assert(violation_views(violations@) =~= Seq::empty());
    if let Value::Object(members) = data {
        let ghost ms = view_members(members@);
        let mut i: usize = 0;
        proof {
            lemma_view_members(members@);
        }
        while i < members.len()
            invariant
                i <= members.len(),
                ms == view_members(members@),
                ms.len() == members.len(),
                violation_views(violations@) == duplicate_violations(ms, i as nat),
            decreases members.len() - i,
        {
            proof {
                lemma_view_members(members@);
                assert(ms[i as int].0 == members@[i as int].0@);
            }
            let key = members[i].0.as_str();
            let mut seen = false;
            let mut k: usize = 0;
            while k < i
                invariant
                    k <= i < members.len(),
                    ms == view_members(members@),
                    ms.len() == members.len(),
                    key@ == ms[i as int].0,
                    seen == (first_index(ms, key@, k as nat) is Some),
                decreases i - k,
            {
                proof {
                    lemma_view_members(members@);
                    assert(ms[k as int].0 == members@[k as int].0@);
                }
                if same_text(members[k].0.as_str(), key) {
                    seen = true;
                }
                k = k + 1;
            }
            if seen {
                let v = make_violation(
                    IntegrityViolationType::DuplicateKeyViolation,
                    "root",
                    join2("Duplicate key found: ", key),
                    ViolationSeverity::Medium,
                    owned("Remove duplicate keys"),
                );
                push_violation(&mut violations, v);
            }
            i = i + 1;
            assert(violation_views(violations@) =~= duplicate_violations(ms, i as nat));
        }
    }
    if has_circular_reference(data) {
        let v = make_violation(
            IntegrityViolationType::DataConsistencyViolation,
            "root",
            owned("Circular reference detected"),
            ViolationSeverity::High,
            owned("Remove circular references"),
        );
        push_violation(&mut violations, v);
    }
    violations
}

/// Checks documents against registered checksums and constraints.
pub struct DataIntegrityChecker {
    checksums: Vec<(String, String)>,
    constraints: Vec<IntegrityConstraint>,
}

impl DataIntegrityChecker {
    /// The registered checksums by key.
    pub closed spec fn checksums(&self) -> Seq<(Seq<char>, Seq<char>)> {
        checksum_views(self.checksums@)
    }

    /// The registered constraints, in the order in which they were added.
    pub closed spec fn constraints(&self) -> Seq<IntegrityConstraintView> {
        constraint_views(self.constraints@)
    }

    pub fn new() -> (c: DataIntegrityChecker)
        ensures
            c.checksums() == Seq::<(Seq<char>, Seq<char>)>::empty(),
            c.constraints() == Seq::<IntegrityConstraintView>::empty(),
    {
        let c = DataIntegrityChecker { checksums: Vec::new(), constraints: Vec::new() };
        assert(c.checksums() =~= Seq::empty());
        assert(c.constraints() =~= Seq::empty());
        c
    }

    fn find_checksum(&self, key: &str) -> (r: Option<usize>)
        ensures
            match r {
                Some(i) => i < self.checksums.len() && self.checksums()[i as int].0 == key@
                    && registered_checksum(self.checksums(), key@, i as nat) is None
                    && registered_checksum(self.checksums(), key@, self.checksums().len()) == Some(
                    self.checksums()[i as int].1,
                ),
                None => registered_checksum(self.checksums(), key@, self.checksums().len()) is None,
            },
    {
        let mut i: usize = 0;
        while i < self.checksums.len()
            invariant
                i <= self.checksums.len(),
                registered_checksum(self.checksums(), key@, i as nat) is None,
            decreases self.checksums.len() - i,
        {
            if same_text(self.checksums[i].0.as_str(), key) {
                proof {
                    lemma_checksum_found(
                        self.checksums(),
                        key@,
                        i as int,
                        self.checksums.len() as nat,
                    );
                }
                return Some(i);
            }
            i = i + 1;
        }
        None
    }

    /// Registers the checksum that the document checked under `key` must have.
    pub fn add_checksum(&mut self, key: &str, checksum: &str)
        ensures
            final(self).constraints() == old(self).constraints(),
            registered_checksum(final(self).checksums(), key@, final(self).checksums().len())
                == Some(checksum@),
            forall|other: Seq<char>|
                other != key@ ==> registered_checksum(
                    final(self).checksums(),
                    other,
                    final(self).checksums().len(),
                ) == registered_checksum(old(self).checksums(), other, old(self).checksums().len()),
    {
        match self.find_checksum(key) {
            Some(i) => {
                self.checksums.set(i, (owned(key), owned(checksum)));
                proof {
                    assert(final(self).checksums() =~= old(self).checksums().update(
                        i as int,
                        (key@, checksum@),
                    ));
                    lemma_update_entry(old(self).checksums(), i as int, key@, checksum@);
                }
            },
            None => {
                self.checksums.push((owned(key), owned(checksum)));
                proof {
                    assert(final(self).checksums() =~= old(self).checksums().push(
                        (key@, checksum@),
                    ));
                    lemma_push_entry(old(self).checksums(), key@, checksum@);
                }
            },
        }
    }

    /// Adds a constraint.
    pub fn add_constraint(&mut self, constraint: IntegrityConstraint)
        ensures
            final(self).constraints() == old(self).constraints().push(constraint@),
            final(self).checksums() == old(self).checksums(),
    {
        self.constraints.push(constraint);
        assert(final(self).constraints() =~= old(self).constraints().push(constraint@));
    }

    /// The registered checksums.
    pub fn get_checksums(&self) -> (r: &Vec<(String, String)>)
        ensures
            checksum_views(r@) == self.checksums(),
    {
        &self.checksums
    }

    /// The registered constraints.
    pub fn get_constraints(&self) -> (r: &Vec<IntegrityConstraint>)
        ensures
            constraint_views(r@) == self.constraints(),
    {
        &self.constraints
    }

    /// Forgets every checksum.
    pub fn clear_checksums(&mut self)
        ensures
            final(self).checksums() == Seq::<(Seq<char>, Seq<char>)>::empty(),
            final(self).constraints() == old(self).constraints(),
    {
        self.checksums.clear();
        assert(final(self).checksums() =~= Seq::empty());
    }

    /// Forgets every constraint.
    pub fn clear_constraints(&mut self)
        ensures
            final(self).constraints() == Seq::<IntegrityConstraintView>::empty(),
            final(self).checksums() == old(self).checksums(),
    {
        self.constraints.clear();
        assert(final(self).constraints() =~= Seq::empty());
    }

    /// Checks the document registered under `key`: its checksum if one is
    /// registered, every constraint, and its own consistency.
    ///
    /// The result is valid exactly when nothing was found; the checksum is
    /// valid unless a registered checksum differs from the document's.
    pub fn check_integrity(&self, data: &Value, key: &str) -> (r: Result<IntegrityResult, Error>)
        ensures
            r matches Ok(outcome) && {
                &&& violation_views(outcome.violations@) == all_violations(
                    data@,
                    self.checksums(),
                    self.constraints(),
                    key@,
                )
                &&& outcome.is_valid == (outcome.violations@.len() == 0)
                &&& outcome.checksum_valid == (checksum_violations(
                    data@,
                    self.checksums(),
                    key@,
                ).len() == 0)
                &&& outcome.consistency_score == consistency_score(
                    violation_views(outcome.violations@),
                )
                &&& outcome.check_time_ms == 0
            },
    {
        let mut violations: Vec<IntegrityViolation> = Vec::new();
        assert(violation_views(violations@) =~= Seq::empty());
        let mut checksum_valid = true;
        if let Some(i) = self.find_checksum(key) {
            let expected = self.checksums[i].1.as_str();
            let actual = calculate_checksum(data);
            if !same_text(actual.as_str(), expected) {
                checksum_valid = false;
                let v = make_violation(
                    IntegrityViolationType::ChecksumMismatch,
                    "root",
                    join4("Checksum mismatch: expected ", expected, ", got ", actual.as_str()),
                    ViolationSeverity::Critical,
                    owned("Verify data source and recalculate checksum"),
                );
                push_violation(&mut violations, v);
            }
        }
        let ghost part1 = violation_views(violations@);
        assert(part1 =~= checksum_violations(data@, self.checksums(), key@));
        let ghost cs = self.constraints();
        let mut i: usize = 0;
        assert(violation_views(violations@) =~= part1 + constraint_violations(data@, cs, 0));
        while i < self.constraints.len()
            invariant
                i <= self.constraints.len(),
                cs == self.constraints(),
                violation_views(violations@) == part1 + constraint_violations(data@, cs, i as nat),
            decreases self.constraints.len() - i,
        {
            assert(cs[i as int] == self.constraints@[i as int]@);
            if let Some(v) = check_constraint(data, &self.constraints[i]) {
                push_violation(&mut violations, v);
            }
            i = i + 1;
            assert(violation_views(violations@) =~= part1 + constraint_violations(
                data@,
                cs,
                i as nat,
            ));
        }
        let mut found = check_data_consistency(data);
        let ghost part3 = violation_views(found@);
        let ghost before = violation_views(violations@);
        violations.append(&mut found);
        assert(violation_views(violations@) =~= before + part3);
        let is_valid = violations.is_empty();
        let score = calculate_consistency_score(&violations);
        Ok(
            IntegrityResult {
                is_valid,
                violations,
                checksum_valid,
                consistency_score: score,
                check_time_ms: 0,
            },
        )
    }
}

proof fn lemma_registered_prefix(a: Seq<(Seq<char>, Seq<char>)>, b: Seq<(Seq<char>, Seq<char>)>, key: Seq<char>, n: nat)
    requires
        n <= a.len(),
        n <= b.len(),
        forall|k: int| 0 <= k < n ==> a[k] == b[k],
    ensures
        registered_checksum(a, key, n) == registered_checksum(b, key, n),
    decreases n,
{
    if n > 0 {
        lemma_registered_prefix(a, b, key, (n - 1) as nat);
    }
}

proof fn lemma_registered_same_keys(a: Seq<(Seq<char>, Seq<char>)>, b: Seq<(Seq<char>, Seq<char>)>, i: int, key: Seq<char>, n: nat)
    requires
        a.len() == b.len(),
        n <= a.len(),
        0 <= i < a.len(),
        forall|k: int| 0 <= k < a.len() && k != i ==> a[k] == b[k],
        a[i].0 == b[i].0,
        a[i].0 != key,
    ensures
        registered_checksum(a, key, n) == registered_checksum(b, key, n),
    decreases n,
{
    if n > 0 {
        lemma_registered_same_keys(a, b, i, key, (n - 1) as nat);
    }
}

proof fn lemma_update_entry(checksums: Seq<(Seq<char>, Seq<char>)>, i: int, key: Seq<char>, checksum: Seq<char>)
    requires
        0 <= i < checksums.len(),
        checksums[i].0 == key,
        registered_checksum(checksums, key, i as nat) is None,
    ensures
        ({
            let updated = checksums.update(i, (key, checksum));
            &&& registered_checksum(updated, key, updated.len()) == Some(checksum)
            &&& forall|other: Seq<char>|
                other != key ==> registered_checksum(updated, other, updated.len())
                    == registered_checksum(checksums, other, checksums.len())
        }),
{
    let updated = checksums.update(i, (key, checksum));
    lemma_registered_prefix(checksums, updated, key, i as nat);
    lemma_checksum_found(updated, key, i, updated.len());
    assert forall|other: Seq<char>| other != key implies registered_checksum(
        updated,
        other,
        updated.len(),
    ) == registered_checksum(checksums, other, checksums.len()) by {
        lemma_registered_same_keys(checksums, updated, i, other, checksums.len());
    }
}

proof fn lemma_push_entry(checksums: Seq<(Seq<char>, Seq<char>)>, key: Seq<char>, checksum: Seq<char>)
    requires
        registered_checksum(checksums, key, checksums.len()) is None,
    ensures
        ({
            let pushed = checksums.push((key, checksum));
            &&& registered_checksum(pushed, key, pushed.len()) == Some(checksum)
            &&& forall|other: Seq<char>|
                other != key ==> registered_checksum(pushed, other, pushed.len())
                    == registered_checksum(checksums, other, checksums.len())
        }),
{
    let pushed = checksums.push((key, checksum));
    lemma_registered_prefix(checksums, pushed, key, checksums.len());
    assert forall|other: Seq<char>| other != key implies registered_checksum(
        pushed,
        other,
        pushed.len(),
    ) == registered_checksum(checksums, other, checksums.len()) by {
        lemma_registered_prefix(checksums, pushed, other, checksums.len());
    }
}

/// One more violation never raises the score, and the score stays between 0 and 100.
pub proof fn lemma_score_non_increasing(violations: Seq<ViolationView>, added: ViolationView)
    ensures
        consistency_score(violations.push(added)) <= consistency_score(violations) <= 100,
{
    lemma_penalty_prefix(violations, violations.push(added), violations.len());
}

/// A violation of a higher severity in the place of one of a lower never raises the score.
pub proof fn lemma_score_by_severity(
    violations: Seq<ViolationView>,
    lighter: ViolationView,
    heavier: ViolationView,
)
    requires
        penalty(lighter.severity) <= penalty(heavier.severity),
    ensures
        consistency_score(violations.push(heavier)) <= consistency_score(violations.push(lighter)),
{
    lemma_penalty_prefix(violations, violations.push(lighter), violations.len());
    lemma_penalty_prefix(violations, violations.push(heavier), violations.len());
}

/// A violation of a higher severity in the place of any one violation never
/// raises the score.
pub proof fn lemma_score_by_severity_anywhere(
    violations: Seq<ViolationView>,
    at: int,
    heavier: ViolationView,
)
    requires
        0 <= at < violations.len(),
        penalty(violations[at].severity) <= penalty(heavier.severity),
    ensures
        consistency_score(violations.update(at, heavier)) <= consistency_score(violations),
{
    lemma_penalty_grows(violations, at, heavier, violations.len());
}

proof fn lemma_penalty_grows(violations: Seq<ViolationView>, at: int, heavier: ViolationView, n: nat)
    requires
        0 <= at < violations.len(),
        n <= violations.len(),
        penalty(violations[at].severity) <= penalty(heavier.severity),
    ensures
        total_penalty(violations, n) <= total_penalty(violations.update(at, heavier), n),
    decreases n,
{
    if n > 0 {
        lemma_penalty_grows(violations, at, heavier, (n - 1) as nat);
    }
}

/// The penalties rise with the severity.
pub proof fn lemma_penalty_rises()
    ensures
        penalty(ViolationSeverity::Low) < penalty(ViolationSeverity::Medium) < penalty(
            ViolationSeverity::High,
        ) < penalty(ViolationSeverity::Critical),
{
}

proof fn lemma_penalty_prefix(a: Seq<ViolationView>, b: Seq<ViolationView>, n: nat)
    requires
        n <= a.len(),
        n <= b.len(),
        forall|k: int| 0 <= k < n ==> a[k] == b[k],
    ensures
        total_penalty(a, n) == total_penalty(b, n),
    decreases n,
{
    if n > 0 {
        lemma_penalty_prefix(a, b, (n - 1) as nat);
    }
}

} // verus!
