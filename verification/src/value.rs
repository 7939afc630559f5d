//! The document model shared by schemas and data.

use vstd::prelude::*;
use crate::number::{Decimal, Number};
use crate::text::{chars_of, same_text, text_of};

verus! {

/// The mathematical content of a document: what contracts speak of.
pub enum Json {
    Null,
    Boolean(bool),
    Number(Decimal),
    String(Seq<char>),
    Array(Seq<Json>),
    /// Members in the order in which they were written.
    Object(Seq<(Seq<char>, Json)>),
}

/// A document: the value that is validated, and the schema it is validated against.
#[derive(Debug, PartialEq)]
pub enum Value {
    Null,
    Boolean(bool),
    Number(Number),
    String(String),
    Array(Vec<Value>),
    /// Members in the order in which they were written.
    Object(Vec<(String, Value)>),
}

impl Clone for Value {
    fn clone(&self) -> (copy: Value)
        ensures
            copy@ == self@,
    {
        self.duplicate()
    }
}

impl View for Value {
    type V = Json;

    open spec fn view(&self) -> Json {
        content(*self)
    }
}

/// The mathematical content of a document.
pub open spec fn content(v: Value) -> Json
    decreases v,
{
    match v {
        Value::Null => Json::Null,
        Value::Boolean(b) => Json::Boolean(b),
        Value::Number(n) => Json::Number(n@),
        Value::String(s) => Json::String(s@),
        Value::Array(items) => Json::Array(view_items(items@)),
        Value::Object(members) => Json::Object(view_members(members@)),
    }
}

/// The contents of each item, in order.
pub open spec fn view_items(items: Seq<Value>) -> Seq<Json>
    decreases items,
{
    if items.len() == 0 {
        Seq::empty()
    } else {
        view_items(items.drop_last()).push(content(items.last()))
    }
}

/// The name and contents of each member, in order.
pub open spec fn view_members(members: Seq<(String, Value)>) -> Seq<(Seq<char>, Json)>
    decreases members,
{
    if members.len() == 0 {
        Seq::empty()
    } else {
        view_members(members.drop_last()).push((members.last().0@, content(members.last().1)))
    }
}

/// Item `i` of the contents is the contents of item `i`.
pub proof fn lemma_view_items(items: Seq<Value>)
    ensures
        view_items(items).len() == items.len(),
        forall|i: int| 0 <= i < items.len() ==> #[trigger] view_items(items)[i] == items[i]@,
    decreases items.len(),
{
    if items.len() > 0 {
        lemma_view_items(items.drop_last());
    }
}

/// Member `i` of the contents is the name and contents of member `i`.
pub proof fn lemma_view_members(members: Seq<(String, Value)>)
    ensures
        view_members(members).len() == members.len(),
        forall|i: int|
            0 <= i < members.len() ==> #[trigger] view_members(members)[i] == (
                members[i].0@,
                members[i].1@,
            ),
    decreases members.len(),
{
    if members.len() > 0 {
        lemma_view_members(members.drop_last());
    }
}

/// Position of the first member named `key` among the first `n` members.
pub open spec fn first_index(members: Seq<(Seq<char>, Json)>, key: Seq<char>, n: nat) -> Option<int>
    decreases n,
{
    if n == 0 || n > members.len() {
        None
    } else {
        match first_index(members, key, (n - 1) as nat) {
            Some(i) => Some(i),
            None => if members[n - 1].0 == key {
                Some(n - 1)
            } else {
                None
            },
        }
    }
}

/// Position of the first member named `key`.
pub open spec fn index_of_key(members: Seq<(Seq<char>, Json)>, key: Seq<char>) -> Option<int> {
    first_index(members, key, members.len())
}

pub open spec fn has_key(members: Seq<(Seq<char>, Json)>, key: Seq<char>) -> bool {
    index_of_key(members, key) is Some
}

/// The value of the first member named `key`.
pub open spec fn lookup(members: Seq<(Seq<char>, Json)>, key: Seq<char>) -> Option<Json> {
    match index_of_key(members, key) {
        Some(i) => Some(members[i].1),
        None => None,
    }
}

pub proof fn lemma_first_index(members: Seq<(Seq<char>, Json)>, key: Seq<char>, n: nat)
    requires
        n <= members.len(),
    ensures
        match first_index(members, key, n) {
            Some(i) => 0 <= i < n && members[i].0 == key && forall|j: int|
                0 <= j < i ==> members[j].0 != key,
            None => forall|j: int| 0 <= j < n ==> members[j].0 != key,
        },
    decreases n,
{
    if n > 0 {
        lemma_first_index(members, key, (n - 1) as nat);
    }
}

/// A key is present exactly when some member bears it, and `lookup` gives the
/// first such member's value.
pub proof fn lemma_lookup(members: Seq<(Seq<char>, Json)>, key: Seq<char>)
    ensures
        has_key(members, key) <==> exists|j: int| 0 <= j < members.len() && members[j].0 == key,
        match index_of_key(members, key) {
            Some(i) => 0 <= i < members.len() && members[i].0 == key && lookup(members, key)
                == Some(members[i].1) && forall|j: int| 0 <= j < i ==> members[j].0 != key,
            None => lookup(members, key) is None,
        },
{
    lemma_first_index(members, key, members.len());
}

impl Json {
    /// The name of the value's kind, as schemas write it.
    pub open spec fn kind_name(self) -> Seq<char> {
        match self {
            Json::Null => "null"@,
            Json::Boolean(_) => "boolean"@,
            Json::Number(_) => "number"@,
            Json::String(_) => "string"@,
            Json::Array(_) => "array"@,
            Json::Object(_) => "object"@,
        }
    }

    /// The member named `key` of an object; `None` for other values.
    pub open spec fn get(self, key: Seq<char>) -> Option<Json> {
        match self {
            Json::Object(members) => lookup(members, key),
            _ => None,
        }
    }

    pub open spec fn contains_key(self, key: Seq<char>) -> bool {
        self.get(key) is Some
    }
}

impl Value {
    /// The name of the value's kind, as schemas write it.
    pub fn kind_name(&self) -> (name: &'static str)
        ensures
            name@ == self@.kind_name(),
    {
        match self {
            Value::Null => "null",
            Value::Boolean(_) => "boolean",
            Value::Number(_) => "number",
            Value::String(_) => "string",
            Value::Array(_) => "array",
            Value::Object(_) => "object",
        }
    }

    pub fn is_null(&self) -> (b: bool)
        ensures
            b == (self@ is Null),
    {
        match self {
            Value::Null => true,
            _ => false,
        }
    }

    /// The member named `key` of an object; `None` for other values.
    pub fn get(&self, key: &str) -> (r: Option<&Value>)
        ensures
            match r {
                Some(v) => self@.get(key@) == Some(v@),
                None => self@.get(key@) is None,
            },
    {
        match self {
            Value::Object(members) => find_member(members, key),
            _ => None,
        }
    }

    pub fn contains_key(&self, key: &str) -> (b: bool)
        ensures
            b == self@.contains_key(key@),
    {
        self.get(key).is_some()
    }
}

/// The position of the first member named `key`.
pub fn find_index(members: &Vec<(String, Value)>, key: &str) -> (r: Option<usize>)
    ensures
        match r {
            Some(i) => index_of_key(view_members(members@), key@) == Some(i as int) && i
                < members.len(),
            None => index_of_key(view_members(members@), key@) is None,
        },
{
    let mut i: usize = 0;
    proof {
        lemma_view_members(members@);
    }
    while i < members.len()
        invariant
            i <= members.len(),
            view_members(members@).len() == members.len(),
            first_index(view_members(members@), key@, i as nat) is None,
        decreases members.len() - i,
    {
        proof {
            lemma_view_members(members@);
            assert(view_members(members@)[i as int].0 == members@[i as int].0@);
        }
        if same_text(members[i].0.as_str(), key) {
            proof {
                lemma_first_found(view_members(members@), key@, i as int);
            }
            return Some(i);
        }
        i = i + 1;
    }
    None
}

/// The value of the first member named `key`.
pub fn find_member<'a>(members: &'a Vec<(String, Value)>, key: &str) -> (r: Option<&'a Value>)
    ensures
        match r {
            Some(v) => lookup(view_members(members@), key@) == Some(v@),
            None => lookup(view_members(members@), key@) is None,
        },
{
    match find_index(members, key) {
        Some(i) => {
            proof {
                lemma_view_members(members@);
                assert(view_members(members@)[i as int].1 == members@[i as int].1@);
            }
            Some(&members[i].1)
        },
        None => None,
    }
}

/// Once member `i` is the first to bear `key`, every longer search finds it.
pub proof fn lemma_first_found(members: Seq<(Seq<char>, Json)>, key: Seq<char>, i: int)
    requires
        0 <= i < members.len(),
        members[i].0 == key,
        first_index(members, key, i as nat) is None,
    ensures
        index_of_key(members, key) == Some(i),
{
    lemma_first_extends(members, key, i, members.len());
}

proof fn lemma_first_extends(members: Seq<(Seq<char>, Json)>, key: Seq<char>, i: int, n: nat)
    requires
        0 <= i < n <= members.len(),
        members[i].0 == key,
        first_index(members, key, i as nat) is None,
    ensures
        first_index(members, key, n) == Some(i),
    decreases n,
{
    if n > i + 1 {
        lemma_first_extends(members, key, i, (n - 1) as nat);
    }
}

/// One of the sixteen hexadecimal digits, in lower case.
pub open spec fn hex_char(d: int) -> char {
    if d == 0 {
        '0'
    } else if d == 1 {
        '1'
    } else if d == 2 {
        '2'
    } else if d == 3 {
        '3'
    } else if d == 4 {
        '4'
    } else if d == 5 {
        '5'
    } else if d == 6 {
        '6'
    } else if d == 7 {
        '7'
    } else if d == 8 {
        '8'
    } else if d == 9 {
        '9'
    } else if d == 10 {
        'a'
    } else if d == 11 {
        'b'
    } else if d == 12 {
        'c'
    } else if d == 13 {
        'd'
    } else if d == 14 {
        'e'
    } else {
        'f'
    }
}

/// How one character stands inside a quoted text: the quote and the backslash
/// behind a backslash, control characters as their short or `\u00..` escape.
pub open spec fn escaped_char(c: char) -> Seq<char> {
    if c == '"' {
        seq!['\\', '"']
    } else if c == '\\' {
        seq!['\\', '\\']
    } else if c == '\n' {
        seq!['\\', 'n']
    } else if c == '\r' {
        seq!['\\', 'r']
    } else if c == '\t' {
        seq!['\\', 't']
    } else if (c as u32) < 0x20 {
        seq!['\\', 'u', '0', '0', hex_char((c as u32 / 16) as int), hex_char((c as u32 % 16) as int)]
    } else {
        seq![c]
    }
}

/// The first `n` characters of `s`, escaped.
pub open spec fn escaped(s: Seq<char>, n: nat) -> Seq<char>
    decreases n,
{
    if n == 0 || n > s.len() {
        Seq::empty()
    } else {
        escaped(s, (n - 1) as nat) + escaped_char(s[n - 1])
    }
}

/// `s` between quotes, escaped.
pub open spec fn quoted(s: Seq<char>) -> Seq<char> {
    seq!['"'] + escaped(s, s.len()) + seq!['"']
}

/// The document written as compact JSON text.
pub open spec fn json_text(j: Json) -> Seq<char>
    decreases j,
{
    match j {
        Json::Null => "null"@,
        Json::Boolean(b) => if b {
            "true"@
        } else {
            "false"@
        },
        Json::Number(n) => n.text(),
        Json::String(s) => quoted(s),
        Json::Array(items) => seq!['['] + items_text(items, items.len()) + seq![']'],
        Json::Object(members) => seq!['{'] + members_text(members, members.len()) + seq!['}'],
    }
}

/// The first `n` items, separated by commas.
pub open spec fn items_text(items: Seq<Json>, n: nat) -> Seq<char>
    decreases items, n,
{
    if n == 0 || n > items.len() {
        Seq::empty()
    } else if n == 1 {
        json_text(items[0])
    } else {
        items_text(items, (n - 1) as nat) + seq![','] + json_text(items[n - 1])
    }
}

/// The first `n` members as `"name":value`, separated by commas.
pub open spec fn members_text(members: Seq<(Seq<char>, Json)>, n: nat) -> Seq<char>
    decreases members, n,
{
    if n == 0 || n > members.len() {
        Seq::empty()
    } else if n == 1 {
        quoted(members[0].0) + seq![':'] + json_text(members[0].1)
    } else {
        members_text(members, (n - 1) as nat) + seq![','] + quoted(members[n - 1].0) + seq![':']
            + json_text(members[n - 1].1)
    }
}

/// Whether two documents are the same value: numbers, texts and arrays part
/// by part, objects as maps from names to values, whatever the order of
/// their members.
pub open spec fn json_same(a: Json, b: Json) -> bool
    decreases a, 0nat,
{
    match (a, b) {
        (Json::Null, Json::Null) => true,
        (Json::Boolean(x), Json::Boolean(y)) => x == y,
        (Json::Number(x), Json::Number(y)) => x == y,
        (Json::String(x), Json::String(y)) => x == y,
        (Json::Array(x), Json::Array(y)) => x.len() == y.len() && items_same(x, y, x.len()),
        (Json::Object(x), Json::Object(y)) => x.len() == y.len() && members_same(x, y, x.len()),
        _ => false,
    }
}

/// Whether the first `n` items of `x` are the same as those of `y`.
pub open spec fn items_same(x: Seq<Json>, y: Seq<Json>, n: nat) -> bool
    decreases x, n,
{
    if n == 0 || n > x.len() || n > y.len() {
        true
    } else {
        items_same(x, y, (n - 1) as nat) && json_same(x[n - 1], y[n - 1])
    }
}

/// Whether `y` holds, under the same name, the same value as each of the
/// first `n` members of `x`.
pub open spec fn members_same(x: Seq<(Seq<char>, Json)>, y: Seq<(Seq<char>, Json)>, n: nat) -> bool
    decreases x, n,
{
    if n == 0 || n > x.len() {
        true
    } else {
        members_same(x, y, (n - 1) as nat) && (match lookup(y, x[n - 1].0) {
            Some(other) => json_same(x[n - 1].1, other),
            None => false,
        })
    }
}

fn hex_of(d: u32) -> (c: char)
    requires
        d < 16,
    ensures
        c == hex_char(d as int),
{
    if d == 0 {
        '0'
    } else if d == 1 {
        '1'
    } else if d == 2 {
        '2'
    } else if d == 3 {
        '3'
    } else if d == 4 {
        '4'
    } else if d == 5 {
        '5'
    } else if d == 6 {
        '6'
    } else if d == 7 {
        '7'
    } else if d == 8 {
        '8'
    } else if d == 9 {
        '9'
    } else if d == 10 {
        'a'
    } else if d == 11 {
        'b'
    } else if d == 12 {
        'c'
    } else if d == 13 {
        'd'
    } else if d == 14 {
        'e'
    } else {
        'f'
    }
}

fn write_escaped_char(out: &mut Vec<char>, c: char)
    ensures
        final(out)@ == old(out)@ + escaped_char(c),
{
    if c == '"' {
        out.push('\\');
        out.push('"');
    } else if c == '\\' {
        out.push('\\');
        out.push('\\');
    } else if c == '\n' {
        out.push('\\');
        out.push('n');
    } else if c == '\r' {
        out.push('\\');
        out.push('r');
    } else if c == '\t' {
        out.push('\\');
        out.push('t');
    } else if (c as u32) < 0x20 {
        out.push('\\');
        out.push('u');
        out.push('0');
        out.push('0');
        out.push(hex_of(c as u32 / 16));
        out.push(hex_of(c as u32 % 16));
    } else {
        out.push(c);
    }
    assert(out@ =~= old(out)@ + escaped_char(c));
}

fn write_quoted(out: &mut Vec<char>, s: &str)
    ensures
        final(out)@ == old(out)@ + quoted(s@),
{
    let chars = chars_of(s);
    out.push('"');
    let mut i: usize = 0;
    while i < chars.len()
        invariant
            i <= chars.len(),
            chars@ == s@,
            out@ == old(out)@ + seq!['"'] + escaped(s@, i as nat),
        decreases chars.len() - i,
    {
        write_escaped_char(out, chars[i]);
        i = i + 1;
        assert(out@ =~= old(out)@ + seq!['"'] + escaped(s@, i as nat));
    }
    out.push('"');
    assert(out@ =~= old(out)@ + quoted(s@));
}

fn write_text(out: &mut Vec<char>, s: &str)
    ensures
        final(out)@ == old(out)@ + s@,
{
    let chars = chars_of(s);
    let mut i: usize = 0;
    while i < chars.len()
        invariant
            i <= chars.len(),
            chars@ == s@,
            out@ == old(out)@ + s@.subrange(0, i as int),
        decreases chars.len() - i,
    {
        out.push(chars[i]);
        i = i + 1;
        assert(out@ =~= old(out)@ + s@.subrange(0, i as int));
    }
    assert(s@.subrange(0, s@.len() as int) =~= s@);
}

impl Value {
    /// Appends the document as compact JSON text.
    pub fn write_json(&self, out: &mut Vec<char>)
        ensures
            final(out)@ == old(out)@ + json_text(self@),
        decreases self@,
    {
        match self {
            Value::Null => {
                write_text(out, "null");
            },
            Value::Boolean(b) => {
                if *b {
                    write_text(out, "true");
                } else {
                    write_text(out, "false");
                }
            },
            Value::Number(n) => {
                let t = n.to_text();
                write_text(out, t.as_str());
            },
            Value::String(s) => {
                write_quoted(out, s.as_str());
            },
            Value::Array(items) => {
                out.push('[');
                let mut i: usize = 0;
                proof {
                    lemma_view_items(items@);
                }
                while i < items.len()
                    invariant
                        i <= items.len(),
                        self@ == Json::Array(view_items(items@)),
                        view_items(items@).len() == items.len(),
                        out@ == old(out)@ + seq!['['] + items_text(view_items(items@), i as nat),
                    decreases items.len() - i,
                {
                    proof {
                        lemma_view_items(items@);
                        assert(view_items(items@)[i as int] == items@[i as int]@);
                        assert(self@->Array_0[i as int] == items@[i as int]@);
                    }
                    if i > 0 {
                        out.push(',');
                    }
                    items[i].write_json(out);
                    i = i + 1;
                    assert(out@ =~= old(out)@ + seq!['['] + items_text(view_items(items@), i as nat));
                }
                out.push(']');
                assert(out@ =~= old(out)@ + json_text(self@));
            },
            Value::Object(members) => {
                out.push('{');
                let mut i: usize = 0;
                proof {
                    lemma_view_members(members@);
                }
                while i < members.len()
                    invariant
                        i <= members.len(),
                        self@ == Json::Object(view_members(members@)),
                        view_members(members@).len() == members.len(),
                        out@ == old(out)@ + seq!['{'] + members_text(
                            view_members(members@),
                            i as nat,
                        ),
                    decreases members.len() - i,
                {
                    proof {
                        lemma_view_members(members@);
                        assert(view_members(members@)[i as int].0 == members@[i as int].0@);
                        assert(view_members(members@)[i as int].1 == members@[i as int].1@);
                        assert(self@->Object_0[i as int].1 == members@[i as int].1@);
                    }
                    if i > 0 {
                        out.push(',');
                    }
                    write_quoted(out, members[i].0.as_str());
                    out.push(':');
                    members[i].1.write_json(out);
                    i = i + 1;
                    assert(out@ =~= old(out)@ + seq!['{'] + members_text(
                        view_members(members@),
                        i as nat,
                    ));
                }
                out.push('}');
                assert(out@ =~= old(out)@ + json_text(self@));
            },
        }
    }

    /// The document as compact JSON text.
    pub fn to_json_text(&self) -> (s: String)
        ensures
            s@ == json_text(self@),
    {
        let mut out: Vec<char> = Vec::new();
        self.write_json(&mut out);
        text_of(&out)
    }

    /// A copy of the document.
    pub fn duplicate(&self) -> (copy: Value)
        ensures
            copy@ == self@,
        decreases self@,
    {
        match self {
            Value::Null => Value::Null,
            Value::Boolean(b) => Value::Boolean(*b),
            Value::Number(n) => Value::Number(*n),
            Value::String(s) => Value::String(s.clone()),
            Value::Array(items) => {
                let mut copies: Vec<Value> = Vec::new();
                let mut i: usize = 0;
                proof {
                    lemma_view_items(items@);
                }
                while i < items.len()
                    invariant
                        i <= items.len(),
                        self@ == Json::Array(view_items(items@)),
                        view_items(items@).len() == items.len(),
                        copies@.len() == i,
                        forall|k: int| 0 <= k < i ==> copies@[k]@ == items@[k]@,
                    decreases items.len() - i,
                {
                    proof {
                        lemma_view_items(items@);
                        assert(view_items(items@)[i as int] == items@[i as int]@);
                        assert(self@->Array_0[i as int] == items@[i as int]@);
                    }
                    let item = items[i].duplicate();
                    copies.push(item);
                    i = i + 1;
                }
                proof {
                    lemma_view_items(items@);
                    lemma_view_items(copies@);
                    assert(view_items(copies@) =~= view_items(items@));
                }
                Value::Array(copies)
            },
            Value::Object(members) => {
                let mut copies: Vec<(String, Value)> = Vec::new();
                let mut i: usize = 0;
                proof {
                    lemma_view_members(members@);
                }
                while i < members.len()
                    invariant
                        i <= members.len(),
                        self@ == Json::Object(view_members(members@)),
                        view_members(members@).len() == members.len(),
                        copies@.len() == i,
                        forall|k: int|
                            0 <= k < i ==> copies@[k].0@ == members@[k].0@ && copies@[k].1@
                                == members@[k].1@,
                    decreases members.len() - i,
                {
                    proof {
                        lemma_view_members(members@);
                        assert(view_members(members@)[i as int].1 == members@[i as int].1@);
                        assert(self@->Object_0[i as int].1 == members@[i as int].1@);
                    }
                    let value = members[i].1.duplicate();
                    copies.push((members[i].0.clone(), value));
                    i = i + 1;
                }
                proof {
                    lemma_view_members(members@);
                    lemma_view_members(copies@);
                    assert(view_members(copies@) =~= view_members(members@));
                }
                Value::Object(copies)
            },
        }
    }

    /// Whether both documents are the same value.
    pub fn same_as(&self, other: &Value) -> (b: bool)
        ensures
            b == json_same(self@, other@),
        decreases self@, 0nat,
    {
        match (self, other) {
            (Value::Null, Value::Null) => true,
            (Value::Boolean(x), Value::Boolean(y)) => *x == *y,
            (Value::Number(x), Value::Number(y)) => x.same(y),
            (Value::String(x), Value::String(y)) => same_text(x.as_str(), y.as_str()),
            (Value::Array(x), Value::Array(y)) => {
                proof {
                    lemma_view_items(x@);
                    lemma_view_items(y@);
                }
                if x.len() != y.len() {
                    return false;
                }
                let mut i: usize = 0;
                while i < x.len()
                    invariant
                        i <= x.len(),
                        x.len() == y.len(),
                        self@ == Json::Array(view_items(x@)),
                        other@ == Json::Array(view_items(y@)),
                        view_items(x@).len() == x.len(),
                        view_items(y@).len() == y.len(),
                        items_same(view_items(x@), view_items(y@), i as nat),
                    decreases x.len() - i,
                {
                    proof {
                        lemma_view_items(x@);
                        lemma_view_items(y@);
                        assert(view_items(x@)[i as int] == x@[i as int]@);
                        assert(view_items(y@)[i as int] == y@[i as int]@);
                        assert(self@->Array_0[i as int] == x@[i as int]@);
                    }
                    if !x[i].same_as(&y[i]) {
                        proof {
                            lemma_items_differ(view_items(x@), view_items(y@), i as int, x.len() as nat);
                        }
                        return false;
                    }
                    i = i + 1;
                }
                true
            },
            (Value::Object(x), Value::Object(y)) => {
                proof {
                    lemma_view_members(x@);
                    lemma_view_members(y@);
                }
                if x.len() != y.len() {
                    return false;
                }
                let mut i: usize = 0;
                while i < x.len()
                    invariant
                        i <= x.len(),
                        x.len() == y.len(),
                        self@ == Json::Object(view_members(x@)),
                        other@ == Json::Object(view_members(y@)),
                        view_members(x@).len() == x.len(),
                        view_members(y@).len() == y.len(),
                        members_same(view_members(x@), view_members(y@), i as nat),
                    decreases x.len() - i,
                {
                    proof {
                        lemma_view_members(x@);
                        assert(view_members(x@)[i as int].0 == x@[i as int].0@);
                        assert(view_members(x@)[i as int].1 == x@[i as int].1@);
                        assert(self@->Object_0[i as int].1 == x@[i as int].1@);
                    }
                    let matched = match find_member(y, x[i].0.as_str()) {
                        Some(found) => x[i].1.same_as(found),
                        None => false,
                    };
                    if !matched {
                        proof {
                            lemma_members_differ(
                                view_members(x@),
                                view_members(y@),
                                i as int,
                                x.len() as nat,
                            );
                        }
                        return false;
                    }
                    i = i + 1;
                }
                true
            },
            _ => false,
        }
    }
}

/// One differing item makes every longer comparison fail.
pub proof fn lemma_items_differ(x: Seq<Json>, y: Seq<Json>, i: int, n: nat)
    requires
        0 <= i < n <= x.len(),
        n <= y.len(),
        !json_same(x[i], y[i]),
    ensures
        !items_same(x, y, n),
    decreases n,
{
    if n > i + 1 {
        lemma_items_differ(x, y, i, (n - 1) as nat);
    }
}

/// One member without its like makes every longer comparison fail.
pub proof fn lemma_members_differ(
    x: Seq<(Seq<char>, Json)>,
    y: Seq<(Seq<char>, Json)>,
    i: int,
    n: nat,
)
    requires
        0 <= i < n <= x.len(),
        !(lookup(y, x[i].0) matches Some(other) && json_same(x[i].1, other)),
    ensures
        !members_same(x, y, n),
    decreases n,
{
    if n > i + 1 {
        lemma_members_differ(x, y, i, (n - 1) as nat);
    }
}

} // verus!
