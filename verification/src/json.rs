//! JSON values, as far as the status payload needs them.

use crate::text::same_text;
use vstd::prelude::*;

verus! {

/// `serde_json::Number`: carried as it came, and only ever printed.
#[verifier::external_type_specification]
#[verifier::external_body]
pub struct ExNumber(serde_json::Number);

/// The text a JSON number prints as.
pub uninterp spec fn number_text(number: serde_json::Number) -> Seq<char>;

/// Prints a number with the `Display` impl of `serde_json::Number`: an integer
/// in decimal, anything else in the shortest form that reads back as the same
/// number. Claims only that the text depends on the number and nothing else.
#[verifier::external_body]
pub(crate) fn number_string(number: &serde_json::Number) -> (res: String)
    ensures
        res@ == number_text(*number),
{
    number.to_string()
}

/// Specifies `Clone::clone` of `serde_json::Number`: the clone is the same number.
pub assume_specification[ <serde_json::Number as std::clone::Clone>::clone ](
    number: &serde_json::Number,
) -> (res: serde_json::Number)
    ensures
        res == *number,
;

/// Whether two JSON numbers are equal.
pub uninterp spec fn same_number(a: serde_json::Number, b: serde_json::Number) -> bool;

/// Compares numbers with the `PartialEq` impl of `serde_json::Number`. Claims only
/// that the answer depends on the two numbers and nothing else.
#[verifier::external_body]
fn numbers_equal(a: &serde_json::Number, b: &serde_json::Number) -> (res: bool)
    ensures
        res == same_number(*a, *b),
{
    a == b
}

/// A JSON value.
///
/// Objects are equal when they have equal members under the same keys, in
/// whatever order.
#[derive(Debug)]
pub enum Value {
    Null,
    Bool(bool),
    Number(serde_json::Number),
    String(String),
    Array(Vec<Value>),
    /// The members in order. Where a key is repeated its last member counts, as
    /// it does for a parser that inserts them into a map one by one.
    Object(Vec<(String, Value)>),
}

/// The members of an object.
pub type Members = Vec<(String, Value)>;

/// Whether two values are the same JSON, character for character and in the same
/// order.
pub open spec fn same(a: Value, b: Value) -> bool
    decreases a,
{
    match (a, b) {
        (Value::Null, Value::Null) => true,
        (Value::Bool(x), Value::Bool(y)) => x == y,
        (Value::Number(x), Value::Number(y)) => x == y,
        (Value::String(x), Value::String(y)) => x@ == y@,
        (Value::Array(x), Value::Array(y)) => x@.len() == y@.len() && forall|i: int|
            #![trigger x@[i]]
            0 <= i < x@.len() ==> same(x@[i], y@[i]),
        (Value::Object(x), Value::Object(y)) => x@.len() == y@.len() && forall|i: int|
            #![trigger x@[i]]
            0 <= i < x@.len() ==> x@[i].0@ == y@[i].0@ && same(x@[i].1, y@[i].1),
        _ => false,
    }
}

/// Whether the member at `i` is the one that counts for its key.
pub open spec fn counts(members: Seq<(String, Value)>, i: int) -> bool {
    position(members, members[i].0@) == Some(i)
}

/// Whether two values are equal: lists item by item, objects by the members that
/// count, in whatever order.
pub open spec fn equal(a: Value, b: Value) -> bool
    decreases a,
{
    match (a, b) {
        (Value::Null, Value::Null) => true,
        (Value::Bool(x), Value::Bool(y)) => x == y,
        (Value::Number(x), Value::Number(y)) => same_number(x, y),
        (Value::String(x), Value::String(y)) => x@ == y@,
        (Value::Array(x), Value::Array(y)) => x@.len() == y@.len() && forall|i: int|
            #![trigger x@[i]]
            0 <= i < x@.len() ==> equal(x@[i], y@[i]),
        (Value::Object(x), Value::Object(y)) => {
            &&& forall|i: int|
                #![trigger x@[i]]
                0 <= i < x@.len() && counts(x@, i) ==> (match position(y@, x@[i].0@) {
                    Some(j) => equal(x@[i].1, y@[j].1),
                    None => false,
                })
            &&& forall|j: int|
                #![trigger y@[j]]
                0 <= j < y@.len() ==> position(x@, y@[j].0@) is Some
        },
        _ => false,
    }
}

/// **Objects are equal exactly when they have equal values for every key**, or
/// none on both sides: neither order nor repeated keys count.
pub proof fn law_objects_are_equal_by_their_members(x: Members, y: Members)
    ensures
        equal(Value::Object(x), Value::Object(y)) <==> forall|key: Seq<char>|
            match (#[trigger] member(x@, key), member(y@, key)) {
                (Some(a), Some(b)) => equal(a, b),
                (None, None) => true,
                _ => false,
            },
{
    let all_equal = forall|key: Seq<char>|
        match (#[trigger] member(x@, key), member(y@, key)) {
            (Some(a), Some(b)) => equal(a, b),
            (None, None) => true,
            _ => false,
        };
    if equal(Value::Object(x), Value::Object(y)) {
        assert forall|key: Seq<char>|
            match (#[trigger] member(x@, key), member(y@, key)) {
                (Some(a), Some(b)) => equal(a, b),
                (None, None) => true,
                _ => false,
            } by {
            lemma_position(x@, key);
            lemma_position(y@, key);
            if let Some(i) = position(x@, key) {
                assert(counts(x@, i));
                assert(x@[i].0@ == key);
            }
            if let Some(j) = position(y@, key) {
                assert(y@[j].0@ == key);
            }
        }
    }
    if all_equal {
        assert forall|i: int| #![trigger x@[i]] 0 <= i < x@.len() && counts(x@, i) implies (
        match position(y@, x@[i].0@) {
            Some(j) => equal(x@[i].1, y@[j].1),
            None => false,
        }) by {
            assert(member(x@, x@[i].0@) == Some(x@[i].1));
        }
        assert forall|j: int| #![trigger y@[j]] 0 <= j < y@.len() implies position(
            x@,
            y@[j].0@,
        ) is Some by {
            lemma_position(y@, y@[j].0@);
            assert(member(x@, y@[j].0@) is Some);
        }
    }
}

impl PartialEq for Value {
    fn eq(&self, other: &Self) -> (res: bool) {
        self.equals(other)
    }
}

impl vstd::std_specs::cmp::PartialEqSpecImpl for Value {
    open spec fn obeys_eq_spec() -> bool {
        true
    }

    open spec fn eq_spec(&self, other: &Self) -> bool {
        equal(*self, *other)
    }
}

impl Value {
    /// Compares two values.
    fn equals(&self, other: &Value) -> (res: bool)
        ensures
            res == equal(*self, *other),
        decreases self,
    {
        match (self, other) {
            (Value::Null, Value::Null) => true,
            (Value::Bool(a), Value::Bool(b)) => *a == *b,
            (Value::Number(a), Value::Number(b)) => numbers_equal(a, b),
            (Value::String(a), Value::String(b)) => same_text(a.as_str(), b.as_str()),
            (Value::Array(a), Value::Array(b)) => {
                if a.len() != b.len() {
                    return false;
                }
                let mut i: usize = 0;
                while i < a.len()
                    invariant
                        i <= a@.len() == b@.len(),
                        self == Value::Array(*a),
                        other == Value::Array(*b),
                        decreases_to!(self => a@),
                        forall|k: int| #![trigger a@[k]] 0 <= k < i ==> equal(a@[k], b@[k]),
                    decreases a.len() - i,
                {
                    assert(decreases_to!(a@ => a@[i as int]));
                    if !a[i].equals(&b[i]) {
                        return false;
                    }
                    i = i + 1;
                }
                true
            },
            (Value::Object(a), Value::Object(b)) => {
                let mut i: usize = 0;
                while i < a.len()
                    invariant
                        i <= a@.len(),
                        self == Value::Object(*a),
                        other == Value::Object(*b),
                        decreases_to!(self => a@),
                        forall|k: int|
                            #![trigger a@[k]]
                            0 <= k < i && counts(a@, k) ==> (match position(b@, a@[k].0@) {
                                Some(j) => equal(a@[k].1, b@[j].1),
                                None => false,
                            }),
                    decreases a.len() - i,
                {
                    assert(decreases_to!(a@ => a@[i as int]));
                    assert(decreases_to!(a@[i as int] => a@[i as int].1));
                    let counted = match find(a, a[i].0.as_str()) {
                        Some(at) => at == i,
                        None => false,
                    };
                    if counted {
                        match find(b, a[i].0.as_str()) {
                            Some(j) => {
                                if !a[i].1.equals(&b[j].1) {
                                    return false;
                                }
                            },
                            None => {
                                return false;
                            },
                        }
                    }
                    i = i + 1;
                }
                let mut j: usize = 0;
                while j < b.len()
                    invariant
                        j <= b@.len(),
                        self == Value::Object(*a),
                        other == Value::Object(*b),
                        forall|k: int|
                            #![trigger b@[k]]
                            0 <= k < j ==> position(a@, b@[k].0@) is Some,
                    decreases b.len() - j,
                {
                    if find(a, b[j].0.as_str()).is_none() {
                        return false;
                    }
                    j = j + 1;
                }
                true
            },
            _ => false,
        }
    }

    /// Copies a value, members and items one by one.
    fn copy(&self) -> (res: Self)
        ensures
            same(*self, res),
        decreases self,
    {
        match self {
            Value::Null => Value::Null,
            Value::Bool(value) => Value::Bool(*value),
            Value::Number(number) => Value::Number(number.clone()),
            Value::String(text) => Value::String(text.as_str().to_owned()),
            Value::Array(items) => {
                let mut copies: Vec<Value> = Vec::new();
                let mut i: usize = 0;
                while i < items.len()
                    invariant
                        i <= items@.len(),
                        copies@.len() == i,
                        decreases_to!(self => items@),
                        forall|k: int|
                            #![trigger items@[k]]
                            0 <= k < i ==> same(items@[k], copies@[k]),
                    decreases items.len() - i,
                {
                    assert(decreases_to!(items@ => items@[i as int]));
                    copies.push(items[i].copy());
                    i = i + 1;
                }
                Value::Array(copies)
            },
            Value::Object(members) => {
                let mut copies: Members = Vec::new();
                let mut i: usize = 0;
                while i < members.len()
                    invariant
                        i <= members@.len(),
                        copies@.len() == i,
                        decreases_to!(self => members@),
                        forall|k: int|
                            #![trigger members@[k]]
                            0 <= k < i ==> members@[k].0@ == copies@[k].0@ && same(
                                members@[k].1,
                                copies@[k].1,
                            ),
                    decreases members.len() - i,
                {
                    assert(decreases_to!(members@ => members@[i as int]));
                    assert(decreases_to!(members@[i as int] => members@[i as int].1));
                    copies.push((members[i].0.as_str().to_owned(), members[i].1.copy()));
                    i = i + 1;
                }
                Value::Object(copies)
            },
        }
    }
}

impl Clone for Value {
    fn clone(&self) -> (res: Self)
        ensures
            same(*self, res),
    {
        self.copy()
    }
}

/// Where the member that counts for `key` stands.
pub open spec fn position(members: Seq<(String, Value)>, key: Seq<char>) -> Option<int>
    decreases members.len(),
{
    if members.len() == 0 {
        None
    } else if members.last().0@ == key {
        Some(members.len() - 1)
    } else {
        position(members.drop_last(), key)
    }
}

/// The value an object has for `key`.
pub open spec fn member(members: Seq<(String, Value)>, key: Seq<char>) -> Option<Value> {
    match position(members, key) {
        Some(i) => Some(members[i].1),
        None => None,
    }
}

/// A position is in bounds, and nothing after it has the key.
pub proof fn lemma_position(members: Seq<(String, Value)>, key: Seq<char>)
    ensures
        match position(members, key) {
            Some(i) => 0 <= i < members.len() && members[i].0@ == key && forall|j: int|
                i < j < members.len() ==> (#[trigger] members[j]).0@ != key,
            None => forall|j: int| 0 <= j < members.len() ==> (#[trigger] members[j]).0@ != key,
        },
    decreases members.len(),
{
    if members.len() > 0 && members.last().0@ != key {
        let rest = members.drop_last();
        lemma_position(rest, key);
        assert forall|j: int|
            (match position(rest, key) {
                Some(i) => i < j,
                None => 0 <= j,
            }) && j < members.len() implies (#[trigger] members[j]).0@ != key by {
            if j < rest.len() {
                assert(members[j] == rest[j]);
            }
        }
    }
}

/// Where the member that counts for `key` stands, if there is one.
fn find(members: &Members, key: &str) -> (res: Option<usize>)
    ensures
        match res {
            Some(i) => position(members@, key@) == Some(i as int) && i < members@.len(),
            None => position(members@, key@) is None,
        },
{
    let mut i: usize = members.len();
    assert(members@.take(i as int) =~= members@);
    while i > 0
        invariant
            i <= members@.len(),
            position(members@.take(i as int), key@) == position(members@, key@),
        decreases i,
    {
        i = i - 1;
        let ghost before = members@.take(i + 1);
        assert(before.last() == members@[i as int]);
        assert(before.drop_last() =~= members@.take(i as int));
        if same_text(members[i].0.as_str(), key) {
            return Some(i);
        }
    }
    None
}

/// **An object has, under each key, the value it was last given there**: a member
/// added at the end gives its key its value, and leaves what every other key has.
/// Without members no key has any.
pub proof fn law_last_member_counts(
    members: Seq<(String, Value)>,
    entry: (String, Value),
    key: Seq<char>,
)
    ensures
        member(members.push(entry), entry.0@) == Some(entry.1),
        key != entry.0@ ==> member(members.push(entry), key) == member(members, key),
        member(Seq::<(String, Value)>::empty(), key) is None,
{
    lemma_position(members, key);
    let more = members.push(entry);
    assert(more.drop_last() =~= members);
    assert(more.last() == entry);
    if let Some(i) = position(members, key) {
        assert(more[i] == members[i]);
    }
}

/// **Lists are equal item by item, texts by their characters, and values of
/// different kinds never.**
pub proof fn law_equality_goes_by_kind(a: Value, b: Value)
    ensures
        (a, b) matches (Value::Array(x), Value::Array(y)) ==> (equal(a, b) <==> (x@.len()
            == y@.len() && forall|i: int|
            0 <= i < x@.len() ==> #[trigger] equal(x@[i], y@[i]))),
        (a, b) matches (Value::String(x), Value::String(y)) ==> (equal(a, b) <==> x@ == y@),
        (a, b) matches (Value::Bool(x), Value::Bool(y)) ==> (equal(a, b) <==> x == y),
        (a, b) matches (Value::Number(x), Value::Number(y)) ==> (equal(a, b) <==> same_number(
            x,
            y,
        )),
        (a, b) matches (Value::Null, Value::Null) ==> equal(a, b),
        equal(a, b) ==> (a is Null <==> b is Null) && (a is Bool <==> b is Bool) && (a is Number
            <==> b is Number) && (a is String <==> b is String) && (a is Array <==> b is Array) && (
        a is Object <==> b is Object),
{
    if let (Value::Array(x), Value::Array(y)) = (a, b) {
        if x@.len() == y@.len() && forall|i: int|
            0 <= i < x@.len() ==> #[trigger] equal(x@[i], y@[i]) {
            assert forall|i: int| #![trigger x@[i]] 0 <= i < x@.len() implies equal(
                x@[i],
                y@[i],
            ) by {}
        }
    }
}

/// The value an object has for `key`, if it has one.
pub fn get<'a>(members: &'a Members, key: &str) -> (res: Option<&'a Value>)
    ensures
        match res {
            Some(value) => member(members@, key@) == Some(*value),
            None => member(members@, key@) is None,
        },
{
    match find(members, key) {
        Some(i) => Some(&members[i].1),
        None => None,
    }
}

} // verus!
