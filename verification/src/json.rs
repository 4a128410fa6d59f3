//! A JSON document held as plain values, as the analysis logic reads it.
use vstd::prelude::*;
use crate::text::str_equal;

verus! {

/// A JSON number, kept as the integer that it denotes when it is one.
#[derive(Debug, Clone, PartialEq, Eq, Structural)]
pub enum JsonNumber {
    /// A non-negative integer.
    PosInt(u64),
    /// A negative integer.
    NegInt(i64),
    /// A number with a fraction or an exponent.
    Float,
}

/// A JSON value. Object members keep the order in which the document lists them.
#[derive(Debug)]
pub enum Json {
    Null,
    Bool(bool),
    Number(JsonNumber),
    Str(String),
    Array(Vec<Json>),
    Object(Vec<JsonMember>),
}

/// One member of a JSON object: its name and its value.
#[derive(Debug)]
pub struct JsonMember {
    pub key: String,
    pub value: Json,
}

/// The value of the first member named `key` among `members`.
pub open spec fn member_spec(members: Seq<JsonMember>, key: Seq<char>) -> Option<Json>
    decreases members.len(),
{
    if members.len() == 0 {
        None
    } else if members[0].key@ == key {
        Some(members[0].value)
    } else {
        member_spec(members.drop_first(), key)
    }
}

/// No object within the value names a member twice, as in every value that a JSON parser
/// gives (a `serde_json::Value` holds each key of an object once).
pub open spec fn json_keys_distinct(v: Json) -> bool
    decreases v,
{
    match v {
        Json::Array(items) => items_keys_distinct(items@),
        Json::Object(members) => member_names_distinct(members@) && member_values_keys_distinct(members@),
        _ => true,
    }
}

/// `json_keys_distinct` holds of every item.
pub open spec fn items_keys_distinct(items: Seq<Json>) -> bool
    decreases items,
{
    items.len() == 0 || (json_keys_distinct(items[0]) && items_keys_distinct(items.drop_first()))
}

/// The members have distinct names.
pub open spec fn member_names_distinct(members: Seq<JsonMember>) -> bool {
    forall|i: int, j: int| 0 <= i < j < members.len() ==> #[trigger] members[i].key@ != #[trigger] members[j].key@
}

/// `json_keys_distinct` holds of every member's value.
pub open spec fn member_values_keys_distinct(members: Seq<JsonMember>) -> bool
    decreases members,
{
    members.len() == 0 || (json_keys_distinct(members[0].value) && member_values_keys_distinct(members.drop_first()))
}

impl Json {
    /// What `get(key)` gives: the member named `key` of an object, nothing otherwise.
    pub open spec fn get_spec(self, key: Seq<char>) -> Option<Json> {
        match self {
            Json::Object(members) => member_spec(members@, key),
            _ => None,
        }
    }

    /// Looks up the member named `key` of an object.
    pub fn get(&self, key: &str) -> (r: Option<&Json>)
        ensures
            match r {
                Some(v) => self.get_spec(key@) == Some(*v),
                None => self.get_spec(key@) is None,
            },
    {
        match self {
            Json::Object(members) => {
                assert(self.get_spec(key@) == member_spec(members@, key@));
                let n = members.len();
                let mut i: usize = 0;
                assert(members@.skip(0) =~= members@);
                while i < n
                    invariant
                        n == members.len(),
                        self.get_spec(key@) == member_spec(members@, key@),
                        i <= n,
                        member_spec(members@, key@) == member_spec(members@.skip(i as int), key@),
                    decreases n - i,
                {
                    assert(members@.skip(i as int).drop_first() =~= members@.skip(i + 1));
                    assert(members@.skip(i as int)[0] == members@[i as int]);
                    if str_equal(members[i].key.as_str(), key) {
                        assert(member_spec(members@.skip(i as int), key@) == Some(members@[i as int].value));
                        return Some(&members[i].value);
                    }
                    i = i + 1;
                }
                None
            },
            _ => None,
        }
    }

    /// The text of a JSON string.
    pub fn as_str(&self) -> (r: Option<&String>)
        ensures
            match self {
                Json::Str(t) => r == Some(t),
                _ => r is None,
            },
    {
        match self {
            Json::Str(t) => Some(t),
            _ => None,
        }
    }

    /// What `as_u64` gives: the value of a non-negative integer.
    pub open spec fn as_u64_spec(self) -> Option<u64> {
        match self {
            Json::Number(JsonNumber::PosInt(n)) => Some(n),
            _ => None,
        }
    }

    /// The value of a non-negative integer.
    pub fn as_u64(&self) -> (r: Option<u64>)
        ensures
            r == self.as_u64_spec(),
    {
        match self {
            Json::Number(JsonNumber::PosInt(n)) => Some(*n),
            _ => None,
        }
    }

    /// What `as_i64` gives: the value of an integer that fits in an `i64`.
    pub open spec fn as_i64_spec(self) -> Option<i64> {
        match self {
            Json::Number(JsonNumber::PosInt(n)) => if n <= i64::MAX {
                Some(n as i64)
            } else {
                None
            },
            Json::Number(JsonNumber::NegInt(n)) => Some(n),
            _ => None,
        }
    }

    /// The value of an integer that fits in an `i64`.
    pub fn as_i64(&self) -> (r: Option<i64>)
        ensures
            r == self.as_i64_spec(),
    {
        match self {
            Json::Number(JsonNumber::PosInt(n)) => if *n <= 9223372036854775807u64 {
                Some(*n as i64)
            } else {
                None
            },
            Json::Number(JsonNumber::NegInt(n)) => Some(*n),
            _ => None,
        }
    }

    /// The elements of an array.
    pub fn as_array(&self) -> (r: Option<&Vec<Json>>)
        ensures
            match self {
                Json::Array(items) => r == Some(items),
                _ => r is None,
            },
    {
        match self {
            Json::Array(items) => Some(items),
            _ => None,
        }
    }

    /// The members of an object.
    pub fn as_object(&self) -> (r: Option<&Vec<JsonMember>>)
        ensures
            match self {
                Json::Object(members) => r == Some(members),
                _ => r is None,
            },
    {
        match self {
            Json::Object(members) => Some(members),
            _ => None,
        }
    }

    /// The value of the member `key` of an object when it is a non-negative integer, else 0.
    pub open spec fn member_u64_or_zero(self, key: Seq<char>) -> u64 {
        match self.get_spec(key) {
            Some(v) => match v.as_u64_spec() {
                Some(n) => n,
                None => 0,
            },
            None => 0,
        }
    }

    /// Reads the member `key` as a non-negative integer, 0 where it is absent or of another kind.
    pub fn get_u64_or_zero(&self, key: &str) -> (r: u64)
        ensures
            r == self.member_u64_or_zero(key@),
    {
        match self.get(key) {
            Some(v) => match v.as_u64() {
                Some(n) => n,
                None => 0,
            },
            None => 0,
        }
    }
}

} // verus!
