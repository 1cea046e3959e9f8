use vstd::prelude::*;

verus! {

/// A JSON number as the library reads it: a nonnegative integer, a negative integer,
/// or a number with a fraction or exponent (whose value the library never needs).
#[derive(Debug, Clone, Copy, PartialEq, Eq, Structural)]
pub enum JsonNumber {
    Unsigned(u64),
    Negative(i64),
    Fractional,
}

/// A parsed JSON document. Object members keep their order.
#[derive(Debug, PartialEq, Eq)]
pub enum JsonValue {
    Null,
    Bool(bool),
    Number(JsonNumber),
    Text(String),
    Array(Vec<JsonValue>),
    Object(Vec<JsonMember>),
}

#[derive(Debug, PartialEq, Eq)]
pub struct JsonMember {
    pub key: String,
    pub value: JsonValue,
}

/// `k` is the position of the first member named `key`.
pub open spec fn is_first_key(members: Seq<JsonMember>, key: Seq<char>, k: int) -> bool {
    &&& 0 <= k < members.len()
    &&& members[k].key@ == key
    &&& forall|j: int| 0 <= j < k ==> (#[trigger] members[j]).key@ != key
}

/// The value of the first member named `key`, if any.
pub open spec fn field(members: Seq<JsonMember>, key: Seq<char>) -> Option<JsonValue> {
    if exists|k: int| is_first_key(members, key, k) {
        Some(members[choose|k: int| is_first_key(members, key, k)].value)
    } else {
        None
    }
}

/// Every member's name is one of `allowed`.
pub open spec fn keys_within(members: Seq<JsonMember>, allowed: Seq<Seq<char>>) -> bool {
    forall|k: int| 0 <= k < members.len() ==> allowed.contains(#[trigger] members[k].key@)
}

pub open spec fn unsigned_of(value: Option<JsonValue>) -> Option<u64> {
    match value {
        Some(JsonValue::Number(JsonNumber::Unsigned(n))) => Some(n),
        _ => None,
    }
}

pub open spec fn text_of(value: Option<JsonValue>) -> Option<Seq<char>> {
    match value {
        Some(JsonValue::Text(text)) => Some(text@),
        _ => None,
    }
}

pub proof fn lemma_first_key_unique(members: Seq<JsonMember>, key: Seq<char>, k: int)
    requires
        is_first_key(members, key, k),
    ensures
        field(members, key) == Some(members[k].value),
{
    let c = choose|c: int| is_first_key(members, key, c);
    if c < k {
        assert(members[c].key@ != key);
    } else if k < c {
        assert(members[k].key@ != key);
    }
}

/// Whether two strings hold the same characters.
pub fn text_equals(a: &str, b: &str) -> (equal: bool)
    ensures
        equal == (a@ == b@),
{
    let n = a.unicode_len();
    if n != b.unicode_len() {
        return false;
    }
    let mut i: usize = 0;
    while i < n
        invariant
            n == a@.len(),
            n == b@.len(),
            i <= n,
            forall|j: int| 0 <= j < i ==> a@[j] == b@[j],
        decreases n - i,
    {
        if a.get_char(i) != b.get_char(i) {
            return false;
        }
        i = i + 1;
    }
    assert(a@ =~= b@);
    true
}

/// The position of the first member named `key`.
pub fn find_field(members: &Vec<JsonMember>, key: &str) -> (found: Option<usize>)
    ensures
        match found {
            Some(k) => is_first_key(members@, key@, k as int),
            None => forall|k: int| 0 <= k < members@.len() ==> (#[trigger] members@[k]).key@ != key@,
        },
{
    let mut k: usize = 0;
    while k < members.len()
        invariant
            k <= members@.len(),
            forall|j: int| 0 <= j < k ==> (#[trigger] members@[j]).key@ != key@,
        decreases members@.len() - k,
    {
        if text_equals(members[k].key.as_str(), key) {
            return Some(k);
        }
        k = k + 1;
    }
    None
}

/// The value of the first member named `key`.
pub fn get_field<'a>(members: &'a Vec<JsonMember>, key: &str) -> (value: Option<&'a JsonValue>)
    ensures
        match value {
            Some(v) => field(members@, key@) == Some(*v),
            None => field(members@, key@) is None,
        },
{
    match find_field(members, key) {
        Some(k) => {
            proof {
                lemma_first_key_unique(members@, key@, k as int);
            }
            Some(&members[k].value)
        },
        None => None,
    }
}

/// Whether every member's name is one of `allowed`.
pub fn keys_are_within(members: &Vec<JsonMember>, allowed: &[&str]) -> (ok: bool)
    ensures
        ok == keys_within(members@, allowed@.map_values(|name: &str| name@)),
{
    let ghost names = allowed@.map_values(|name: &str| name@);
    let mut k: usize = 0;
    while k < members.len()
        invariant
            k <= members@.len(),
            names == allowed@.map_values(|name: &str| name@),
            forall|j: int| 0 <= j < k ==> names.contains(#[trigger] members@[j].key@),
        decreases members@.len() - k,
    {
        let mut found = false;
        let mut a: usize = 0;
        while a < allowed.len()
            invariant
                a <= allowed@.len(),
                names == allowed@.map_values(|name: &str| name@),
                found ==> names.contains(members@[k as int].key@),
                !found ==> forall|b: int| 0 <= b < a ==> names[b] != members@[k as int].key@,
                k < members@.len(),
            decreases allowed@.len() - a,
        {
            if !found && text_equals(members[k].key.as_str(), allowed[a]) {
                found = true;
                assert(names[a as int] == members@[k as int].key@);
            }
            a = a + 1;
        }
        if !found {
            assert(!names.contains(members@[k as int].key@));
            return false;
        }
        k = k + 1;
    }
    true
}


/// Member `k` is named `key` and holds the text `text`.
pub open spec fn text_at(m: Seq<JsonMember>, k: int, key: Seq<char>, text: Seq<char>) -> bool {
    &&& 0 <= k < m.len()
    &&& m[k].key@ == key
    &&& m[k].value matches JsonValue::Text(t)
    &&& t@ == text
}

/// Member `k` is named `key` and holds the unsigned integer `n`.
pub open spec fn number_at(m: Seq<JsonMember>, k: int, key: Seq<char>, n: int) -> bool {
    &&& 0 <= k < m.len()
    &&& m[k].key@ == key
    &&& m[k].value matches JsonValue::Number(JsonNumber::Unsigned(v))
    &&& v == n
}

/// Member `k` is named `key` and holds `value`.
pub open spec fn value_at(m: Seq<JsonMember>, k: int, key: Seq<char>, value: JsonValue) -> bool {
    &&& 0 <= k < m.len()
    &&& m[k].key@ == key
    &&& m[k].value == value
}

/// The members of an object, or nothing for any other value.
pub open spec fn members_of(value: JsonValue) -> Seq<JsonMember> {
    match value {
        JsonValue::Object(members) => members@,
        _ => Seq::empty(),
    }
}

pub fn text_value(text: &str) -> (value: JsonValue)
    ensures
        value matches JsonValue::Text(t) && t@ == text@,
{
    JsonValue::Text(String::from_str(text))
}

pub fn number_value(n: u64) -> (value: JsonValue)
    ensures
        value == JsonValue::Number(JsonNumber::Unsigned(n)),
{
    JsonValue::Number(JsonNumber::Unsigned(n))
}

pub fn member(key: &str, value: JsonValue) -> (entry: JsonMember)
    ensures
        entry.key@ == key@,
        entry.value == value,
{
    JsonMember { key: String::from_str(key), value }
}

/// Appends a member named `key` holding `value`.
pub fn push_member(members: &mut Vec<JsonMember>, key: &str, value: JsonValue)
    ensures
        final(members)@.len() == old(members)@.len() + 1,
        forall|k: int| 0 <= k < old(members)@.len() ==> final(members)@[k] == old(members)@[k],
        final(members)@.last().key@ == key@,
        final(members)@.last().value == value,
{
    members.push(member(key, value));
}


/// Two JSON values hold the same document: same structure, same numbers, and texts and
/// member names with the same characters.
pub open spec fn same_json(a: JsonValue, b: JsonValue) -> bool
    decreases a,
{
    match (a, b) {
        (JsonValue::Text(x), JsonValue::Text(y)) => x@ == y@,
        (JsonValue::Array(xs), JsonValue::Array(ys)) => {
            proof {
                assert(decreases_to!(a => a->Array_0));
                assert(decreases_to!(a->Array_0 => xs@));
            }
            same_items(xs@, ys@)
        },
        (JsonValue::Object(xm), JsonValue::Object(ym)) => {
            proof {
                assert(decreases_to!(a => a->Object_0));
                assert(decreases_to!(a->Object_0 => xm@));
            }
            same_members(xm@, ym@)
        },
        (JsonValue::Null, JsonValue::Null) => true,
        (JsonValue::Bool(x), JsonValue::Bool(y)) => x == y,
        (JsonValue::Number(x), JsonValue::Number(y)) => x == y,
        _ => false,
    }
}

pub open spec fn same_items(xs: Seq<JsonValue>, ys: Seq<JsonValue>) -> bool
    decreases xs,
{
    if xs.len() == 0 {
        ys.len() == 0
    } else {
        &&& ys.len() == xs.len()
        &&& same_json(xs[0], ys[0])
        &&& same_items(xs.drop_first(), ys.drop_first())
    }
}

pub open spec fn same_members(xs: Seq<JsonMember>, ys: Seq<JsonMember>) -> bool
    decreases xs,
{
    if xs.len() == 0 {
        ys.len() == 0
    } else {
        &&& ys.len() == xs.len()
        &&& xs[0].key@ == ys[0].key@
        &&& {
            proof {
                assert(decreases_to!(xs => xs[0]));
                assert(decreases_to!(xs[0] => xs[0].value));
            }
            same_json(xs[0].value, ys[0].value)
        }
        &&& same_members(xs.drop_first(), ys.drop_first())
    }
}

proof fn lemma_same_items_intro(xs: Seq<JsonValue>, ys: Seq<JsonValue>)
    requires
        xs.len() == ys.len(),
        forall|i: int| 0 <= i < xs.len() ==> #[trigger] same_json(xs[i], ys[i]),
    ensures
        same_items(xs, ys),
    decreases xs.len(),
{
    if xs.len() > 0 {
        assert(same_json(xs[0], ys[0]));
        assert forall|i: int| 0 <= i < xs.drop_first().len() implies #[trigger] same_json(
            xs.drop_first()[i],
            ys.drop_first()[i],
        ) by {
            assert(same_json(xs[i + 1], ys[i + 1]));
        }
        lemma_same_items_intro(xs.drop_first(), ys.drop_first());
    }
}

proof fn lemma_same_members_intro(xs: Seq<JsonMember>, ys: Seq<JsonMember>)
    requires
        xs.len() == ys.len(),
        forall|i: int|
            #![trigger xs[i]]
            0 <= i < xs.len() ==> xs[i].key@ == ys[i].key@ && same_json(xs[i].value, ys[i].value),
    ensures
        same_members(xs, ys),
    decreases xs.len(),
{
    if xs.len() > 0 {
        assert(xs[0].key@ == ys[0].key@ && same_json(xs[0].value, ys[0].value));
        assert forall|i: int| #![trigger xs.drop_first()[i]]
            0 <= i < xs.drop_first().len() implies xs.drop_first()[i].key@
            == ys.drop_first()[i].key@ && same_json(xs.drop_first()[i].value, ys.drop_first()[i].value) by {
            assert(xs[i + 1].key@ == ys[i + 1].key@ && same_json(xs[i + 1].value, ys[i + 1].value));
        }
        lemma_same_members_intro(xs.drop_first(), ys.drop_first());
    }
}

/// A copy of a JSON value that holds the same document.
pub fn copy_json(value: &JsonValue) -> (copy: JsonValue)
    ensures
        same_json(*value, copy),
    decreases value,
{
    match value {
        JsonValue::Null => JsonValue::Null,
        JsonValue::Bool(b) => JsonValue::Bool(*b),
        JsonValue::Number(n) => JsonValue::Number(*n),
        JsonValue::Text(t) => JsonValue::Text(t.clone()),
        JsonValue::Array(items) => {
            let mut copies: Vec<JsonValue> = Vec::new();
            let mut i: usize = 0;
            while i < items.len()
                invariant
                    i <= items@.len(),
                    copies@.len() == i,
                    forall|j: int| 0 <= j < i ==> #[trigger] same_json(items@[j], copies@[j]),
                    *value == JsonValue::Array(*items),
                decreases items@.len() - i,
            {
                proof {
                    assert(decreases_to!(*value => value->Array_0));
                    assert(decreases_to!(value->Array_0 => items@));
                    assert(decreases_to!(items@ => items@[i as int]));
                }
                copies.push(copy_json(&items[i]));
                i = i + 1;
            }
            proof {
                lemma_same_items_intro(items@, copies@);
            }
            JsonValue::Array(copies)
        },
        JsonValue::Object(members) => {
            let mut copies: Vec<JsonMember> = Vec::new();
            let mut i: usize = 0;
            while i < members.len()
                invariant
                    i <= members@.len(),
                    copies@.len() == i,
                    forall|j: int|
                        #![trigger members@[j]]
                        0 <= j < i ==> members@[j].key@ == copies@[j].key@ && same_json(
                            members@[j].value,
                            copies@[j].value,
                        ),
                    *value == JsonValue::Object(*members),
                decreases members@.len() - i,
            {
                proof {
                    assert(decreases_to!(*value => value->Object_0));
                    assert(decreases_to!(value->Object_0 => members@));
                    assert(decreases_to!(members@ => members@[i as int]));
                    assert(decreases_to!(members@[i as int] => members@[i as int].value));
                }
                let entry = JsonMember {
                    key: members[i].key.clone(),
                    value: copy_json(&members[i].value),
                };
                copies.push(entry);
                i = i + 1;
            }
            proof {
                lemma_same_members_intro(members@, copies@);
            }
            JsonValue::Object(copies)
        },
    }
}

} // verus!
