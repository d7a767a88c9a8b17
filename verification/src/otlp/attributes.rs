//! Attributes as JSON.
use crate::json::{
    double_json, int_number, lemma_put_ordered, lemma_value_after_put, ordered, put, value_at,
    Entries, Json, JsonMap, JsonView,
};
use crate::otlp::model::{Any, AnyValue, KeyValue};
use base64::Engine;
use vstd::arithmetic::div_mod::lemma_fundamental_div_mod_converse;
use vstd::prelude::*;

verus! {

/// The digit for half a byte.
pub open spec fn hex_digit(n: int) -> char {
    if n < 10 {
        ('0' as int + n) as char
    } else {
        ('a' as int + n - 10) as char
    }
}

/// Two lower-case digits for each byte.
pub open spec fn hex_text(bytes: Seq<u8>) -> Seq<char> {
    Seq::new(
        2 * bytes.len(),
        |i: int|
            hex_digit(
                if i % 2 == 0 {
                    bytes[i / 2] / 16
                } else {
                    bytes[i / 2] % 16
                } as int,
            ),
    )
}

fn hex_char(n: u8) -> (r: char)
    requires
        n < 16,
    ensures
        r == hex_digit(n as int),
{
    if n < 10 {
        (48 + n) as char
    } else {
        (87 + n) as char
    }
}

/// Bytes as lower-case hexadecimal digits; none for no bytes.
pub fn hex(bytes: &[u8]) -> (r: String)
    ensures
        r@ == hex_text(bytes@),
{
    let mut out = String::new();
    let mut i: usize = 0;
    while i < bytes.len()
        invariant
            i <= bytes@.len(),
            out@ == hex_text(bytes@.take(i as int)),
        decreases bytes@.len() - i,
    {
        out.push(hex_char(bytes[i] / 16));
        out.push(hex_char(bytes[i] % 16));
        i += 1;
        assert(out@ =~= hex_text(bytes@.take(i as int)));
    }
    assert(bytes@.take(i as int) =~= bytes@);
    out
}

/// Bytes are told apart by their digits, which are all lower-case ones.
pub proof fn lemma_hex_tells_apart(a: Seq<u8>, b: Seq<u8>)
    requires
        hex_text(a) == hex_text(b),
    ensures
        a == b,
        forall|i: int|
            0 <= i < hex_text(a).len() ==> {
                ||| '0' <= #[trigger] hex_text(a)[i] <= '9'
                ||| 'a' <= hex_text(a)[i] <= 'f'
            },
{
    assert(hex_text(a).len() == 2 * a.len() && hex_text(b).len() == 2 * b.len());
    assert forall|i: int| 0 <= i < a.len() implies a[i] == b[i] by {
        assert(hex_text(a)[2 * i] == hex_digit((a[i] / 16) as int));
        assert(hex_text(b)[2 * i] == hex_digit((b[i] / 16) as int));
        assert(hex_text(a)[2 * i + 1] == hex_digit((a[i] % 16) as int));
        assert(hex_text(b)[2 * i + 1] == hex_digit((b[i] % 16) as int));
        lemma_hex_digits((a[i] / 16) as int, (b[i] / 16) as int);
        lemma_hex_digits((a[i] % 16) as int, (b[i] % 16) as int);
    }
    assert(a =~= b);
}

proof fn lemma_hex_digits(n: int, m: int)
    requires
        0 <= n < 16,
        0 <= m < 16,
        hex_digit(n) == hex_digit(m),
    ensures
        n == m,
{
    assert(n < 10 ==> hex_digit(n) as int == '0' as int + n);
    assert(n >= 10 ==> hex_digit(n) as int == 'a' as int + n - 10);
    assert(m < 10 ==> hex_digit(m) as int == '0' as int + m);
    assert(m >= 10 ==> hex_digit(m) as int == 'a' as int + m - 10);
}

/// The byte at a place, or zero behind the end.
pub open spec fn byte_at(bytes: Seq<u8>, at: int) -> int {
    if 0 <= at < bytes.len() {
        bytes[at] as int
    } else {
        0
    }
}

/// The six bits that the base64 digit at a place stands for, of the three bytes
/// that four digits make up.
pub open spec fn sextet(bytes: Seq<u8>, at: int) -> int {
    let from = at / 4 * 3;
    let bits = byte_at(bytes, from) * 0x10000 + byte_at(bytes, from + 1) * 0x100 + byte_at(
        bytes,
        from + 2,
    );
    if at % 4 == 0 {
        bits / 0x40000
    } else if at % 4 == 1 {
        bits / 0x1000 % 64
    } else if at % 4 == 2 {
        bits / 64 % 64
    } else {
        bits % 64
    }
}

/// The base64 digit for six bits.
pub open spec fn base64_digit(n: int) -> char {
    if n < 26 {
        ('A' as int + n) as char
    } else if n < 52 {
        ('a' as int + n - 26) as char
    } else if n < 62 {
        ('0' as int + n - 52) as char
    } else if n == 62 {
        '+'
    } else {
        '/'
    }
}

/// Bytes in base64: a digit for each six bits, filled up with `=` to a multiple
/// of four.
pub open spec fn base64_text(bytes: Seq<u8>) -> Seq<char> {
    Seq::new(
        ((bytes.len() + 2) / 3 * 4) as nat,
        |i: int|
            if i * 6 < bytes.len() * 8 {
                base64_digit(sextet(bytes, i))
            } else {
                '='
            },
    )
}

/// Base64 digits are told apart, and none is the one that fills up.
proof fn lemma_base64_digits(n: int, m: int)
    requires
        0 <= n < 64,
        0 <= m < 64,
    ensures
        base64_digit(n) != '=',
        base64_digit(n) == base64_digit(m) ==> n == m,
{
    assert(n < 26 ==> base64_digit(n) as int == 'A' as int + n);
    assert(26 <= n < 52 ==> base64_digit(n) as int == 'a' as int + n - 26);
    assert(52 <= n < 62 ==> base64_digit(n) as int == '0' as int + n - 52);
    assert(m < 26 ==> base64_digit(m) as int == 'A' as int + m);
    assert(26 <= m < 52 ==> base64_digit(m) as int == 'a' as int + m - 26);
    assert(52 <= m < 62 ==> base64_digit(m) as int == '0' as int + m - 52);
}

/// A text in base64 that is no longer than another fills up no later.
proof fn lemma_base64_length(a: Seq<u8>, b: Seq<u8>)
    requires
        base64_text(a) == base64_text(b),
    ensures
        a.len() <= b.len(),
{
    if a.len() > b.len() {
        let at = (a.len() * 8 - 1) / 6;
        assert(at * 6 < a.len() * 8);
        assert(at < base64_text(a).len());
        assert(base64_text(a).len() == base64_text(b).len());
        assert(at * 6 >= b.len() * 8);
        assert(base64_text(a)[at] == base64_digit(sextet(a, at)));
        assert(base64_text(b)[at] == '=');
        lemma_base64_digits(sextet(a, at), 0);
    }
}

/// The four digits of three bytes.
proof fn lemma_three_bytes(x0: int, x1: int, x2: int)
    requires
        0 <= x0 < 256,
        0 <= x1 < 256,
        0 <= x2 < 256,
    ensures
        (x0 * 0x10000 + x1 * 0x100 + x2) / 0x40000 == x0 / 4,
        (x0 * 0x10000 + x1 * 0x100 + x2) / 0x1000 % 64 == x0 % 4 * 16 + x1 / 16,
        (x0 * 0x10000 + x1 * 0x100 + x2) / 64 % 64 == x1 % 16 * 4 + x2 / 64,
        (x0 * 0x10000 + x1 * 0x100 + x2) % 64 == x2 % 64,
{
    let x = x0 * 0x10000 + x1 * 0x100 + x2;
    let q0 = x0 / 4;
    let q1 = x0 % 4 * 16 + x1 / 16;
    let q2 = x1 % 16 * 4 + x2 / 64;
    let q3 = x2 % 64;
    assert(x == ((q0 * 64 + q1) * 64 + q2) * 64 + q3);
    lemma_fundamental_div_mod_converse(x, 64, (q0 * 64 + q1) * 64 + q2, q3);
    lemma_fundamental_div_mod_converse((q0 * 64 + q1) * 64 + q2, 64, q0 * 64 + q1, q2);
    lemma_fundamental_div_mod_converse(q0 * 64 + q1, 64, q0, q1);
    lemma_fundamental_div_mod_converse(x, 0x1000, q0 * 64 + q1, q2 * 64 + q3);
    lemma_fundamental_div_mod_converse(x, 0x40000, q0, q1 * 0x1000 + q2 * 64 + q3);
}

/// The digits that stand for bytes are the same in both texts.
proof fn lemma_same_sextet(a: Seq<u8>, b: Seq<u8>, at: int)
    requires
        base64_text(a) == base64_text(b),
        a.len() == b.len(),
        0 <= at,
        at * 6 < a.len() * 8,
    ensures
        sextet(a, at) == sextet(b, at),
{
    assert(at < base64_text(a).len());
    assert(base64_text(a)[at] == base64_digit(sextet(a, at)));
    assert(base64_text(b)[at] == base64_digit(sextet(b, at)));
    lemma_base64_digits(sextet(a, at), sextet(b, at));
}

/// A byte is the same in both.
proof fn lemma_same_byte(a: Seq<u8>, b: Seq<u8>, i: int)
    requires
        base64_text(a) == base64_text(b),
        a.len() == b.len(),
        0 <= i < a.len(),
    ensures
        a[i] == b[i],
{
    let group = i / 3;
    let first = group * 4;
    let from = group * 3;
    assert(first / 4 == group && (first + 1) / 4 == group && (first + 2) / 4 == group && (first
        + 3) / 4 == group);
    assert(first % 4 == 0 && (first + 1) % 4 == 1 && (first + 2) % 4 == 2 && (first + 3) % 4 == 3);
    lemma_same_sextet(a, b, first);
    lemma_same_sextet(a, b, first + 1);
    if from + 1 < a.len() {
        lemma_same_sextet(a, b, first + 2);
    }
    if from + 2 < a.len() {
        lemma_same_sextet(a, b, first + 3);
    }
    lemma_three_bytes(byte_at(a, from), byte_at(a, from + 1), byte_at(a, from + 2));
    lemma_three_bytes(byte_at(b, from), byte_at(b, from + 1), byte_at(b, from + 2));
}

/// Bytes are told apart by their texts in base64.
pub proof fn lemma_base64_tells_apart(a: Seq<u8>, b: Seq<u8>)
    requires
        base64_text(a) == base64_text(b),
    ensures
        a == b,
{
    lemma_base64_length(a, b);
    lemma_base64_length(b, a);
    assert forall|i: int| 0 <= i < a.len() implies a[i] == b[i] by {
        lemma_same_byte(a, b, i);
    }
    assert(a =~= b);
}

/// `base64::Engine::encode` with the engine `general_purpose::STANDARD`: the
/// alphabet with `+` and `/`, and padding.
#[verifier::external_body]
fn base64(bytes: &Vec<u8>) -> (r: String)
    ensures
        r@ == base64_text(bytes@),
{
    base64::engine::general_purpose::STANDARD.encode(bytes)
}

/// A value as JSON, its type kept: bytes become a base64 text, a number that
/// JSON cannot write becomes null, and so does a reference into a table of
/// texts.
pub open spec fn any_json(value: Any) -> JsonView
    decreases value, 0nat,
{
    match value {
        Any::StringValue(s) => JsonView::String(s@),
        Any::BoolValue(b) => JsonView::Bool(b),
        Any::IntValue(i) => JsonView::Number(int_number(i)),
        Any::DoubleValue(d) => double_json(d),
        Any::BytesValue(bytes) => JsonView::String(base64_text(bytes@)),
        Any::ArrayValue(values) => JsonView::Array(
            Seq::new(
                values@.len(),
                |i: int|
                    if 0 <= i < values@.len() {
                        match values@[i].value {
                            Some(item) => any_json(item),
                            None => JsonView::Null,
                        }
                    } else {
                        JsonView::Null
                    },
            ),
        ),
        Any::KvlistValue(list) => JsonView::Object(first_attributes(list, list@.len())),
        Any::StringValueStrindex(_) => JsonView::Null,
    }
}

/// A value that may be missing as JSON.
pub open spec fn value_json(value: Option<AnyValue>) -> JsonView {
    match value {
        Some(AnyValue { value: Some(any) }) => any_json(any),
        _ => JsonView::Null,
    }
}

/// The first `n` attributes of a list by their keys; of those with one key the
/// last counts.
pub open spec fn first_attributes(list: Vec<KeyValue>, n: nat) -> Entries
    decreases list, n,
{
    if n == 0 || n > list@.len() {
        Seq::empty()
    } else {
        let last = list@[n - 1];
        put(
            first_attributes(list, (n - 1) as nat),
            last.key@,
            match last.value {
                Some(AnyValue { value: Some(any) }) => any_json(any),
                _ => JsonView::Null,
            },
        )
    }
}

/// The attributes of a list by their keys; of those with one key the last
/// counts.
pub open spec fn attributes_json(list: Vec<KeyValue>) -> Entries {
    first_attributes(list, list@.len())
}

/// Attributes by their keys; of those with one key the last counts.
pub fn attributes(list: Vec<KeyValue>) -> (r: JsonMap)
    ensures
        r@ == attributes_json(list),
        ordered(r@),
    decreases list,
{
    let mut map = JsonMap::new();
    for kv in walk: list
        invariant
            walk.seq() == list@,
            map@ == first_attributes(list, walk.index() as nat),
    {
        let value = attribute_value(kv.value);
        map.insert(kv.key, value);
    }
    proof {
        use_type_invariant(&map);
    }
    map
}

/// The value of an attribute as JSON; null where there is none.
pub fn attribute_value(value: Option<AnyValue>) -> (r: Json)
    ensures
        r@ == value_json(value),
    decreases value,
{
    match value {
        Some(AnyValue { value: Some(any) }) => to_json(any),
        _ => Json::Null,
    }
}

fn to_json(value: Any) -> (r: Json)
    ensures
        r@ == any_json(value),
    decreases value,
{
    match value {
        Any::StringValue(s) => Json::String(s),
        Any::BoolValue(b) => Json::Bool(b),
        Any::IntValue(i) => Json::from_i64(i),
        Any::DoubleValue(d) => Json::from_double(d),
        Any::BytesValue(bytes) => Json::String(base64(&bytes)),
        Any::ArrayValue(values) => {
            let items = to_items(values);
            let array = Json::Array(items);
            assert(array@->Array_0 =~= any_json(value)->Array_0);
            array
        },
        Any::KvlistValue(list) => Json::Object(attributes(list)),
        Any::StringValueStrindex(_) => Json::Null,
    }
}

fn to_items(values: Vec<AnyValue>) -> (r: Vec<Json>)
    ensures
        r@.len() == values@.len(),
        forall|j: int|
            0 <= j < values@.len() ==> (#[trigger] r@[j])@ == value_json(Some(values@[j])),
    decreases values,
{
    let mut items: Vec<Json> = Vec::new();
    for value in walk: values
        invariant
            walk.seq() == values@,
            items@.len() == walk.index(),
            forall|j: int|
                0 <= j < items@.len() ==> (#[trigger] items@[j])@ == value_json(Some(values@[j])),
    {
        items.push(
            match value.value {
                Some(any) => to_json(any),
                None => Json::Null,
            },
        );
    }
    items
}

/// The keys of attributes are in order.
pub proof fn lemma_attributes_ordered(list: Vec<KeyValue>, n: nat)
    ensures
        ordered(first_attributes(list, n)),
    decreases n,
{
    if 0 < n <= list@.len() {
        lemma_attributes_ordered(list, (n - 1) as nat);
        lemma_put_ordered(
            first_attributes(list, (n - 1) as nat),
            list@[n - 1].key@,
            value_json(list@[n - 1].value),
        );
    }
}

/// Of the attributes with one key, the last counts.
pub proof fn lemma_last_attribute_counts(list: Vec<KeyValue>, at: int)
    requires
        0 <= at < list@.len(),
        forall|i: int| at < i < list@.len() ==> (#[trigger] list@[i]).key@ != list@[at].key@,
    ensures
        value_at(attributes_json(list), list@[at].key@) == Some(value_json(list@[at].value)),
{
    lemma_last_attribute_so_far(list, at, list@.len());
}

proof fn lemma_last_attribute_so_far(list: Vec<KeyValue>, at: int, n: nat)
    requires
        0 <= at < n <= list@.len(),
        forall|i: int| at < i < n ==> (#[trigger] list@[i]).key@ != list@[at].key@,
    ensures
        value_at(first_attributes(list, n), list@[at].key@) == Some(value_json(list@[at].value)),
    decreases n,
{
    let before = first_attributes(list, (n - 1) as nat);
    let last = list@[n - 1];
    lemma_attributes_ordered(list, (n - 1) as nat);
    lemma_value_after_put(before, last.key@, value_json(last.value), list@[at].key@);
    if at < n - 1 {
        assert(last.key@ != list@[at].key@);
        lemma_last_attribute_so_far(list, at, (n - 1) as nat);
    }
}

/// There is no attribute but those of the list.
pub proof fn lemma_no_other_attribute(list: Vec<KeyValue>, key: Seq<char>)
    requires
        forall|i: int| 0 <= i < list@.len() ==> (#[trigger] list@[i]).key@ != key,
    ensures
        value_at(attributes_json(list), key) is None,
{
    lemma_no_other_so_far(list, key, list@.len());
}

proof fn lemma_no_other_so_far(list: Vec<KeyValue>, key: Seq<char>, n: nat)
    requires
        n <= list@.len(),
        forall|i: int| 0 <= i < n ==> (#[trigger] list@[i]).key@ != key,
    ensures
        value_at(first_attributes(list, n), key) is None,
    decreases n,
{
    if n > 0 {
        let last = list@[n - 1];
        lemma_no_other_so_far(list, key, (n - 1) as nat);
        lemma_attributes_ordered(list, (n - 1) as nat);
        lemma_value_after_put(
            first_attributes(list, (n - 1) as nat),
            last.key@,
            value_json(last.value),
            key,
        );
    }
}

} // verus!
