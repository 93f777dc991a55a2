//! Values of the remote procedure calls that Neovim makes, and how the
//! parameters of its events are read.

use crate::text::same_text;
use vstd::prelude::*;

verus! {

/// A decoded MessagePack value. Whatever no event parameter is read as
/// (floating point numbers, binary data, extensions, strings that are not
/// UTF-8) is `Opaque`.
#[derive(Debug, PartialEq, Eq)]
pub enum Value {
    Nil,
    Boolean(bool),
    Integer(i128),
    Text(String),
    Array(Vec<Value>),
    Entries(Vec<(Value, Value)>),
    Opaque,
}

impl Value {
    /// The truth value of a boolean.
    pub open spec fn bool_value(self) -> Option<bool> {
        match self {
            Value::Boolean(flag) => Some(flag),
            _ => None,
        }
    }

    /// The number of an integer that is in the range of `u64`.
    pub open spec fn u64_value(self) -> Option<u64> {
        match self {
            Value::Integer(n) => if 0 <= n <= u64::MAX {
                Some(n as u64)
            } else {
                None
            },
            _ => None,
        }
    }

    /// The number of an integer that is in the range of `i64`.
    pub open spec fn i64_value(self) -> Option<i64> {
        match self {
            Value::Integer(n) => if i64::MIN <= n <= i64::MAX {
                Some(n as i64)
            } else {
                None
            },
            _ => None,
        }
    }

    /// The characters of a string.
    pub open spec fn str_value(self) -> Option<Seq<char>> {
        match self {
            Value::Text(text) => Some(text@),
            _ => None,
        }
    }

    /// The items of an array.
    pub open spec fn array_value(self) -> Option<Seq<Value>> {
        match self {
            Value::Array(items) => Some(items@),
            _ => None,
        }
    }

    /// The entries of a map, in the order in which they were sent.
    pub open spec fn map_value(self) -> Option<Seq<(Value, Value)>> {
        match self {
            Value::Entries(entries) => Some(entries@),
            _ => None,
        }
    }

    /// A signed number. An unsigned number beyond the range of `i64` wraps
    /// around.
    pub open spec fn int_value(self) -> Option<i64> {
        match self.i64_value() {
            Some(n) => Some(n),
            None => match self.u64_value() {
                Some(n) => Some(n as i64),
                None => None,
            },
        }
    }

    /// A size. A number beyond the range of `usize` loses its upper bits.
    pub open spec fn usize_value(self) -> Option<usize> {
        match self.u64_value() {
            Some(n) => Some(n as usize),
            None => None,
        }
    }

    /// A colour, `0xRRGGBB`. Bits beyond the lower 32 are dropped.
    pub open spec fn color_value(self) -> Option<u32> {
        match self.u64_value() {
            Some(n) => Some(n as u32),
            None => None,
        }
    }

    pub fn as_bool(&self) -> (flag: Option<bool>)
        ensures
            flag == self.bool_value(),
    {
        match self {
            Value::Boolean(flag) => Some(*flag),
            _ => None,
        }
    }

    pub fn as_u64(&self) -> (number: Option<u64>)
        ensures
            number == self.u64_value(),
    {
        match self {
            Value::Integer(n) => if 0 <= *n && *n <= u64::MAX as i128 {
                Some(*n as u64)
            } else {
                None
            },
            _ => None,
        }
    }

    pub fn as_i64(&self) -> (number: Option<i64>)
        ensures
            number == self.i64_value(),
    {
        match self {
            Value::Integer(n) => if i64::MIN as i128 <= *n && *n <= i64::MAX as i128 {
                Some(*n as i64)
            } else {
                None
            },
            _ => None,
        }
    }

    pub fn as_str(&self) -> (text: Option<&str>)
        ensures
            text matches Some(found) ==> self.str_value() == Some(found@),
            text is None ==> self.str_value() is None,
    {
        match self {
            Value::Text(text) => Some(text.as_str()),
            _ => None,
        }
    }

    pub fn as_array(&self) -> (items: Option<&Vec<Value>>)
        ensures
            items matches Some(found) ==> self.array_value() == Some(found@),
            items is None ==> self.array_value() is None,
    {
        match self {
            Value::Array(items) => Some(items),
            _ => None,
        }
    }

    pub fn as_map(&self) -> (entries: Option<&Vec<(Value, Value)>>)
        ensures
            entries matches Some(found) ==> self.map_value() == Some(found@),
            entries is None ==> self.map_value() is None,
    {
        match self {
            Value::Entries(entries) => Some(entries),
            _ => None,
        }
    }
}

/// The parameter at an index, `Nil` past the end: no reading of `Nil` gives
/// anything.
pub open spec fn param(values: Seq<Value>, index: int) -> Value {
    if 0 <= index < values.len() {
        values[index]
    } else {
        Value::Nil
    }
}

/// Reads a size out of a parameter list.
pub fn usize_at(values: &[Value], index: usize) -> (size: Option<usize>)
    ensures
        size == param(values@, index as int).usize_value(),
{
    if index < values.len() {
        match values[index].as_u64() {
            Some(n) => Some(n as usize),
            None => None,
        }
    } else {
        None
    }
}

/// Reads a signed number out of a parameter list.
pub fn int_at(values: &[Value], index: usize) -> (number: Option<i64>)
    ensures
        number == param(values@, index as int).int_value(),
{
    if index < values.len() {
        match values[index].as_i64() {
            Some(n) => Some(n),
            None => match values[index].as_u64() {
                Some(n) => Some(n as i64),
                None => None,
            },
        }
    } else {
        None
    }
}

/// Reads an unsigned number out of a parameter list.
pub fn u64_at(values: &[Value], index: usize) -> (number: Option<u64>)
    ensures
        number == param(values@, index as int).u64_value(),
{
    if index < values.len() {
        values[index].as_u64()
    } else {
        None
    }
}

/// Reads a string out of a parameter list.
pub fn str_at(values: &[Value], index: usize) -> (text: Option<&str>)
    ensures
        text matches Some(found) ==> param(values@, index as int).str_value() == Some(found@),
        text is None ==> param(values@, index as int).str_value() is None,
{
    if index < values.len() {
        values[index].as_str()
    } else {
        None
    }
}

/// Reads an array out of a parameter list.
pub fn array_at(values: &[Value], index: usize) -> (items: Option<&Vec<Value>>)
    ensures
        items matches Some(found) ==> param(values@, index as int).array_value() == Some(found@),
        items is None ==> param(values@, index as int).array_value() is None,
{
    if index < values.len() {
        values[index].as_array()
    } else {
        None
    }
}

/// Reads a map out of a parameter list.
pub fn map_at(values: &[Value], index: usize) -> (entries: Option<&Vec<(Value, Value)>>)
    ensures
        entries matches Some(found) ==> param(values@, index as int).map_value() == Some(found@),
        entries is None ==> param(values@, index as int).map_value() is None,
{
    if index < values.len() {
        values[index].as_map()
    } else {
        None
    }
}

/// Reads a colour out of a parameter list.
pub fn color_at(values: &[Value], index: usize) -> (color: Option<u32>)
    ensures
        color == param(values@, index as int).color_value(),
{
    if index < values.len() {
        value_color(&values[index])
    } else {
        None
    }
}

/// Reads a value as a colour.
pub fn value_color(value: &Value) -> (color: Option<u32>)
    ensures
        color == value.color_value(),
{
    match value.as_u64() {
        Some(n) => Some(n as u32),
        None => None,
    }
}

/// The value under a key: that of the first entry whose key is this string,
/// `Nil` where there is none.
pub open spec fn entry(map: Seq<(Value, Value)>, key: Seq<char>) -> Value
    decreases map.len(),
{
    if map.len() == 0 {
        Value::Nil
    } else if map[0].0.str_value() == Some(key) {
        map[0].1
    } else {
        entry(map.drop_first(), key)
    }
}

/// Whether a map has an entry under a key.
pub open spec fn has_entry(map: Seq<(Value, Value)>, key: Seq<char>) -> bool {
    exists|i: int| 0 <= i < map.len() && (#[trigger] map[i]).0.str_value() == Some(key)
}

/// Looks a key up in a map. Of several entries under the key the first counts.
pub fn map_get<'a>(map: &'a [(Value, Value)], key: &str) -> (value: Option<&'a Value>)
    ensures
        value matches Some(found) ==> has_entry(map@, key@) && *found == entry(map@, key@),
        value is None ==> !has_entry(map@, key@) && entry(map@, key@) == Value::Nil,
{
    let mut at: usize = 0;
    assert(map@.skip(0) =~= map@);
    while at < map.len()
        invariant
            at <= map@.len(),
            entry(map@, key@) == entry(map@.skip(at as int), key@),
            forall|i: int| 0 <= i < at ==> (#[trigger] map@[i]).0.str_value() != Some(key@),
        decreases map@.len() - at,
    {
        assert(map@.skip(at as int)[0] == map@[at as int]);
        assert(map@.skip(at as int).drop_first() =~= map@.skip(at + 1));
        if let Some(candidate) = map[at].0.as_str() {
            if same_text(candidate, key) {
                return Some(&map[at].1);
            }
        }
        at += 1;
    }
    None
}

/// A number is read as it is wherever it is in the range of what is read. Beyond that it is
/// no size and no unsigned number; a signed one that is too large for its sign still counts,
/// modulo the number of 64-bit numbers, and a colour modulo that of 32-bit numbers.
pub proof fn law_numbers_are_read_as_they_are(n: i128)
    ensures
        ({
            let value = Value::Integer(n);
            &&& 0 <= n <= u64::MAX ==> value.u64_value() is Some && value.u64_value()->0 == n
            &&& n < 0 || n > u64::MAX ==> value.u64_value() is None && value.usize_value() is None
                && value.color_value() is None
            &&& i64::MIN <= n <= i64::MAX ==> value.i64_value() is Some && value.i64_value()->0 == n
                && value.int_value() is Some && value.int_value()->0 == n
            &&& n < i64::MIN || n > i64::MAX ==> value.i64_value() is None
            &&& i64::MAX < n <= u64::MAX ==> value.int_value() is Some && value.int_value()->0 == n
                - 0x1_0000_0000_0000_0000
            &&& n < i64::MIN || n > u64::MAX ==> value.int_value() is None
            &&& 0 <= n <= usize::MAX ==> value.usize_value() is Some && value.usize_value()->0 == n
            &&& 0 <= n <= u64::MAX ==> value.color_value() is Some && value.color_value()->0 == n
                % 0x1_0000_0000
        }),
{
    if 0 <= n <= u64::MAX {
        let m = n as u64;
        assert(m > 0x7fff_ffff_ffff_ffff ==> (m as i64) == m - 0x1_0000_0000_0000_0000)
            by (bit_vector);
        assert((m as u32) == m % 0x1_0000_0000) by (bit_vector);
    }
}

/// Nothing but a number is read as a number, nothing but a truth value as one, and so on.
pub proof fn law_values_are_read_as_what_they_are(value: Value)
    ensures
        value !is Integer ==> value.u64_value() is None && value.i64_value() is None
            && value.int_value() is None && value.usize_value() is None
            && value.color_value() is None,
        value.bool_value() is Some <==> value is Boolean,
        value.bool_value() is Some ==> value == Value::Boolean(value.bool_value()->0),
        value.str_value() is Some <==> value is Text,
        value matches Value::Text(text) ==> value.str_value() == Some(text@),
        value.array_value() is Some <==> value is Array,
        value matches Value::Array(items) ==> value.array_value() == Some(items@),
        value.map_value() is Some <==> value is Entries,
        value matches Value::Entries(entries) ==> value.map_value() == Some(entries@),
{
}

/// Of the entries of a map under a key the first counts.
pub proof fn law_first_entry_counts(map: Seq<(Value, Value)>, key: Seq<char>, index: int)
    requires
        0 <= index < map.len(),
        map[index].0.str_value() == Some(key),
        forall|i: int| 0 <= i < index ==> (#[trigger] map[i]).0.str_value() != Some(key),
    ensures
        entry(map, key) == map[index].1,
    decreases map.len(),
{
    if index > 0 {
        let rest = map.drop_first();
        assert(map[0].0.str_value() != Some(key));
        assert forall|i: int| 0 <= i < index - 1 implies (#[trigger] rest[i]).0.str_value() != Some(
            key,
        ) by {
            assert(rest[i] == map[i + 1]);
        }
        law_first_entry_counts(rest, key, index - 1);
    }
}

/// A map has nothing under a key that none of its entries has.
pub proof fn law_missing_entries_are_nil(map: Seq<(Value, Value)>, key: Seq<char>)
    requires
        forall|i: int| 0 <= i < map.len() ==> (#[trigger] map[i]).0.str_value() != Some(key),
    ensures
        entry(map, key) == Value::Nil,
        !has_entry(map, key),
    decreases map.len(),
{
    if map.len() > 0 {
        let rest = map.drop_first();
        assert(map[0].0.str_value() != Some(key));
        assert forall|i: int| 0 <= i < rest.len() implies (#[trigger] rest[i]).0.str_value() != Some(
            key,
        ) by {
            assert(rest[i] == map[i + 1]);
        }
        law_missing_entries_are_nil(rest, key);
    }
}

/// A parameter is the value at its place, and nothing where there is none.
pub proof fn law_parameters_are_counted_from_the_first(values: Seq<Value>, index: int)
    ensures
        0 <= index < values.len() ==> param(values, index) == values[index],
        index < 0 || index >= values.len() ==> param(values, index) == Value::Nil,
{
}

} // verus!
