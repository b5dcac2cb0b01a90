//! Typed call arguments from a decoded JSON array: explicit `{"type", "value"}` objects, or
//! values whose type is inferred from their shape.
use vstd::prelude::*;
use crate::hex::{decode_hex, hex_bytes, hex_valid};
use crate::json::{JsonInteger, JsonValue, Shape, int_value, shape, shape_of};
use crate::text::{chars_eq, chars_of};

verus! {

/// The type tags an explicit argument may carry.
#[derive(Clone, Copy, Debug, PartialEq, Eq, Structural)]
pub enum TypeTag {
    U32,
    U64,
    I32,
    I64,
    I128,
    U128,
    Bool,
    Symbol,
    Bytes,
    StringVal,
    Address,
    MapVal,
    VecVal,
}

/// One typed argument value.
pub enum TaggedValue {
    U32(u32),
    U64(u64),
    I32(i32),
    I64(i64),
    I128(i128),
    U128(u128),
    Bool(bool),
    Symbol(String),
    Bytes(Vec<u8>),
    StringVal(String),
    Address(String),
    MapVal(Vec<(String, TaggedValue)>),
    VecVal(Vec<TaggedValue>),
}

/// Why an argument list could not be read.
#[derive(Debug, PartialEq, Eq)]
pub enum ParseError {
    InvalidJson,
    UnknownType(String),
    TypeMismatch { expected: Shape, found: Shape },
    OutOfRange { tag: TypeTag, value: JsonInteger },
}

/// A typed value as seen by the specification.
pub ghost enum TaggedModel {
    U32(u32),
    U64(u64),
    I32(i32),
    I64(i64),
    I128(i128),
    U128(u128),
    Bool(bool),
    Symbol(Seq<char>),
    Bytes(Seq<u8>),
    StringVal(Seq<char>),
    Address(Seq<char>),
    MapVal(Seq<(Seq<char>, TaggedModel)>),
    VecVal(Seq<TaggedModel>),
}

/// A parse error as seen by the specification.
pub ghost enum ErrorModel {
    InvalidJson,
    UnknownType(Seq<char>),
    TypeMismatch { expected: Shape, found: Shape },
    OutOfRange { tag: TypeTag, value: IntModel },
}

/// An integer as seen by the specification: its value where the magnitude fits in 128 bits,
/// else its sign and decimal digits.
pub ghost enum IntModel {
    Fits(int),
    Wide(bool, Seq<char>),
}

/// The view of a parse error.
pub open spec fn error_view(e: ParseError) -> ErrorModel {
    match e {
        ParseError::InvalidJson => ErrorModel::InvalidJson,
        ParseError::UnknownType(t) => ErrorModel::UnknownType(t@),
        ParseError::TypeMismatch { expected, found } => ErrorModel::TypeMismatch { expected, found },
        ParseError::OutOfRange { tag, value } => ErrorModel::OutOfRange {
            tag,
            value: match value {
                JsonInteger::Fits { negative, magnitude } => IntModel::Fits(
                    int_value(negative, magnitude),
                ),
                JsonInteger::Wide { negative, digits } => IntModel::Wide(negative, digits@),
            },
        },
    }
}

/// The view of a typed value.
pub open spec fn tagged_view(t: TaggedValue) -> TaggedModel
    decreases t,
{
    match t {
        TaggedValue::U32(x) => TaggedModel::U32(x),
        TaggedValue::U64(x) => TaggedModel::U64(x),
        TaggedValue::I32(x) => TaggedModel::I32(x),
        TaggedValue::I64(x) => TaggedModel::I64(x),
        TaggedValue::I128(x) => TaggedModel::I128(x),
        TaggedValue::U128(x) => TaggedModel::U128(x),
        TaggedValue::Bool(b) => TaggedModel::Bool(b),
        TaggedValue::Symbol(s) => TaggedModel::Symbol(s@),
        TaggedValue::Bytes(b) => TaggedModel::Bytes(b@),
        TaggedValue::StringVal(s) => TaggedModel::StringVal(s@),
        TaggedValue::Address(s) => TaggedModel::Address(s@),
        TaggedValue::MapVal(m) => TaggedModel::MapVal(entries_model(m@)),
        TaggedValue::VecVal(v) => TaggedModel::VecVal(values_model(v@)),
    }
}

/// The views of a list of typed values.
pub open spec fn values_model(s: Seq<TaggedValue>) -> Seq<TaggedModel>
    decreases s,
{
    if s.len() == 0 {
        Seq::empty()
    } else {
        values_model(s.subrange(0, s.len() - 1)).push(tagged_view(s[s.len() - 1]))
    }
}

/// The views of the entries of a typed map.
pub open spec fn entries_model(s: Seq<(String, TaggedValue)>) -> Seq<(Seq<char>, TaggedModel)>
    decreases s,
{
    if s.len() == 0 {
        Seq::empty()
    } else {
        entries_model(s.subrange(0, s.len() - 1)).push(
            (s[s.len() - 1].0@, tagged_view(s[s.len() - 1].1)),
        )
    }
}

/// The tag a type name stands for.
pub open spec fn tag_named(s: Seq<char>) -> Option<TypeTag> {
    if s == seq!['u', '3', '2'] {
        Some(TypeTag::U32)
    } else if s == seq!['u', '6', '4'] {
        Some(TypeTag::U64)
    } else if s == seq!['i', '3', '2'] {
        Some(TypeTag::I32)
    } else if s == seq!['i', '6', '4'] {
        Some(TypeTag::I64)
    } else if s == seq!['i', '1', '2', '8'] {
        Some(TypeTag::I128)
    } else if s == seq!['u', '1', '2', '8'] {
        Some(TypeTag::U128)
    } else if s == seq!['b', 'o', 'o', 'l'] {
        Some(TypeTag::Bool)
    } else if s == seq!['s', 'y', 'm', 'b', 'o', 'l'] {
        Some(TypeTag::Symbol)
    } else if s == seq!['b', 'y', 't', 'e', 's'] {
        Some(TypeTag::Bytes)
    } else if s == seq!['s', 't', 'r', 'i', 'n', 'g'] {
        Some(TypeTag::StringVal)
    } else if s == seq!['a', 'd', 'd', 'r', 'e', 's', 's'] {
        Some(TypeTag::Address)
    } else if s == seq!['m', 'a', 'p'] {
        Some(TypeTag::MapVal)
    } else if s == seq!['v', 'e', 'c'] {
        Some(TypeTag::VecVal)
    } else {
        None
    }
}

/// The integer under an explicit numeric tag, or `OutOfRange` where the tag's type cannot hold it.
pub open spec fn typed_int(tag: TypeTag, x: int) -> Result<TaggedModel, ErrorModel> {
    let out = Err(ErrorModel::OutOfRange { tag, value: IntModel::Fits(x) });
    match tag {
        TypeTag::U32 => if 0 <= x <= u32::MAX { Ok(TaggedModel::U32(x as u32)) } else { out },
        TypeTag::U64 => if 0 <= x <= u64::MAX { Ok(TaggedModel::U64(x as u64)) } else { out },
        TypeTag::U128 => if 0 <= x <= u128::MAX { Ok(TaggedModel::U128(x as u128)) } else { out },
        TypeTag::I32 => if i32::MIN <= x <= i32::MAX { Ok(TaggedModel::I32(x as i32)) } else { out },
        TypeTag::I64 => if i64::MIN <= x <= i64::MAX { Ok(TaggedModel::I64(x as i64)) } else { out },
        _ => if i128::MIN <= x <= i128::MAX { Ok(TaggedModel::I128(x as i128)) } else { out },
    }
}

/// The widest type on an integer's side of zero, named when a bare integer fits none.
pub open spec fn wide_tag(negative: bool) -> TypeTag {
    if negative {
        TypeTag::I128
    } else {
        TypeTag::U128
    }
}

/// A bare integer takes the narrowest type that holds it, unsigned when it is not negative:
/// u32, u64, u128 upwards, or i32, i64, i128 downwards.
pub open spec fn infer_int(x: int) -> Result<TaggedModel, ErrorModel> {
    if 0 <= x {
        if x <= u32::MAX {
            typed_int(TypeTag::U32, x)
        } else if x <= u64::MAX {
            typed_int(TypeTag::U64, x)
        } else {
            typed_int(TypeTag::U128, x)
        }
    } else if i32::MIN <= x {
        typed_int(TypeTag::I32, x)
    } else if i64::MIN <= x {
        typed_int(TypeTag::I64, x)
    } else {
        typed_int(TypeTag::I128, x)
    }
}

/// The error for a value of the wrong shape.
pub open spec fn mismatch(expected: Shape, v: JsonValue) -> Result<TaggedModel, ErrorModel> {
    Err(ErrorModel::TypeMismatch { expected, found: shape_of(v) })
}

/// The member that names an explicit argument's type.
pub open spec fn type_key() -> Seq<char> {
    seq!['t', 'y', 'p', 'e']
}

/// The member that holds an explicit argument's value.
pub open spec fn value_key() -> Seq<char> {
    seq!['v', 'a', 'l', 'u', 'e']
}

/// Position `i` holds the first member named `k`.
pub open spec fn is_first_member(ms: Seq<(String, JsonValue)>, k: Seq<char>, i: int) -> bool {
    0 <= i < ms.len() && ms[i].0@ == k && forall|j: int| 0 <= j < i ==> ms[j].0@ != k
}

/// Some member is named `k`.
pub open spec fn has_member(ms: Seq<(String, JsonValue)>, k: Seq<char>) -> bool {
    exists|i: int| 0 <= i < ms.len() && ms[i].0@ == k
}

/// The position of the first member named `k`.
pub open spec fn first_member(ms: Seq<(String, JsonValue)>, k: Seq<char>) -> int {
    choose|i: int| is_first_member(ms, k, i)
}

/// An object is an explicit argument when its first `type` member holds a string and it has a
/// `value` member.
pub open spec fn explicit_form(ms: Seq<(String, JsonValue)>) -> bool {
    &&& has_member(ms, type_key())
    &&& has_member(ms, value_key())
    &&& is_first_member(ms, type_key(), first_member(ms, type_key()))
    &&& ms[first_member(ms, type_key())].1 is Str
}

/// What one argument element reads as: explicit when it is an explicit object, else inferred.
pub open spec fn element_spec(v: JsonValue) -> Result<TaggedModel, ErrorModel>
    decreases v,
{
    match v {
        JsonValue::Null => mismatch(Shape::NonNull, v),
        JsonValue::Bool(b) => Ok(TaggedModel::Bool(b)),
        JsonValue::Int { negative, magnitude } => infer_int(int_value(negative, magnitude)),
        JsonValue::WideInt { negative, digits } => Err(
            ErrorModel::OutOfRange { tag: wide_tag(negative), value: IntModel::Wide(negative, digits@) },
        ),
        JsonValue::NonInteger(_) => mismatch(Shape::Integer, v),
        JsonValue::Str(s) => Ok(TaggedModel::Symbol(s@)),
        JsonValue::Array(items) => match items_spec(items@) {
            Ok(ts) => Ok(TaggedModel::VecVal(ts)),
            Err(e) => Err(e),
        },
        JsonValue::Object(ms) => {
            let ti = first_member(ms@, type_key());
            let vi = first_member(ms@, value_key());
            if explicit_form(ms@) && 0 <= ti < ms@.len() && 0 <= vi < ms@.len() {
                match ms@[ti].1 {
                    JsonValue::Str(t) => typed_spec(t@, ms@[vi].1),
                    _ => Err(ErrorModel::InvalidJson),
                }
            } else {
                match members_spec(ms@) {
                    Ok(es) => Ok(TaggedModel::MapVal(es)),
                    Err(e) => Err(e),
                }
            }
        },
    }
}

/// What a value reads as under an explicit type name.
pub open spec fn typed_spec(tag: Seq<char>, v: JsonValue) -> Result<TaggedModel, ErrorModel>
    decreases v,
{
    match tag_named(tag) {
        None => Err(ErrorModel::UnknownType(tag)),
        Some(t) => match t {
            TypeTag::Bool => match v {
                JsonValue::Bool(b) => Ok(TaggedModel::Bool(b)),
                _ => mismatch(Shape::Bool, v),
            },
            TypeTag::Symbol => match v {
                JsonValue::Str(s) => Ok(TaggedModel::Symbol(s@)),
                _ => mismatch(Shape::String, v),
            },
            TypeTag::StringVal => match v {
                JsonValue::Str(s) => Ok(TaggedModel::StringVal(s@)),
                _ => mismatch(Shape::String, v),
            },
            TypeTag::Address => match v {
                JsonValue::Str(s) => Ok(TaggedModel::Address(s@)),
                _ => mismatch(Shape::String, v),
            },
            TypeTag::Bytes => match v {
                JsonValue::Str(s) => if hex_valid(s@) {
                    Ok(TaggedModel::Bytes(hex_bytes(s@)))
                } else {
                    Err(ErrorModel::TypeMismatch { expected: Shape::HexString, found: Shape::String })
                },
                _ => mismatch(Shape::HexString, v),
            },
            TypeTag::MapVal => match v {
                JsonValue::Object(ms) => match members_spec(ms@) {
                    Ok(es) => Ok(TaggedModel::MapVal(es)),
                    Err(e) => Err(e),
                },
                _ => mismatch(Shape::Object, v),
            },
            TypeTag::VecVal => match v {
                JsonValue::Array(items) => match items_spec(items@) {
                    Ok(ts) => Ok(TaggedModel::VecVal(ts)),
                    Err(e) => Err(e),
                },
                _ => mismatch(Shape::Array, v),
            },
            _ => match v {
                JsonValue::Int { negative, magnitude } => typed_int(t, int_value(negative, magnitude)),
                JsonValue::WideInt { negative, digits } => Err(
                    ErrorModel::OutOfRange { tag: t, value: IntModel::Wide(negative, digits@) },
                ),
                _ => mismatch(Shape::Integer, v),
            },
        },
    }
}

/// Elements read in order; the first error stops the list.
pub open spec fn items_spec(s: Seq<JsonValue>) -> Result<Seq<TaggedModel>, ErrorModel>
    decreases s,
{
    if s.len() == 0 {
        Ok(Seq::empty())
    } else {
        match items_spec(s.subrange(0, s.len() - 1)) {
            Err(e) => Err(e),
            Ok(p) => match element_spec(s[s.len() - 1]) {
                Err(e) => Err(e),
                Ok(t) => Ok(p.push(t)),
            },
        }
    }
}

/// Some entry of a typed map has the key `k`.
pub open spec fn has_entry_key(p: Seq<(Seq<char>, TaggedModel)>, k: Seq<char>) -> bool {
    exists|i: int| 0 <= i < p.len() && p[i].0 == k
}

/// No two entries of a typed map share a key.
pub open spec fn entry_keys_unique(p: Seq<(Seq<char>, TaggedModel)>) -> bool {
    forall|i: int, j: int| 0 <= i < j < p.len() ==> p[i].0 != p[j].0
}

/// Object members read in order, each value as an element; the first error stops the map.
/// A member whose name an earlier member has is still read, but only the first is kept.
pub open spec fn members_spec(s: Seq<(String, JsonValue)>) -> Result<
    Seq<(Seq<char>, TaggedModel)>,
    ErrorModel,
>
    decreases s,
{
    if s.len() == 0 {
        Ok(Seq::empty())
    } else {
        match members_spec(s.subrange(0, s.len() - 1)) {
            Err(e) => Err(e),
            Ok(p) => match element_spec(s[s.len() - 1].1) {
                Err(e) => Err(e),
                Ok(t) => if has_entry_key(p, s[s.len() - 1].0@) {
                    Ok(p)
                } else {
                    Ok(p.push((s[s.len() - 1].0@, t)))
                },
            },
        }
    }
}

/// What a whole document reads as: an array of arguments, else `InvalidJson`.
pub open spec fn args_spec(doc: JsonValue) -> Result<Seq<TaggedModel>, ErrorModel> {
    match doc {
        JsonValue::Array(items) => items_spec(items@),
        _ => Err(ErrorModel::InvalidJson),
    }
}

/// The view of a parse result.
pub open spec fn result_view(r: Result<TaggedValue, ParseError>) -> Result<TaggedModel, ErrorModel> {
    match r {
        Ok(t) => Ok(tagged_view(t)),
        Err(e) => Err(error_view(e)),
    }
}

/// The view of an argument list result.
pub open spec fn list_view(r: Result<Vec<TaggedValue>, ParseError>) -> Result<
    Seq<TaggedModel>,
    ErrorModel,
> {
    match r {
        Ok(o) => Ok(values_model(o@)),
        Err(e) => Err(error_view(e)),
    }
}

proof fn lemma_items_err_extends(s: Seq<JsonValue>, i: int)
    requires
        0 <= i <= s.len(),
        items_spec(s.subrange(0, i)) is Err,
    ensures
        items_spec(s) == items_spec(s.subrange(0, i)),
    decreases s.len() - i,
{
    if i < s.len() {
        assert(s.subrange(0, i + 1).subrange(0, i) =~= s.subrange(0, i));
        lemma_items_err_extends(s, i + 1);
    } else {
        assert(s.subrange(0, i) =~= s);
    }
}

proof fn lemma_members_err_extends(s: Seq<(String, JsonValue)>, i: int)
    requires
        0 <= i <= s.len(),
        members_spec(s.subrange(0, i)) is Err,
    ensures
        members_spec(s) == members_spec(s.subrange(0, i)),
    decreases s.len() - i,
{
    if i < s.len() {
        assert(s.subrange(0, i + 1).subrange(0, i) =~= s.subrange(0, i));
        lemma_members_err_extends(s, i + 1);
    } else {
        assert(s.subrange(0, i) =~= s);
    }
}

proof fn lemma_first_member_unique(ms: Seq<(String, JsonValue)>, k: Seq<char>, i: int)
    requires
        is_first_member(ms, k, i),
    ensures
        first_member(ms, k) == i,
{
    let c = first_member(ms, k);
    assert(is_first_member(ms, k, c));
    if c < i {
        assert(ms[c].0@ != k);
    } else if i < c {
        assert(ms[i].0@ != k);
    }
}

/// The value as an unsigned integer, where it is not negative.
fn to_u128(negative: bool, magnitude: u128) -> (r: Option<u128>)
    ensures
        r is Some <==> int_value(negative, magnitude) >= 0,
        r is Some ==> r->0 as int == int_value(negative, magnitude),
{
    if !negative || magnitude == 0 {
        Some(magnitude)
    } else {
        None
    }
}

/// The value as a signed 128-bit integer, where it fits.
fn to_i128(negative: bool, magnitude: u128) -> (r: Option<i128>)
    ensures
        r is Some <==> i128::MIN <= int_value(negative, magnitude) <= i128::MAX,
        r is Some ==> r->0 as int == int_value(negative, magnitude),
{
    if !negative {
        if magnitude <= 0x7fff_ffff_ffff_ffff_ffff_ffff_ffff_ffffu128 {
            Some(magnitude as i128)
        } else {
            None
        }
    } else if magnitude == 0x8000_0000_0000_0000_0000_0000_0000_0000u128 {
        Some(i128::MIN)
    } else if magnitude < 0x8000_0000_0000_0000_0000_0000_0000_0000u128 {
        Some(-(magnitude as i128))
    } else {
        None
    }
}

/// Reads an integer under a numeric tag, with a range check.
pub fn typed_integer(tag: TypeTag, negative: bool, magnitude: u128) -> (r: Result<
    TaggedValue,
    ParseError,
>)
    requires
        tag == TypeTag::U32 || tag == TypeTag::U64 || tag == TypeTag::U128 || tag == TypeTag::I32
            || tag == TypeTag::I64 || tag == TypeTag::I128,
    ensures
        result_view(r) == typed_int(tag, int_value(negative, magnitude)),
{
    let out = Err(ParseError::OutOfRange { tag, value: JsonInteger::Fits { negative, magnitude } });
    let u = to_u128(negative, magnitude);
    let s = to_i128(negative, magnitude);
    match tag {
        TypeTag::U32 => match u {
            Some(x) if x <= 0xffff_ffffu128 => Ok(TaggedValue::U32(x as u32)),
            _ => out,
        },
        TypeTag::U64 => match u {
            Some(x) if x <= 0xffff_ffff_ffff_ffffu128 => Ok(TaggedValue::U64(x as u64)),
            _ => out,
        },
        TypeTag::U128 => match u {
            Some(x) => Ok(TaggedValue::U128(x)),
            _ => out,
        },
        TypeTag::I32 => match s {
            Some(x) if -0x8000_0000i128 <= x && x <= 0x7fff_ffffi128 => Ok(TaggedValue::I32(x as i32)),
            _ => out,
        },
        TypeTag::I64 => match s {
            Some(x) if -0x8000_0000_0000_0000i128 <= x && x <= 0x7fff_ffff_ffff_ffffi128 => Ok(
                TaggedValue::I64(x as i64),
            ),
            _ => out,
        },
        _ => match s {
            Some(x) => Ok(TaggedValue::I128(x)),
            _ => out,
        },
    }
}

/// Reads a bare integer as the narrowest type that holds it.
pub fn inferred_integer(negative: bool, magnitude: u128) -> (r: Result<TaggedValue, ParseError>)
    ensures
        result_view(r) == infer_int(int_value(negative, magnitude)),
{
    if !negative || magnitude == 0 {
        if magnitude <= 0xffff_ffffu128 {
            typed_integer(TypeTag::U32, negative, magnitude)
        } else if magnitude <= 0xffff_ffff_ffff_ffffu128 {
            typed_integer(TypeTag::U64, negative, magnitude)
        } else {
            typed_integer(TypeTag::U128, negative, magnitude)
        }
    } else if magnitude <= 0x8000_0000u128 {
        typed_integer(TypeTag::I32, negative, magnitude)
    } else if magnitude <= 0x8000_0000_0000_0000u128 {
        typed_integer(TypeTag::I64, negative, magnitude)
    } else {
        typed_integer(TypeTag::I128, negative, magnitude)
    }
}

/// The tag a type name stands for.
pub fn tag_of(s: &String) -> (r: Option<TypeTag>)
    ensures
        r == tag_named(s@),
{
    let cs = chars_of(s.as_str());
    let name = vec!['u', '3', '2'];
    proof {
        assert(name@ =~= seq!['u', '3', '2']);
    }
    if chars_eq(&cs, &name) {
        return Some(TypeTag::U32);
    }
    let name = vec!['u', '6', '4'];
    proof {
        assert(name@ =~= seq!['u', '6', '4']);
    }
    if chars_eq(&cs, &name) {
        return Some(TypeTag::U64);
    }
    let name = vec!['i', '3', '2'];
    proof {
        assert(name@ =~= seq!['i', '3', '2']);
    }
    if chars_eq(&cs, &name) {
        return Some(TypeTag::I32);
    }
    let name = vec!['i', '6', '4'];
    proof {
        assert(name@ =~= seq!['i', '6', '4']);
    }
    if chars_eq(&cs, &name) {
        return Some(TypeTag::I64);
    }
    let name = vec!['i', '1', '2', '8'];
    proof {
        assert(name@ =~= seq!['i', '1', '2', '8']);
    }
    if chars_eq(&cs, &name) {
        return Some(TypeTag::I128);
    }
    let name = vec!['u', '1', '2', '8'];
    proof {
        assert(name@ =~= seq!['u', '1', '2', '8']);
    }
    if chars_eq(&cs, &name) {
        return Some(TypeTag::U128);
    }
    let name = vec!['b', 'o', 'o', 'l'];
    proof {
        assert(name@ =~= seq!['b', 'o', 'o', 'l']);
    }
    if chars_eq(&cs, &name) {
        return Some(TypeTag::Bool);
    }
    let name = vec!['s', 'y', 'm', 'b', 'o', 'l'];
    proof {
        assert(name@ =~= seq!['s', 'y', 'm', 'b', 'o', 'l']);
    }
    if chars_eq(&cs, &name) {
        return Some(TypeTag::Symbol);
    }
    let name = vec!['b', 'y', 't', 'e', 's'];
    proof {
        assert(name@ =~= seq!['b', 'y', 't', 'e', 's']);
    }
    if chars_eq(&cs, &name) {
        return Some(TypeTag::Bytes);
    }
    let name = vec!['s', 't', 'r', 'i', 'n', 'g'];
    proof {
        assert(name@ =~= seq!['s', 't', 'r', 'i', 'n', 'g']);
    }
    if chars_eq(&cs, &name) {
        return Some(TypeTag::StringVal);
    }
    let name = vec!['a', 'd', 'd', 'r', 'e', 's', 's'];
    proof {
        assert(name@ =~= seq!['a', 'd', 'd', 'r', 'e', 's', 's']);
    }
    if chars_eq(&cs, &name) {
        return Some(TypeTag::Address);
    }
    let name = vec!['m', 'a', 'p'];
    proof {
        assert(name@ =~= seq!['m', 'a', 'p']);
    }
    if chars_eq(&cs, &name) {
        return Some(TypeTag::MapVal);
    }
    let name = vec!['v', 'e', 'c'];
    proof {
        assert(name@ =~= seq!['v', 'e', 'c']);
    }
    if chars_eq(&cs, &name) {
        return Some(TypeTag::VecVal);
    }
    None
}

/// The position of the first member named `k`.
pub fn find_member(ms: &Vec<(String, JsonValue)>, k: &Vec<char>) -> (r: Option<usize>)
    ensures
        match r {
            Some(i) => is_first_member(ms@, k@, i as int),
            None => !has_member(ms@, k@),
        },
{
    let mut i: usize = 0;
    while i < ms.len()
        invariant
            i <= ms.len(),
            forall|j: int| 0 <= j < i ==> ms@[j].0@ != k@,
        decreases ms.len() - i,
    {
        let name = chars_of(ms[i].0.as_str());
        if chars_eq(&name, k) {
            return Some(i);
        }
        i = i + 1;
    }
    None
}

/// Reads one argument element, explicit or inferred.
pub fn parse_element(v: &JsonValue) -> (r: Result<TaggedValue, ParseError>)
    ensures
        result_view(r) == element_spec(*v),
    decreases v,
{
    match v {
        JsonValue::Null => Err(ParseError::TypeMismatch { expected: Shape::NonNull, found: Shape::Null }),
        JsonValue::Bool(b) => Ok(TaggedValue::Bool(*b)),
        JsonValue::Int { negative, magnitude } => inferred_integer(*negative, *magnitude),
        JsonValue::WideInt { negative, digits } => Err(
            ParseError::OutOfRange {
                tag: if *negative {
                    TypeTag::I128
                } else {
                    TypeTag::U128
                },
                value: JsonInteger::Wide { negative: *negative, digits: digits.clone() },
            },
        ),
        JsonValue::NonInteger(_) => Err(
            ParseError::TypeMismatch { expected: Shape::Integer, found: Shape::Number },
        ),
        JsonValue::Str(s) => Ok(TaggedValue::Symbol(s.clone())),
        JsonValue::Array(items) => match parse_items(items) {
            Ok(ts) => Ok(TaggedValue::VecVal(ts)),
            Err(e) => Err(e),
        },
        JsonValue::Object(ms) => {
            let tk = vec!['t', 'y', 'p', 'e'];
            let vk = vec!['v', 'a', 'l', 'u', 'e'];
            proof {
                assert(tk@ =~= type_key());
                assert(vk@ =~= value_key());
            }
            let ti = find_member(ms, &tk);
            let vi = find_member(ms, &vk);
            proof {
                if let Some(i) = ti {
                    lemma_first_member_unique(ms@, type_key(), i as int);
                }
                if let Some(i) = vi {
                    lemma_first_member_unique(ms@, value_key(), i as int);
                }
            }
            if let (Some(a), Some(b)) = (ti, vi) {
                if let JsonValue::Str(t) = &ms[a].1 {
                    return parse_typed(t, &ms[b].1);
                }
            }
            match parse_members(ms) {
                Ok(es) => Ok(TaggedValue::MapVal(es)),
                Err(e) => Err(e),
            }
        },
    }
}

/// Reads a value under an explicit type name.
pub fn parse_typed(tag: &String, v: &JsonValue) -> (r: Result<TaggedValue, ParseError>)
    ensures
        result_view(r) == typed_spec(tag@, *v),
    decreases v,
{
    let t = match tag_of(tag) {
        Some(t) => t,
        None => {
            return Err(ParseError::UnknownType(tag.clone()));
        },
    };
    match t {
        TypeTag::Bool => match v {
            JsonValue::Bool(b) => Ok(TaggedValue::Bool(*b)),
            _ => Err(ParseError::TypeMismatch { expected: Shape::Bool, found: shape(v) }),
        },
        TypeTag::Symbol => match v {
            JsonValue::Str(s) => Ok(TaggedValue::Symbol(s.clone())),
            _ => Err(ParseError::TypeMismatch { expected: Shape::String, found: shape(v) }),
        },
        TypeTag::StringVal => match v {
            JsonValue::Str(s) => Ok(TaggedValue::StringVal(s.clone())),
            _ => Err(ParseError::TypeMismatch { expected: Shape::String, found: shape(v) }),
        },
        TypeTag::Address => match v {
            JsonValue::Str(s) => Ok(TaggedValue::Address(s.clone())),
            _ => Err(ParseError::TypeMismatch { expected: Shape::String, found: shape(v) }),
        },
        TypeTag::Bytes => match v {
            JsonValue::Str(s) => {
                let cs = chars_of(s.as_str());
                match decode_hex(&cs) {
                    Some(b) => Ok(TaggedValue::Bytes(b)),
                    None => Err(
                        ParseError::TypeMismatch { expected: Shape::HexString, found: Shape::String },
                    ),
                }
            },
            _ => Err(ParseError::TypeMismatch { expected: Shape::HexString, found: shape(v) }),
        },
        TypeTag::MapVal => match v {
            JsonValue::Object(ms) => match parse_members(ms) {
                Ok(es) => Ok(TaggedValue::MapVal(es)),
                Err(e) => Err(e),
            },
            _ => Err(ParseError::TypeMismatch { expected: Shape::Object, found: shape(v) }),
        },
        TypeTag::VecVal => match v {
            JsonValue::Array(items) => match parse_items(items) {
                Ok(ts) => Ok(TaggedValue::VecVal(ts)),
                Err(e) => Err(e),
            },
            _ => Err(ParseError::TypeMismatch { expected: Shape::Array, found: shape(v) }),
        },
        _ => match v {
            JsonValue::Int { negative, magnitude } => typed_integer(t, *negative, *magnitude),
            JsonValue::WideInt { negative, digits } => Err(
                ParseError::OutOfRange {
                    tag: t,
                    value: JsonInteger::Wide { negative: *negative, digits: digits.clone() },
                },
            ),
            _ => Err(ParseError::TypeMismatch { expected: Shape::Integer, found: shape(v) }),
        },
    }
}

/// Reads array elements in order, stopping at the first error.
pub fn parse_items(items: &Vec<JsonValue>) -> (r: Result<Vec<TaggedValue>, ParseError>)
    ensures
        list_view(r) == items_spec(items@),
    decreases items,
{
    let mut out: Vec<TaggedValue> = Vec::new();
    let mut i: usize = 0;
    while i < items.len()
        invariant
            i <= items.len(),
            items_spec(items@.subrange(0, i as int)) == Ok::<Seq<TaggedModel>, ErrorModel>(
                values_model(out@),
            ),
        decreases items.len() - i,
    {
        proof {
            assert(items@.subrange(0, i + 1).subrange(0, i as int) =~= items@.subrange(0, i as int));
            assert(decreases_to!(items => items@[i as int]));
        }
        match parse_element(&items[i]) {
            Ok(t) => {
                let ghost pre = out@;
                out.push(t);
                proof {
                    assert(out@.subrange(0, out@.len() - 1) =~= pre);
                }
            },
            Err(e) => {
                proof {
                    lemma_items_err_extends(items@, i + 1);
                }
                return Err(e);
            },
        }
        i = i + 1;
    }
    proof {
        assert(items@.subrange(0, items@.len() as int) =~= items@);
    }
    Ok(out)
}

proof fn lemma_entries_model(s: Seq<(String, TaggedValue)>)
    ensures
        entries_model(s).len() == s.len(),
        forall|i: int|
            0 <= i < s.len() ==> #[trigger] entries_model(s)[i] == (s[i].0@, tagged_view(s[i].1)),
    decreases s.len(),
{
    if s.len() > 0 {
        let p = s.subrange(0, s.len() - 1);
        lemma_entries_model(p);
        assert forall|i: int| 0 <= i < s.len() implies #[trigger] entries_model(s)[i] == (
            s[i].0@,
            tagged_view(s[i].1),
        ) by {
            if i < s.len() - 1 {
                assert(p[i] == s[i]);
            }
        }
    }
}

/// Whether a typed map already has an entry with the key.
fn entry_key_present(out: &Vec<(String, TaggedValue)>, k: &String) -> (r: bool)
    ensures
        r == has_entry_key(entries_model(out@), k@),
{
    proof {
        lemma_entries_model(out@);
    }
    let mut j: usize = 0;
    while j < out.len()
        invariant
            j <= out.len(),
            entries_model(out@).len() == out@.len(),
            forall|i: int|
                0 <= i < out@.len() ==> #[trigger] entries_model(out@)[i] == (
                    out@[i].0@,
                    tagged_view(out@[i].1),
                ),
            forall|i: int| 0 <= i < j ==> entries_model(out@)[i].0 != k@,
        decreases out.len() - j,
    {
        if out[j].0 == *k {
            assert(entries_model(out@)[j as int].0 == k@);
            return true;
        }
        j = j + 1;
    }
    false
}

/// The keys of a map read from an object are unique.
pub proof fn lemma_map_keys_unique(s: Seq<(String, JsonValue)>)
    requires
        members_spec(s) is Ok,
    ensures
        entry_keys_unique(members_spec(s)->Ok_0),
    decreases s.len(),
{
    if s.len() > 0 {
        lemma_map_keys_unique(s.subrange(0, s.len() - 1));
    }
}

/// Reads object members in order, stopping at the first error.
pub fn parse_members(ms: &Vec<(String, JsonValue)>) -> (r: Result<
    Vec<(String, TaggedValue)>,
    ParseError,
>)
    ensures
        match r {
            Ok(o) => members_spec(ms@) == Ok::<Seq<(Seq<char>, TaggedModel)>, ErrorModel>(
                entries_model(o@),
            ),
            Err(e) => members_spec(ms@) == Err::<Seq<(Seq<char>, TaggedModel)>, ErrorModel>(
                error_view(e),
            ),
        },
        r is Ok ==> entry_keys_unique(entries_model(r->Ok_0@)),
    decreases ms,
{
    let mut out: Vec<(String, TaggedValue)> = Vec::new();
    let mut i: usize = 0;
    while i < ms.len()
        invariant
            i <= ms.len(),
            members_spec(ms@.subrange(0, i as int)) == Ok::<
                Seq<(Seq<char>, TaggedModel)>,
                ErrorModel,
            >(entries_model(out@)),
        decreases ms.len() - i,
    {
        proof {
            assert(ms@.subrange(0, i + 1).subrange(0, i as int) =~= ms@.subrange(0, i as int));
            assert(decreases_to!(ms => ms@[i as int]));
        }
        match parse_element(&ms[i].1) {
            Ok(t) => {
                if !entry_key_present(&out, &ms[i].0) {
                    let ghost pre = out@;
                    out.push((ms[i].0.clone(), t));
                    proof {
                        assert(out@.subrange(0, out@.len() - 1) =~= pre);
                    }
                }
            },
            Err(e) => {
                proof {
                    lemma_members_err_extends(ms@, i + 1);
                }
                return Err(e);
            },
        }
        i = i + 1;
    }
    proof {
        assert(ms@.subrange(0, ms@.len() as int) =~= ms@);
        lemma_map_keys_unique(ms@);
    }
    Ok(out)
}

proof fn lemma_values_model(s: Seq<TaggedValue>)
    ensures
        values_model(s).len() == s.len(),
        forall|i: int| 0 <= i < s.len() ==> #[trigger] values_model(s)[i] == tagged_view(s[i]),
    decreases s.len(),
{
    if s.len() > 0 {
        let p = s.subrange(0, s.len() - 1);
        lemma_values_model(p);
        assert forall|i: int| 0 <= i < s.len() implies #[trigger] values_model(s)[i] == tagged_view(
            s[i],
        ) by {
            if i < s.len() - 1 {
                assert(p[i] == s[i]);
            }
        }
    }
}

proof fn lemma_items_ok(s: Seq<JsonValue>)
    requires
        items_spec(s) is Ok,
    ensures
        items_spec(s)->Ok_0.len() == s.len(),
        forall|i: int|
            0 <= i < s.len() ==> #[trigger] element_spec(s[i]) == Ok::<TaggedModel, ErrorModel>(
                items_spec(s)->Ok_0[i],
            ),
    decreases s.len(),
{
    if s.len() > 0 {
        let p = s.subrange(0, s.len() - 1);
        lemma_items_ok(p);
        assert forall|i: int| 0 <= i < s.len() implies #[trigger] element_spec(s[i]) == Ok::<
            TaggedModel,
            ErrorModel,
        >(items_spec(s)->Ok_0[i]) by {
            if i < s.len() - 1 {
                assert(p[i] == s[i]);
            }
        }
    }
}

/// A document that reads successfully is an array, and it yields exactly one argument per
/// element, in the elements' order, each being what that element reads as on its own.
pub proof fn lemma_parse_keeps_length_and_order(doc: JsonValue)
    requires
        args_spec(doc) is Ok,
    ensures
        doc is Array,
        args_spec(doc)->Ok_0.len() == doc->Array_0@.len(),
        forall|i: int|
            0 <= i < doc->Array_0@.len() ==> #[trigger] element_spec(doc->Array_0@[i]) == Ok::<
                TaggedModel,
                ErrorModel,
            >(args_spec(doc)->Ok_0[i]),
{
    if let JsonValue::Array(items) = doc {
        lemma_items_ok(items@);
    }
}

/// Reads a whole argument document: it must be an array, whose elements become the arguments
/// in order.
pub fn parse_args(doc: &JsonValue) -> (r: Result<Vec<TaggedValue>, ParseError>)
    ensures
        list_view(r) == args_spec(*doc),
        r is Ok ==> doc is Array && r->Ok_0@.len() == doc->Array_0@.len() && forall|i: int|
            0 <= i < r->Ok_0@.len() ==> element_spec(doc->Array_0@[i]) == Ok::<
                TaggedModel,
                ErrorModel,
            >(tagged_view(#[trigger] r->Ok_0@[i])),
{
    match doc {
        JsonValue::Array(items) => {
            let r = parse_items(items);
            proof {
                if r is Ok {
                    lemma_values_model(r->Ok_0@);
                    lemma_parse_keeps_length_and_order(*doc);
                }
            }
            r
        },
        _ => Err(ParseError::InvalidJson),
    }
}

} // verus!
