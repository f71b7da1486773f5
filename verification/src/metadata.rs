//! GGUF metadata values, how they are looked up, and how each is shown.

use vstd::prelude::*;
use crate::text::{decimal, decimal_signed, i64_to_string, push_decimal, push_str, str_equal, u64_to_string};

verus! {

/// One typed GGUF metadata value. Floating-point values are carried as the
/// text their `Display` gives, which is all that is ever read of them here.
pub enum MetaValue {
    U8(u8),
    I8(i8),
    U16(u16),
    I16(i16),
    U32(u32),
    I32(i32),
    U64(u64),
    I64(i64),
    F32(String),
    F64(String),
    Bool(bool),
    String(String),
    Array(Vec<MetaValue>),
}

/// A metadata value as a mathematical value: strings and float texts as
/// character sequences, arrays as sequences of values.
pub enum MetaView {
    U8(u8),
    I8(i8),
    U16(u16),
    I16(i16),
    U32(u32),
    I32(i32),
    U64(u64),
    I64(i64),
    F32(Seq<char>),
    F64(Seq<char>),
    Bool(bool),
    Text(Seq<char>),
    Array(Seq<MetaView>),
}

/// The mathematical value of a metadata value.
pub open spec fn meta_view(v: MetaValue) -> MetaView
    decreases v,
{
    match v {
        MetaValue::U8(x) => MetaView::U8(x),
        MetaValue::I8(x) => MetaView::I8(x),
        MetaValue::U16(x) => MetaView::U16(x),
        MetaValue::I16(x) => MetaView::I16(x),
        MetaValue::U32(x) => MetaView::U32(x),
        MetaValue::I32(x) => MetaView::I32(x),
        MetaValue::U64(x) => MetaView::U64(x),
        MetaValue::I64(x) => MetaView::I64(x),
        MetaValue::F32(t) => MetaView::F32(t@),
        MetaValue::F64(t) => MetaView::F64(t@),
        MetaValue::Bool(b) => MetaView::Bool(b),
        MetaValue::String(s) => MetaView::Text(s@),
        MetaValue::Array(items) => MetaView::Array(meta_views(items@)),
    }
}

/// The mathematical values of a sequence of metadata values.
pub open spec fn meta_views(items: Seq<MetaValue>) -> Seq<MetaView>
    decreases items,
{
    if items.len() == 0 {
        seq![]
    } else {
        meta_views(items.drop_last()).push(meta_view(items.last()))
    }
}

/// Whether a value is one of the integer kinds.
pub open spec fn is_integer_view(v: MetaView) -> bool {
    ||| v is U8
    ||| v is I8
    ||| v is U16
    ||| v is I16
    ||| v is U32
    ||| v is I32
    ||| v is U64
    ||| v is I64
}

/// Whether a value is a float, a boolean or a string.
pub open spec fn is_other_view(v: MetaView) -> bool {
    ||| v is F32
    ||| v is F64
    ||| v is Bool
    ||| v is Text
}

/// A metadata key with its value, as stored in the file.
pub struct MetadataItem {
    pub key: String,
    pub value: MetaValue,
}

/// The value stored under `key`: the first item whose key it is.
pub open spec fn meta_lookup(items: Seq<MetadataItem>, key: Seq<char>) -> Option<MetaValue>
    decreases items.len(),
{
    if items.len() == 0 {
        None
    } else if items[0].key@ == key {
        Some(items[0].value)
    } else {
        meta_lookup(items.drop_first(), key)
    }
}

proof fn lemma_lookup_skip(items: Seq<MetadataItem>, key: Seq<char>, i: int)
    requires
        0 <= i <= items.len(),
        forall|k: int| 0 <= k < i ==> items[k].key@ != key,
    ensures
        meta_lookup(items, key) == meta_lookup(items.skip(i), key),
    decreases i,
{
    if i > 0 {
        assert forall|k: int| 0 <= k < i - 1 implies items.drop_first()[k].key@ != key by {
            assert(items.drop_first()[k] == items[k + 1]);
        }
        lemma_lookup_skip(items.drop_first(), key, i - 1);
        assert(items.drop_first().skip(i - 1) =~= items.skip(i));
    } else {
        assert(items.skip(0) =~= items);
    }
}

/// The value stored under `key`, if any.
pub fn lookup<'a>(items: &'a Vec<MetadataItem>, key: &str) -> (r: Option<&'a MetaValue>)
    ensures
        match meta_lookup(items@, key@) {
            Some(v) => r == Some(&v),
            None => r is None,
        },
{
    let mut i: usize = 0;
    while i < items.len()
        invariant
            i <= items.len(),
            forall|k: int| 0 <= k < i ==> items@[k].key@ != key@,
        decreases items.len() - i,
    {
        if str_equal(items[i].key.as_str(), key) {
            proof {
                lemma_lookup_skip(items@, key@, i as int);
                assert(items@.skip(i as int)[0] == items@[i as int]);
            }
            return Some(&items[i].value);
        }
        i = i + 1;
    }
    proof {
        lemma_lookup_skip(items@, key@, i as int);
    }
    None
}


/// The number held by a `U32` value (any other kind of value has none).
pub open spec fn spec_as_u32(v: MetaValue) -> Option<u32> {
    match v {
        MetaValue::U32(x) => Some(x),
        _ => None,
    }
}

/// The text held by a `String` value.
pub open spec fn spec_as_text(v: MetaValue) -> Option<Seq<char>> {
    match v {
        MetaValue::String(s) => Some(s@),
        _ => None,
    }
}

/// The items of an `Array` value.
pub open spec fn spec_as_array(v: MetaValue) -> Option<Seq<MetaValue>> {
    match v {
        MetaValue::Array(items) => Some(items@),
        _ => None,
    }
}

impl MetaValue {
    /// The number, when this is a `U32` value.
    pub fn as_u32(&self) -> (r: Option<u32>)
        ensures
            r == spec_as_u32(*self),
    {
        match self {
            MetaValue::U32(x) => Some(*x),
            _ => None,
        }
    }

    /// The text, when this is a `String` value.
    pub fn as_text(&self) -> (r: Option<&String>)
        ensures
            match spec_as_text(*self) {
                Some(t) => r matches Some(s) && s@ == t,
                None => r is None,
            },
    {
        match self {
            MetaValue::String(s) => Some(s),
            _ => None,
        }
    }

    /// The items, when this is an `Array` value.
    pub fn as_array(&self) -> (r: Option<&Vec<MetaValue>>)
        ensures
            match spec_as_array(*self) {
                Some(t) => r matches Some(v) && v@ == t,
                None => r is None,
            },
    {
        match self {
            MetaValue::Array(items) => Some(items),
            _ => None,
        }
    }
}

/// Arrays of at most this many items are shown in full.
pub open spec fn inline_array_limit() -> nat {
    20
}

/// How a metadata value is shown: numbers in decimal, booleans as
/// `true`/`false`, strings as they are, a short array as its items shown
/// and joined by `", "`, and a long one only as `[N items]` (showing the
/// vocabulary or merge rules inline would dwarf everything else).
pub open spec fn describe(v: MetaValue) -> Seq<char>
    decreases v,
{
    match v {
        MetaValue::U8(x) => decimal(x as nat),
        MetaValue::I8(x) => decimal_signed(x as int),
        MetaValue::U16(x) => decimal(x as nat),
        MetaValue::I16(x) => decimal_signed(x as int),
        MetaValue::U32(x) => decimal(x as nat),
        MetaValue::I32(x) => decimal_signed(x as int),
        MetaValue::U64(x) => decimal(x as nat),
        MetaValue::I64(x) => decimal_signed(x as int),
        MetaValue::F32(t) => t@,
        MetaValue::F64(t) => t@,
        MetaValue::Bool(b) => if b {
            "true"@
        } else {
            "false"@
        },
        MetaValue::String(s) => s@,
        MetaValue::Array(items) => if items@.len() <= inline_array_limit() {
            describe_joined(items@)
        } else {
            "["@ + decimal(items@.len()) + " items]"@
        },
    }
}

/// The items shown one by one and joined by `", "`.
pub open spec fn describe_joined(items: Seq<MetaValue>) -> Seq<char>
    decreases items,
{
    if items.len() == 0 {
        seq![]
    } else if items.len() == 1 {
        describe(items[0])
    } else {
        describe_joined(items.drop_last()) + ", "@ + describe(items.last())
    }
}

/// Shows a metadata value (see [`describe`]).
pub fn describe_value(v: &MetaValue) -> (r: String)
    ensures
        r@ == describe(*v),
    decreases v,
{
    match v {
        MetaValue::U8(x) => u64_to_string(*x as u64),
        MetaValue::I8(x) => i64_to_string(*x as i64),
        MetaValue::U16(x) => u64_to_string(*x as u64),
        MetaValue::I16(x) => i64_to_string(*x as i64),
        MetaValue::U32(x) => u64_to_string(*x as u64),
        MetaValue::I32(x) => i64_to_string(*x as i64),
        MetaValue::U64(x) => u64_to_string(*x),
        MetaValue::I64(x) => i64_to_string(*x),
        MetaValue::F32(t) => t.clone(),
        MetaValue::F64(t) => t.clone(),
        MetaValue::Bool(b) => if *b {
            String::from_str("true")
        } else {
            String::from_str("false")
        },
        MetaValue::String(s) => s.clone(),
        MetaValue::Array(items) => {
            if items.len() <= 20 {
                let mut r = String::new();
                let mut i: usize = 0;
                while i < items.len()
                    invariant
                        *v == MetaValue::Array(*items),
                        items@.len() <= 20,
                        i <= items.len(),
                        r@ == describe_joined(items@.take(i as int)),
                    decreases items.len() - i,
                {
                    proof {
                        assert(decreases_to!(*v => (*v)->Array_0));
                        assert(decreases_to!(*items => items@));
                        assert(decreases_to!(items@ => items@[i as int]));
                        assert(decreases_to!(*v => items@[i as int]));
                    }
                    let shown = describe_value(&items[i]);
                    if i > 0 {
                        push_str(&mut r, ", ");
                    }
                    push_str(&mut r, shown.as_str());
                    proof {
                        assert(items@.take(i + 1).drop_last() =~= items@.take(i as int));
                        if i == 0 {
                            assert(r@ =~= describe(items@[0]));
                        }
                    }
                    i = i + 1;
                }
                assert(items@.take(items.len() as int) =~= items@);
                r
            } else {
                let mut r = String::from_str("[");
                push_decimal(&mut r, items.len() as u64);
                push_str(&mut r, " items]");
                r
            }
        },
    }
}

} // verus!
