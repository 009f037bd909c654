//! Structured values, their wire form, and the codec between the two.
//!
//! A number is a double. It is held as its IEEE-754 bit pattern, so that
//! every double, the non-finite ones included, passes through unchanged.

use vstd::prelude::*;

verus! {

/// Generic structured value: the payload of inputs, outputs and context data.
///
/// `==` compares numbers by their bit patterns and objects entry by entry,
/// in order.
#[derive(Debug, PartialEq)]
pub enum StructuredValue {
    Null,
    Bool(bool),
    /// A double, as its bit pattern.
    Number(u64),
    String(String),
    List(Vec<StructuredValue>),
    /// String-keyed entries in insertion order.
    Object(Vec<(String, StructuredValue)>),
}

/// One value as the wire carries it. A value without a kind is malformed or
/// absent.
#[derive(Debug, PartialEq)]
pub struct WireValue {
    pub kind: Option<WireKind>,
}

/// The kinds of a wire value.
#[derive(Debug, PartialEq)]
pub enum WireKind {
    /// The null marker; the wire format writes the number 0 here.
    NullValue(i32),
    /// A double, as its bit pattern.
    NumberValue(u64),
    StringValue(String),
    BoolValue(bool),
    StructValue(Vec<(String, WireValue)>),
    ListValue(Vec<WireValue>),
}

/// Mathematical content of a [`StructuredValue`].
pub ghost enum ValueModel {
    Null,
    Bool(bool),
    Number(u64),
    String(Seq<char>),
    List(Seq<ValueModel>),
    Object(Seq<(Seq<char>, ValueModel)>),
}

/// Mathematical content of a [`WireValue`].
pub ghost enum WireModel {
    Unset,
    NullValue(i32),
    NumberValue(u64),
    StringValue(Seq<char>),
    BoolValue(bool),
    StructValue(Seq<(Seq<char>, WireModel)>),
    ListValue(Seq<WireModel>),
}

impl StructuredValue {
    /// The tree this value stands for.
    pub open spec fn model(self) -> ValueModel
        decreases self,
    {
        match self {
            StructuredValue::Null => ValueModel::Null,
            StructuredValue::Bool(b) => ValueModel::Bool(b),
            StructuredValue::Number(bits) => ValueModel::Number(bits),
            StructuredValue::String(s) => ValueModel::String(s@),
            StructuredValue::List(items) => ValueModel::List(
                Seq::new(
                    items.len() as nat,
                    |i: int|
                        if 0 <= i < items.len() {
                            items[i].model()
                        } else {
                            ValueModel::Null
                        },
                ),
            ),
            StructuredValue::Object(entries) => ValueModel::Object(
                Seq::new(
                    entries.len() as nat,
                    |i: int|
                        if 0 <= i < entries.len() {
                            (entries[i].0@, entries[i].1.model())
                        } else {
                            (Seq::empty(), ValueModel::Null)
                        },
                ),
            ),
        }
    }
}

impl WireValue {
    /// The tree this wire value stands for.
    pub open spec fn model(self) -> WireModel
        decreases self,
    {
        match self.kind {
            None => WireModel::Unset,
            Some(WireKind::NullValue(n)) => WireModel::NullValue(n),
            Some(WireKind::NumberValue(bits)) => WireModel::NumberValue(bits),
            Some(WireKind::StringValue(s)) => WireModel::StringValue(s@),
            Some(WireKind::BoolValue(b)) => WireModel::BoolValue(b),
            Some(WireKind::StructValue(fields)) => WireModel::StructValue(
                Seq::new(
                    fields.len() as nat,
                    |i: int|
                        if 0 <= i < fields.len() {
                            (fields[i].0@, fields[i].1.model())
                        } else {
                            (Seq::empty(), WireModel::Unset)
                        },
                ),
            ),
            Some(WireKind::ListValue(values)) => WireModel::ListValue(
                Seq::new(
                    values.len() as nat,
                    |i: int|
                        if 0 <= i < values.len() {
                            values[i].model()
                        } else {
                            WireModel::Unset
                        },
                ),
            ),
        }
    }
}

/// What a wire tree decodes to. A null marker decodes to null whatever number
/// it carries, and so does a value without a kind; lists keep their order and
/// structs their keys.
pub open spec fn decode_model(w: WireModel) -> ValueModel
    decreases w,
{
    match w {
        WireModel::Unset => ValueModel::Null,
        WireModel::NullValue(_) => ValueModel::Null,
        WireModel::NumberValue(bits) => ValueModel::Number(bits),
        WireModel::StringValue(s) => ValueModel::String(s),
        WireModel::BoolValue(b) => ValueModel::Bool(b),
        WireModel::StructValue(fields) => ValueModel::Object(
            Seq::new(
                fields.len(),
                |i: int|
                    if 0 <= i < fields.len() {
                        (fields[i].0, decode_model(fields[i].1))
                    } else {
                        (Seq::empty(), ValueModel::Null)
                    },
            ),
        ),
        WireModel::ListValue(values) => ValueModel::List(
            Seq::new(
                values.len(),
                |i: int|
                    if 0 <= i < values.len() {
                        decode_model(values[i])
                    } else {
                        ValueModel::Null
                    },
            ),
        ),
    }
}

/// What a value tree encodes to. Null becomes the null marker with number 0.
pub open spec fn encode_model(v: ValueModel) -> WireModel
    decreases v,
{
    match v {
        ValueModel::Null => WireModel::NullValue(0),
        ValueModel::Bool(b) => WireModel::BoolValue(b),
        ValueModel::Number(bits) => WireModel::NumberValue(bits),
        ValueModel::String(s) => WireModel::StringValue(s),
        ValueModel::List(items) => WireModel::ListValue(
            Seq::new(
                items.len(),
                |i: int|
                    if 0 <= i < items.len() {
                        encode_model(items[i])
                    } else {
                        WireModel::Unset
                    },
            ),
        ),
        ValueModel::Object(entries) => WireModel::StructValue(
            Seq::new(
                entries.len(),
                |i: int|
                    if 0 <= i < entries.len() {
                        (entries[i].0, encode_model(entries[i].1))
                    } else {
                        (Seq::empty(), WireModel::Unset)
                    },
            ),
        ),
    }
}

/// A wire tree is well formed when every node has a kind and every null
/// marker carries the number 0.
pub open spec fn wire_well_formed(w: WireModel) -> bool
    decreases w,
{
    match w {
        WireModel::Unset => false,
        WireModel::NullValue(n) => n == 0,
        WireModel::NumberValue(_) => true,
        WireModel::StringValue(_) => true,
        WireModel::BoolValue(_) => true,
        WireModel::StructValue(fields) => forall|i: int|
            0 <= i < fields.len() ==> wire_well_formed(#[trigger] fields[i].1),
        WireModel::ListValue(values) => forall|i: int|
            0 <= i < values.len() ==> wire_well_formed(#[trigger] values[i]),
    }
}

/// The value of the last entry under `key`, if the entries hold the key: a
/// later entry replaces an earlier one with the same key.
pub open spec fn lookup<V>(entries: Seq<(Seq<char>, V)>, key: Seq<char>) -> Option<V>
    decreases entries.len(),
{
    if entries.len() == 0 {
        None
    } else if entries.last().0 == key {
        Some(entries.last().1)
    } else {
        lookup(entries.drop_last(), key)
    }
}

/// The member of an object under `key`. Anything but an object has no
/// members.
pub open spec fn member(v: ValueModel, key: Seq<char>) -> Option<ValueModel> {
    match v {
        ValueModel::Object(entries) => lookup(entries, key),
        _ => None,
    }
}

impl StructuredValue {
    /// Looks a key up in an object. Where a key occurs more than once, the
    /// last entry counts.
    pub fn get(&self, key: &str) -> (found: Option<&StructuredValue>)
        ensures
            match found {
                Some(value) => member(self.model(), key@) == Some(value.model()),
                None => member(self.model(), key@) is None,
            },
    {
        match self {
            StructuredValue::Object(entries) => {
                let wanted = key.to_owned();
                let ghost all = self.model()->Object_0;
                proof {
                    assert(all.subrange(0, all.len() as int) =~= all);
                }
                let mut i: usize = entries.len();
                while i > 0
                    invariant
                        i <= entries.len(),
                        wanted@ == key@,
                        *self == StructuredValue::Object(*entries),
                        all == self.model()->Object_0,
                        all.len() == entries.len(),
                        lookup(all, key@) == lookup(all.subrange(0, i as int), key@),
                    decreases i,
                {
                    i -= 1;
                    let entry = &entries[i];
                    proof {
                        let front = all.subrange(0, i + 1);
                        assert(front.last() == all[i as int]);
                        assert(all[i as int] == (entry.0@, entry.1.model()));
                        assert(front.drop_last() =~= all.subrange(0, i as int));
                    }
                    if entry.0 == wanted {
                        return Some(&entry.1);
                    }
                }
                None
            },
            _ => None,
        }
    }
}

impl Clone for StructuredValue {
    /// A deep copy: the same tree.
    fn clone(&self) -> (out: StructuredValue)
        ensures
            out.model() == self.model(),
        decreases self,
    {
        match self {
            StructuredValue::Null => StructuredValue::Null,
            StructuredValue::Bool(b) => StructuredValue::Bool(*b),
            StructuredValue::Number(bits) => StructuredValue::Number(*bits),
            StructuredValue::String(s) => StructuredValue::String(s.clone()),
            StructuredValue::List(items) => {
                let mut copies: Vec<StructuredValue> = Vec::new();
                let mut i: usize = 0;
                while i < items.len()
                    invariant
                        i <= items.len(),
                        *self == StructuredValue::List(*items),
                        copies.len() == i,
                        forall|j: int|
                            0 <= j < i ==> (#[trigger] copies[j]).model() == items[j].model(),
                    decreases items.len() - i,
                {
                    proof {
                        assert(decreases_to!(self => self->List_0[i as int]));
                    }
                    let copy = items[i].clone();
                    copies.push(copy);
                    i += 1;
                }
                let out = StructuredValue::List(copies);
                proof {
                    assert(out.model()->List_0 =~= self.model()->List_0);
                }
                out
            },
            StructuredValue::Object(entries) => {
                let mut copies: Vec<(String, StructuredValue)> = Vec::new();
                let mut i: usize = 0;
                while i < entries.len()
                    invariant
                        i <= entries.len(),
                        *self == StructuredValue::Object(*entries),
                        copies.len() == i,
                        forall|j: int|
                            0 <= j < i ==> (#[trigger] copies[j]).0@ == entries[j].0@
                                && copies[j].1.model() == entries[j].1.model(),
                    decreases entries.len() - i,
                {
                    let entry = &entries[i];
                    proof {
                        assert(decreases_to!(self => self->Object_0[i as int].1));
                    }
                    let copy = entry.1.clone();
                    copies.push((entry.0.clone(), copy));
                    i += 1;
                }
                let out = StructuredValue::Object(copies);
                proof {
                    assert(out.model()->Object_0 =~= self.model()->Object_0);
                }
                out
            },
        }
    }
}

/// Converts a wire value into a structured value. Total: a value without a
/// kind becomes null, and nothing is rejected.
pub fn decode(value: &WireValue) -> (out: StructuredValue)
    ensures
        out.model() == decode_model(value.model()),
    decreases value,
{
    match &value.kind {
        None => StructuredValue::Null,
        Some(WireKind::NullValue(_)) => StructuredValue::Null,
        Some(WireKind::NumberValue(bits)) => StructuredValue::Number(*bits),
        Some(WireKind::StringValue(s)) => StructuredValue::String(s.clone()),
        Some(WireKind::BoolValue(b)) => StructuredValue::Bool(*b),
        Some(WireKind::StructValue(fields)) => {
            let mut entries: Vec<(String, StructuredValue)> = Vec::new();
            let mut i: usize = 0;
            while i < fields.len()
                invariant
                    i <= fields.len(),
                    value.kind == Some(WireKind::StructValue(*fields)),
                    entries.len() == i,
                    forall|j: int|
                        0 <= j < i ==> (#[trigger] entries[j]).0@ == fields[j].0@
                            && entries[j].1.model() == decode_model(fields[j].1.model()),
                decreases fields.len() - i,
            {
                let field = &fields[i];
                proof {
                    assert(decreases_to!(value => value.kind->Some_0->StructValue_0[i as int].1));
                }
                let decoded = decode(&field.1);
                entries.push((field.0.clone(), decoded));
                i += 1;
            }
            let out = StructuredValue::Object(entries);
            proof {
                assert(out.model()->Object_0 =~= decode_model(value.model())->Object_0);
            }
            out
        },
        Some(WireKind::ListValue(values)) => {
            let mut items: Vec<StructuredValue> = Vec::new();
            let mut i: usize = 0;
            while i < values.len()
                invariant
                    i <= values.len(),
                    value.kind == Some(WireKind::ListValue(*values)),
                    items.len() == i,
                    forall|j: int|
                        0 <= j < i ==> (#[trigger] items[j]).model() == decode_model(
                            values[j].model(),
                        ),
                decreases values.len() - i,
            {
                proof {
                    assert(decreases_to!(value => value.kind->Some_0->ListValue_0[i as int]));
                }
                let decoded = decode(&values[i]);
                items.push(decoded);
                i += 1;
            }
            let out = StructuredValue::List(items);
            proof {
                assert(out.model()->List_0 =~= decode_model(value.model())->List_0);
            }
            out
        },
    }
}

/// Converts a structured value into a wire value. Total: every node gets a
/// kind, and null becomes the null marker with number 0.
pub fn encode(value: &StructuredValue) -> (out: WireValue)
    ensures
        out.model() == encode_model(value.model()),
    decreases value,
{
    let kind = match value {
        StructuredValue::Null => WireKind::NullValue(0),
        StructuredValue::Bool(b) => WireKind::BoolValue(*b),
        StructuredValue::Number(bits) => WireKind::NumberValue(*bits),
        StructuredValue::String(s) => WireKind::StringValue(s.clone()),
        StructuredValue::List(items) => {
            let mut values: Vec<WireValue> = Vec::new();
            let mut i: usize = 0;
            while i < items.len()
                invariant
                    i <= items.len(),
                    *value == StructuredValue::List(*items),
                    values.len() == i,
                    forall|j: int|
                        0 <= j < i ==> (#[trigger] values[j]).model() == encode_model(
                            items[j].model(),
                        ),
                decreases items.len() - i,
            {
                proof {
                    assert(decreases_to!(value => value->List_0[i as int]));
                }
                let encoded = encode(&items[i]);
                values.push(encoded);
                i += 1;
            }
            WireKind::ListValue(values)
        },
        StructuredValue::Object(entries) => {
            let mut fields: Vec<(String, WireValue)> = Vec::new();
            let mut i: usize = 0;
            while i < entries.len()
                invariant
                    i <= entries.len(),
                    *value == StructuredValue::Object(*entries),
                    fields.len() == i,
                    forall|j: int|
                        0 <= j < i ==> (#[trigger] fields[j]).0@ == entries[j].0@
                            && fields[j].1.model() == encode_model(entries[j].1.model()),
                decreases entries.len() - i,
            {
                let entry = &entries[i];
                proof {
                    assert(decreases_to!(value => value->Object_0[i as int].1));
                }
                let encoded = encode(&entry.1);
                fields.push((entry.0.clone(), encoded));
                i += 1;
            }
            WireKind::StructValue(fields)
        },
    };
    let out = WireValue { kind: Some(kind) };
    proof {
        match value {
            StructuredValue::List(_) => {
                assert(out.model()->ListValue_0 =~= encode_model(value.model())->ListValue_0);
            },
            StructuredValue::Object(_) => {
                assert(out.model()->StructValue_0 =~= encode_model(
                    value.model(),
                )->StructValue_0);
            },
            _ => {},
        }
    }
    out
}

/// Round trip from the value side: decoding what was encoded gives the
/// value back, for every value.
pub proof fn law_decode_inverts_encode(v: ValueModel)
    ensures
        decode_model(encode_model(v)) == v,
    decreases v,
{
    match v {
        ValueModel::List(items) => {
            let encoded = encode_model(v)->ListValue_0;
            let back = decode_model(encode_model(v))->List_0;
            assert forall|i: int| 0 <= i < items.len() implies back[i] == items[i] by {
                law_decode_inverts_encode(items[i]);
                assert(encoded[i] == encode_model(items[i]));
            }
            assert(back =~= items);
        },
        ValueModel::Object(entries) => {
            let encoded = encode_model(v)->StructValue_0;
            let back = decode_model(encode_model(v))->Object_0;
            assert forall|i: int| 0 <= i < entries.len() implies back[i] == entries[i] by {
                law_decode_inverts_encode(entries[i].1);
                assert(encoded[i] == (entries[i].0, encode_model(entries[i].1)));
            }
            assert(back =~= entries);
        },
        _ => {},
    }
}

/// Round trip from the wire side: encoding what was decoded gives a
/// well-formed wire value back.
pub proof fn law_encode_inverts_decode(w: WireModel)
    requires
        wire_well_formed(w),
    ensures
        encode_model(decode_model(w)) == w,
    decreases w,
{
    match w {
        WireModel::ListValue(values) => {
            let decoded = decode_model(w)->List_0;
            let back = encode_model(decode_model(w))->ListValue_0;
            assert forall|i: int| 0 <= i < values.len() implies back[i] == values[i] by {
                law_encode_inverts_decode(values[i]);
                assert(decoded[i] == decode_model(values[i]));
            }
            assert(back =~= values);
        },
        WireModel::StructValue(fields) => {
            let decoded = decode_model(w)->Object_0;
            let back = encode_model(decode_model(w))->StructValue_0;
            assert forall|i: int| 0 <= i < fields.len() implies back[i] == fields[i] by {
                law_encode_inverts_decode(fields[i].1);
                assert(decoded[i] == (fields[i].0, decode_model(fields[i].1)));
            }
            assert(back =~= fields);
        },
        _ => {},
    }
}

/// What is encoded is always well formed.
pub proof fn law_encode_is_well_formed(v: ValueModel)
    ensures
        wire_well_formed(encode_model(v)),
    decreases v,
{
    match v {
        ValueModel::List(items) => {
            let encoded = encode_model(v)->ListValue_0;
            assert forall|i: int| 0 <= i < encoded.len() implies wire_well_formed(
                #[trigger] encoded[i],
            ) by {
                law_encode_is_well_formed(items[i]);
            }
        },
        ValueModel::Object(entries) => {
            let encoded = encode_model(v)->StructValue_0;
            assert forall|i: int| 0 <= i < encoded.len() implies wire_well_formed(
                #[trigger] encoded[i].1,
            ) by {
                law_encode_is_well_formed(entries[i].1);
            }
        },
        _ => {},
    }
}

/// No key occurs twice among the entries.
pub open spec fn distinct_keys<V>(entries: Seq<(Seq<char>, V)>) -> bool {
    forall|i: int, j: int|
        0 <= i < j < entries.len() ==> (#[trigger] entries[i]).0 != (#[trigger] entries[j]).0
}

/// Every object of the tree, at any depth, has each of its keys once: the
/// tree is one that a string-keyed mapping can hold.
pub open spec fn unique_keys(v: ValueModel) -> bool
    decreases v,
{
    match v {
        ValueModel::List(items) => forall|i: int|
            0 <= i < items.len() ==> unique_keys(#[trigger] items[i]),
        ValueModel::Object(entries) => distinct_keys(entries) && forall|i: int|
            0 <= i < entries.len() ==> unique_keys(#[trigger] entries[i].1),
        _ => true,
    }
}

/// Every struct of the wire tree, at any depth, has each of its keys once.
pub open spec fn wire_unique_keys(w: WireModel) -> bool
    decreases w,
{
    match w {
        WireModel::ListValue(values) => forall|i: int|
            0 <= i < values.len() ==> wire_unique_keys(#[trigger] values[i]),
        WireModel::StructValue(fields) => distinct_keys(fields) && forall|i: int|
            0 <= i < fields.len() ==> wire_unique_keys(#[trigger] fields[i].1),
        _ => true,
    }
}

/// Encoding neither merges nor repeats keys: the wire tree has unique keys
/// exactly when the value has.
pub proof fn law_encode_keeps_keys(v: ValueModel)
    ensures
        wire_unique_keys(encode_model(v)) == unique_keys(v),
    decreases v,
{
    match v {
        ValueModel::List(items) => {
            let encoded = encode_model(v)->ListValue_0;
            assert forall|i: int| 0 <= i < items.len() implies wire_unique_keys(encoded[i])
                == unique_keys(items[i]) by {
                law_encode_keeps_keys(items[i]);
            }
            if unique_keys(v) {
                assert forall|i: int| 0 <= i < encoded.len() implies wire_unique_keys(
                    #[trigger] encoded[i],
                ) by {
                    assert(unique_keys(items[i]));
                }
            }
            if wire_unique_keys(encode_model(v)) {
                assert forall|i: int| 0 <= i < items.len() implies unique_keys(
                    #[trigger] items[i],
                ) by {
                    assert(wire_unique_keys(encoded[i]));
                }
            }
        },
        ValueModel::Object(entries) => {
            let encoded = encode_model(v)->StructValue_0;
            assert forall|i: int| 0 <= i < entries.len() implies wire_unique_keys(encoded[i].1)
                == unique_keys(entries[i].1) && encoded[i].0 == entries[i].0 by {
                law_encode_keeps_keys(entries[i].1);
            }
            if unique_keys(v) {
                assert forall|i: int, j: int| 0 <= i < j < encoded.len() implies (
                #[trigger] encoded[i]).0 != (#[trigger] encoded[j]).0 by {
                    assert(entries[i].0 != entries[j].0);
                }
                assert forall|i: int| 0 <= i < encoded.len() implies wire_unique_keys(
                    #[trigger] encoded[i].1,
                ) by {
                    assert(unique_keys(entries[i].1));
                }
            }
            if wire_unique_keys(encode_model(v)) {
                assert forall|i: int, j: int| 0 <= i < j < entries.len() implies (
                #[trigger] entries[i]).0 != (#[trigger] entries[j]).0 by {
                    assert(encoded[i].0 != encoded[j].0);
                }
                assert forall|i: int| 0 <= i < entries.len() implies unique_keys(
                    #[trigger] entries[i].1,
                ) by {
                    assert(wire_unique_keys(encoded[i].1));
                }
            }
        },
        _ => {},
    }
}

/// Decoding neither merges nor repeats keys: the value has unique keys
/// exactly when the wire tree has.
pub proof fn law_decode_keeps_keys(w: WireModel)
    ensures
        unique_keys(decode_model(w)) == wire_unique_keys(w),
    decreases w,
{
    match w {
        WireModel::ListValue(values) => {
            let decoded = decode_model(w)->List_0;
            assert forall|i: int| 0 <= i < values.len() implies unique_keys(decoded[i])
                == wire_unique_keys(values[i]) by {
                law_decode_keeps_keys(values[i]);
            }
            if wire_unique_keys(w) {
                assert forall|i: int| 0 <= i < decoded.len() implies unique_keys(
                    #[trigger] decoded[i],
                ) by {
                    assert(wire_unique_keys(values[i]));
                }
            }
            if unique_keys(decode_model(w)) {
                assert forall|i: int| 0 <= i < values.len() implies wire_unique_keys(
                    #[trigger] values[i],
                ) by {
                    assert(unique_keys(decoded[i]));
                }
            }
        },
        WireModel::StructValue(fields) => {
            let decoded = decode_model(w)->Object_0;
            assert forall|i: int| 0 <= i < fields.len() implies unique_keys(decoded[i].1)
                == wire_unique_keys(fields[i].1) && decoded[i].0 == fields[i].0 by {
                law_decode_keeps_keys(fields[i].1);
            }
            if wire_unique_keys(w) {
                assert forall|i: int, j: int| 0 <= i < j < decoded.len() implies (
                #[trigger] decoded[i]).0 != (#[trigger] decoded[j]).0 by {
                    assert(fields[i].0 != fields[j].0);
                }
                assert forall|i: int| 0 <= i < decoded.len() implies unique_keys(
                    #[trigger] decoded[i].1,
                ) by {
                    assert(wire_unique_keys(fields[i].1));
                }
            }
            if unique_keys(decode_model(w)) {
                assert forall|i: int, j: int| 0 <= i < j < fields.len() implies (
                #[trigger] fields[i]).0 != (#[trigger] fields[j]).0 by {
                    assert(decoded[i].0 != decoded[j].0);
                }
                assert forall|i: int| 0 <= i < fields.len() implies wire_unique_keys(
                    #[trigger] fields[i].1,
                ) by {
                    assert(unique_keys(decoded[i].1));
                }
            }
        },
        _ => {},
    }
}


} // verus!
