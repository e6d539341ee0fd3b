//! What loading and storing promise together.

use crate::on_disk_struct::bytes::{
    bytes_of, law_bytes_of_value_of, law_value_of_bytes_of, lemma_pow256_values, value_of,
    ByteOrder,
};
use crate::on_disk_struct::layout::{
    Endianness, Field, FieldType, FieldValue, Packing, StructLayout,
};
use vstd::prelude::*;

verus! {

/// What was stored of an integer, in any byte order, is loaded again.
pub proof fn law_integers_round_trip(a: u16, b: u32, c: u64, order: ByteOrder)
    ensures
        value_of(bytes_of(a as nat, 2, order), order) == a,
        value_of(bytes_of(b as nat, 4, order), order) == b,
        value_of(bytes_of(c as nat, 8, order), order) == c,
{
    lemma_pow256_values();
    law_value_of_bytes_of(a as nat, 2, order);
    law_value_of_bytes_of(b as nat, 4, order);
    law_value_of_bytes_of(c as nat, 8, order);
}

/// Two values of a field are the same.
pub open spec fn same_value(a: FieldValue, b: FieldValue) -> bool
    decreases a,
{
    match (a, b) {
        (FieldValue::U16(x), FieldValue::U16(y)) => x == y,
        (FieldValue::U32(x), FieldValue::U32(y)) => x == y,
        (FieldValue::U64(x), FieldValue::U64(y)) => x == y,
        (FieldValue::Struct(xs), FieldValue::Struct(ys)) => {
            &&& xs@.len() == ys@.len()
            &&& forall|i: int| 0 <= i < xs@.len() ==> same_value(#[trigger] xs@[i], ys@[i])
        },
        _ => false,
    }
}

/// Two structures have the same values.
pub open spec fn same_values(a: Seq<FieldValue>, b: Seq<FieldValue>) -> bool {
    &&& a.len() == b.len()
    &&& forall|i: int| 0 <= i < a.len() ==> same_value(#[trigger] a[i], b[i])
}

/// What was stored of a field is what loading it gives.
proof fn lemma_field_loads_stored(
    field_type: FieldType,
    endianness: Endianness,
    value: FieldValue,
    before: Seq<u8>,
    after: Seq<u8>,
)
    requires
        field_type.stores(endianness, value, before, after),
    ensures
        field_type.loads(endianness, after, value),
    decreases field_type,
{
    lemma_pow256_values();
    match (field_type, value) {
        (FieldType::U16, FieldValue::U16(v)) => {
            law_value_of_bytes_of(v as nat, 2, endianness.order());
        },
        (FieldType::U32, FieldValue::U32(v)) => {
            law_value_of_bytes_of(v as nat, 4, endianness.order());
        },
        (FieldType::U64, FieldValue::U64(v)) => {
            law_value_of_bytes_of(v as nat, 8, endianness.order());
        },
        (FieldType::Struct(layout), FieldValue::Struct(values)) => {
            lemma_loads_stored(*layout, values@, before, after);
        },
        _ => {},
    }
}

/// What was stored of a structure is what loading it gives.
proof fn lemma_loads_stored(
    layout: StructLayout,
    values: Seq<FieldValue>,
    before: Seq<u8>,
    after: Seq<u8>,
)
    requires
        layout.stores(values, before, after),
    ensures
        layout.loads(after, values),
    decreases layout,
{
    assert forall|i: int| 0 <= i < layout.fields@.len() implies (
    #[trigger] layout.fields@[i]).field_type.loads(
        layout.endianness,
        layout.fields@[i].part(after),
        values[i],
    ) by {
        lemma_field_loads_stored(
            layout.fields@[i].field_type,
            layout.endianness,
            values[i],
            layout.fields@[i].part(before),
            layout.fields@[i].part(after),
        );
    }
}

/// A field's bytes settle its value.
proof fn lemma_field_loads_one_value(
    field_type: FieldType,
    endianness: Endianness,
    bytes: Seq<u8>,
    a: FieldValue,
    b: FieldValue,
)
    requires
        field_type.loads(endianness, bytes, a),
        field_type.loads(endianness, bytes, b),
    ensures
        same_value(a, b),
    decreases field_type,
{
    if let FieldType::Struct(layout) = field_type {
        law_bytes_settle_values(*layout, bytes, a->Struct_0@, b->Struct_0@);
    }
}

/// The bytes of a structure settle its values.
pub proof fn law_bytes_settle_values(
    layout: StructLayout,
    bytes: Seq<u8>,
    a: Seq<FieldValue>,
    b: Seq<FieldValue>,
)
    requires
        layout.loads(bytes, a),
        layout.loads(bytes, b),
    ensures
        same_values(a, b),
    decreases layout,
{
    assert forall|i: int| 0 <= i < a.len() implies same_value(#[trigger] a[i], b[i]) by {
        lemma_field_loads_one_value(
            layout.fields@[i].field_type,
            layout.endianness,
            layout.fields@[i].part(bytes),
            a[i],
            b[i],
        );
    }
}

/// A structure that was stored is loaded again with the same values.
pub proof fn law_load_after_store(
    layout: StructLayout,
    values: Seq<FieldValue>,
    before: Seq<u8>,
    after: Seq<u8>,
    loaded: Seq<FieldValue>,
)
    requires
        layout.stores(values, before, after),
        layout.loads(after, loaded),
    ensures
        same_values(values, loaded),
{
    lemma_loads_stored(layout, values, before, after);
    law_bytes_settle_values(layout, after, values, loaded);
}

/// Storing what was loaded of a field changes nothing.
proof fn lemma_field_stores_loaded(
    field_type: FieldType,
    endianness: Endianness,
    value: FieldValue,
    before: Seq<u8>,
    after: Seq<u8>,
)
    requires
        field_type.valid(),
        before.len() == field_type.size(),
        field_type.loads(endianness, before, value),
        field_type.stores(endianness, value, before, after),
    ensures
        after == before,
    decreases field_type,
{
    law_bytes_of_value_of(before, endianness.order());
    if let FieldType::Struct(layout) = field_type {
        law_store_after_load(*layout, value->Struct_0@, before, after);
    }
}

/// Storing what was loaded changes nothing.
pub proof fn law_store_after_load(
    layout: StructLayout,
    values: Seq<FieldValue>,
    before: Seq<u8>,
    after: Seq<u8>,
)
    requires
        layout.valid(),
        before.len() >= layout.size(),
        layout.loads(before, values),
        layout.stores(values, before, after),
    ensures
        after == before,
    decreases layout,
{
    assert forall|p: int| 0 <= p < before.len() implies after[p] == before[p] by {
        if layout.covers(p) {
            let i = choose|i: int|
                0 <= i < layout.fields@.len() && (#[trigger] layout.fields@[i]).offset <= p
                    < layout.fields@[i].end();
            let field = layout.fields@[i];
            layout.lemma_in_order(i, i);
            lemma_field_stores_loaded(
                field.field_type,
                layout.endianness,
                values[i],
                field.part(before),
                field.part(after),
            );
            assert(after[p] == field.part(after)[p - field.offset]);
            assert(before[p] == field.part(before)[p - field.offset]);
        }
    }
}

/// Fields do not overlap: a byte belongs to one field at most.
pub proof fn law_fields_do_not_overlap(layout: StructLayout, i: int, j: int, p: int)
    requires
        layout.valid(),
        0 <= i < layout.fields@.len(),
        0 <= j < layout.fields@.len(),
        layout.fields@[i].offset <= p < layout.fields@[i].end(),
        layout.fields@[j].offset <= p < layout.fields@[j].end(),
    ensures
        i == j,
{
    if i < j {
        layout.lemma_in_order(i, j);
    } else {
        layout.lemma_in_order(j, i);
    }
}

/// Without gaps, every byte of the structure belongs to a field.
pub proof fn law_no_gaps(layout: StructLayout, p: int)
    requires
        layout.valid(),
        layout.packing == Packing::NoGaps,
        0 <= p < layout.size(),
    ensures
        layout.covers(p),
{
    lemma_covered_up_to(layout, layout.fields@.len() as int, p);
}

/// Without gaps, every byte before the end of one of the first `n` fields belongs to a field.
proof fn lemma_covered_up_to(layout: StructLayout, n: int, p: int)
    requires
        layout.valid(),
        layout.packing == Packing::NoGaps,
        0 <= n <= layout.fields@.len(),
        0 <= p < layout.next(n),
    ensures
        layout.covers(p),
    decreases n,
{
    let field = layout.fields@[n - 1];
    assert(layout.in_place(n - 1));
    if p < field.offset {
        lemma_covered_up_to(layout, n - 1, p);
    }
}

/// `value` is the integer, of the size of the field, that `bytes` represent.
pub open spec fn is_integer_at(
    field: Field,
    order: ByteOrder,
    bytes: Seq<u8>,
    value: FieldValue,
) -> bool {
    let at = field.offset as int;
    match value {
        FieldValue::U16(v) => v == value_of(bytes.subrange(at, at + 2), order),
        FieldValue::U32(v) => v == value_of(bytes.subrange(at, at + 4), order),
        FieldValue::U64(v) => v == value_of(bytes.subrange(at, at + 8), order),
        FieldValue::Struct(_) => false,
    }
}

/// Which byte of an integer comes first: the least significant one in little endian, the most
/// significant one in big endian, and else whichever it is on the machine.
pub proof fn law_endianness()
    ensures
        Endianness::Le.order() == ByteOrder::Little,
        Endianness::Be.order() == ByteOrder::Big,
        Endianness::Ne.order() == ByteOrder::Little <==> vstd::endian::endianness()
            == vstd::endian::Endian::Little,
{
}

/// Each field is loaded from its own place: an integer from as many bytes as it has, in the byte
/// order of the structure that it is a field of, and a structure in its own.
pub proof fn law_fields_are_loaded_from_their_places(
    layout: StructLayout,
    bytes: Seq<u8>,
    values: Seq<FieldValue>,
    i: int,
)
    requires
        layout.loads(bytes, values),
        0 <= i < layout.fields@.len(),
    ensures
        values.len() == layout.fields@.len(),
        match layout.fields@[i].field_type {
            FieldType::U16 => values[i] is U16,
            FieldType::U32 => values[i] is U32,
            FieldType::U64 => values[i] is U64,
            FieldType::Struct(_) => values[i] is Struct,
        },
        match layout.fields@[i].field_type {
            FieldType::Struct(inner) => inner.loads(
                bytes.subrange(
                    layout.fields@[i].offset as int,
                    layout.fields@[i].offset + inner.size(),
                ),
                values[i]->Struct_0@,
            ),
            _ => is_integer_at(layout.fields@[i], layout.endianness.order(), bytes, values[i]),
        },
{
    let field = layout.fields@[i];
    assert(field.field_type.loads(layout.endianness, field.part(bytes), values[i]));
}

/// Each field is stored in its own place, and the buffer stays the same elsewhere.
pub proof fn law_fields_are_stored_in_their_places(
    layout: StructLayout,
    values: Seq<FieldValue>,
    before: Seq<u8>,
    after: Seq<u8>,
    i: int,
)
    requires
        layout.stores(values, before, after),
        0 <= i < layout.fields@.len(),
    ensures
        after.len() == before.len(),
        match layout.fields@[i].field_type {
            FieldType::Struct(inner) => {
                let start = layout.fields@[i].offset as int;
                let end = layout.fields@[i].offset + inner.size();
                &&& values[i] is Struct
                &&& inner.stores(
                    values[i]->Struct_0@,
                    before.subrange(start, end),
                    after.subrange(start, end),
                )
            },
            _ => is_integer_at(layout.fields@[i], layout.endianness.order(), after, values[i]),
        },
        forall|p: int|
            0 <= p < before.len() && (forall|j: int|
                0 <= j < layout.fields@.len() ==> !((#[trigger] layout.fields@[j]).offset <= p
                    < layout.fields@[j].offset + layout.fields@[j].field_type.size()))
                ==> #[trigger] after[p] == before[p],
{
    let field = layout.fields@[i];
    assert(field.field_type.stores(
        layout.endianness,
        values[i],
        field.part(before),
        field.part(after),
    ));
    lemma_field_loads_stored(
        field.field_type,
        layout.endianness,
        values[i],
        field.part(before),
        field.part(after),
    );
    assert forall|p: int|
        0 <= p < before.len() && (forall|j: int|
            0 <= j < layout.fields@.len() ==> !((#[trigger] layout.fields@[j]).offset <= p
                < layout.fields@[j].offset + layout.fields@[j].field_type.size())) implies
        #[trigger] after[p] == before[p] by {
        if layout.covers(p) {
            let j = choose|j: int|
                0 <= j < layout.fields@.len() && (#[trigger] layout.fields@[j]).offset <= p
                    < layout.fields@[j].end();
            assert(layout.fields@[j].offset <= p < layout.fields@[j].end());
        }
    }
}

/// A structure takes the bytes up to the end of its last field: integers take two, four and eight
/// bytes.
pub proof fn law_sizes(layout: StructLayout)
    requires
        layout.fields@.len() > 0,
    ensures
        FieldType::U16.size() == 2,
        FieldType::U32.size() == 4,
        FieldType::U64.size() == 8,
        FieldType::Struct(Box::new(layout)).size() == layout.size(),
        layout.size() == layout.fields@.last().offset + layout.fields@.last().field_type.size(),
{
    reveal_with_fuel(FieldType::size, 2);
    assert(layout.fields@.last() == layout.fields@[layout.fields@.len() - 1]);
}

/// A layout is valid if and only if it has fields, a buffer can be large enough, structures inside
/// are valid, and each field starts where the one before ends (the first one at the start), or
/// after that if gaps are allowed.
pub proof fn law_valid_layouts(layout: StructLayout)
    ensures
        layout.valid() <==> {
            &&& layout.fields@.len() > 0
            &&& layout.size() <= usize::MAX
            &&& layout.packing == Packing::NoGaps ==> layout.fields@[0].offset == 0
            &&& forall|i: int|
                0 <= i < layout.fields@.len() - 1 ==> {
                    let end = (#[trigger] layout.fields@[i]).offset
                        + layout.fields@[i].field_type.size();
                    if layout.packing == Packing::NoGaps {
                        layout.fields@[i + 1].offset == end
                    } else {
                        layout.fields@[i + 1].offset >= end
                    }
                }
            &&& forall|i: int|
                0 <= i < layout.fields@.len() ==> ((
                #[trigger] layout.fields@[i]).field_type matches FieldType::Struct(inner)
                    ==> inner.valid())
        },
{
    let fields = layout.fields@;
    if layout.valid() {
        assert(layout.in_place(0));
        assert forall|i: int| 0 <= i < fields.len() - 1 implies {
            let end = (#[trigger] fields[i]).offset + fields[i].field_type.size();
            if layout.packing == Packing::NoGaps {
                fields[i + 1].offset == end
            } else {
                fields[i + 1].offset >= end
            }
        } by {
            assert(layout.in_place(i + 1));
        }
        assert forall|i: int| 0 <= i < fields.len() implies ((
        #[trigger] fields[i]).field_type matches FieldType::Struct(inner) ==> inner.valid()) by {
            assert(fields[i].field_type.valid());
        }
    }
    if fields.len() > 0 && layout.size() <= usize::MAX && (layout.packing == Packing::NoGaps
        ==> fields[0].offset == 0) && (forall|i: int|
        0 <= i < fields.len() - 1 ==> {
            let end = (#[trigger] fields[i]).offset + fields[i].field_type.size();
            if layout.packing == Packing::NoGaps {
                fields[i + 1].offset == end
            } else {
                fields[i + 1].offset >= end
            }
        }) && (forall|i: int|
        0 <= i < fields.len() ==> ((#[trigger] fields[i]).field_type matches FieldType::Struct(
            inner,
        ) ==> inner.valid())) {
        assert forall|i: int| 0 <= i < fields.len() implies #[trigger] layout.in_place(i) by {
            if i > 0 {
                assert(fields[i - 1].offset + fields[i - 1].field_type.size() == fields[i
                    - 1].end());
            }
        }
        assert forall|i: int| 0 <= i < fields.len() implies (
        #[trigger] fields[i]).field_type.valid() by {}
    }
}

} // verus!
