//! Structures made of fields at fixed offsets.

use crate::on_disk_struct::bytes::{
    bytes_of, decode_at, encode_at, lemma_pow256_values, native_byte_order, native_order, value_of,
    ByteOrder,
};
use crate::on_disk_struct::error::{OnDiskError, OnDiskOperation};
use vstd::prelude::*;

verus! {

/// Endianness of the integers in a structure.
#[derive(Clone, Copy, PartialEq, Eq, Structural)]
pub enum Endianness {
    /// Little endian.
    Le,
    /// Big endian.
    Be,
    /// That of the machine.
    Ne,
}

/// Whether there may be unused bytes before a field.
#[derive(Clone, Copy, PartialEq, Eq, Structural)]
pub enum Packing {
    /// Each field starts where the one before ends.
    NoGaps,
    /// Fields are in order, but there may be gaps between them.
    AllowGaps,
}

/// Type of a field.
pub enum FieldType {
    /// Integer of two bytes.
    U16,
    /// Integer of four bytes, shared between threads or not.
    U32,
    /// Integer of eight bytes, shared between threads or not.
    U64,
    /// Another structure.
    Struct(Box<StructLayout>),
}

/// Field of a structure.
pub struct Field {
    /// Where it starts.
    pub offset: usize,
    /// What it is.
    pub field_type: FieldType,
}

/// Description of a structure.
pub struct StructLayout {
    /// Its name.
    pub name: String,
    /// Endianness of its integers.  A structure inside of it has its own.
    pub endianness: Endianness,
    /// Whether there may be gaps.
    pub packing: Packing,
    /// Its fields, in order.
    pub fields: Vec<Field>,
}

/// Value of a field.
pub enum FieldValue {
    /// Integer of two bytes.
    U16(u16),
    /// Integer of four bytes.
    U32(u32),
    /// Integer of eight bytes.
    U64(u64),
    /// Values of the fields of another structure.
    Struct(Vec<FieldValue>),
}

impl Endianness {
    /// Which byte of an integer comes first.
    pub open spec fn order(self) -> ByteOrder {
        match self {
            Endianness::Le => ByteOrder::Little,
            Endianness::Be => ByteOrder::Big,
            Endianness::Ne => native_order(),
        }
    }

    /// Which byte of an integer comes first.
    pub fn byte_order(self) -> (order: ByteOrder)
        ensures
            order == self.order(),
    {
        match self {
            Endianness::Le => ByteOrder::Little,
            Endianness::Be => ByteOrder::Big,
            Endianness::Ne => native_byte_order(),
        }
    }
}

impl FieldType {
    /// How many bytes the field takes.
    pub open spec fn size(self) -> nat
        decreases self,
    {
        match self {
            FieldType::U16 => 2,
            FieldType::U32 => 4,
            FieldType::U64 => 8,
            FieldType::Struct(layout) => layout.size(),
        }
    }

    /// A structure inside is well laid out.
    pub open spec fn valid(self) -> bool
        decreases self,
    {
        self matches FieldType::Struct(layout) ==> layout.valid()
    }
}

impl Field {
    /// Where the field ends.
    pub open spec fn end(self) -> nat
        decreases self,
    {
        self.offset as nat + self.field_type.size()
    }
}

impl StructLayout {
    /// How many bytes the structure takes: up to the end of its last field.
    pub open spec fn size(self) -> nat
        decreases self,
    {
        if self.fields@.len() == 0 {
            0
        } else {
            self.fields@[self.fields@.len() - 1].end()
        }
    }

    /// Where the `i`th field may start at the earliest.
    pub open spec fn next(self, i: int) -> nat
        decreases self,
    {
        if 0 < i <= self.fields@.len() {
            self.fields@[i - 1].end()
        } else {
            0
        }
    }

    /// The `i`th field starts where it may.
    pub open spec fn in_place(self, i: int) -> bool {
        match self.packing {
            Packing::NoGaps => self.fields@[i].offset == self.next(i),
            Packing::AllowGaps => self.fields@[i].offset >= self.next(i),
        }
    }

    /// There are fields, they are in order and have gaps only if allowed, structures inside are
    /// well laid out, and a buffer can be large enough.
    pub open spec fn valid(self) -> bool
        decreases self,
    {
        &&& self.fields@.len() > 0
        &&& self.size() <= usize::MAX
        &&& forall|i: int| 0 <= i < self.fields@.len() ==> #[trigger] self.in_place(i)
        &&& forall|i: int|
            0 <= i < self.fields@.len() ==> (#[trigger] self.fields@[i]).field_type.valid()
    }
}

impl FieldType {
    /// `value` is of this type.
    pub open spec fn describes(self, value: FieldValue) -> bool
        decreases self,
    {
        match self {
            FieldType::U16 => value is U16,
            FieldType::U32 => value is U32,
            FieldType::U64 => value is U64,
            FieldType::Struct(layout) => value matches FieldValue::Struct(values)
                && layout.describes(values@),
        }
    }

    /// Loading a field from `bytes`, which are as many as it takes, gives `value`.
    pub open spec fn loads(self, endianness: Endianness, bytes: Seq<u8>, value: FieldValue) -> bool
        decreases self,
    {
        match self {
            FieldType::U16 => value matches FieldValue::U16(v) && v == value_of(
                bytes,
                endianness.order(),
            ),
            FieldType::U32 => value matches FieldValue::U32(v) && v == value_of(
                bytes,
                endianness.order(),
            ),
            FieldType::U64 => value matches FieldValue::U64(v) && v == value_of(
                bytes,
                endianness.order(),
            ),
            FieldType::Struct(layout) => value matches FieldValue::Struct(values) && layout.loads(
                bytes,
                values@,
            ),
        }
    }

    /// Storing `value` turns `before`, which are as many bytes as the field takes, into `after`.
    pub open spec fn stores(
        self,
        endianness: Endianness,
        value: FieldValue,
        before: Seq<u8>,
        after: Seq<u8>,
    ) -> bool
        decreases self,
    {
        match self {
            FieldType::U16 => value matches FieldValue::U16(v) && after == bytes_of(
                v as nat,
                2,
                endianness.order(),
            ),
            FieldType::U32 => value matches FieldValue::U32(v) && after == bytes_of(
                v as nat,
                4,
                endianness.order(),
            ),
            FieldType::U64 => value matches FieldValue::U64(v) && after == bytes_of(
                v as nat,
                8,
                endianness.order(),
            ),
            FieldType::Struct(layout) => value matches FieldValue::Struct(values) && layout.stores(
                values@,
                before,
                after,
            ),
        }
    }
}

impl Field {
    /// The bytes of the field.
    pub open spec fn part(self, bytes: Seq<u8>) -> Seq<u8> {
        bytes.subrange(self.offset as int, self.end() as int)
    }
}

impl StructLayout {
    /// `values` has a value of the right type for each field.
    pub open spec fn describes(self, values: Seq<FieldValue>) -> bool
        decreases self,
    {
        &&& values.len() == self.fields@.len()
        &&& forall|i: int|
            0 <= i < self.fields@.len() ==> (#[trigger] self.fields@[i]).field_type.describes(
                values[i],
            )
    }

    /// Loading the structure from `bytes` gives `values`.
    pub open spec fn loads(self, bytes: Seq<u8>, values: Seq<FieldValue>) -> bool
        decreases self,
    {
        &&& values.len() == self.fields@.len()
        &&& forall|i: int|
            0 <= i < self.fields@.len() ==> (#[trigger] self.fields@[i]).field_type.loads(
                self.endianness,
                self.fields@[i].part(bytes),
                values[i],
            )
    }

    /// The `p`th byte belongs to a field.
    pub open spec fn covers(self, p: int) -> bool {
        exists|i: int|
            0 <= i < self.fields@.len() && (#[trigger] self.fields@[i]).offset <= p
                < self.fields@[i].end()
    }

    /// Storing `values` turns the buffer `before` into `after`: each field's bytes are replaced,
    /// and all others stay.
    pub open spec fn stores(self, values: Seq<FieldValue>, before: Seq<u8>, after: Seq<u8>) -> bool
        decreases self,
    {
        &&& values.len() == self.fields@.len()
        &&& after.len() == before.len()
        &&& forall|i: int|
            0 <= i < self.fields@.len() ==> (#[trigger] self.fields@[i]).field_type.stores(
                self.endianness,
                values[i],
                self.fields@[i].part(before),
                self.fields@[i].part(after),
            )
        &&& forall|p: int|
            0 <= p < before.len() && !self.covers(p) ==> #[trigger] after[p] == before[p]
    }

    /// Each field ends before the next one starts.
    pub proof fn lemma_in_order(self, i: int, j: int)
        requires
            self.valid(),
            0 <= i <= j < self.fields@.len(),
        ensures
            self.fields@[i].offset <= self.fields@[i].end() <= self.fields@[j].end() <= self.size(),
            i < j ==> self.fields@[i].end() <= self.fields@[j].offset,
        decreases self.fields@.len() - i,
    {
        let n = self.fields@.len();
        if i < j {
            self.lemma_in_order(i + 1, j);
            assert(self.in_place(i + 1));
        } else if i + 1 < n {
            self.lemma_in_order(i + 1, n - 1);
            assert(self.in_place(i + 1));
        }
    }
}

impl FieldType {
    /// How many bytes the field takes, unless that is more than any buffer can have.
    fn checked_size(&self) -> (size: Option<usize>)
        ensures
            match size {
                Some(n) => n == self.size(),
                None => self.size() > usize::MAX,
            },
        decreases self,
    {
        match self {
            FieldType::U16 => Some(2),
            FieldType::U32 => Some(4),
            FieldType::U64 => Some(8),
            FieldType::Struct(layout) => layout.checked_size(),
        }
    }
}

impl Field {
    /// Where the field ends, unless that is beyond the end of any buffer.
    fn checked_end(&self) -> (end: Option<usize>)
        ensures
            match end {
                Some(n) => n == self.end(),
                None => self.end() > usize::MAX,
            },
        decreases self,
    {
        match self.field_type.checked_size() {
            Some(size) => self.offset.checked_add(size),
            None => None,
        }
    }
}

impl StructLayout {
    /// How many bytes the structure takes, unless that is more than any buffer can have.
    fn checked_size(&self) -> (size: Option<usize>)
        ensures
            match size {
                Some(n) => n == self.size(),
                None => self.size() > usize::MAX,
            },
        decreases self,
    {
        let n: usize = self.fields.len();
        if n == 0 {
            Some(0)
        } else {
            self.fields[n - 1].checked_end()
        }
    }

    /// Check the field offsets against the ends of the fields before, either allowing gaps or
    /// not.
    pub fn check_layout(&self) -> (valid: bool)
        ensures
            valid == self.valid(),
        decreases self,
    {
        let mut next: usize = 0;
        for i in 0..self.fields.len()
            invariant
                next == self.next(i as int),
                forall|j: int| 0 <= j < i ==> #[trigger] self.in_place(j),
                forall|j: int| 0 <= j < i ==> (#[trigger] self.fields@[j]).field_type.valid(),
        {
            let field = &self.fields[i];
            assert(*field == self.fields@[i as int]);
            let in_order = match self.packing {
                Packing::NoGaps => field.offset == next,
                Packing::AllowGaps => field.offset >= next,
            };
            if !in_order {
                assert(!self.in_place(i as int));
                return false;
            }
            let inside = match &field.field_type {
                FieldType::Struct(layout) => layout.check_layout(),
                _ => true,
            };
            if !inside {
                assert(!self.fields@[i as int].field_type.valid());
                return false;
            }
            assert(self.in_place(i as int));
            match field.checked_end() {
                Some(end) => {
                    next = end;
                },
                None => {
                    proof {
                        if i + 1 < self.fields@.len() {
                            assert(!self.in_place(i + 1));
                        }
                    }
                    return false;
                },
            }
        }
        self.fields.len() > 0
    }

    /// The on-disk size of this structure, in bytes.
    pub fn on_disk_size(&self) -> (size: usize)
        requires
            self.valid(),
        ensures
            size == self.size(),
    {
        match self.checked_size() {
            Some(size) => size,
            None => vstd::pervasive::unreached(),
        }
    }
}

impl FieldType {
    /// Load a field that starts with the `at`th byte.
    fn load_at(&self, endianness: Endianness, bytes: &[u8], at: usize) -> (value: FieldValue)
        requires
            self.valid(),
            at + self.size() <= bytes@.len(),
        ensures
            self.loads(endianness, bytes@.subrange(at as int, at + self.size()), value),
        decreases self,
    {
        proof {
            lemma_pow256_values();
        }
        match self {
            FieldType::U16 => {
                FieldValue::U16(decode_at(bytes, at, 2, endianness.byte_order()) as u16)
            },
            FieldType::U32 => {
                FieldValue::U32(decode_at(bytes, at, 4, endianness.byte_order()) as u32)
            },
            FieldType::U64 => FieldValue::U64(decode_at(bytes, at, 8, endianness.byte_order())),
            FieldType::Struct(layout) => FieldValue::Struct(layout.load_at(bytes, at)),
        }
    }
}

impl StructLayout {
    /// Load a structure that starts with the `at`th byte.
    fn load_at(&self, bytes: &[u8], at: usize) -> (values: Vec<FieldValue>)
        requires
            self.valid(),
            at + self.size() <= bytes@.len(),
        ensures
            self.loads(bytes@.subrange(at as int, at + self.size()), values@),
        decreases self,
    {
        let total: usize = bytes.len();
        let ghost whole = bytes@.subrange(at as int, at + self.size());
        let mut values: Vec<FieldValue> = Vec::new();
        for i in 0..self.fields.len()
            invariant
                self.valid(),
                at + self.size() <= bytes@.len() == total,
                whole == bytes@.subrange(at as int, at + self.size()),
                values@.len() == i,
                forall|j: int|
                    0 <= j < i ==> (#[trigger] self.fields@[j]).field_type.loads(
                        self.endianness,
                        self.fields@[j].part(whole),
                        values@[j],
                    ),
        {
            let field = &self.fields[i];
            proof {
                assert(*field == self.fields@[i as int]);
                self.lemma_in_order(i as int, i as int);
                assert(field.part(whole) == bytes@.subrange(at + field.offset, at + field.end()));
            }
            values.push(field.field_type.load_at(self.endianness, bytes, at + field.offset));
        }
        values
    }

    /// Load the values of all fields from the given slice.
    pub fn load_from(&self, bytes: &[u8]) -> (loaded: Result<Vec<FieldValue>, OnDiskError>)
        requires
            self.valid(),
        ensures
            match loaded {
                Ok(values) => {
                    &&& bytes@.len() >= self.size()
                    &&& self.loads(bytes@, values@)
                },
                Err(error) => {
                    &&& bytes@.len() < self.size()
                    &&& error.says(
                        OnDiskOperation::ReadStruct,
                        self.name@,
                        self.size(),
                        bytes@.len(),
                    )
                },
            },
    {
        let size: usize = self.on_disk_size();
        if bytes.len() < size {
            return Err(
                OnDiskError {
                    operation: OnDiskOperation::ReadStruct,
                    name: self.name.clone(),
                    length: size,
                    buffer_length: bytes.len(),
                },
            );
        }
        let values = self.load_at(bytes, 0);
        proof {
            let whole = bytes@.subrange(0, size as int);
            assert forall|i: int| 0 <= i < self.fields@.len() implies (
            #[trigger] self.fields@[i]).field_type.loads(
                self.endianness,
                self.fields@[i].part(bytes@),
                values@[i],
            ) by {
                self.lemma_in_order(i, i);
                assert(self.fields@[i].part(whole) == self.fields@[i].part(bytes@));
            }
        }
        Ok(values)
    }
}

/// Only the bytes from the `start`th up to, but not including, the `end`th differ.
pub open spec fn differ_only_in(before: Seq<u8>, after: Seq<u8>, start: int, end: int) -> bool {
    &&& after.len() == before.len()
    &&& forall|p: int|
        0 <= p < before.len() && !(start <= p < end) ==> #[trigger] after[p] == before[p]
}

impl FieldType {
    /// Store a field that starts with the `at`th byte.
    fn store_at(&self, endianness: Endianness, value: &FieldValue, bytes: &mut [u8], at: usize)
        requires
            self.valid(),
            self.describes(*value),
            at + self.size() <= old(bytes)@.len(),
        ensures
            differ_only_in(old(bytes)@, final(bytes)@, at as int, at + self.size()),
            self.stores(
                endianness,
                *value,
                old(bytes)@.subrange(at as int, at + self.size()),
                final(bytes)@.subrange(at as int, at + self.size()),
            ),
        decreases self,
    {
        match (self, value) {
            (FieldType::U16, FieldValue::U16(v)) => {
                encode_at(bytes, at, 2, *v as u64, endianness.byte_order());
            },
            (FieldType::U32, FieldValue::U32(v)) => {
                encode_at(bytes, at, 4, *v as u64, endianness.byte_order());
            },
            (FieldType::U64, FieldValue::U64(v)) => {
                encode_at(bytes, at, 8, *v, endianness.byte_order());
            },
            (FieldType::Struct(layout), FieldValue::Struct(values)) => {
                layout.store_at(values, bytes, at);
            },
            _ => {
                assert(false);
            },
        }
    }
}

impl StructLayout {
    /// Store a structure that starts with the `at`th byte.
    fn store_at(&self, values: &Vec<FieldValue>, bytes: &mut [u8], at: usize)
        requires
            self.valid(),
            self.describes(values@),
            at + self.size() <= old(bytes)@.len(),
        ensures
            differ_only_in(old(bytes)@, final(bytes)@, at as int, at + self.size()),
            self.stores(
                values@,
                old(bytes)@.subrange(at as int, at + self.size()),
                final(bytes)@.subrange(at as int, at + self.size()),
            ),
        decreases self,
    {
        let total: usize = bytes.len();
        let ghost before = bytes@;
        let ghost size = self.size() as int;
        let ghost whole = before.subrange(at as int, at + size);
        for i in 0..self.fields.len()
            invariant
                self.valid(),
                self.describes(values@),
                size == self.size(),
                at + size <= bytes@.len() == total,
                differ_only_in(before, bytes@, at as int, at + self.next(i as int)),
                self.next(i as int) <= size,
                whole == before.subrange(at as int, at + size),
                forall|j: int|
                    0 <= j < i ==> (#[trigger] self.fields@[j]).field_type.stores(
                        self.endianness,
                        values@[j],
                        self.fields@[j].part(whole),
                        self.fields@[j].part(bytes@.subrange(at as int, at + size)),
                    ),
                forall|p: int|
                    at <= p < at + size && !self.covers(p - at) ==> #[trigger] bytes@[p]
                        == before[p],
        {
            let field = &self.fields[i];
            let ghost filled = bytes@;
            proof {
                assert(*field == self.fields@[i as int]);
                self.lemma_in_order(i as int, i as int);
                assert(self.in_place(i as int));
                assert(filled.subrange(at + field.offset, at + field.end()) == field.part(whole));
            }
            field.field_type.store_at(self.endianness, &values[i], bytes, at + field.offset);
            proof {
                let now = bytes@.subrange(at as int, at + size);
                assert(field.part(now) == bytes@.subrange(at + field.offset, at + field.end()));
                assert forall|j: int| 0 <= j < i + 1 implies (
                #[trigger] self.fields@[j]).field_type.stores(
                    self.endianness,
                    values@[j],
                    self.fields@[j].part(whole),
                    self.fields@[j].part(now),
                ) by {
                    if j < i {
                        self.lemma_in_order(j, i as int);
                        assert(self.fields@[j].part(now) == self.fields@[j].part(
                            filled.subrange(at as int, at + size),
                        ));
                    }
                }
                assert forall|p: int| at <= p < at + size && !self.covers(p - at) implies
                    #[trigger] bytes@[p] == before[p] by {
                    assert(!(field.offset <= p - at < field.end()));
                    assert(bytes@[p] == filled[p]);
                }
            }
        }
    }

    /// Store the values of all fields in the given slice.
    pub fn store_to(&self, values: &Vec<FieldValue>, bytes: &mut [u8]) -> (stored: Result<
        (),
        OnDiskError,
    >)
        requires
            self.valid(),
            self.describes(values@),
        ensures
            match stored {
                Ok(_) => {
                    &&& old(bytes)@.len() >= self.size()
                    &&& self.stores(values@, old(bytes)@, final(bytes)@)
                },
                Err(error) => {
                    &&& old(bytes)@.len() < self.size()
                    &&& final(bytes)@ == old(bytes)@
                    &&& error.says(
                        OnDiskOperation::WriteStruct,
                        self.name@,
                        self.size(),
                        old(bytes)@.len(),
                    )
                },
            },
    {
        let size: usize = self.on_disk_size();
        if bytes.len() < size {
            return Err(
                OnDiskError {
                    operation: OnDiskOperation::WriteStruct,
                    name: self.name.clone(),
                    length: size,
                    buffer_length: bytes.len(),
                },
            );
        }
        let ghost before = bytes@;
        self.store_at(values, bytes, 0);
        proof {
            let from = before.subrange(0, size as int);
            let to = bytes@.subrange(0, size as int);
            assert forall|i: int| 0 <= i < self.fields@.len() implies (
            #[trigger] self.fields@[i]).field_type.stores(
                self.endianness,
                values@[i],
                self.fields@[i].part(before),
                self.fields@[i].part(bytes@),
            ) by {
                self.lemma_in_order(i, i);
                assert(self.fields@[i].part(from) == self.fields@[i].part(before));
                assert(self.fields@[i].part(to) == self.fields@[i].part(bytes@));
            }
            assert forall|p: int| 0 <= p < before.len() && !self.covers(p) implies
                #[trigger] bytes@[p] == before[p] by {
                if p < size {
                    assert(to[p] == from[p]);
                }
            }
        }
        Ok(())
    }
}

} // verus!
