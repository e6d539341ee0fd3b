//! Structures on disk, and integers as the simplest of them.

use crate::on_disk_struct::bytes::{
    bytes_of, decode_at, encode_at, lemma_pow256_values, native_byte_order, native_order, pow256,
    value_of, ByteOrder,
};
use crate::on_disk_struct::error::{OnDiskError, OnDiskOperation};
use vstd::prelude::*;
use vstd::string::StringExecFns;

verus! {

/// A structure to be loaded from or stored on disk (e.g. qcow2 image header), in binary format.
pub trait OnDiskStruct: Sized {
    /// The on-disk size of this structure, in bytes.
    const ON_DISK_SIZE: usize;

    /// The structure can be loaded from and stored in buffers of this length: it has to fit, but
    /// the buffer may be larger, unless an implementation says otherwise.
    open spec fn accepts(length: nat) -> bool {
        length >= Self::ON_DISK_SIZE
    }

    /// `error` says that the structure cannot be loaded from a buffer of the given length.
    open spec fn load_refused(length: nat, error: OnDiskError) -> bool {
        error.length == Self::ON_DISK_SIZE && error.buffer_length == length
    }

    /// `error` says that the structure cannot be stored in a buffer of the given length.
    open spec fn store_refused(length: nat, error: OnDiskError) -> bool {
        error.length == Self::ON_DISK_SIZE && error.buffer_length == length
    }

    /// Convenience alias for [`Self::ON_DISK_SIZE`] for objects.
    fn on_disk_size(&self) -> (size: usize)
        ensures
            size == Self::ON_DISK_SIZE,
    {
        Self::ON_DISK_SIZE
    }

    /// Load this structure from the given slice.
    ///
    /// Use little endian, unless the structure has a specific inherent endianness.
    fn load_from_le(bytes: &[u8]) -> (loaded: Result<Self, OnDiskError>)
        ensures
            loaded is Ok <==> Self::accepts(bytes@.len()),
            loaded matches Err(error) ==> Self::load_refused(bytes@.len(), error),
        default_ensures
            call_ensures(Self::load_from, (bytes,), loaded),
    {
        Self::load_from(bytes)
    }

    /// Store this structure in the given slice.
    ///
    /// Use little endian, unless the structure has a specific inherent endianness.
    fn store_to_le(&self, bytes: &mut [u8]) -> (stored: Result<(), OnDiskError>)
        ensures
            stored is Ok <==> Self::accepts(old(bytes)@.len()),
            stored matches Err(error) ==> {
                &&& Self::store_refused(old(bytes)@.len(), error)
                &&& final(bytes)@ == old(bytes)@
            },
        default_ensures
            exists|buffer: &mut [u8]| #[trigger]
                call_ensures(Self::store_to, (self, buffer), stored) && buffer@ == old(bytes)@
                    && final(buffer)@ == final(bytes)@,
    {
        self.store_to(bytes)
    }

    /// Load this structure from the given slice.
    ///
    /// Use big endian, unless the structure has a specific inherent endianness.
    fn load_from_be(bytes: &[u8]) -> (loaded: Result<Self, OnDiskError>)
        ensures
            loaded is Ok <==> Self::accepts(bytes@.len()),
            loaded matches Err(error) ==> Self::load_refused(bytes@.len(), error),
        default_ensures
            call_ensures(Self::load_from, (bytes,), loaded),
    {
        Self::load_from(bytes)
    }

    /// Store this structure in the given slice.
    ///
    /// Use big endian, unless the structure has a specific inherent endianness.
    fn store_to_be(&self, bytes: &mut [u8]) -> (stored: Result<(), OnDiskError>)
        ensures
            stored is Ok <==> Self::accepts(old(bytes)@.len()),
            stored matches Err(error) ==> {
                &&& Self::store_refused(old(bytes)@.len(), error)
                &&& final(bytes)@ == old(bytes)@
            },
        default_ensures
            exists|buffer: &mut [u8]| #[trigger]
                call_ensures(Self::store_to, (self, buffer), stored) && buffer@ == old(bytes)@
                    && final(buffer)@ == final(bytes)@,
    {
        self.store_to(bytes)
    }

    /// Load this structure from the given slice, in default inherent endianness.
    fn load_from(bytes: &[u8]) -> (loaded: Result<Self, OnDiskError>)
        ensures
            loaded is Ok <==> Self::accepts(bytes@.len()),
            loaded matches Err(error) ==> Self::load_refused(bytes@.len(), error),
    ;

    /// Store this structure in the given slice, in default inherent endianness.
    fn store_to(&self, bytes: &mut [u8]) -> (stored: Result<(), OnDiskError>)
        ensures
            stored is Ok <==> Self::accepts(old(bytes)@.len()),
            stored matches Err(error) ==> {
                &&& Self::store_refused(old(bytes)@.len(), error)
                &&& final(bytes)@ == old(bytes)@
            },
    ;
}

/// Load an integer of `size` bytes, whose type has the given name.
fn load_integer(bytes: &[u8], name: &'static str, size: usize, order: ByteOrder) -> (loaded: Result<
    u64,
    OnDiskError,
>)
    requires
        size <= 8,
    ensures
        match loaded {
            Ok(value) => {
                &&& bytes@.len() == size
                &&& value == value_of(bytes@, order)
                &&& value < pow256(size as nat)
            },
            Err(error) => {
                &&& bytes@.len() != size
                &&& error.says(OnDiskOperation::LoadType, name@, size as nat, bytes@.len())
            },
        },
{
    if bytes.len() != size {
        return Err(
            OnDiskError {
                operation: OnDiskOperation::LoadType,
                name: String::from_str(name),
                length: size,
                buffer_length: bytes.len(),
            },
        );
    }
    assert(bytes@.subrange(0, size as int) == bytes@);
    Ok(decode_at(bytes, 0, size, order))
}

/// Store an integer of `size` bytes, whose type has the given name.
fn store_integer(
    value: u64,
    bytes: &mut [u8],
    name: &'static str,
    size: usize,
    order: ByteOrder,
) -> (stored: Result<(), OnDiskError>)
    ensures
        match stored {
            Ok(_) => {
                &&& old(bytes)@.len() == size
                &&& final(bytes)@ == bytes_of(value as nat, size as nat, order)
            },
            Err(error) => {
                &&& old(bytes)@.len() != size
                &&& final(bytes)@ == old(bytes)@
                &&& error.says(OnDiskOperation::WriteType, name@, size as nat, old(bytes)@.len())
            },
        },
{
    if bytes.len() != size {
        return Err(
            OnDiskError {
                operation: OnDiskOperation::WriteType,
                name: String::from_str(name),
                length: size,
                buffer_length: bytes.len(),
            },
        );
    }
    encode_at(bytes, 0, size, value, order);
    assert(bytes@.subrange(0, size as int) == bytes@);
    Ok(())
}

impl OnDiskStruct for u16 {
    const ON_DISK_SIZE: usize = 2;

    open spec fn accepts(length: nat) -> bool {
        length == 2
    }

    open spec fn load_refused(length: nat, error: OnDiskError) -> bool {
        error.says(OnDiskOperation::LoadType, "u16"@, 2, length)
    }

    open spec fn store_refused(length: nat, error: OnDiskError) -> bool {
        error.says(OnDiskOperation::WriteType, "u16"@, 2, length)
    }

    fn on_disk_size(&self) -> (size: usize)
        ensures
            size == 2,
    {
        Self::ON_DISK_SIZE
    }

    fn load_from_le(bytes: &[u8]) -> (loaded: Result<Self, OnDiskError>)
        ensures
            loaded matches Ok(value) ==> value == value_of(bytes@, ByteOrder::Little),
    {
        u16_from(load_integer(bytes, "u16", 2, ByteOrder::Little))
    }

    fn store_to_le(&self, bytes: &mut [u8]) -> (stored: Result<(), OnDiskError>)
        ensures
            stored is Ok ==> final(bytes)@ == bytes_of(*self as nat, 2, ByteOrder::Little),
    {
        store_integer(*self as u64, bytes, "u16", 2, ByteOrder::Little)
    }

    fn load_from_be(bytes: &[u8]) -> (loaded: Result<Self, OnDiskError>)
        ensures
            loaded matches Ok(value) ==> value == value_of(bytes@, ByteOrder::Big),
    {
        u16_from(load_integer(bytes, "u16", 2, ByteOrder::Big))
    }

    fn store_to_be(&self, bytes: &mut [u8]) -> (stored: Result<(), OnDiskError>)
        ensures
            stored is Ok ==> final(bytes)@ == bytes_of(*self as nat, 2, ByteOrder::Big),
    {
        store_integer(*self as u64, bytes, "u16", 2, ByteOrder::Big)
    }

    fn load_from(bytes: &[u8]) -> (loaded: Result<Self, OnDiskError>)
        ensures
            loaded matches Ok(value) ==> value == value_of(bytes@, native_order()),
    {
        u16_from(load_integer(bytes, "u16", 2, native_byte_order()))
    }

    fn store_to(&self, bytes: &mut [u8]) -> (stored: Result<(), OnDiskError>)
        ensures
            stored is Ok ==> final(bytes)@ == bytes_of(*self as nat, 2, native_order()),
    {
        store_integer(*self as u64, bytes, "u16", 2, native_byte_order())
    }
}

/// A loaded integer of two bytes.
fn u16_from(loaded: Result<u64, OnDiskError>) -> (integer: Result<u16, OnDiskError>)
    requires
        loaded matches Ok(value) ==> value < pow256(2),
    ensures
        match loaded {
            Ok(value) => integer is Ok && integer->Ok_0 == value,
            Err(error) => integer == Err::<u16, OnDiskError>(error),
        },
{
    proof {
        lemma_pow256_values();
    }
    match loaded {
        Ok(value) => Ok(value as u16),
        Err(error) => Err(error),
    }
}

impl OnDiskStruct for u32 {
    const ON_DISK_SIZE: usize = 4;

    open spec fn accepts(length: nat) -> bool {
        length == 4
    }

    open spec fn load_refused(length: nat, error: OnDiskError) -> bool {
        error.says(OnDiskOperation::LoadType, "u32"@, 4, length)
    }

    open spec fn store_refused(length: nat, error: OnDiskError) -> bool {
        error.says(OnDiskOperation::WriteType, "u32"@, 4, length)
    }

    fn on_disk_size(&self) -> (size: usize)
        ensures
            size == 4,
    {
        Self::ON_DISK_SIZE
    }

    fn load_from_le(bytes: &[u8]) -> (loaded: Result<Self, OnDiskError>)
        ensures
            loaded matches Ok(value) ==> value == value_of(bytes@, ByteOrder::Little),
    {
        u32_from(load_integer(bytes, "u32", 4, ByteOrder::Little))
    }

    fn store_to_le(&self, bytes: &mut [u8]) -> (stored: Result<(), OnDiskError>)
        ensures
            stored is Ok ==> final(bytes)@ == bytes_of(*self as nat, 4, ByteOrder::Little),
    {
        store_integer(*self as u64, bytes, "u32", 4, ByteOrder::Little)
    }

    fn load_from_be(bytes: &[u8]) -> (loaded: Result<Self, OnDiskError>)
        ensures
            loaded matches Ok(value) ==> value == value_of(bytes@, ByteOrder::Big),
    {
        u32_from(load_integer(bytes, "u32", 4, ByteOrder::Big))
    }

    fn store_to_be(&self, bytes: &mut [u8]) -> (stored: Result<(), OnDiskError>)
        ensures
            stored is Ok ==> final(bytes)@ == bytes_of(*self as nat, 4, ByteOrder::Big),
    {
        store_integer(*self as u64, bytes, "u32", 4, ByteOrder::Big)
    }

    fn load_from(bytes: &[u8]) -> (loaded: Result<Self, OnDiskError>)
        ensures
            loaded matches Ok(value) ==> value == value_of(bytes@, native_order()),
    {
        u32_from(load_integer(bytes, "u32", 4, native_byte_order()))
    }

    fn store_to(&self, bytes: &mut [u8]) -> (stored: Result<(), OnDiskError>)
        ensures
            stored is Ok ==> final(bytes)@ == bytes_of(*self as nat, 4, native_order()),
    {
        store_integer(*self as u64, bytes, "u32", 4, native_byte_order())
    }
}

/// A loaded integer of four bytes.
fn u32_from(loaded: Result<u64, OnDiskError>) -> (integer: Result<u32, OnDiskError>)
    requires
        loaded matches Ok(value) ==> value < pow256(4),
    ensures
        match loaded {
            Ok(value) => integer is Ok && integer->Ok_0 == value,
            Err(error) => integer == Err::<u32, OnDiskError>(error),
        },
{
    proof {
        lemma_pow256_values();
    }
    match loaded {
        Ok(value) => Ok(value as u32),
        Err(error) => Err(error),
    }
}

impl OnDiskStruct for u64 {
    const ON_DISK_SIZE: usize = 8;

    open spec fn accepts(length: nat) -> bool {
        length == 8
    }

    open spec fn load_refused(length: nat, error: OnDiskError) -> bool {
        error.says(OnDiskOperation::LoadType, "u64"@, 8, length)
    }

    open spec fn store_refused(length: nat, error: OnDiskError) -> bool {
        error.says(OnDiskOperation::WriteType, "u64"@, 8, length)
    }

    fn on_disk_size(&self) -> (size: usize)
        ensures
            size == 8,
    {
        Self::ON_DISK_SIZE
    }

    fn load_from_le(bytes: &[u8]) -> (loaded: Result<Self, OnDiskError>)
        ensures
            loaded matches Ok(value) ==> value == value_of(bytes@, ByteOrder::Little),
    {
        load_integer(bytes, "u64", 8, ByteOrder::Little)
    }

    fn store_to_le(&self, bytes: &mut [u8]) -> (stored: Result<(), OnDiskError>)
        ensures
            stored is Ok ==> final(bytes)@ == bytes_of(*self as nat, 8, ByteOrder::Little),
    {
        store_integer(*self, bytes, "u64", 8, ByteOrder::Little)
    }

    fn load_from_be(bytes: &[u8]) -> (loaded: Result<Self, OnDiskError>)
        ensures
            loaded matches Ok(value) ==> value == value_of(bytes@, ByteOrder::Big),
    {
        load_integer(bytes, "u64", 8, ByteOrder::Big)
    }

    fn store_to_be(&self, bytes: &mut [u8]) -> (stored: Result<(), OnDiskError>)
        ensures
            stored is Ok ==> final(bytes)@ == bytes_of(*self as nat, 8, ByteOrder::Big),
    {
        store_integer(*self, bytes, "u64", 8, ByteOrder::Big)
    }

    fn load_from(bytes: &[u8]) -> (loaded: Result<Self, OnDiskError>)
        ensures
            loaded matches Ok(value) ==> value == value_of(bytes@, native_order()),
    {
        load_integer(bytes, "u64", 8, native_byte_order())
    }

    fn store_to(&self, bytes: &mut [u8]) -> (stored: Result<(), OnDiskError>)
        ensures
            stored is Ok ==> final(bytes)@ == bytes_of(*self as nat, 8, native_order()),
    {
        store_integer(*self, bytes, "u64", 8, native_byte_order())
    }
}

} // verus!
