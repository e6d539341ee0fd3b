//! How calls that load and store go together.

use crate::on_disk_struct::atomic::{made_u32, made_u64, read_u32, read_u64};
use crate::on_disk_struct::bytes::{
    bytes_of, decode_at, encode_at, law_byte_orders_are_reversed, law_bytes_hold,
    law_bytes_of_value_of, law_value_of_bytes_of, lemma_digits_len, lemma_pow256_values,
    native_byte_order, native_order, value_of, ByteOrder,
};
use crate::on_disk_struct::error::{OnDiskError, OnDiskOperation};
use crate::on_disk_struct::laws::{law_integers_round_trip, law_load_after_store, same_values};
use crate::on_disk_struct::layout::{Endianness, FieldValue, StructLayout};
use crate::on_disk_struct::primitive::OnDiskStruct;
use std::sync::atomic::{AtomicU32, AtomicU64};
use vstd::arithmetic::power::pow;
use vstd::prelude::*;

verus! {

/// A load is refused because the buffer has not the size of the integer, and the error tells which
/// integer type, its size, and the size of the buffer.
pub open spec fn load_error(error: OnDiskError, name: Seq<char>, size: nat, length: nat) -> bool {
    &&& length != size
    &&& error.operation == OnDiskOperation::LoadType
    &&& error.name@ == name
    &&& error.length == size
    &&& error.buffer_length == length
}

/// A store is refused because the buffer has not the size of the integer, and the error tells which
/// integer type, its size, and the size of the buffer.
pub open spec fn store_error(error: OnDiskError, name: Seq<char>, size: nat, length: nat) -> bool {
    &&& length != size
    &&& error.operation == OnDiskOperation::WriteType
    &&& error.name@ == name
    &&& error.length == size
    &&& error.buffer_length == length
}

/// Loading a `u16` in little endian gives the integer that the bytes represent, which are as many
/// as it takes, and any other number of bytes is refused.
pub proof fn law_load_u16_le(bytes: &[u8], loaded: Result<u16, OnDiskError>)
    requires
        call_ensures(<u16 as OnDiskStruct>::load_from_le, (bytes,), loaded),
    ensures
        match loaded {
            Ok(value) => bytes@.len() == 2 && bytes@ == bytes_of(value as nat, 2, ByteOrder::Little),
            Err(error) => load_error(error, "u16"@, 2, bytes@.len()),
        },
{
    law_bytes_of_value_of(bytes@, ByteOrder::Little);
}

/// What was stored of a `u16` in little endian is loaded again; a buffer of another size than it
/// takes is refused, and stays as it is.
pub proof fn law_store_u16_le(value: u16)
    ensures
        forall|buffer: &mut [u8], stored: Result<(), OnDiskError>| #[trigger]
            call_ensures(<u16 as OnDiskStruct>::store_to_le, (&value, buffer), stored) ==> match stored {
                Ok(_) => buffer@.len() == 2 && final(buffer)@.len() == 2,
                Err(error) => {
                    &&& store_error(error, "u16"@, 2, buffer@.len())
                    &&& final(buffer)@ == buffer@
                },
            },
        forall|
            buffer: &mut [u8],
            stored: Result<(), OnDiskError>,
            bytes: &[u8],
            loaded: Result<u16, OnDiskError>,
        | #[trigger]
            call_ensures(<u16 as OnDiskStruct>::store_to_le, (&value, buffer), stored) && stored is Ok
                && #[trigger] call_ensures(<u16 as OnDiskStruct>::load_from_le, (bytes,), loaded) && bytes@
                == final(buffer)@ ==> loaded == Ok::<u16, OnDiskError>(value),
{
    law_integers_round_trip(value, 0, 0, ByteOrder::Little);
    lemma_digits_len(value as nat, 2);
    assert forall|
        buffer: &mut [u8],
        stored: Result<(), OnDiskError>,
        bytes: &[u8],
        loaded: Result<u16, OnDiskError>,
    | #[trigger]
        call_ensures(<u16 as OnDiskStruct>::store_to_le, (&value, buffer), stored) && stored is Ok
            && #[trigger] call_ensures(<u16 as OnDiskStruct>::load_from_le, (bytes,), loaded) && bytes@
            == final(buffer)@ implies loaded == Ok::<u16, OnDiskError>(value) by {
        assert(final(buffer)@ == bytes_of(value as nat, 2, ByteOrder::Little));
        assert(loaded is Ok);
    }
}

/// Loading a `u16` in big endian gives the integer that the bytes represent, which are as many as
/// it takes, and any other number of bytes is refused.
pub proof fn law_load_u16_be(bytes: &[u8], loaded: Result<u16, OnDiskError>)
    requires
        call_ensures(<u16 as OnDiskStruct>::load_from_be, (bytes,), loaded),
    ensures
        match loaded {
            Ok(value) => bytes@.len() == 2 && bytes@ == bytes_of(value as nat, 2, ByteOrder::Big),
            Err(error) => load_error(error, "u16"@, 2, bytes@.len()),
        },
{
    law_bytes_of_value_of(bytes@, ByteOrder::Big);
}

/// What was stored of a `u16` in big endian is loaded again; a buffer of another size than it takes
/// is refused, and stays as it is.
pub proof fn law_store_u16_be(value: u16)
    ensures
        forall|buffer: &mut [u8], stored: Result<(), OnDiskError>| #[trigger]
            call_ensures(<u16 as OnDiskStruct>::store_to_be, (&value, buffer), stored) ==> match stored {
                Ok(_) => buffer@.len() == 2 && final(buffer)@.len() == 2,
                Err(error) => {
                    &&& store_error(error, "u16"@, 2, buffer@.len())
                    &&& final(buffer)@ == buffer@
                },
            },
        forall|
            buffer: &mut [u8],
            stored: Result<(), OnDiskError>,
            bytes: &[u8],
            loaded: Result<u16, OnDiskError>,
        | #[trigger]
            call_ensures(<u16 as OnDiskStruct>::store_to_be, (&value, buffer), stored) && stored is Ok
                && #[trigger] call_ensures(<u16 as OnDiskStruct>::load_from_be, (bytes,), loaded) && bytes@
                == final(buffer)@ ==> loaded == Ok::<u16, OnDiskError>(value),
{
    law_integers_round_trip(value, 0, 0, ByteOrder::Big);
    lemma_digits_len(value as nat, 2);
    assert forall|
        buffer: &mut [u8],
        stored: Result<(), OnDiskError>,
        bytes: &[u8],
        loaded: Result<u16, OnDiskError>,
    | #[trigger]
        call_ensures(<u16 as OnDiskStruct>::store_to_be, (&value, buffer), stored) && stored is Ok
            && #[trigger] call_ensures(<u16 as OnDiskStruct>::load_from_be, (bytes,), loaded) && bytes@
            == final(buffer)@ implies loaded == Ok::<u16, OnDiskError>(value) by {
        assert(final(buffer)@ == bytes_of(value as nat, 2, ByteOrder::Big));
        assert(loaded is Ok);
    }
}

/// Loading a `u16` in the byte order of the machine gives the integer that the bytes represent,
/// which are as many as it takes, and any other number of bytes is refused.
pub proof fn law_load_u16_ne(bytes: &[u8], loaded: Result<u16, OnDiskError>)
    requires
        call_ensures(<u16 as OnDiskStruct>::load_from, (bytes,), loaded),
    ensures
        match loaded {
            Ok(value) => bytes@.len() == 2 && bytes@ == bytes_of(value as nat, 2, native_order()),
            Err(error) => load_error(error, "u16"@, 2, bytes@.len()),
        },
{
    law_bytes_of_value_of(bytes@, native_order());
}

/// What was stored of a `u16` in the byte order of the machine is loaded again; a buffer of another
/// size than it takes is refused, and stays as it is.
pub proof fn law_store_u16_ne(value: u16)
    ensures
        forall|buffer: &mut [u8], stored: Result<(), OnDiskError>| #[trigger]
            call_ensures(<u16 as OnDiskStruct>::store_to, (&value, buffer), stored) ==> match stored {
                Ok(_) => buffer@.len() == 2 && final(buffer)@.len() == 2,
                Err(error) => {
                    &&& store_error(error, "u16"@, 2, buffer@.len())
                    &&& final(buffer)@ == buffer@
                },
            },
        forall|
            buffer: &mut [u8],
            stored: Result<(), OnDiskError>,
            bytes: &[u8],
            loaded: Result<u16, OnDiskError>,
        | #[trigger]
            call_ensures(<u16 as OnDiskStruct>::store_to, (&value, buffer), stored) && stored is Ok
                && #[trigger] call_ensures(<u16 as OnDiskStruct>::load_from, (bytes,), loaded) && bytes@
                == final(buffer)@ ==> loaded == Ok::<u16, OnDiskError>(value),
{
    law_integers_round_trip(value, 0, 0, native_order());
    lemma_digits_len(value as nat, 2);
    assert forall|
        buffer: &mut [u8],
        stored: Result<(), OnDiskError>,
        bytes: &[u8],
        loaded: Result<u16, OnDiskError>,
    | #[trigger]
        call_ensures(<u16 as OnDiskStruct>::store_to, (&value, buffer), stored) && stored is Ok
            && #[trigger] call_ensures(<u16 as OnDiskStruct>::load_from, (bytes,), loaded) && bytes@
            == final(buffer)@ implies loaded == Ok::<u16, OnDiskError>(value) by {
        assert(final(buffer)@ == bytes_of(value as nat, 2, native_order()));
        assert(loaded is Ok);
    }
}

/// Storing a `u16` in big endian gives the bytes of storing it in little endian, reversed.
pub proof fn law_store_u16_reversed(value: u16)
    ensures
        forall|
            little: &mut [u8],
            big: &mut [u8],
            stored_le: Result<(), OnDiskError>,
            stored_be: Result<(), OnDiskError>,
        | #[trigger]
            call_ensures(<u16 as OnDiskStruct>::store_to_le, (&value, little), stored_le)
                && #[trigger] call_ensures(
                <u16 as OnDiskStruct>::store_to_be,
                (&value, big),
                stored_be,
            ) && stored_le is Ok && stored_be is Ok ==> final(big)@ == final(little)@.reverse(),
{
    law_byte_orders_are_reversed(value as nat, 2);
}

/// Loading a `u32` in little endian gives the integer that the bytes represent, which are as many
/// as it takes, and any other number of bytes is refused.
pub proof fn law_load_u32_le(bytes: &[u8], loaded: Result<u32, OnDiskError>)
    requires
        call_ensures(<u32 as OnDiskStruct>::load_from_le, (bytes,), loaded),
    ensures
        match loaded {
            Ok(value) => bytes@.len() == 4 && bytes@ == bytes_of(value as nat, 4, ByteOrder::Little),
            Err(error) => load_error(error, "u32"@, 4, bytes@.len()),
        },
{
    law_bytes_of_value_of(bytes@, ByteOrder::Little);
}

/// What was stored of a `u32` in little endian is loaded again; a buffer of another size than it
/// takes is refused, and stays as it is.
pub proof fn law_store_u32_le(value: u32)
    ensures
        forall|buffer: &mut [u8], stored: Result<(), OnDiskError>| #[trigger]
            call_ensures(<u32 as OnDiskStruct>::store_to_le, (&value, buffer), stored) ==> match stored {
                Ok(_) => buffer@.len() == 4 && final(buffer)@.len() == 4,
                Err(error) => {
                    &&& store_error(error, "u32"@, 4, buffer@.len())
                    &&& final(buffer)@ == buffer@
                },
            },
        forall|
            buffer: &mut [u8],
            stored: Result<(), OnDiskError>,
            bytes: &[u8],
            loaded: Result<u32, OnDiskError>,
        | #[trigger]
            call_ensures(<u32 as OnDiskStruct>::store_to_le, (&value, buffer), stored) && stored is Ok
                && #[trigger] call_ensures(<u32 as OnDiskStruct>::load_from_le, (bytes,), loaded) && bytes@
                == final(buffer)@ ==> loaded == Ok::<u32, OnDiskError>(value),
{
    law_integers_round_trip(0, value, 0, ByteOrder::Little);
    lemma_digits_len(value as nat, 4);
    assert forall|
        buffer: &mut [u8],
        stored: Result<(), OnDiskError>,
        bytes: &[u8],
        loaded: Result<u32, OnDiskError>,
    | #[trigger]
        call_ensures(<u32 as OnDiskStruct>::store_to_le, (&value, buffer), stored) && stored is Ok
            && #[trigger] call_ensures(<u32 as OnDiskStruct>::load_from_le, (bytes,), loaded) && bytes@
            == final(buffer)@ implies loaded == Ok::<u32, OnDiskError>(value) by {
        assert(final(buffer)@ == bytes_of(value as nat, 4, ByteOrder::Little));
        assert(loaded is Ok);
    }
}

/// Loading a `u32` in big endian gives the integer that the bytes represent, which are as many as
/// it takes, and any other number of bytes is refused.
pub proof fn law_load_u32_be(bytes: &[u8], loaded: Result<u32, OnDiskError>)
    requires
        call_ensures(<u32 as OnDiskStruct>::load_from_be, (bytes,), loaded),
    ensures
        match loaded {
            Ok(value) => bytes@.len() == 4 && bytes@ == bytes_of(value as nat, 4, ByteOrder::Big),
            Err(error) => load_error(error, "u32"@, 4, bytes@.len()),
        },
{
    law_bytes_of_value_of(bytes@, ByteOrder::Big);
}

/// What was stored of a `u32` in big endian is loaded again; a buffer of another size than it takes
/// is refused, and stays as it is.
pub proof fn law_store_u32_be(value: u32)
    ensures
        forall|buffer: &mut [u8], stored: Result<(), OnDiskError>| #[trigger]
            call_ensures(<u32 as OnDiskStruct>::store_to_be, (&value, buffer), stored) ==> match stored {
                Ok(_) => buffer@.len() == 4 && final(buffer)@.len() == 4,
                Err(error) => {
                    &&& store_error(error, "u32"@, 4, buffer@.len())
                    &&& final(buffer)@ == buffer@
                },
            },
        forall|
            buffer: &mut [u8],
            stored: Result<(), OnDiskError>,
            bytes: &[u8],
            loaded: Result<u32, OnDiskError>,
        | #[trigger]
            call_ensures(<u32 as OnDiskStruct>::store_to_be, (&value, buffer), stored) && stored is Ok
                && #[trigger] call_ensures(<u32 as OnDiskStruct>::load_from_be, (bytes,), loaded) && bytes@
                == final(buffer)@ ==> loaded == Ok::<u32, OnDiskError>(value),
{
    law_integers_round_trip(0, value, 0, ByteOrder::Big);
    lemma_digits_len(value as nat, 4);
    assert forall|
        buffer: &mut [u8],
        stored: Result<(), OnDiskError>,
        bytes: &[u8],
        loaded: Result<u32, OnDiskError>,
    | #[trigger]
        call_ensures(<u32 as OnDiskStruct>::store_to_be, (&value, buffer), stored) && stored is Ok
            && #[trigger] call_ensures(<u32 as OnDiskStruct>::load_from_be, (bytes,), loaded) && bytes@
            == final(buffer)@ implies loaded == Ok::<u32, OnDiskError>(value) by {
        assert(final(buffer)@ == bytes_of(value as nat, 4, ByteOrder::Big));
        assert(loaded is Ok);
    }
}

/// Loading a `u32` in the byte order of the machine gives the integer that the bytes represent,
/// which are as many as it takes, and any other number of bytes is refused.
pub proof fn law_load_u32_ne(bytes: &[u8], loaded: Result<u32, OnDiskError>)
    requires
        call_ensures(<u32 as OnDiskStruct>::load_from, (bytes,), loaded),
    ensures
        match loaded {
            Ok(value) => bytes@.len() == 4 && bytes@ == bytes_of(value as nat, 4, native_order()),
            Err(error) => load_error(error, "u32"@, 4, bytes@.len()),
        },
{
    law_bytes_of_value_of(bytes@, native_order());
}

/// What was stored of a `u32` in the byte order of the machine is loaded again; a buffer of another
/// size than it takes is refused, and stays as it is.
pub proof fn law_store_u32_ne(value: u32)
    ensures
        forall|buffer: &mut [u8], stored: Result<(), OnDiskError>| #[trigger]
            call_ensures(<u32 as OnDiskStruct>::store_to, (&value, buffer), stored) ==> match stored {
                Ok(_) => buffer@.len() == 4 && final(buffer)@.len() == 4,
                Err(error) => {
                    &&& store_error(error, "u32"@, 4, buffer@.len())
                    &&& final(buffer)@ == buffer@
                },
            },
        forall|
            buffer: &mut [u8],
            stored: Result<(), OnDiskError>,
            bytes: &[u8],
            loaded: Result<u32, OnDiskError>,
        | #[trigger]
            call_ensures(<u32 as OnDiskStruct>::store_to, (&value, buffer), stored) && stored is Ok
                && #[trigger] call_ensures(<u32 as OnDiskStruct>::load_from, (bytes,), loaded) && bytes@
                == final(buffer)@ ==> loaded == Ok::<u32, OnDiskError>(value),
{
    law_integers_round_trip(0, value, 0, native_order());
    lemma_digits_len(value as nat, 4);
    assert forall|
        buffer: &mut [u8],
        stored: Result<(), OnDiskError>,
        bytes: &[u8],
        loaded: Result<u32, OnDiskError>,
    | #[trigger]
        call_ensures(<u32 as OnDiskStruct>::store_to, (&value, buffer), stored) && stored is Ok
            && #[trigger] call_ensures(<u32 as OnDiskStruct>::load_from, (bytes,), loaded) && bytes@
            == final(buffer)@ implies loaded == Ok::<u32, OnDiskError>(value) by {
        assert(final(buffer)@ == bytes_of(value as nat, 4, native_order()));
        assert(loaded is Ok);
    }
}

/// Storing a `u32` in big endian gives the bytes of storing it in little endian, reversed.
pub proof fn law_store_u32_reversed(value: u32)
    ensures
        forall|
            little: &mut [u8],
            big: &mut [u8],
            stored_le: Result<(), OnDiskError>,
            stored_be: Result<(), OnDiskError>,
        | #[trigger]
            call_ensures(<u32 as OnDiskStruct>::store_to_le, (&value, little), stored_le)
                && #[trigger] call_ensures(
                <u32 as OnDiskStruct>::store_to_be,
                (&value, big),
                stored_be,
            ) && stored_le is Ok && stored_be is Ok ==> final(big)@ == final(little)@.reverse(),
{
    law_byte_orders_are_reversed(value as nat, 4);
}

/// Loading a `u64` in little endian gives the integer that the bytes represent, which are as many
/// as it takes, and any other number of bytes is refused.
pub proof fn law_load_u64_le(bytes: &[u8], loaded: Result<u64, OnDiskError>)
    requires
        call_ensures(<u64 as OnDiskStruct>::load_from_le, (bytes,), loaded),
    ensures
        match loaded {
            Ok(value) => bytes@.len() == 8 && bytes@ == bytes_of(value as nat, 8, ByteOrder::Little),
            Err(error) => load_error(error, "u64"@, 8, bytes@.len()),
        },
{
    law_bytes_of_value_of(bytes@, ByteOrder::Little);
}

/// What was stored of a `u64` in little endian is loaded again; a buffer of another size than it
/// takes is refused, and stays as it is.
pub proof fn law_store_u64_le(value: u64)
    ensures
        forall|buffer: &mut [u8], stored: Result<(), OnDiskError>| #[trigger]
            call_ensures(<u64 as OnDiskStruct>::store_to_le, (&value, buffer), stored) ==> match stored {
                Ok(_) => buffer@.len() == 8 && final(buffer)@.len() == 8,
                Err(error) => {
                    &&& store_error(error, "u64"@, 8, buffer@.len())
                    &&& final(buffer)@ == buffer@
                },
            },
        forall|
            buffer: &mut [u8],
            stored: Result<(), OnDiskError>,
            bytes: &[u8],
            loaded: Result<u64, OnDiskError>,
        | #[trigger]
            call_ensures(<u64 as OnDiskStruct>::store_to_le, (&value, buffer), stored) && stored is Ok
                && #[trigger] call_ensures(<u64 as OnDiskStruct>::load_from_le, (bytes,), loaded) && bytes@
                == final(buffer)@ ==> loaded == Ok::<u64, OnDiskError>(value),
{
    law_integers_round_trip(0, 0, value, ByteOrder::Little);
    lemma_digits_len(value as nat, 8);
    assert forall|
        buffer: &mut [u8],
        stored: Result<(), OnDiskError>,
        bytes: &[u8],
        loaded: Result<u64, OnDiskError>,
    | #[trigger]
        call_ensures(<u64 as OnDiskStruct>::store_to_le, (&value, buffer), stored) && stored is Ok
            && #[trigger] call_ensures(<u64 as OnDiskStruct>::load_from_le, (bytes,), loaded) && bytes@
            == final(buffer)@ implies loaded == Ok::<u64, OnDiskError>(value) by {
        assert(final(buffer)@ == bytes_of(value as nat, 8, ByteOrder::Little));
        assert(loaded is Ok);
    }
}

/// Loading a `u64` in big endian gives the integer that the bytes represent, which are as many as
/// it takes, and any other number of bytes is refused.
pub proof fn law_load_u64_be(bytes: &[u8], loaded: Result<u64, OnDiskError>)
    requires
        call_ensures(<u64 as OnDiskStruct>::load_from_be, (bytes,), loaded),
    ensures
        match loaded {
            Ok(value) => bytes@.len() == 8 && bytes@ == bytes_of(value as nat, 8, ByteOrder::Big),
            Err(error) => load_error(error, "u64"@, 8, bytes@.len()),
        },
{
    law_bytes_of_value_of(bytes@, ByteOrder::Big);
}

/// What was stored of a `u64` in big endian is loaded again; a buffer of another size than it takes
/// is refused, and stays as it is.
pub proof fn law_store_u64_be(value: u64)
    ensures
        forall|buffer: &mut [u8], stored: Result<(), OnDiskError>| #[trigger]
            call_ensures(<u64 as OnDiskStruct>::store_to_be, (&value, buffer), stored) ==> match stored {
                Ok(_) => buffer@.len() == 8 && final(buffer)@.len() == 8,
                Err(error) => {
                    &&& store_error(error, "u64"@, 8, buffer@.len())
                    &&& final(buffer)@ == buffer@
                },
            },
        forall|
            buffer: &mut [u8],
            stored: Result<(), OnDiskError>,
            bytes: &[u8],
            loaded: Result<u64, OnDiskError>,
        | #[trigger]
            call_ensures(<u64 as OnDiskStruct>::store_to_be, (&value, buffer), stored) && stored is Ok
                && #[trigger] call_ensures(<u64 as OnDiskStruct>::load_from_be, (bytes,), loaded) && bytes@
                == final(buffer)@ ==> loaded == Ok::<u64, OnDiskError>(value),
{
    law_integers_round_trip(0, 0, value, ByteOrder::Big);
    lemma_digits_len(value as nat, 8);
    assert forall|
        buffer: &mut [u8],
        stored: Result<(), OnDiskError>,
        bytes: &[u8],
        loaded: Result<u64, OnDiskError>,
    | #[trigger]
        call_ensures(<u64 as OnDiskStruct>::store_to_be, (&value, buffer), stored) && stored is Ok
            && #[trigger] call_ensures(<u64 as OnDiskStruct>::load_from_be, (bytes,), loaded) && bytes@
            == final(buffer)@ implies loaded == Ok::<u64, OnDiskError>(value) by {
        assert(final(buffer)@ == bytes_of(value as nat, 8, ByteOrder::Big));
        assert(loaded is Ok);
    }
}

/// Loading a `u64` in the byte order of the machine gives the integer that the bytes represent,
/// which are as many as it takes, and any other number of bytes is refused.
pub proof fn law_load_u64_ne(bytes: &[u8], loaded: Result<u64, OnDiskError>)
    requires
        call_ensures(<u64 as OnDiskStruct>::load_from, (bytes,), loaded),
    ensures
        match loaded {
            Ok(value) => bytes@.len() == 8 && bytes@ == bytes_of(value as nat, 8, native_order()),
            Err(error) => load_error(error, "u64"@, 8, bytes@.len()),
        },
{
    law_bytes_of_value_of(bytes@, native_order());
}

/// What was stored of a `u64` in the byte order of the machine is loaded again; a buffer of another
/// size than it takes is refused, and stays as it is.
pub proof fn law_store_u64_ne(value: u64)
    ensures
        forall|buffer: &mut [u8], stored: Result<(), OnDiskError>| #[trigger]
            call_ensures(<u64 as OnDiskStruct>::store_to, (&value, buffer), stored) ==> match stored {
                Ok(_) => buffer@.len() == 8 && final(buffer)@.len() == 8,
                Err(error) => {
                    &&& store_error(error, "u64"@, 8, buffer@.len())
                    &&& final(buffer)@ == buffer@
                },
            },
        forall|
            buffer: &mut [u8],
            stored: Result<(), OnDiskError>,
            bytes: &[u8],
            loaded: Result<u64, OnDiskError>,
        | #[trigger]
            call_ensures(<u64 as OnDiskStruct>::store_to, (&value, buffer), stored) && stored is Ok
                && #[trigger] call_ensures(<u64 as OnDiskStruct>::load_from, (bytes,), loaded) && bytes@
                == final(buffer)@ ==> loaded == Ok::<u64, OnDiskError>(value),
{
    law_integers_round_trip(0, 0, value, native_order());
    lemma_digits_len(value as nat, 8);
    assert forall|
        buffer: &mut [u8],
        stored: Result<(), OnDiskError>,
        bytes: &[u8],
        loaded: Result<u64, OnDiskError>,
    | #[trigger]
        call_ensures(<u64 as OnDiskStruct>::store_to, (&value, buffer), stored) && stored is Ok
            && #[trigger] call_ensures(<u64 as OnDiskStruct>::load_from, (bytes,), loaded) && bytes@
            == final(buffer)@ implies loaded == Ok::<u64, OnDiskError>(value) by {
        assert(final(buffer)@ == bytes_of(value as nat, 8, native_order()));
        assert(loaded is Ok);
    }
}

/// Storing a `u64` in big endian gives the bytes of storing it in little endian, reversed.
pub proof fn law_store_u64_reversed(value: u64)
    ensures
        forall|
            little: &mut [u8],
            big: &mut [u8],
            stored_le: Result<(), OnDiskError>,
            stored_be: Result<(), OnDiskError>,
        | #[trigger]
            call_ensures(<u64 as OnDiskStruct>::store_to_le, (&value, little), stored_le)
                && #[trigger] call_ensures(
                <u64 as OnDiskStruct>::store_to_be,
                (&value, big),
                stored_be,
            ) && stored_le is Ok && stored_be is Ok ==> final(big)@ == final(little)@.reverse(),
{
    law_byte_orders_are_reversed(value as nat, 8);
}

/// Loading a cell makes it for the integer that the bytes represent, and takes the same bytes as
/// loading that integer.
pub proof fn law_load_atomic_u32_le(bytes: &[u8], loaded: Result<AtomicU32, OnDiskError>)
    requires
        call_ensures(<AtomicU32 as OnDiskStruct>::load_from_le, (bytes,), loaded),
    ensures
        match loaded {
            Ok(cell) => exists|raw: u32| #[trigger]
                made_u32(cell, raw) && bytes@ == bytes_of(raw as nat, 4, ByteOrder::Little),
            Err(error) => load_error(error, "u32"@, 4, bytes@.len()),
        },
{
    law_bytes_of_value_of(bytes@, ByteOrder::Little);
}

/// What is stored of a cell are the bytes of an integer that was read from it; a buffer of another
/// size is refused, and stays as it is.
pub proof fn law_store_atomic_u32_le(cell: &AtomicU32)
    ensures
        forall|buffer: &mut [u8], stored: Result<(), OnDiskError>| #[trigger]
            call_ensures(<AtomicU32 as OnDiskStruct>::store_to_le, (cell, buffer), stored) ==> match stored {
                Ok(_) => exists|raw: u32| #[trigger]
                    read_u32(cell, raw) && value_of(final(buffer)@, ByteOrder::Little) == raw,
                Err(error) => {
                    &&& store_error(error, "u32"@, 4, buffer@.len())
                    &&& final(buffer)@ == buffer@
                },
            },
{
    assert forall|buffer: &mut [u8], stored: Result<(), OnDiskError>| #[trigger]
        call_ensures(<AtomicU32 as OnDiskStruct>::store_to_le, (cell, buffer), stored)
            && stored is Ok implies exists|raw: u32| #[trigger]
        read_u32(cell, raw) && value_of(final(buffer)@, ByteOrder::Little) == raw by {
        let raw = choose|raw: u32| #[trigger]
            read_u32(cell, raw) && final(buffer)@ == bytes_of(raw as nat, 4, ByteOrder::Little);
        lemma_pow256_values();
        law_value_of_bytes_of(raw as nat, 4, ByteOrder::Little);
    }
}

/// Loading a cell makes it for the integer that the bytes represent, and takes the same bytes as
/// loading that integer.
pub proof fn law_load_atomic_u32_be(bytes: &[u8], loaded: Result<AtomicU32, OnDiskError>)
    requires
        call_ensures(<AtomicU32 as OnDiskStruct>::load_from_be, (bytes,), loaded),
    ensures
        match loaded {
            Ok(cell) => exists|raw: u32| #[trigger]
                made_u32(cell, raw) && bytes@ == bytes_of(raw as nat, 4, ByteOrder::Big),
            Err(error) => load_error(error, "u32"@, 4, bytes@.len()),
        },
{
    law_bytes_of_value_of(bytes@, ByteOrder::Big);
}

/// What is stored of a cell are the bytes of an integer that was read from it; a buffer of another
/// size is refused, and stays as it is.
pub proof fn law_store_atomic_u32_be(cell: &AtomicU32)
    ensures
        forall|buffer: &mut [u8], stored: Result<(), OnDiskError>| #[trigger]
            call_ensures(<AtomicU32 as OnDiskStruct>::store_to_be, (cell, buffer), stored) ==> match stored {
                Ok(_) => exists|raw: u32| #[trigger]
                    read_u32(cell, raw) && value_of(final(buffer)@, ByteOrder::Big) == raw,
                Err(error) => {
                    &&& store_error(error, "u32"@, 4, buffer@.len())
                    &&& final(buffer)@ == buffer@
                },
            },
{
    assert forall|buffer: &mut [u8], stored: Result<(), OnDiskError>| #[trigger]
        call_ensures(<AtomicU32 as OnDiskStruct>::store_to_be, (cell, buffer), stored)
            && stored is Ok implies exists|raw: u32| #[trigger]
        read_u32(cell, raw) && value_of(final(buffer)@, ByteOrder::Big) == raw by {
        let raw = choose|raw: u32| #[trigger]
            read_u32(cell, raw) && final(buffer)@ == bytes_of(raw as nat, 4, ByteOrder::Big);
        lemma_pow256_values();
        law_value_of_bytes_of(raw as nat, 4, ByteOrder::Big);
    }
}

/// Loading a cell makes it for the integer that the bytes represent, and takes the same bytes as
/// loading that integer.
pub proof fn law_load_atomic_u32_ne(bytes: &[u8], loaded: Result<AtomicU32, OnDiskError>)
    requires
        call_ensures(<AtomicU32 as OnDiskStruct>::load_from, (bytes,), loaded),
    ensures
        match loaded {
            Ok(cell) => exists|raw: u32| #[trigger]
                made_u32(cell, raw) && bytes@ == bytes_of(raw as nat, 4, native_order()),
            Err(error) => load_error(error, "u32"@, 4, bytes@.len()),
        },
{
    law_bytes_of_value_of(bytes@, native_order());
}

/// What is stored of a cell are the bytes of an integer that was read from it; a buffer of another
/// size is refused, and stays as it is.
pub proof fn law_store_atomic_u32_ne(cell: &AtomicU32)
    ensures
        forall|buffer: &mut [u8], stored: Result<(), OnDiskError>| #[trigger]
            call_ensures(<AtomicU32 as OnDiskStruct>::store_to, (cell, buffer), stored) ==> match stored {
                Ok(_) => exists|raw: u32| #[trigger]
                    read_u32(cell, raw) && value_of(final(buffer)@, native_order()) == raw,
                Err(error) => {
                    &&& store_error(error, "u32"@, 4, buffer@.len())
                    &&& final(buffer)@ == buffer@
                },
            },
{
    assert forall|buffer: &mut [u8], stored: Result<(), OnDiskError>| #[trigger]
        call_ensures(<AtomicU32 as OnDiskStruct>::store_to, (cell, buffer), stored)
            && stored is Ok implies exists|raw: u32| #[trigger]
        read_u32(cell, raw) && value_of(final(buffer)@, native_order()) == raw by {
        let raw = choose|raw: u32| #[trigger]
            read_u32(cell, raw) && final(buffer)@ == bytes_of(raw as nat, 4, native_order());
        lemma_pow256_values();
        law_value_of_bytes_of(raw as nat, 4, native_order());
    }
}

/// Loading a cell makes it for the integer that the bytes represent, and takes the same bytes as
/// loading that integer.
pub proof fn law_load_atomic_u64_le(bytes: &[u8], loaded: Result<AtomicU64, OnDiskError>)
    requires
        call_ensures(<AtomicU64 as OnDiskStruct>::load_from_le, (bytes,), loaded),
    ensures
        match loaded {
            Ok(cell) => exists|raw: u64| #[trigger]
                made_u64(cell, raw) && bytes@ == bytes_of(raw as nat, 8, ByteOrder::Little),
            Err(error) => load_error(error, "u64"@, 8, bytes@.len()),
        },
{
    law_bytes_of_value_of(bytes@, ByteOrder::Little);
}

/// What is stored of a cell are the bytes of an integer that was read from it; a buffer of another
/// size is refused, and stays as it is.
pub proof fn law_store_atomic_u64_le(cell: &AtomicU64)
    ensures
        forall|buffer: &mut [u8], stored: Result<(), OnDiskError>| #[trigger]
            call_ensures(<AtomicU64 as OnDiskStruct>::store_to_le, (cell, buffer), stored) ==> match stored {
                Ok(_) => exists|raw: u64| #[trigger]
                    read_u64(cell, raw) && value_of(final(buffer)@, ByteOrder::Little) == raw,
                Err(error) => {
                    &&& store_error(error, "u64"@, 8, buffer@.len())
                    &&& final(buffer)@ == buffer@
                },
            },
{
    assert forall|buffer: &mut [u8], stored: Result<(), OnDiskError>| #[trigger]
        call_ensures(<AtomicU64 as OnDiskStruct>::store_to_le, (cell, buffer), stored)
            && stored is Ok implies exists|raw: u64| #[trigger]
        read_u64(cell, raw) && value_of(final(buffer)@, ByteOrder::Little) == raw by {
        let raw = choose|raw: u64| #[trigger]
            read_u64(cell, raw) && final(buffer)@ == bytes_of(raw as nat, 8, ByteOrder::Little);
        lemma_pow256_values();
        law_value_of_bytes_of(raw as nat, 8, ByteOrder::Little);
    }
}

/// Loading a cell makes it for the integer that the bytes represent, and takes the same bytes as
/// loading that integer.
pub proof fn law_load_atomic_u64_be(bytes: &[u8], loaded: Result<AtomicU64, OnDiskError>)
    requires
        call_ensures(<AtomicU64 as OnDiskStruct>::load_from_be, (bytes,), loaded),
    ensures
        match loaded {
            Ok(cell) => exists|raw: u64| #[trigger]
                made_u64(cell, raw) && bytes@ == bytes_of(raw as nat, 8, ByteOrder::Big),
            Err(error) => load_error(error, "u64"@, 8, bytes@.len()),
        },
{
    law_bytes_of_value_of(bytes@, ByteOrder::Big);
}

/// What is stored of a cell are the bytes of an integer that was read from it; a buffer of another
/// size is refused, and stays as it is.
pub proof fn law_store_atomic_u64_be(cell: &AtomicU64)
    ensures
        forall|buffer: &mut [u8], stored: Result<(), OnDiskError>| #[trigger]
            call_ensures(<AtomicU64 as OnDiskStruct>::store_to_be, (cell, buffer), stored) ==> match stored {
                Ok(_) => exists|raw: u64| #[trigger]
                    read_u64(cell, raw) && value_of(final(buffer)@, ByteOrder::Big) == raw,
                Err(error) => {
                    &&& store_error(error, "u64"@, 8, buffer@.len())
                    &&& final(buffer)@ == buffer@
                },
            },
{
    assert forall|buffer: &mut [u8], stored: Result<(), OnDiskError>| #[trigger]
        call_ensures(<AtomicU64 as OnDiskStruct>::store_to_be, (cell, buffer), stored)
            && stored is Ok implies exists|raw: u64| #[trigger]
        read_u64(cell, raw) && value_of(final(buffer)@, ByteOrder::Big) == raw by {
        let raw = choose|raw: u64| #[trigger]
            read_u64(cell, raw) && final(buffer)@ == bytes_of(raw as nat, 8, ByteOrder::Big);
        lemma_pow256_values();
        law_value_of_bytes_of(raw as nat, 8, ByteOrder::Big);
    }
}

/// Loading a cell makes it for the integer that the bytes represent, and takes the same bytes as
/// loading that integer.
pub proof fn law_load_atomic_u64_ne(bytes: &[u8], loaded: Result<AtomicU64, OnDiskError>)
    requires
        call_ensures(<AtomicU64 as OnDiskStruct>::load_from, (bytes,), loaded),
    ensures
        match loaded {
            Ok(cell) => exists|raw: u64| #[trigger]
                made_u64(cell, raw) && bytes@ == bytes_of(raw as nat, 8, native_order()),
            Err(error) => load_error(error, "u64"@, 8, bytes@.len()),
        },
{
    law_bytes_of_value_of(bytes@, native_order());
}

/// What is stored of a cell are the bytes of an integer that was read from it; a buffer of another
/// size is refused, and stays as it is.
pub proof fn law_store_atomic_u64_ne(cell: &AtomicU64)
    ensures
        forall|buffer: &mut [u8], stored: Result<(), OnDiskError>| #[trigger]
            call_ensures(<AtomicU64 as OnDiskStruct>::store_to, (cell, buffer), stored) ==> match stored {
                Ok(_) => exists|raw: u64| #[trigger]
                    read_u64(cell, raw) && value_of(final(buffer)@, native_order()) == raw,
                Err(error) => {
                    &&& store_error(error, "u64"@, 8, buffer@.len())
                    &&& final(buffer)@ == buffer@
                },
            },
{
    assert forall|buffer: &mut [u8], stored: Result<(), OnDiskError>| #[trigger]
        call_ensures(<AtomicU64 as OnDiskStruct>::store_to, (cell, buffer), stored)
            && stored is Ok implies exists|raw: u64| #[trigger]
        read_u64(cell, raw) && value_of(final(buffer)@, native_order()) == raw by {
        let raw = choose|raw: u64| #[trigger]
            read_u64(cell, raw) && final(buffer)@ == bytes_of(raw as nat, 8, native_order());
        lemma_pow256_values();
        law_value_of_bytes_of(raw as nat, 8, native_order());
    }
}

/// A structure that was stored is loaded again with the same values, and the bytes that belong to
/// no field stay.
pub proof fn law_store_then_load_structure(layout: &StructLayout, values: &Vec<FieldValue>)
    ensures
        forall|
            buffer: &mut [u8],
            stored: Result<(), OnDiskError>,
            bytes: &[u8],
            loaded: Result<Vec<FieldValue>, OnDiskError>,
        | #[trigger]
            call_ensures(StructLayout::store_to, (layout, values, buffer), stored)
                && #[trigger] call_ensures(StructLayout::load_from, (layout, bytes), loaded)
                && stored is Ok && bytes@ == final(buffer)@ ==> {
                &&& loaded is Ok
                &&& same_values(values@, loaded->Ok_0@)
                &&& forall|p: int|
                    0 <= p < buffer@.len() && !layout.covers(p) ==> #[trigger] final(buffer)@[p]
                        == buffer@[p]
            },
        forall|buffer: &mut [u8], stored: Result<(), OnDiskError>| #[trigger]
            call_ensures(StructLayout::store_to, (layout, values, buffer), stored) ==> {
                &&& final(buffer)@.len() == buffer@.len()
                &&& stored is Err ==> final(buffer)@ == buffer@
            },
{
    assert forall|
        buffer: &mut [u8],
        stored: Result<(), OnDiskError>,
        bytes: &[u8],
        loaded: Result<Vec<FieldValue>, OnDiskError>,
    | #[trigger]
        call_ensures(StructLayout::store_to, (layout, values, buffer), stored)
            && #[trigger] call_ensures(StructLayout::load_from, (layout, bytes), loaded)
            && stored is Ok && bytes@ == final(buffer)@ implies {
        &&& loaded is Ok
        &&& same_values(values@, loaded->Ok_0@)
        &&& forall|p: int|
            0 <= p < buffer@.len() && !layout.covers(p) ==> #[trigger] final(buffer)@[p]
                == buffer@[p]
    } by {
        assert(final(buffer)@.len() == buffer@.len());
        law_load_after_store(*layout, values@, buffer@, final(buffer)@, loaded->Ok_0@);
    }
}

/// A structure is loaded from, and stored in, every buffer that is large enough, and no other; the
/// error tells its name and size, and the size of the buffer.
pub proof fn law_structure_needs_room(layout: &StructLayout, values: &Vec<FieldValue>)
    ensures
        forall|bytes: &[u8], loaded: Result<Vec<FieldValue>, OnDiskError>| #[trigger]
            call_ensures(StructLayout::load_from, (layout, bytes), loaded) ==> match loaded {
                Ok(_) => bytes@.len() >= layout.size(),
                Err(error) => {
                    &&& bytes@.len() < layout.size()
                    &&& error.operation == OnDiskOperation::ReadStruct
                    &&& error.name@ == layout.name@
                    &&& error.length == layout.size()
                    &&& error.buffer_length == bytes@.len()
                },
            },
        forall|buffer: &mut [u8], stored: Result<(), OnDiskError>| #[trigger]
            call_ensures(StructLayout::store_to, (layout, values, buffer), stored) ==> match stored {
                Ok(_) => buffer@.len() >= layout.size(),
                Err(error) => {
                    &&& buffer@.len() < layout.size()
                    &&& error.operation == OnDiskOperation::WriteStruct
                    &&& error.name@ == layout.name@
                    &&& error.length == layout.size()
                    &&& error.buffer_length == buffer@.len()
                },
            },
{
}

/// The size of a layout, and whether it is valid, are told as they are.
pub proof fn law_layout_is_checked(layout: &StructLayout)
    ensures
        forall|valid: bool| #[trigger]
            call_ensures(StructLayout::check_layout, (layout,), valid) ==> valid == layout.valid(),
        forall|size: usize| #[trigger]
            call_ensures(StructLayout::on_disk_size, (layout,), size) ==> size == layout.size(),
{
}

/// The byte order of the machine, and that of each endianness, are told as they are.
pub proof fn law_byte_orders()
    ensures
        forall|order: ByteOrder| #[trigger]
            call_ensures(native_byte_order, (), order) ==> (order == ByteOrder::Little
                <==> vstd::endian::endianness() == vstd::endian::Endian::Little),
        forall|order: ByteOrder| #[trigger]
            call_ensures(Endianness::byte_order, (Endianness::Le,), order) ==> order
                == ByteOrder::Little,
        forall|order: ByteOrder| #[trigger]
            call_ensures(Endianness::byte_order, (Endianness::Be,), order) ==> order
                == ByteOrder::Big,
        forall|order: ByteOrder| #[trigger]
            call_ensures(Endianness::byte_order, (Endianness::Ne,), order) ==> (order
                == ByteOrder::Little <==> vstd::endian::endianness()
                == vstd::endian::Endian::Little),
{
}

/// What was written of an integer into part of a buffer is read again from there, and the buffer
/// stays the same elsewhere.
pub proof fn law_encode_then_decode(at: usize, len: usize, value: u64, order: ByteOrder)
    requires
        value < pow(256, len as nat),
    ensures
        forall|buffer: &mut [u8], written: (), bytes: &[u8], read: u64| #[trigger]
            call_ensures(encode_at, (buffer, at, len, value, order), written)
                && #[trigger] call_ensures(decode_at, (bytes, at, len, order), read) && bytes@
                == final(buffer)@ ==> read == value,
        forall|buffer: &mut [u8], written: (), j: int|
            #![trigger call_ensures(encode_at, (buffer, at, len, value, order), written), final(buffer)@[j]]
            call_ensures(encode_at, (buffer, at, len, value, order), written) && 0 <= j
                < buffer@.len() && !(at <= j < at + len) ==> final(buffer)@[j] == buffer@[j],
{
    law_bytes_hold(len as nat);
    law_value_of_bytes_of(value as nat, len as nat, order);
}

/// The text of an error is what it says.
pub proof fn law_message(error: &OnDiskError, message: String)
    requires
        call_ensures(OnDiskError::message, (error,), message),
    ensures
        message@ == error.text(),
{
}

} // verus!
