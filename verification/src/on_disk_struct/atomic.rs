//! Integers that are shared between threads.

use crate::on_disk_struct::bytes::{bytes_of, native_order, value_of, ByteOrder};
use crate::on_disk_struct::error::OnDiskError;
use crate::on_disk_struct::primitive::OnDiskStruct;
use std::sync::atomic::{AtomicU32, AtomicU64, Ordering};
use vstd::prelude::*;

verus! {

/// `raw` is an integer that `AtomicU32::load` returns for this very cell.
pub open spec fn read_u32(cell: &AtomicU32, raw: u32) -> bool {
    call_ensures(AtomicU32::load, (cell, Ordering::Relaxed), raw)
}

/// The integer that is in the cell at the moment of the call.
fn current_u32(cell: &AtomicU32) -> (raw: u32)
    ensures
        read_u32(cell, raw),
{
    cell.load(Ordering::Relaxed)
}

/// The cell is one that `AtomicU32::new` makes for the integer `raw`.
pub open spec fn made_u32(cell: AtomicU32, raw: u32) -> bool {
    call_ensures(AtomicU32::new, (raw,), cell)
}

/// A cell that holds a loaded integer.
fn cell_u32_from(loaded: Result<u32, OnDiskError>) -> (cell: Result<AtomicU32, OnDiskError>)
    ensures
        match loaded {
            Ok(raw) => cell is Ok && made_u32(cell->Ok_0, raw),
            Err(error) => cell == Err::<AtomicU32, OnDiskError>(error),
        },
{
    match loaded {
        Ok(raw) => Ok(AtomicU32::new(raw)),
        Err(error) => Err(error),
    }
}

/// On disk, the cell is the integer in it.
///
/// Other threads may change that integer at any time.  A cell that was loaded is made for the
/// integer in the buffer, and no contract says what it holds later; what is stored is what a read
/// of the cell gave at some moment.
impl OnDiskStruct for AtomicU32 {
    const ON_DISK_SIZE: usize = 4;

    open spec fn accepts(length: nat) -> bool {
        u32::accepts(length)
    }

    open spec fn load_refused(length: nat, error: OnDiskError) -> bool {
        u32::load_refused(length, error)
    }

    open spec fn store_refused(length: nat, error: OnDiskError) -> bool {
        u32::store_refused(length, error)
    }

    fn on_disk_size(&self) -> (size: usize)
        ensures
            size == 4,
    {
        Self::ON_DISK_SIZE
    }

    fn load_from_le(bytes: &[u8]) -> (loaded: Result<Self, OnDiskError>)
        ensures
            loaded matches Ok(cell) ==> exists|raw: u32| #[trigger]
                made_u32(cell, raw) && raw == value_of(bytes@, ByteOrder::Little),
    {
        cell_u32_from(u32::load_from_le(bytes))
    }

    fn store_to_le(&self, bytes: &mut [u8]) -> (stored: Result<(), OnDiskError>)
        ensures
            stored is Ok ==> exists|raw: u32| #[trigger]
                read_u32(self, raw) && final(bytes)@ == bytes_of(
                    raw as nat,
                    4,
                    ByteOrder::Little,
                ),
    {
        let raw: u32 = current_u32(self);
        raw.store_to_le(bytes)
    }

    fn load_from_be(bytes: &[u8]) -> (loaded: Result<Self, OnDiskError>)
        ensures
            loaded matches Ok(cell) ==> exists|raw: u32| #[trigger]
                made_u32(cell, raw) && raw == value_of(bytes@, ByteOrder::Big),
    {
        cell_u32_from(u32::load_from_be(bytes))
    }

    fn store_to_be(&self, bytes: &mut [u8]) -> (stored: Result<(), OnDiskError>)
        ensures
            stored is Ok ==> exists|raw: u32| #[trigger]
                read_u32(self, raw) && final(bytes)@ == bytes_of(
                    raw as nat,
                    4,
                    ByteOrder::Big,
                ),
    {
        let raw: u32 = current_u32(self);
        raw.store_to_be(bytes)
    }

    fn load_from(bytes: &[u8]) -> (loaded: Result<Self, OnDiskError>)
        ensures
            loaded matches Ok(cell) ==> exists|raw: u32| #[trigger]
                made_u32(cell, raw) && raw == value_of(bytes@, native_order()),
    {
        cell_u32_from(u32::load_from(bytes))
    }

    fn store_to(&self, bytes: &mut [u8]) -> (stored: Result<(), OnDiskError>)
        ensures
            stored is Ok ==> exists|raw: u32| #[trigger]
                read_u32(self, raw) && final(bytes)@ == bytes_of(raw as nat, 4, native_order()),
    {
        let raw: u32 = current_u32(self);
        raw.store_to(bytes)
    }
}

/// `raw` is an integer that `AtomicU64::load` returns for this very cell.
pub open spec fn read_u64(cell: &AtomicU64, raw: u64) -> bool {
    call_ensures(AtomicU64::load, (cell, Ordering::Relaxed), raw)
}

/// The integer that is in the cell at the moment of the call.
fn current_u64(cell: &AtomicU64) -> (raw: u64)
    ensures
        read_u64(cell, raw),
{
    cell.load(Ordering::Relaxed)
}

/// The cell is one that `AtomicU64::new` makes for the integer `raw`.
pub open spec fn made_u64(cell: AtomicU64, raw: u64) -> bool {
    call_ensures(AtomicU64::new, (raw,), cell)
}

/// A cell that holds a loaded integer.
fn cell_u64_from(loaded: Result<u64, OnDiskError>) -> (cell: Result<AtomicU64, OnDiskError>)
    ensures
        match loaded {
            Ok(raw) => cell is Ok && made_u64(cell->Ok_0, raw),
            Err(error) => cell == Err::<AtomicU64, OnDiskError>(error),
        },
{
    match loaded {
        Ok(raw) => Ok(AtomicU64::new(raw)),
        Err(error) => Err(error),
    }
}

/// On disk, the cell is the integer in it.
///
/// Other threads may change that integer at any time.  A cell that was loaded is made for the
/// integer in the buffer, and no contract says what it holds later; what is stored is what a read
/// of the cell gave at some moment.
impl OnDiskStruct for AtomicU64 {
    const ON_DISK_SIZE: usize = 8;

    open spec fn accepts(length: nat) -> bool {
        u64::accepts(length)
    }

    open spec fn load_refused(length: nat, error: OnDiskError) -> bool {
        u64::load_refused(length, error)
    }

    open spec fn store_refused(length: nat, error: OnDiskError) -> bool {
        u64::store_refused(length, error)
    }

    fn on_disk_size(&self) -> (size: usize)
        ensures
            size == 8,
    {
        Self::ON_DISK_SIZE
    }

    fn load_from_le(bytes: &[u8]) -> (loaded: Result<Self, OnDiskError>)
        ensures
            loaded matches Ok(cell) ==> exists|raw: u64| #[trigger]
                made_u64(cell, raw) && raw == value_of(bytes@, ByteOrder::Little),
    {
        cell_u64_from(u64::load_from_le(bytes))
    }

    fn store_to_le(&self, bytes: &mut [u8]) -> (stored: Result<(), OnDiskError>)
        ensures
            stored is Ok ==> exists|raw: u64| #[trigger]
                read_u64(self, raw) && final(bytes)@ == bytes_of(
                    raw as nat,
                    8,
                    ByteOrder::Little,
                ),
    {
        let raw: u64 = current_u64(self);
        raw.store_to_le(bytes)
    }

    fn load_from_be(bytes: &[u8]) -> (loaded: Result<Self, OnDiskError>)
        ensures
            loaded matches Ok(cell) ==> exists|raw: u64| #[trigger]
                made_u64(cell, raw) && raw == value_of(bytes@, ByteOrder::Big),
    {
        cell_u64_from(u64::load_from_be(bytes))
    }

    fn store_to_be(&self, bytes: &mut [u8]) -> (stored: Result<(), OnDiskError>)
        ensures
            stored is Ok ==> exists|raw: u64| #[trigger]
                read_u64(self, raw) && final(bytes)@ == bytes_of(
                    raw as nat,
                    8,
                    ByteOrder::Big,
                ),
    {
        let raw: u64 = current_u64(self);
        raw.store_to_be(bytes)
    }

    fn load_from(bytes: &[u8]) -> (loaded: Result<Self, OnDiskError>)
        ensures
            loaded matches Ok(cell) ==> exists|raw: u64| #[trigger]
                made_u64(cell, raw) && raw == value_of(bytes@, native_order()),
    {
        cell_u64_from(u64::load_from(bytes))
    }

    fn store_to(&self, bytes: &mut [u8]) -> (stored: Result<(), OnDiskError>)
        ensures
            stored is Ok ==> exists|raw: u64| #[trigger]
                read_u64(self, raw) && final(bytes)@ == bytes_of(raw as nat, 8, native_order()),
    {
        let raw: u64 = current_u64(self);
        raw.store_to(bytes)
    }
}

} // verus!
