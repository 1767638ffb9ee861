//! Looking up an entity by its handle in the engine's entity table.

use vstd::prelude::*;

verus! {

/// The handle that stands for no entity.
pub const INVALID_HANDLE: u32 = 0xFFFF_FFFF;

/// How many entries the entity table has.
pub const ENTITY_TABLE_LEN: usize = 0x4000;

/// The size of an entry in bytes.
pub const ENTITY_ENTRY_SIZE: usize = 0x20;

/// The entry that a handle points to, and the serial number that it has to carry there.
#[derive(Clone, Copy, PartialEq, Eq, Debug, Structural)]
pub struct EntityRef {
    pub index: usize,
    pub serial: u32,
}

/// What a handle points to: the lower half is the index, the upper half the serial
/// number.
pub open spec fn spec_decode_handle(handle: u32) -> Option<EntityRef> {
    if handle == INVALID_HANDLE || handle % 0x1_0000 >= ENTITY_TABLE_LEN {
        None
    } else {
        Some(EntityRef { index: (handle % 0x1_0000) as usize, serial: handle / 0x1_0000 })
    }
}

/// What a handle points to, if it can point to an entity at all.
pub fn decode_handle(handle: u32) -> (r: Option<EntityRef>)
    ensures
        r == spec_decode_handle(handle),
        r matches Some(e) ==> e.index < ENTITY_TABLE_LEN,
        r matches Some(e) ==> e.index < 0x4000 && e.serial < 0x1_0000 && e.serial * 0x1_0000
            + e.index == handle,
{
    assert(handle & 0xFFFF == handle % 0x1_0000) by (bit_vector);
    assert(handle >> 16 == handle / 0x1_0000) by (bit_vector);
    if handle == INVALID_HANDLE {
        return None;
    }
    let index: usize = (handle & 0xFFFF) as usize;
    if index >= ENTITY_TABLE_LEN {
        return None;
    }
    Some(EntityRef { index, serial: handle >> 16 })
}

/// The address of an entry in the table at `entlist`, if there is a table.
pub fn entry_address(entlist: usize, index: usize) -> (r: Option<usize>)
    requires
        entlist + index * ENTITY_ENTRY_SIZE <= usize::MAX,
    ensures
        r == (if entlist == 0 {
            None
        } else {
            Some((entlist + index * ENTITY_ENTRY_SIZE) as usize)
        }),
        r is None <==> entlist == 0,
        r matches Some(a) ==> a - entlist == 32 * index,
{
    if entlist == 0 {
        return None;
    }
    Some(entlist + index * ENTITY_ENTRY_SIZE)
}

/// The entity in an entry that carries `found_serial` and the object pointer `object`:
/// the handle is stale if the serial number is another, and the entry is empty if the
/// pointer is null.
pub fn entity_in_entry(entity: EntityRef, found_serial: u32, object: usize) -> (r: Option<usize>)
    ensures
        r == (if found_serial == entity.serial && object != 0 {
            Some(object)
        } else {
            None
        }),
{
    if found_serial != entity.serial {
        return None;
    }
    if object != 0 {
        Some(object)
    } else {
        None
    }
}

/// An index in the table and a serial number, put together, make a handle that leads
/// back to both.
pub proof fn law_handle_leads_back(index: usize, serial: u32)
    requires
        index < ENTITY_TABLE_LEN,
        serial < 0x1_0000,
    ensures
        spec_decode_handle((serial * 0x1_0000 + index) as u32) == Some(
            EntityRef { index, serial },
        ),
{
}

/// A handle points to an entity exactly where it is put together from an index in the
/// table and a serial number. The handle with all bits set points to none.
pub proof fn law_handle_is_index_and_serial(handle: u32, index: int, serial: int)
    requires
        0 <= index < 0x1_0000,
        handle == serial * 0x1_0000 + index,
    ensures
        spec_decode_handle(handle) is Some <==> index < 0x4000,
        spec_decode_handle(handle) matches Some(e) ==> e.index == index && e.serial == serial,
        spec_decode_handle(0xFFFF_FFFF) is None,
{
}

} // verus!
