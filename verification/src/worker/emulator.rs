//! What the emulator core is asked, and what its answers mean.
use crate::ipc::{ResponseView, WorkerResponseV1};
use crate::numbers::{
    decimal, decimal_of, hex8_of, hex_bytes, law_hex_is_two_digits_per_byte,
};
use crate::text::{join2, join3};
use crate::wire::{be32, copy_range, law_high_byte_comes_first};
use std::collections::HashMap;
use std::ops::Range;
use vstd::prelude::*;

verus! {

/// The memory region of a core that holds the system RAM.
pub const RETRO_MEMORY_SYSTEM_RAM: u32 = 2;

/// Where the system RAM starts in the address space of the machine.
pub const GBA_SYSTEM_RAM_BASE: u32 = 0x0200_0000;

/// A request to the emulator core.
#[derive(Debug)]
pub enum CoreCommand {
    LoadRom { path: String },
    ReadMemory { address: u32, size: u32 },
    WriteMemory { address: u32, data: Vec<u8> },
    SaveState { slot: u8 },
    LoadState { slot: u8 },
    Reset,
}

/// Where an address lies in the system RAM: an address of the machine, or an offset.
pub open spec fn ram_offset(address: u32) -> int {
    if address >= GBA_SYSTEM_RAM_BASE {
        address - GBA_SYSTEM_RAM_BASE
    } else {
        address as int
    }
}

/// What is wrong with a range that does not fit.
pub open spec fn range_error(address: u32, size: u32, memory_size: usize) -> Seq<char> {
    "memory range 0x"@ + hex_bytes(be32(address as int)) + "+"@ + decimal(size as int)
        + " exceeds system RAM size "@ + decimal(memory_size as int)
}

/// Whether a range fits into the system RAM.
pub open spec fn ram_fits(address: u32, size: u32, memory_size: usize) -> bool {
    ram_offset(address) + size <= memory_size
}

/// The part of the system RAM that an access touches.
pub fn system_ram_range(address: u32, size: u32, memory_size: usize) -> (res: Result<
    Range<usize>,
    String,
>)
    ensures
        if ram_offset(address) + size > usize::MAX {
            res matches Err(why) && why@ == "memory range overflow"@
        } else if ram_fits(address, size, memory_size) {
            res matches Ok(range) && range.start == ram_offset(address) && range.end == ram_offset(
                address,
            ) + size
        } else {
            res matches Err(why) && why@ == range_error(address, size, memory_size)
        },
        res matches Ok(range) ==> {
            &&& address >= 0x0200_0000 ==> range.start == address - 0x0200_0000
            &&& address < 0x0200_0000 ==> range.start == address
            &&& range.end == range.start + size
            &&& range.end <= memory_size
        },
        address >= 0x0200_0000 && address - 0x0200_0000 + size <= memory_size ==> res is Ok,
        address < 0x0200_0000 && address + size <= memory_size ==> res is Ok,
{
    let start: usize = if address >= GBA_SYSTEM_RAM_BASE {
        (address - GBA_SYSTEM_RAM_BASE) as usize
    } else {
        address as usize
    };
    match start.checked_add(size as usize) {
        None => Err("memory range overflow".to_owned()),
        Some(end) => {
            if start > memory_size || end > memory_size {
                let head = join3("memory range 0x", &hex8_of(address), "+");
                let middle = join3(&head, &decimal_of(size as u64), " exceeds system RAM size ");
                Err(join2(&middle, &decimal_of(memory_size as u64)))
            } else {
                Ok(start..end)
            }
        },
    }
}

/// The answer to a read of the system RAM, if the core has one.
pub open spec fn read_answer(ram: Option<Seq<u8>>, address: u32, size: u32) -> ResponseView {
    match ram {
        None => ResponseView::Error { message: "system RAM is unavailable"@ },
        Some(bytes) => {
            let at = ram_offset(address);
            if at + size > usize::MAX {
                ResponseView::Error { message: "memory range overflow"@ }
            } else if at + size <= bytes.len() {
                ResponseView::MemoryData { data: bytes.subrange(at, at + size) }
            } else {
                ResponseView::Error { message: range_error(address, size, bytes.len() as usize) }
            }
        },
    }
}

/// The answer to an access where the core has no system RAM.
pub fn ram_unavailable() -> (response: WorkerResponseV1)
    ensures
        response@ == (ResponseView::Error { message: "system RAM is unavailable"@ }),
{
    WorkerResponseV1::Error { message: "system RAM is unavailable".to_owned() }
}

/// Reads the system RAM.
pub fn read_memory(ram: Option<&[u8]>, address: u32, size: u32) -> (response: WorkerResponseV1)
    ensures
        response@ == read_answer(
            match ram {
                Some(bytes) => Some(bytes@),
                None => None,
            },
            address,
            size,
        ),
{
    match ram {
        None => ram_unavailable(),
        Some(bytes) => {
            match system_ram_range(address, size, bytes.len()) {
                Ok(range) => WorkerResponseV1::MemoryData {
                    data: copy_range(bytes, range.start, range.end),
                },
                Err(message) => WorkerResponseV1::Error { message },
            }
        },
    }
}

/// The system RAM with bytes written over it from `at` on.
pub open spec fn written(ram: Seq<u8>, at: int, data: Seq<u8>) -> Seq<u8> {
    Seq::new(
        ram.len(),
        |i: int|
            if at <= i < at + data.len() {
                data[i - at]
            } else {
                ram[i]
            },
    )
}

/// The system RAM after a write: one that does not fit changes nothing.
pub open spec fn after_write(ram: Seq<u8>, address: u32, data: Seq<u8>) -> Seq<u8> {
    if ram_offset(address) + data.len() <= ram.len() {
        written(ram, ram_offset(address), data)
    } else {
        ram
    }
}

/// Writes to the system RAM.
pub fn write_memory(ram: &mut [u8], address: u32, data: &[u8]) -> (response: WorkerResponseV1)
    requires
        data@.len() <= u32::MAX,
    ensures
        final(ram)@.len() == old(ram)@.len(),
        final(ram)@ == after_write(old(ram)@, address, data@),
        ({
            let at = ram_offset(address);
            let len = data@.len();
            if at + len <= old(ram)@.len() {
                response@ == ResponseView::Done && final(ram)@ == written(old(ram)@, at, data@)
            } else {
                final(ram)@ == old(ram)@ && response@ == (ResponseView::Error {
                    message: if at + len > usize::MAX {
                        "memory range overflow"@
                    } else {
                        range_error(address, len as u32, old(ram)@.len() as usize)
                    },
                })
            }
        }),
{
    match system_ram_range(address, data.len() as u32, ram.len()) {
        Err(message) => WorkerResponseV1::Error { message },
        Ok(range) => {
            let start: usize = range.start;
            let mut i: usize = 0;
            let end: usize = range.end;
            let ghost before = ram@;
            while i < data.len()
                invariant
                    i <= data@.len(),
                    ram@.len() == before.len(),
                    start + data@.len() == end,
                    end <= before.len(),
                    ram@ == written(before, start as int, data@.take(i as int)),
                decreases data.len() - i,
            {
                ram[start + i] = data[i];
                i += 1;
                assert(ram@ =~= written(before, start as int, data@.take(i as int)));
            }
            assert(data@.take(i as int) =~= data@);
            WorkerResponseV1::Done
        },
    }
}

/// What was written is read back.
pub proof fn law_written_memory_is_read_back(ram: Seq<u8>, address: u32, data: Seq<u8>)
    requires
        ram.len() <= usize::MAX,
        data.len() <= u32::MAX,
        ram_offset(address) + data.len() <= ram.len(),
    ensures
        read_answer(
            Some(written(ram, ram_offset(address), data)),
            address,
            data.len() as u32,
        ) == (ResponseView::MemoryData { data }),
{
    let at = ram_offset(address);
    let after = written(ram, at, data);
    assert(after.subrange(at, at + data.len()) =~= data);
}

/// A write changes nothing that a read elsewhere sees.
pub proof fn law_write_is_local(ram: Seq<u8>, written_at: u32, data: Seq<u8>, address: u32, size: u32)
    requires
        ram_offset(written_at) + data.len() <= ram.len() <= usize::MAX,
        ram_offset(address) + size <= ram_offset(written_at) || ram_offset(written_at) + data.len()
            <= ram_offset(address),
    ensures
        read_answer(Some(written(ram, ram_offset(written_at), data)), address, size)
            == read_answer(Some(ram), address, size),
{
    let at = ram_offset(address);
    let after = written(ram, ram_offset(written_at), data);
    if at + size <= ram.len() {
        assert(after.subrange(at, at + size) =~= ram.subrange(at, at + size));
    }
}

/// A read by an address of the machine gives the bytes from that address on: the byte at `address`
/// is that many bytes behind 0x02000000. A smaller address counts from the start of the RAM. A range
/// that does not lie in the RAM gives no bytes.
pub proof fn law_reads_go_by_address(ram: Seq<u8>, address: u32, size: u32)
    requires
        ram.len() <= usize::MAX,
    ensures
        ({
            let from = if address >= 0x0200_0000 {
                address - 0x0200_0000
            } else {
                address as int
            };
            let answer = read_answer(Some(ram), address, size);
            &&& from + size <= ram.len() ==> {
                &&& answer is MemoryData
                &&& answer->MemoryData_data.len() == size
                &&& forall|i: int|
                    0 <= i < size ==> #[trigger] answer->MemoryData_data[i] == ram[from + i]
            }
            &&& from + size > ram.len() ==> answer is Error
        }),
{
}

/// A write by an address of the machine changes the bytes at that address and the ones behind it,
/// and no others: the byte at any address `other` is then the one that was written there, or the one
/// that it was. A write that does not lie in the RAM changes nothing.
pub proof fn law_writes_go_by_address(ram: Seq<u8>, address: u32, data: Seq<u8>, other: u32)
    requires
        0x0200_0000 <= address,
        0x0200_0000 <= other < 0x0200_0000 + ram.len(),
    ensures
        ({
            let after = after_write(ram, address, data);
            &&& after.len() == ram.len()
            &&& after[other - 0x0200_0000] == if address + data.len() <= 0x0200_0000 + ram.len()
                && address <= other < address + data.len() {
                data[other - address]
            } else {
                ram[other - 0x0200_0000]
            }
        }),
{
}

/// Reads of two different addresses of the machine touch different bytes: a byte that is written at
/// one is read there, and leaves what is read at the other.
pub proof fn law_addresses_do_not_meet(ram: Seq<u8>, address: u32, byte: u8, other: u32)
    requires
        0x0200_0000 <= address < 0x0200_0000 + ram.len(),
        0x0200_0000 <= other < 0x0200_0000 + ram.len(),
        ram.len() <= usize::MAX,
    ensures
        ({
            let after = after_write(ram, address, seq![byte]);
            &&& read_answer(Some(after), address, 1) == (ResponseView::MemoryData {
                data: seq![byte],
            })
            &&& other != address ==> read_answer(Some(after), other, 1) == read_answer(
                Some(ram),
                other,
                1,
            )
        }),
{
    let after = after_write(ram, address, seq![byte]);
    let at = address - 0x0200_0000;
    assert(after.subrange(at, at + 1) =~= seq![byte]);
    if other != address {
        let o = other - 0x0200_0000;
        assert(after.subrange(o, o + 1) =~= ram.subrange(o, o + 1));
    }
}

/// The saved states of an emulator, by slot.
#[derive(Debug)]
pub struct SaveStates {
    slots: HashMap<u8, Vec<u8>>,
}

fn slot_error(failed: &str, slot: u8) -> (response: WorkerResponseV1)
    ensures
        response@ == (ResponseView::Error { message: failed@ + decimal(slot as int) }),
{
    WorkerResponseV1::Error { message: join2(failed, &decimal_of(slot as u64)) }
}

impl SaveStates {
    /// The state in a slot.
    pub closed spec fn saved(&self, slot: u8) -> Option<Seq<u8>> {
        if self.slots@.dom().contains(slot) {
            Some(self.slots@[slot]@)
        } else {
            None
        }
    }

    /// No state saved.
    pub fn new() -> (states: Self)
        ensures
            forall|slot: u8| #[trigger] states.saved(slot) is None,
    {
        SaveStates { slots: HashMap::new() }
    }

    /// Keeps what the core wrote as its state. `size` is how long the core said that it would be,
    /// and there is no state where the core failed.
    pub fn save(&mut self, slot: u8, size: usize, state: Option<Vec<u8>>) -> (response:
        WorkerResponseV1)
        ensures
            forall|other: u8|
                other != slot ==> #[trigger] final(self).saved(other) == old(self).saved(other),
            if size == 0 {
                response@ == (ResponseView::Error {
                    message: "save states are unsupported by this core"@,
                }) && final(self).saved(slot) == old(self).saved(slot)
            } else {
                match state {
                    None => response@ == (ResponseView::Error {
                        message: "failed to save state slot "@ + decimal(slot as int),
                    }) && final(self).saved(slot) == old(self).saved(slot),
                    Some(data) => response@ == (ResponseView::StateData { data: data@ })
                        && final(self).saved(slot) == Some(data@),
                }
            },
    {
        if size == 0 {
            return WorkerResponseV1::Error {
                message: "save states are unsupported by this core".to_owned(),
            };
        }
        match state {
            None => slot_error("failed to save state slot ", slot),
            Some(data) => {
                let _ = self.slots.insert(slot, data.clone());
                WorkerResponseV1::StateData { data }
            },
        }
    }

    /// The state that the core is given to load, or the answer where the slot is empty.
    pub fn load(&self, slot: u8) -> (res: Result<&Vec<u8>, WorkerResponseV1>)
        ensures
            match self.saved(slot) {
                Some(state) => res matches Ok(data) && data@ == state,
                None => res matches Err(response) && response@ == (ResponseView::Error {
                    message: "state slot "@ + decimal(slot as int) + " is empty"@,
                }),
            },
    {
        match self.slots.get(&slot) {
            Some(data) => Ok(data),
            None => Err(
                WorkerResponseV1::Error {
                    message: join3("state slot ", &decimal_of(slot as u64), " is empty"),
                },
            ),
        }
    }
}

/// The answer to a load of a state, once the core has taken it or not.
pub fn loaded_state(slot: u8, taken: bool) -> (response: WorkerResponseV1)
    ensures
        response@ == if taken {
            ResponseView::Done
        } else {
            ResponseView::Error { message: "failed to load state slot "@ + decimal(slot as int) }
        },
{
    if taken {
        WorkerResponseV1::Done
    } else {
        slot_error("failed to load state slot ", slot)
    }
}

/// How a core took a game.
#[derive(Debug)]
pub enum RomOutcome {
    /// The path cannot be handed to the core, with the reason in words.
    InvalidPath(String),
    /// The core refused the game.
    Refused,
    /// The game runs.
    Loaded,
}

/// The answer to a request to load a game.
pub fn loaded_rom(path: &str, outcome: RomOutcome) -> (response: WorkerResponseV1)
    ensures
        response@ == match outcome {
            RomOutcome::InvalidPath(why) => ResponseView::Error {
                message: "invalid ROM path: "@ + why@,
            },
            RomOutcome::Refused => ResponseView::Error { message: "failed to load ROM: "@ + path@ },
            RomOutcome::Loaded => ResponseView::Done,
        },
{
    match outcome {
        RomOutcome::InvalidPath(why) => WorkerResponseV1::Error {
            message: join2("invalid ROM path: ", &why),
        },
        RomOutcome::Refused => WorkerResponseV1::Error {
            message: join2("failed to load ROM: ", path),
        },
        RomOutcome::Loaded => WorkerResponseV1::Done,
    }
}

/// What is said of a range that does not fit: its address in eight hexadecimal digits, its size, and
/// the size of the memory.
pub proof fn law_range_in_words(address: u32, size: u32, memory_size: usize)
    ensures
        ({
            let bytes = be32(address as int);
            let digits = hex_bytes(bytes);
            &&& range_error(address, size, memory_size) == "memory range 0x"@ + digits + "+"@
                + decimal(size as int) + " exceeds system RAM size "@ + decimal(memory_size as int)
            &&& digits.len() == 8
            &&& 16_777_216 * bytes[0] + 65_536 * bytes[1] + 256 * bytes[2] + bytes[3] == address
        }),
{
    law_high_byte_comes_first(address as int);
    law_hex_is_two_digits_per_byte(be32(address as int));
}

} // verus!
