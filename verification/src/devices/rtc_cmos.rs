//! A real-time clock that stands still. A guest waits for the clock's update flag to clear
//! before it reads the time; here it is always clear.

use vstd::prelude::*;

use super::device::Device;
use crate::bytes;

verus! {

/// The port that selects a register.
pub const RTC_INDEX_PORT: u16 = 0x70;

/// The port through which the selected register is reached.
pub const RTC_DATA_PORT: u16 = 0x71;

pub const REG_DAY_OF_MONTH: u8 = 0x07;

pub const REG_MONTH: u8 = 0x08;

pub const REG_YEAR: u8 = 0x09;

/// Status A; its top bit says that an update is in progress.
pub const REG_STATUS_A: u8 = 0x0A;

/// Status B: the format of the time.
pub const REG_STATUS_B: u8 = 0x0B;

/// Status D; its top bit says that memory and time are valid.
pub const REG_STATUS_D: u8 = 0x0D;

/// The clock and its 128 registers.
pub struct RtcCmos {
    index: u8,
    ram: [u8; 128],
}

/// The registers of a new clock: midnight on the first of January 2024, in binary and 24-hour
/// format, with no update in progress.
pub open spec fn fresh_registers() -> Seq<u8> {
    Seq::new(
        128,
        |i: int|
            if i == REG_DAY_OF_MONTH || i == REG_MONTH {
                1
            } else if i == REG_YEAR {
                24
            } else if i == REG_STATUS_A {
                0x26
            } else if i == REG_STATUS_B {
                0x06
            } else if i == REG_STATUS_D {
                0x80
            } else {
                0u8
            },
    )
}

impl RtcCmos {
    /// The selected register.
    pub closed spec fn selected(&self) -> u8 {
        self.index
    }

    /// The registers.
    pub closed spec fn registers(&self) -> Seq<u8> {
        self.ram@
    }

    /// What a read at `offset` gives: the index at the index port, else the selected register,
    /// without the update flag of status A.
    pub open spec fn value(&self, offset: u64) -> u8 {
        let i = self.selected() % 128;
        if offset == 0 {
            self.selected()
        } else if i == REG_STATUS_A {
            (self.registers()[i as int] % 128) as u8
        } else {
            self.registers()[i as int]
        }
    }

    pub fn new() -> (r: Self)
        ensures
            r.selected() == 0,
            r.registers() == fresh_registers(),
    {
        let mut ram: [u8; 128] = [0; 128];
        ram[REG_DAY_OF_MONTH as usize] = 1;
        ram[REG_MONTH as usize] = 1;
        ram[REG_YEAR as usize] = 24;
        ram[REG_STATUS_A as usize] = 0x26;
        ram[REG_STATUS_B as usize] = 0x06;
        ram[REG_STATUS_D as usize] = 0x80;
        assert(ram@ =~= fresh_registers());
        RtcCmos { index: 0, ram }
    }
}

impl Default for RtcCmos {
    fn default() -> (r: Self)
        ensures
            r.selected() == 0,
            r.registers() == fresh_registers(),
    {
        RtcCmos::new()
    }
}

/// The update flag never shows, whatever the guest has stored.
pub proof fn update_never_in_progress(c: &RtcCmos)
    requires
        c.selected() == REG_STATUS_A,
    ensures
        c.value(1) < 0x80,
{
}

/// Selecting a register takes the low seven bits; the top one is another matter.
pub open spec fn rtc_written(c: &RtcCmos, offset: u64, data: Seq<u8>, post: &RtcCmos) -> bool {
    if data.len() == 0 {
        *post == *c
    } else if offset == 0 {
        post.selected() == data[0] % 128 && post.registers() == c.registers()
    } else {
        &&& post.selected() == c.selected()
        &&& post.registers() == c.registers().update(c.selected() as int % 128, data[0])
    }
}

/// A register other than status A reads back what was stored in it.
pub proof fn register_roundtrip(c: &RtcCmos, v: u8, post: &RtcCmos)
    requires
        rtc_written(c, 1, seq![v], post),
        c.registers().len() == 128,
        c.selected() % 128 != REG_STATUS_A,
    ensures
        post.value(1) == v,
{
}

impl Device for RtcCmos {
    open spec fn reads(&self, offset: u64, before: Seq<u8>, post: &Self, after: Seq<u8>) -> bool {
        &&& *post == *self
        &&& after == bytes::lead(self.value(offset), before.len())
    }

    open spec fn writes(&self, offset: u64, data: Seq<u8>, post: &Self) -> bool {
        rtc_written(self, offset, data, post)
    }

    fn read(&mut self, offset: u64, data: &mut [u8]) {
        let val: u8 = if offset == 0 {
            self.index
        } else {
            let i: u8 = self.index % 128;
            if i == REG_STATUS_A {
                self.ram[i as usize] % 128
            } else {
                self.ram[i as usize]
            }
        };
        bytes::fill_lead(data, val);
    }

    fn write(&mut self, offset: u64, data: &[u8]) {
        if data.len() == 0 {
            return;
        }
        if offset == 0 {
            self.index = data[0] % 128;
        } else {
            let i: usize = (self.index % 128) as usize;
            self.ram[i] = data[0];
        }
    }
}

} // verus!
