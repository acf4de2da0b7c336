//! The arithmetic of the network adapter: register values and the
//! bookkeeping of the descriptor rings. Reading and writing the device is left
//! to the caller.

use vstd::prelude::*;

verus! {

/// The vendor of the adapter, in the configuration space of the device.
pub const VENDOR_ID: u16 = 0x8086;

/// The model of the adapter, in the configuration space of the device.
pub const DEVICE_ID: u16 = 0x100e;

/// The number of descriptors in each ring. It is a power of two.
pub const RING_SIZE: usize = 16;

/// The number of bytes in the buffer of each descriptor.
pub const BUFFER_SIZE: usize = 16384;

/// The largest packet handed to the network stack, in bytes.
pub const MTU: usize = 2048;

/// The largest number of packets in one burst.
pub const MAX_BURST_SIZE: usize = 16;

/// Status bit of a receive descriptor: the device is done with it.
pub const RD_DD: u8 = 1;

/// Command bit of a transmit descriptor: end of packet.
pub const TD_CMD_EOP: u8 = 1;

/// Command bit of a transmit descriptor: insert the frame check sequence.
pub const TD_CMD_IFCS: u8 = 2;

/// Command bit of a transmit descriptor: report the status.
pub const TD_CMD_RS: u8 = 8;

/// Control bit: the device is being reset.
pub const CTRL_RST: u32 = 0x400_0000;

/// Status bit: the link is up.
pub const STATUS_LINK_UP: u32 = 2;

/// The index after `index` in a ring of `ring_size` descriptors, where
/// `ring_size` is a power of two.
pub fn wrap_ring(index: usize, ring_size: usize) -> (next: usize)
    requires
        ring_size > 0,
        index < usize::MAX,
    ensures
        next == (index + 1) as usize & (ring_size - 1) as usize,
        ring_size == RING_SIZE ==> next == (index + 1) % (RING_SIZE as int),
{
    let next = (index + 1) & (ring_size - 1);
    let after = index + 1;
    assert(after & 15 == after % 16) by (bit_vector);
    next
}

/// The bytes of the link address, from the two registers that hold it: the
/// four bytes of the low register, the least significant first, and then the
/// two low bytes of the high register.
pub open spec fn mac_bytes(mac_low: u32, mac_high: u32) -> Seq<u8> {
    seq![
        (mac_low % 0x100) as u8,
        (mac_low / 0x100 % 0x100) as u8,
        (mac_low / 0x1_0000 % 0x100) as u8,
        (mac_low / 0x100_0000) as u8,
        (mac_high % 0x100) as u8,
        (mac_high / 0x100 % 0x100) as u8,
    ]
}

/// The link address, from the values of the two registers that hold it.
pub fn read_mac_address(mac_low: u32, mac_high: u32) -> (mac: [u8; 6])
    ensures
        mac@ == mac_bytes(mac_low, mac_high),
{
    let mac = [
        (mac_low % 0x100) as u8,
        (mac_low / 0x100 % 0x100) as u8,
        (mac_low / 0x1_0000 % 0x100) as u8,
        (mac_low / 0x100_0000) as u8,
        (mac_high % 0x100) as u8,
        (mac_high / 0x100 % 0x100) as u8,
    ];
    assert(mac@ =~= mac_bytes(mac_low, mac_high));
    mac
}

/// The value to write to a register in order to set or to clear the bits of
/// `bits`, given the value that the register holds.
pub fn flag(current: u32, bits: u32, value: bool) -> (next: u32)
    ensures
        next == if value {
            current | bits
        } else {
            current & !bits
        },
{
    if value {
        current | bits
    } else {
        current & !bits
    }
}

/// Whether the device is still being reset, by the control register.
pub fn reset_pending(control: u32) -> (r: bool)
    ensures
        r == (control & CTRL_RST == CTRL_RST),
{
    control & CTRL_RST == CTRL_RST
}

/// Whether the link is up, by the status register.
pub fn link_up(status: u32) -> (r: bool)
    ensures
        r == (status & STATUS_LINK_UP == STATUS_LINK_UP),
{
    status & STATUS_LINK_UP == STATUS_LINK_UP
}

/// The speed of the link.
#[derive(Clone, Copy, Debug, PartialEq, Eq, Structural)]
pub enum LinkSpeed {
    Mbps10,
    Mbps100,
    Mbps1000,
}

/// The speed of the link, by bits 6 and 7 of the status register.
pub fn link_speed(status: u32) -> (speed: LinkSpeed)
    ensures
        speed == match (status / 0x40) % 4 {
            0 => LinkSpeed::Mbps10,
            1 => LinkSpeed::Mbps100,
            _ => LinkSpeed::Mbps1000,
        },
{
    let bits = (status / 0x40) % 4;
    if bits == 0 {
        LinkSpeed::Mbps10
    } else if bits == 1 {
        LinkSpeed::Mbps100
    } else {
        LinkSpeed::Mbps1000
    }
}

/// The values of the three registers that describe a descriptor ring to the
/// device.
#[derive(Clone, Copy, Debug, PartialEq, Eq, Structural)]
pub struct RingRegisters {
    /// The upper half of the physical address of the ring.
    pub base_high: u32,
    /// The lower half of the physical address of the ring.
    pub base_low: u32,
    /// The size of the ring in bytes.
    pub length: u32,
}

/// The register values for a ring of `RING_SIZE` descriptors of
/// `descriptor_size` bytes each at the physical address `physical`.
pub fn ring_registers(physical: u64, descriptor_size: usize) -> (r: RingRegisters)
    requires
        RING_SIZE * descriptor_size <= u32::MAX,
    ensures
        r.base_high == physical / 0x1_0000_0000,
        r.base_low == physical % 0x1_0000_0000,
        r.length == RING_SIZE * descriptor_size,
{
    RingRegisters {
        base_high: (physical / 0x1_0000_0000) as u32,
        base_low: (physical % 0x1_0000_0000) as u32,
        length: (RING_SIZE * descriptor_size) as u32,
    }
}

/// The base of the memory space of the device, by the first two base address
/// registers: the first must describe 32-bit memory space and the second
/// port space, and neither may be zero. The base is the first register
/// without its low eight bits.
pub open spec fn memory_space(bar0: u32, bar1: u32) -> Option<u32> {
    if bar0 != 0 && bar1 != 0 && bar0 & 1 == 0 && bar1 & 1 == 1 && bar0 & 6 == 0 {
        Some(bar0 & !0xffu32)
    } else {
        None
    }
}

/// Checks the first two base address registers of the device and gives the
/// base of its memory space.
pub fn setup_1000e(bar0: u32, bar1: u32) -> (base: Option<u32>)
    ensures
        base == memory_space(bar0, bar1),
{
    if bar0 != 0 && bar1 != 0 && bar0 & 1 == 0 && bar1 & 1 == 1 && bar0 & 6 == 0 {
        Some(bar0 & !0xff)
    } else {
        None
    }
}

/// The smaller of two numbers.
pub open spec fn smaller(a: int, b: int) -> int {
    if a <= b {
        a
    } else {
        b
    }
}

/// What to do for a packet that the device has received.
#[derive(Clone, Copy, Debug, PartialEq, Eq, Structural)]
pub struct Received {
    /// The descriptor that holds the packet, and its buffer.
    pub slot: usize,
    /// The number of bytes to copy out of the buffer.
    pub len: usize,
    /// The value to write to the tail register of the receive ring.
    pub tail: u32,
}

/// The bookkeeping of the receive ring.
#[derive(Clone, Copy, Debug, PartialEq, Eq, Structural)]
pub struct RxHalf {
    pub receive_index: usize,
}

impl RxHalf {
    /// The index lies in the ring.
    pub open spec fn wf(&self) -> bool {
        self.receive_index < RING_SIZE
    }

    /// The bookkeeping of a ring that was just set up.
    pub fn new() -> (rx: RxHalf)
        ensures
            rx.wf(),
            rx.receive_index == 0,
    {
        RxHalf { receive_index: 0 }
    }

    /// Whether the next descriptor holds a packet, by its status.
    pub fn can_read(&self, status: u8) -> (r: bool)
        ensures
            r == (status & RD_DD == RD_DD),
    {
        status & RD_DD == RD_DD
    }

    /// Takes the packet of the next descriptor, if the device is done with
    /// it: given the status and the length that the descriptor reports and
    /// the room in the caller's buffer, says what to copy and moves on to the
    /// descriptor after it.
    pub fn read(&mut self, status: u8, length: u16, buf_len: usize) -> (r: Option<Received>)
        requires
            old(self).wf(),
            length <= BUFFER_SIZE,
        ensures
            final(self).wf(),
            match r {
                Some(received) => {
                    &&& status & RD_DD == RD_DD
                    &&& received.slot == old(self).receive_index
                    &&& received.len == smaller(buf_len as int, length as int)
                    &&& received.tail == old(self).receive_index
                    &&& final(self).receive_index == (old(self).receive_index + 1) % (
                    RING_SIZE as int)
                },
                None => status & RD_DD != RD_DD && *final(self) == *old(self),
            },
    {
        if status & RD_DD == RD_DD {
            let slot = self.receive_index;
            let len = if buf_len <= length as usize {
                buf_len
            } else {
                length as usize
            };
            self.receive_index = wrap_ring(self.receive_index, RING_SIZE);
            Some(Received { slot, len, tail: slot as u32 })
        } else {
            None
        }
    }
}

/// What to do for a packet that is handed to the device.
#[derive(Clone, Copy, Debug, PartialEq, Eq, Structural)]
pub struct Transmit {
    /// The descriptor to fill, and its buffer.
    pub slot: usize,
    /// The number of bytes to copy into the buffer.
    pub copy_len: usize,
    /// The length to write into the descriptor.
    pub length: u16,
    /// The command to write into the descriptor.
    pub command: u8,
    /// The value to write to the tail register of the transmit ring.
    pub tail: u32,
}

/// The bookkeeping of the transmit ring.
#[derive(Clone, Copy, Debug, PartialEq, Eq, Structural)]
pub struct TxHalf {
    /// The number of descriptors that can be filled.
    pub transmit_ring_free: usize,
    /// The next descriptor to fill.
    pub transmit_index: usize,
    /// The oldest descriptor that the device may still be working on.
    pub transmit_clean_index: usize,
}

impl TxHalf {
    /// The indices lie in the ring, and the descriptors between the oldest
    /// one in flight and the next one to fill are those that are not free.
    pub open spec fn wf(&self) -> bool {
        &&& self.transmit_ring_free <= RING_SIZE
        &&& self.transmit_index < RING_SIZE
        &&& self.transmit_clean_index < RING_SIZE
        &&& (self.transmit_clean_index + (RING_SIZE - self.transmit_ring_free)) % (
        RING_SIZE as int) == self.transmit_index
    }

    /// The bookkeeping of a ring that was just set up: every descriptor is
    /// free.
    pub fn new() -> (tx: TxHalf)
        ensures
            tx.wf(),
            tx == (TxHalf {
                transmit_ring_free: RING_SIZE,
                transmit_index: 0,
                transmit_clean_index: 0,
            }),
    {
        TxHalf { transmit_ring_free: RING_SIZE, transmit_index: 0, transmit_clean_index: 0 }
    }

    /// Whether a packet can be handed over: a descriptor is free, or the
    /// oldest one in flight is done, by its status.
    pub fn can_write(&self, status: u8) -> (r: bool)
        ensures
            r == (self.transmit_ring_free > 0 || status != 0),
    {
        if self.transmit_ring_free == 0 {
            if status != 0 {
                return true;
            }
        }
        self.transmit_ring_free > 0
    }

    /// One step of taking back descriptors that the device is done with,
    /// given the status of the oldest descriptor in flight. A descriptor that
    /// is done becomes free. The result says whether to take another step:
    /// that is so while no descriptor is free and the device is not done
    /// with the oldest one, and after taking one back, until all are free.
    pub fn reclaim(&mut self, status: u8) -> (again: bool)
        requires
            old(self).wf(),
            old(self).transmit_ring_free < RING_SIZE,
        ensures
            final(self).wf(),
            status != 0 ==> *final(self) == (TxHalf {
                transmit_ring_free: (old(self).transmit_ring_free + 1) as usize,
                transmit_index: old(self).transmit_index,
                transmit_clean_index: ((old(self).transmit_clean_index + 1) % (
                RING_SIZE as int)) as usize,
            }) && again == (final(self).transmit_ring_free < RING_SIZE),
            status == 0 ==> *final(self) == *old(self) && again == (old(
                self,
            ).transmit_ring_free == 0),
    {
        if status != 0 {
            self.transmit_clean_index = wrap_ring(self.transmit_clean_index, RING_SIZE);
            self.transmit_ring_free += 1;
        } else if self.transmit_ring_free > 0 {
            return false;
        }
        self.transmit_ring_free < RING_SIZE
    }

    /// Hands a packet of `buf_len` bytes to the device, if a descriptor is
    /// free: says which descriptor to fill and how, and moves on to the
    /// descriptor after it. As much of the packet is copied as the buffer
    /// holds; the length written into the descriptor stays one below the size
    /// of the buffer.
    pub fn write(&mut self, buf_len: usize) -> (r: Option<Transmit>)
        requires
            old(self).wf(),
        ensures
            final(self).wf(),
            match r {
                Some(transmit) => {
                    &&& old(self).transmit_ring_free > 0
                    &&& transmit.slot == old(self).transmit_index
                    &&& transmit.copy_len == smaller(buf_len as int, BUFFER_SIZE as int)
                    &&& transmit.length == smaller(buf_len as int, BUFFER_SIZE - 1)
                    &&& transmit.command == 11
                    &&& transmit.tail == final(self).transmit_index
                    &&& *final(self) == (TxHalf {
                        transmit_ring_free: (old(self).transmit_ring_free - 1) as usize,
                        transmit_index: ((old(self).transmit_index + 1) % (
                        RING_SIZE as int)) as usize,
                        transmit_clean_index: old(self).transmit_clean_index,
                    })
                },
                None => old(self).transmit_ring_free == 0 && *final(self) == *old(self),
            },
    {
        if self.transmit_ring_free == 0 {
            return None;
        }
        let slot = self.transmit_index;
        let copy_len = if buf_len <= BUFFER_SIZE {
            buf_len
        } else {
            BUFFER_SIZE
        };
        let length = if buf_len <= BUFFER_SIZE - 1 {
            buf_len as u16
        } else {
            (BUFFER_SIZE - 1) as u16
        };
        assert(TD_CMD_EOP | TD_CMD_IFCS | TD_CMD_RS == 11) by (bit_vector);
        let command = TD_CMD_EOP | TD_CMD_IFCS | TD_CMD_RS;
        self.transmit_index = wrap_ring(self.transmit_index, RING_SIZE);
        self.transmit_ring_free -= 1;
        Some(Transmit { slot, copy_len, length, command, tail: self.transmit_index as u32 })
    }
}

} // verus!
