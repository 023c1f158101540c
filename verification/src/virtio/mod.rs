//! A VirtIO transport: split virtqueues in guest memory and the register
//! file of a device.

use vstd::prelude::*;

pub mod device;
pub mod queue;

verus! {

/// The largest number of queues of a device.
pub const MAX_QUEUE: u32 = 8;

/// The largest size of a queue.
pub const MAX_QUEUE_NUM: u16 = 16;

pub const MMIO_MAGIC_VALUE: u64 = 0x000;

pub const MMIO_VERSION: u64 = 0x004;

pub const MMIO_DEVICE_ID: u64 = 0x008;

pub const MMIO_VENDOR_ID: u64 = 0x00c;

pub const MMIO_DEVICE_FEATURES: u64 = 0x010;

pub const MMIO_DEVICE_FEATURES_SEL: u64 = 0x014;

pub const MMIO_DRIVER_FEATURES: u64 = 0x020;

pub const MMIO_QUEUE_SEL: u64 = 0x030;

pub const MMIO_QUEUE_NUM_MAX: u64 = 0x034;

pub const MMIO_QUEUE_NUM: u64 = 0x038;

pub const MMIO_QUEUE_READY: u64 = 0x044;

pub const MMIO_QUEUE_NOTIFY: u64 = 0x050;

pub const MMIO_INTERRUPT_STATUS: u64 = 0x060;

pub const MMIO_INTERRUPT_ACK: u64 = 0x064;

pub const MMIO_STATUS: u64 = 0x070;

pub const MMIO_QUEUE_DESC_LOW: u64 = 0x080;

pub const MMIO_QUEUE_DESC_HIGH: u64 = 0x084;

pub const MMIO_QUEUE_AVAIL_LOW: u64 = 0x090;

pub const MMIO_QUEUE_AVAIL_HIGH: u64 = 0x094;

pub const MMIO_QUEUE_USED_LOW: u64 = 0x0a0;

pub const MMIO_QUEUE_USED_HIGH: u64 = 0x0a4;

pub const MMIO_CONFIG: u64 = 0x100;

/// The descriptor continues in the descriptor that `next` names.
pub const DESC_F_NEXT: u16 = 0x1;

/// The device writes the buffer; the driver reads it.
pub const DESC_F_WRITE: u16 = 0x2;

/// Where a VirtIO device sits on the bus.
pub struct VirtIOInfo {
    pub base: u64,
    pub size: u64,
    pub irq_id: u32,
    pub ty: String,
}

} // verus!
