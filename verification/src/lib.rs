//! Guest physical address space for a system-level emulator: memory regions
//! with typed access, a first-fit block allocator, an address-keyed space,
//! interrupt vectors and a VirtIO split-queue transport.

pub mod devices;
pub mod irq;
pub mod memory;
pub mod space;
pub mod virtio;
