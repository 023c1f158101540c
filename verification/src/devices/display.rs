//! Frame buffers and the input devices that go with a display.

use vstd::prelude::*;

verus! {

/// The layout of a pixel in a frame buffer.
#[derive(Clone, Copy, Debug, PartialEq, Eq, Structural)]
pub enum PixelFormat {
    RGB565,
    RGB888,
}

impl PixelFormat {
    /// The number of bytes that a pixel takes.
    pub open spec fn bytes_per_pixel(self) -> u32 {
        match self {
            PixelFormat::RGB565 => 2,
            PixelFormat::RGB888 => 4,
        }
    }

    /// The number of bytes that a pixel takes: 2 for `RGB565`, and 4 for
    /// `RGB888`, whose pixels are padded to a word.
    pub fn size(&self) -> (r: u32)
        ensures
            r == self.bytes_per_pixel(),
    {
        match self {
            PixelFormat::RGB565 => 2,
            PixelFormat::RGB888 => 4,
        }
    }
}

pub const MOUSE_BTN_LEFT: u32 = 0x1;

pub const MOUSE_BTN_RIGHT: u32 = 0x2;

pub const MOUSE_BTN_MIDDLE: u32 = 0x3;

/// A device that takes key presses.
pub trait KeyBoard {
    fn send_key_event(&self, key_down: bool, val: u32);
}

/// A device that takes the movements and buttons of a mouse.
pub trait Mouse {
    fn send_mouse_event(&self, x: i32, y: i32, z: i32, buttons: u32);

    fn mouse_absolute(&self) -> bool;
}

/// A frame buffer: pixels in lines of `stride` bytes.
pub trait FrameBuffer {
    fn width(&self) -> u32;

    fn height(&self) -> u32;

    fn stride(&self) -> u32;

    fn pixel_format(&self) -> &PixelFormat;
}

} // verus!
