//! Console and interrupt-dispatch core of a small freestanding kernel: a text
//! grid writer with scrolling, the numbering of hardware interrupt lines, the
//! vector-table layout, keyboard scancode handling and the decisions each
//! interrupt handler takes.

pub mod interrupts;
pub mod keyboard;
pub mod test_exit;
pub mod vga_buffer;
