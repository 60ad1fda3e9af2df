//! Bring-up layer for a Raspberry-Pi-class board: the GPU mailbox property
//! protocol, the linear framebuffer it negotiates, and a PSF glyph renderer.
//!
//! Every hardware access is left to the caller: the library decides what is
//! written where and how each register value read back is interpreted.

pub mod font;
pub mod framebuffer;
pub mod mbox;
pub mod uart;
