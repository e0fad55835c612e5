//! A minimal software-rendered framebuffer: a packed 32-bit color type with
//! channel-wise arithmetic, and a canvas holding a color plane and a depth
//! plane, written through a depth-tested pixel write path.

pub mod canvas;
pub mod depth;
