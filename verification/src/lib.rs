//! A verified CHIP-8 interpreter core.
//!
//! The machine state, the fetch-decode-execute cycle, and the semantics of
//! every instruction are specified as mathematical transition functions over
//! an abstract view of the machine, and the executable interpreter is proved
//! to follow them exactly.

pub mod laws;
mod machine;
pub mod semantics;
pub mod state;

pub use machine::Emu;
pub use semantics::Fault;
pub use state::EmuView;
pub use state::FONT_SIZE;
pub use state::NUM_KEYS;
pub use state::NUM_REGS;
pub use state::RAM_SIZE;
pub use state::SCREEN_HEIGHT;
pub use state::SCREEN_WIDTH;
pub use state::STACK_SIZE;
pub use state::START_ADDR;
