//! Cycle-accurate simulator of a small in-order scalar instruction pipeline:
//! fetch from a latency-modeled instruction memory, decode of 32-bit words
//! into structured instructions, and scoreboard-gated dispatch onto a pool of
//! latency-modeled execution units.

pub mod decode;
pub mod dispatch;
pub mod fetch;
pub mod frontend;
pub mod instruction;
pub mod io;
pub mod memory;
pub mod scoreboard;
pub mod units;

pub use decode::DecodeStage;
pub use dispatch::DispatchQueue;
pub use dispatch::DispatchStage;
pub use fetch::FetchStage;
pub use frontend::ScalarFrontend;
pub use instruction::Instruction;
pub use instruction::InstructionBuffer;
pub use instruction::InstructionType;
pub use instruction::RawInstruction;
pub use instruction::UnitKind;
pub use io::Future;
pub use io::Poll;
pub use memory::Dtcm;
pub use memory::Itcm;
pub use memory::ItcmRead;
pub use scoreboard::Scoreboard;
pub use units::AluUnit;
pub use units::BruUnit;
pub use units::LsuUnit;
