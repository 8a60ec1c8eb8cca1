//! A software model of an ARMv6-M (Cortex-M0 class) processor: a bit-pattern
//! matching engine, the condition-flag engine, a memory-mapped bus and the
//! Thumb fetch/decode/execute core built on them.
pub mod bitdecode;
pub mod cpu;
pub mod cpuflag;
pub mod debug_info;
pub mod device;
pub mod instruction;
