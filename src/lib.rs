//! Host metrics sampling: parsers for kernel counter tables and tool output,
//! the CPU and network rate samplers' update rules, and snapshot assembly.
pub mod text;
pub mod counters;
pub mod rates;
pub mod disk;
pub mod vnstat;
pub mod snapshot;
