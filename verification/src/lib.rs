//! A small stack-oriented virtual machine for a custom bytecode language.
//!
//! Programs are written in an S-expression assembly dialect, assembled into an
//! instruction tree, serialized to a compact byte stream, and executed by a
//! tree-walking interpreter with an operand stack, per-call locals frames,
//! heap-allocated field objects and structured control flow.

pub mod wire;
pub mod bytecode;
pub mod instruction;
pub mod encode;
pub mod decode;
pub mod roundtrip;
pub mod byte_reader;
pub mod value;
pub mod function;
pub mod module;
pub mod dymodule;
pub mod host;
pub mod virtual_machine;
pub mod loader;
pub mod sexpr;
pub mod parser;
pub mod byte_writer;

pub use byte_reader::ByteReader;
pub use byte_writer::ByteWriter;
