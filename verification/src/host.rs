//! What the embedding host supplies to the machine: native functions, and a
//! floating-point unit.
//!
//! Nothing is promised of these methods: native functions are arbitrary host
//! code, and floating-point results are outside what the machine's own rules
//! state. The machine's contracts therefore hold for every implementation.

use vstd::prelude::*;
use crate::value::Value;

verus! {

/// The host's floating-point unit, working on IEEE-754 bit patterns.
///
/// The machine stores floats as raw bits; an implementor interprets them,
/// computes, and hands bits back.
pub trait FloatUnit {
    /// Parses a decimal literal to float bits, for the assembler.
    fn from_decimal(&self, text: &str) -> Option<u32>;

    fn add(&self, a: u32, b: u32) -> u32;

    fn sub(&self, a: u32, b: u32) -> u32;

    fn mul(&self, a: u32, b: u32) -> u32;

    fn div(&self, a: u32, b: u32) -> u32;

    /// One more than `a`.
    fn inc(&self, a: u32) -> u32;

    /// One less than `a`.
    fn dec(&self, a: u32) -> u32;

    fn eq(&self, a: u32, b: u32) -> bool;

    fn lt(&self, a: u32, b: u32) -> bool;

    fn le(&self, a: u32, b: u32) -> bool;

    fn gt(&self, a: u32, b: u32) -> bool;

    fn ge(&self, a: u32, b: u32) -> bool;
}

/// The host side of a call into a native function: the registry names the
/// function, the host runs it.
pub trait Host {
    /// Runs the native function `function` of module `module` on `args`; a
    /// returned value is pushed onto the machine's stack.
    fn call_native(&mut self, module: &str, function: &str, args: Vec<Value>) -> Option<Value>;
}

} // verus!
