//! The fan headers of a board, and access to their files.

use crate::error::HwmonError;
use vstd::prelude::*;

verus! {

/// A fan header.
#[derive(Debug)]
pub struct PwmHeaderDescriptor {
    /// Stable id.
    pub id: String,
    /// The name of the chip.
    pub chip_name: String,
    /// Whether it has a control mode.
    pub supports_enable: bool,
    /// The path of `pwmN_enable`, where there is one.
    pub enable_path: Option<String>,
    /// The path of `pwmN`.
    pub pwm_path: String,
    /// Whether `pwmN` can be written.
    pub is_writable: bool,
}

/// An access to a file, and what came of it.
#[verifier::ext_equal]
pub enum Access {
    /// A value was written, or the write was refused.
    Wrote { path: Seq<char>, value: Seq<char>, taken: bool },
    /// A file was read; there is no text where that failed.
    Read { path: Seq<char>, content: Option<Seq<char>> },
}

/// Access to the files of fan headers. A writer remembers what it did; what a file holds
/// is not for it to say, since the hardware changes it.
pub trait SysfsWriter {
    /// Every access so far, the latest last. This stands in contracts only: a
    /// writer outside of this library need not define it.
    closed spec fn accesses(&self) -> Seq<Access> {
        arbitrary()
    }

    /// Tries to write a value to a file.
    fn write_file(&mut self, path: &str, value: &str) -> (r: Result<(), HwmonError>)
        ensures
            final(self).accesses() == old(self).accesses().push(
                Access::Wrote { path: path@, value: value@, taken: r is Ok },
            ),
    ;

    /// Tries to read a file.
    fn read_file(&mut self, path: &str) -> (r: Result<String, HwmonError>)
        ensures
            final(self).accesses() == old(self).accesses().push(
                Access::Read {
                    path: path@,
                    content: match r {
                        Ok(t) => Some(t@),
                        Err(e) => None,
                    },
                },
            ),
    ;
}

} // verus!
