//! Records that the diagnostics answers are made of.

use crate::text;
use vstd::prelude::*;

verus! {

/// A known hwmon driver module and whether it is loaded.
#[derive(Debug, Clone, PartialEq, Eq)]
pub struct KernelModuleInfo {
    pub name: String,
    pub loaded: bool,
    pub in_mainline: bool,
    pub version: Option<String>,
    pub srcversion: Option<String>,
    pub out_of_tree: Option<bool>,
}

/// What a `KernelModuleInfo` says.
pub struct KernelModuleView {
    pub name: Seq<char>,
    pub loaded: bool,
    pub in_mainline: bool,
    pub version: Option<Seq<char>>,
    pub srcversion: Option<Seq<char>>,
    pub out_of_tree: Option<bool>,
}

impl View for KernelModuleInfo {
    type V = KernelModuleView;

    open spec fn view(&self) -> KernelModuleView {
        KernelModuleView {
            name: self.name@,
            loaded: self.loaded,
            in_mainline: self.in_mainline,
            version: text::opt_text(self.version),
            srcversion: text::opt_text(self.srcversion),
            out_of_tree: self.out_of_tree,
        }
    }
}

/// Two loaded driver modules that race for the same chip.
#[derive(Debug, Clone, PartialEq, Eq)]
pub struct ModuleCollisionInfo {
    pub module_a: String,
    pub module_b: String,
    pub severity: String,
    pub summary: String,
    pub remediation: String,
}

/// What a `ModuleCollisionInfo` says.
pub struct ModuleCollisionView {
    pub module_a: Seq<char>,
    pub module_b: Seq<char>,
    pub severity: Seq<char>,
    pub summary: Seq<char>,
    pub remediation: Seq<char>,
}

impl View for ModuleCollisionInfo {
    type V = ModuleCollisionView;

    open spec fn view(&self) -> ModuleCollisionView {
        ModuleCollisionView {
            module_a: self.module_a@,
            module_b: self.module_b@,
            severity: self.severity@,
            summary: self.summary@,
            remediation: self.remediation@,
        }
    }
}

/// An I/O port range that ACPI claims and a hwmon driver needs.
#[derive(Debug, Clone, PartialEq, Eq)]
pub struct AcpiConflictInfo {
    pub io_range: String,
    pub claimed_by: String,
    pub conflicts_with_driver: String,
}

/// What an `AcpiConflictInfo` says.
pub struct AcpiConflictView {
    pub io_range: Seq<char>,
    pub claimed_by: Seq<char>,
    pub conflicts_with_driver: Seq<char>,
}

impl View for AcpiConflictInfo {
    type V = AcpiConflictView;

    open spec fn view(&self) -> AcpiConflictView {
        AcpiConflictView {
            io_range: self.io_range@,
            claimed_by: self.claimed_by@,
            conflicts_with_driver: self.conflicts_with_driver@,
        }
    }
}

/// The identity of the motherboard.
#[derive(Debug, Clone, PartialEq, Eq)]
pub struct BoardInfo {
    pub vendor: String,
    pub name: String,
    pub bios_version: String,
    pub bios_date: Option<String>,
}

} // verus!
