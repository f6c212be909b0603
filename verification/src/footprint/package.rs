//! Package kinds.
use vstd::prelude::*;

verus! {

/// Common package types.
#[derive(Clone, Copy, Debug, PartialEq, Eq, Structural)]
pub enum PackageType {
    /// Chip resistor/capacitor (0201, 0402, 0603, ...).
    Chip,
    /// Small Outline Transistor.
    Sot,
    /// Small Outline Package.
    Sop,
    /// Small Outline Integrated Circuit.
    Soic,
    /// Thin Small Outline Package.
    Tssop,
    /// Quad Flat Package.
    Qfp,
    /// Quad Flat No-lead.
    Qfn,
    /// Ball Grid Array.
    Bga,
    /// Dual In-line Package.
    Dip,
    /// Pin Grid Array.
    Pga,
    /// Through-hole connector.
    Connector,
}

/// Lead style for packages.
#[derive(Clone, Copy, Debug, PartialEq, Eq, Structural)]
pub enum LeadStyle {
    GullWing,
    JLead,
    Flat,
    Ball,
    ThroughHole,
    Chip,
}

/// IPC-7351 density levels.
#[derive(Clone, Copy, Debug, PartialEq, Eq, Structural)]
pub enum IpcDensity {
    /// Level A.
    MostDense,
    /// Level B.
    Nominal,
    /// Level C.
    LeastDense,
}

} // verus!
