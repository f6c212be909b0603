//! The data of import descriptions: pins, packages and schematic contents.
use vstd::prelude::*;

verus! {

/// Component kind (Altium's component kinds).
#[derive(Clone, Copy, Debug, PartialEq, Eq, Structural)]
pub enum ComponentKind {
    Standard,
    StandardNoBom,
    Mechanical,
    Graphical,
    NetTie,
    NetTieNoBom,
}

/// Symbol generation style.
#[derive(Clone, Copy, Debug, PartialEq, Eq, Structural)]
pub enum SymbolStyle {
    /// Standard IC: rectangle body with pins on four sides.
    Ic,
    /// Two-pin passive (resistor, capacitor, ...).
    Discrete,
    /// Power port symbol.
    Power,
    /// Multi-row pin grid connector.
    Connector,
}

/// Which side of the component body a pin attaches to.
#[derive(Clone, Copy, Debug, PartialEq, Eq, Structural)]
pub enum PinSide {
    Left,
    Right,
    Top,
    Bottom,
}

/// Pin electrical type.
#[derive(Clone, Copy, Debug, PartialEq, Eq, Structural)]
pub enum PinElectrical {
    Input,
    Output,
    Io,
    Passive,
    Power,
    Oc,
    Oe,
    Hiz,
}

impl PinElectrical {
    /// The lower-case name of the electrical type.
    pub fn to_str(&self) -> (r: &'static str)
        ensures
            r@ == match *self {
                PinElectrical::Input => "input"@,
                PinElectrical::Output => "output"@,
                PinElectrical::Io => "io"@,
                PinElectrical::Passive => "passive"@,
                PinElectrical::Power => "power"@,
                PinElectrical::Oc => "oc"@,
                PinElectrical::Oe => "oe"@,
                PinElectrical::Hiz => "hiz"@,
            },
    {
        match self {
            PinElectrical::Input => "input",
            PinElectrical::Output => "output",
            PinElectrical::Io => "io",
            PinElectrical::Passive => "passive",
            PinElectrical::Power => "power",
            PinElectrical::Oc => "oc",
            PinElectrical::Oe => "oe",
            PinElectrical::Hiz => "hiz",
        }
    }
}

impl PinSide {
    /// The lower-case name of the side.
    pub fn to_str(&self) -> (r: &'static str)
        ensures
            r@ == match *self {
                PinSide::Left => "left"@,
                PinSide::Right => "right"@,
                PinSide::Top => "top"@,
                PinSide::Bottom => "bottom"@,
            },
    {
        match self {
            PinSide::Left => "left",
            PinSide::Right => "right",
            PinSide::Top => "top",
            PinSide::Bottom => "bottom",
        }
    }
}

/// A pin definition for a schematic symbol.
#[derive(Clone, Debug)]
pub struct SchLibPinDef {
    /// Pin designator / pad number (e.g., "1", "A1").
    pub designator: String,
    /// Pin name (e.g., "VCC").
    pub name: String,
    /// Which side of the body.
    pub side: PinSide,
    /// Electrical type.
    pub pin_type: PinElectrical,
    /// Pin description text.
    pub description: String,
    /// Hide pin from display.
    pub hidden: bool,
}

/// Package generation strategy.
#[derive(Clone, Copy, Debug, PartialEq, Eq, Structural)]
pub enum PackageType {
    Chip,
    DualRow,
    Quad,
    NoLead,
    Bga,
    Sot,
    SingleRow,
    Custom,
}

/// IPC-7351B density level.
#[derive(Clone, Copy, Debug, PartialEq, Eq, Structural)]
pub enum DensityLevel {
    Most,
    Nominal,
    Least,
}

/// SMD vs through-hole technology.
#[derive(Clone, Copy, Debug, PartialEq, Eq, Structural)]
pub enum Technology {
    Smd,
    ThroughHole,
}

/// Thermal via array definition for exposed pads.
#[derive(Clone, Debug)]
pub struct ThermalViaDef {
    pub rows: usize,
    pub cols: usize,
    pub pitch: String,
    pub hole_diameter: String,
    pub pad_diameter: String,
}

/// Exposed/thermal pad for no-lead packages.
#[derive(Clone, Debug)]
pub struct ExposedPadDef {
    pub width: String,
    pub height: String,
    pub designator: String,
    pub thermal_vias: Option<ThermalViaDef>,
}

/// A key-value parameter.
#[derive(Clone, Debug)]
pub struct ParameterDef {
    pub name: String,
    pub value: String,
}

/// Sheet properties.
#[derive(Clone, Debug)]
pub struct SheetDef {
    pub title: Option<String>,
    pub size: String,
    pub parameters: Vec<ParameterDef>,
}

/// Placement region hint for auto-layout.
#[derive(Clone, Copy, Debug, PartialEq, Eq, Structural)]
pub enum PlacementRegion {
    Center,
    Top,
    Bottom,
    Left,
    Right,
    TopLeft,
    TopRight,
    BottomLeft,
    BottomRight,
}

/// A component instance on the schematic.
#[derive(Clone, Debug)]
pub struct SchDocComponentDef {
    pub designator: String,
    pub lib_reference: String,
    pub value: String,
    pub region: Option<PlacementRegion>,
    pub group: Option<String>,
}

/// A net definition with connectivity.
#[derive(Clone, Debug)]
pub struct NetDef {
    pub name: String,
    pub power: Option<String>,
    pub orientation: Option<String>,
    /// Pin connections ("U1:VCC" by name, "U1.8" by designator).
    pub connections: Vec<String>,
}

/// A sheet port for hierarchical designs.
#[derive(Clone, Debug)]
pub struct PortDef {
    pub name: String,
    pub port_type: String,
    pub net: String,
}

/// A complete schematic document definition.
#[derive(Clone, Debug)]
pub struct SchDocImport {
    pub sheet: SheetDef,
    pub components: Vec<SchDocComponentDef>,
    pub nets: Vec<NetDef>,
    pub ports: Vec<PortDef>,
    pub no_erc: Vec<String>,
    pub parameters: Vec<ParameterDef>,
}

} // verus!
