//! Schematic primitives as the editing engines read them.
//!
//! Each record keeps the fields the connectivity and editing logic uses:
//! locations in internal units, owner indices, texts.
use vstd::prelude::*;

verus! {

/// A component pin. Its hot end lies `pin_length` away from its location,
/// along +X, or +Y when rotated; flipping reverses the direction.
#[derive(Clone, Debug)]
pub struct SchPin {
    pub owner_index: i32,
    pub location_x: i32,
    pub location_y: i32,
    pub pin_length: i32,
    pub rotated: bool,
    pub flipped: bool,
    pub designator: String,
    pub name: String,
}

/// A wire through its vertices.
#[derive(Clone, Debug)]
pub struct SchWire {
    pub vertices: Vec<(i32, i32)>,
}

/// A junction dot.
#[derive(Clone, Copy, Debug)]
pub struct SchJunction {
    pub location_x: i32,
    pub location_y: i32,
}

/// A net label.
#[derive(Clone, Debug)]
pub struct SchNetLabel {
    pub location_x: i32,
    pub location_y: i32,
    pub text: String,
}

/// A power port. `style` is the symbol's style number; `orientation` holds
/// the text orientation bits (1 rotated, 2 flipped).
#[derive(Clone, Debug)]
pub struct SchPowerObject {
    pub location_x: i32,
    pub location_y: i32,
    pub text: String,
    pub style: u8,
    pub orientation: u8,
}

/// A sheet port, with its I/O type number.
#[derive(Clone, Debug)]
pub struct SchPort {
    pub location_x: i32,
    pub location_y: i32,
    pub name: String,
    pub io_type: u8,
}

/// A bus through its vertices.
#[derive(Clone, Debug)]
pub struct SchBus {
    pub vertices: Vec<(i32, i32)>,
}

/// A bus entry: the short diagonal from a point on a bus to a wire.
#[derive(Clone, Copy, Debug)]
pub struct SchBusEntry {
    pub location_x: i32,
    pub location_y: i32,
    pub corner_x: i32,
    pub corner_y: i32,
}

/// The designator parameter of a component.
#[derive(Clone, Debug)]
pub struct SchDesignator {
    pub owner_index: i32,
    pub location_x: i32,
    pub location_y: i32,
    pub text: String,
}

/// A component: the parent record of its pins and graphics.
#[derive(Clone, Debug)]
pub struct SchComponent {
    pub lib_reference: String,
    pub description: String,
    pub owner_index: i32,
    pub location_x: i32,
    pub location_y: i32,
    /// Rotation in quarter turns.
    pub orientation: i32,
    pub library_path: String,
    pub source_library_name: String,
    pub unique_id: String,
}

/// A line, or a rectangle, from its location to its corner.
#[derive(Clone, Debug)]
pub struct SchLine {
    pub owner_index: i32,
    pub location_x: i32,
    pub location_y: i32,
    pub corner_x: i32,
    pub corner_y: i32,
}

/// A polygon or polyline through its vertices.
#[derive(Clone, Debug)]
pub struct SchPolyline {
    pub owner_index: i32,
    pub location_x: i32,
    pub location_y: i32,
    pub vertices: Vec<(i32, i32)>,
}

/// An arc about its location, angles in whole degrees.
#[derive(Clone, Debug)]
pub struct SchArc {
    pub owner_index: i32,
    pub location_x: i32,
    pub location_y: i32,
    pub radius: i32,
    pub start_angle: i32,
    pub end_angle: i32,
}

/// An ellipse about its location.
#[derive(Clone, Debug)]
pub struct SchEllipse {
    pub owner_index: i32,
    pub location_x: i32,
    pub location_y: i32,
    pub radius_x: i32,
    pub radius_y: i32,
}

/// A text label.
#[derive(Clone, Debug)]
pub struct SchLabel {
    pub owner_index: i32,
    pub location_x: i32,
    pub location_y: i32,
    pub text: String,
}

/// A named parameter of a component.
#[derive(Clone, Debug)]
pub struct SchParameter {
    pub owner_index: i32,
    pub location_x: i32,
    pub location_y: i32,
    pub name: String,
    pub text: String,
}

/// A schematic primitive.
#[derive(Clone, Debug)]
pub enum SchRecord {
    Component(SchComponent),
    Designator(SchDesignator),
    Parameter(SchParameter),
    Line(SchLine),
    Rectangle(SchLine),
    Polygon(SchPolyline),
    Polyline(SchPolyline),
    Arc(SchArc),
    Ellipse(SchEllipse),
    Label(SchLabel),
    Pin(SchPin),
    Wire(SchWire),
    Junction(SchJunction),
    NetLabel(SchNetLabel),
    PowerObject(SchPowerObject),
    Port(SchPort),
    Bus(SchBus),
    BusEntry(SchBusEntry),
    /// Any other record, by record type.
    Other(u8),
}

} // verus!
