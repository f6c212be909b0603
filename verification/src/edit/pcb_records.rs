//! PCB primitives and the editable board they live on.
use vstd::prelude::*;

use crate::params::ParameterCollection;
use crate::types::{Coord, CoordPoint, Layer};

verus! {

/// Number of per-layer size/shape slots on a pad.
pub const PAD_LAYER_SLOTS: usize = 32;

/// Pad shape.
#[derive(Clone, Copy, Debug, PartialEq, Eq, Structural)]
pub enum PcbPadShape {
    Round,
    Rectangular,
    Octagonal,
    RoundedRectangle,
}

/// Polygon pour hatch style.
#[derive(Clone, Copy, Debug, PartialEq, Eq, Structural)]
pub enum HatchStyle {
    Solid,
    Degree45,
    Degree90,
    Horizontal,
    Vertical,
    NoHatch,
}

/// A straight track.
#[derive(Clone, Copy, Debug, PartialEq, Eq, Structural)]
pub struct PcbTrack {
    pub layer: Layer,
    pub start: CoordPoint,
    pub end: CoordPoint,
    pub width: Coord,
}

/// A via between two layers, one diameter on every layer.
#[derive(Clone, Copy, Debug, PartialEq, Eq, Structural)]
pub struct PcbVia {
    pub layer: Layer,
    pub location: CoordPoint,
    pub diameter: Coord,
    pub hole_size: Coord,
    pub from_layer: Layer,
    pub to_layer: Layer,
}

/// A pad with a size and a shape per layer slot (slot 0 top, slot 31
/// bottom).
#[derive(Clone, Debug)]
pub struct PcbPad {
    pub layer: Layer,
    pub location: CoordPoint,
    pub designator: String,
    pub hole_size: Coord,
    pub is_plated: bool,
    pub size_layers: Vec<CoordPoint>,
    pub shape_layers: Vec<PcbPadShape>,
}

/// An arc; angles in whole degrees.
#[derive(Clone, Copy, Debug, PartialEq, Eq, Structural)]
pub struct PcbArc {
    pub layer: Layer,
    pub location: CoordPoint,
    pub radius: Coord,
    pub start_angle: i32,
    pub end_angle: i32,
    pub width: Coord,
}

/// A rectangular copper fill.
#[derive(Clone, Copy, Debug, PartialEq, Eq, Structural)]
pub struct PcbFill {
    pub layer: Layer,
    pub corner1: CoordPoint,
    pub corner2: CoordPoint,
}

/// A text annotation.
#[derive(Clone, Debug)]
pub struct PcbText {
    pub layer: Layer,
    pub location: CoordPoint,
    pub text: String,
    pub height: Coord,
}

/// A solid region (copper area or keepout).
#[derive(Clone, Debug)]
pub struct PcbRegion {
    pub layer: Layer,
    pub keepout: bool,
    pub outline: Vec<CoordPoint>,
}

/// A polygon pour.
#[derive(Clone, Debug)]
pub struct PcbPolygon {
    pub layer: Layer,
    pub net_name: String,
    pub hatch_style: HatchStyle,
    pub pour_over: bool,
    pub remove_dead: bool,
    pub vertices: Vec<CoordPoint>,
}

/// A PCB primitive.
#[derive(Clone, Debug)]
pub enum PcbRecord {
    Track(PcbTrack),
    Via(PcbVia),
    Pad(PcbPad),
    Arc(PcbArc),
    Fill(PcbFill),
    Text(PcbText),
    Region(PcbRegion),
    Polygon(PcbPolygon),
    /// Any other record, by its record type.
    Other(u8),
}

/// The kind of a primitive.
#[derive(Clone, Copy, Debug, PartialEq, Eq, Structural)]
pub enum PrimitiveKind {
    Track,
    Via,
    Pad,
    Arc,
    Fill,
    Text,
    Region,
    Polygon,
    Other,
}

impl PcbRecord {
    /// The kind of this primitive.
    pub open spec fn spec_kind(&self) -> PrimitiveKind {
        match *self {
            PcbRecord::Track(_) => PrimitiveKind::Track,
            PcbRecord::Via(_) => PrimitiveKind::Via,
            PcbRecord::Pad(_) => PrimitiveKind::Pad,
            PcbRecord::Arc(_) => PrimitiveKind::Arc,
            PcbRecord::Fill(_) => PrimitiveKind::Fill,
            PcbRecord::Text(_) => PrimitiveKind::Text,
            PcbRecord::Region(_) => PrimitiveKind::Region,
            PcbRecord::Polygon(_) => PrimitiveKind::Polygon,
            PcbRecord::Other(_) => PrimitiveKind::Other,
        }
    }

    /// The kind of this primitive.
    pub fn kind(&self) -> (r: PrimitiveKind)
        ensures
            r == self.spec_kind(),
    {
        match self {
            PcbRecord::Track(_) => PrimitiveKind::Track,
            PcbRecord::Via(_) => PrimitiveKind::Via,
            PcbRecord::Pad(_) => PrimitiveKind::Pad,
            PcbRecord::Arc(_) => PrimitiveKind::Arc,
            PcbRecord::Fill(_) => PrimitiveKind::Fill,
            PcbRecord::Text(_) => PrimitiveKind::Text,
            PcbRecord::Region(_) => PrimitiveKind::Region,
            PcbRecord::Polygon(_) => PrimitiveKind::Polygon,
            PcbRecord::Other(_) => PrimitiveKind::Other,
        }
    }
}

/// A placed component of a board.
#[derive(Clone, Debug)]
pub struct PcbDocComponent {
    pub designator: String,
    pub params: ParameterCollection,
    /// The component's own primitives, pads placed relative to it.
    pub primitives: Vec<PcbRecord>,
}

/// The editable content of a PCB document: its free primitives, its
/// components and its net names.
#[derive(Clone, Debug)]
pub struct PcbBoard {
    pub primitives: Vec<PcbRecord>,
    pub components: Vec<PcbDocComponent>,
    pub nets: Vec<String>,
}

impl PcbBoard {
    /// An empty board.
    pub fn new() -> (r: PcbBoard)
        ensures
            r.primitives@.len() == 0,
            r.components@.len() == 0,
            r.nets@.len() == 0,
    {
        PcbBoard { primitives: Vec::new(), components: Vec::new(), nets: Vec::new() }
    }
}

} // verus!
