//! Schematic record type identifiers.
use vstd::prelude::*;

verus! {

/// Schematic record type enumeration.
#[derive(Debug, Clone, Copy, PartialEq, Eq, Structural, Hash)]
pub enum SchRecordId {
    Component,
    Pin,
    Symbol,
    Label,
    Bezier,
    Polyline,
    Polygon,
    Ellipse,
    Pie,
    EllipticalArc,
    Arc,
    Line,
    Rectangle,
    PowerObject,
    Port,
    NoErc,
    NetLabel,
    Bus,
    Wire,
    TextFrame,
    Junction,
    Image,
    SheetHeader,
    Designator,
    BusEntry,
    Parameter,
    WarningSign,
    ImplementationList,
    Implementation,
    MapDefinerList,
    MapDefiner,
    ImplementationParameters,
    TextFrameVariant,
}

/// The numeric `RECORD=` value that stands for each record kind.
pub open spec fn record_id_code(id: SchRecordId) -> u8 {
    match id {
        SchRecordId::Component => 1,
        SchRecordId::Pin => 2,
        SchRecordId::Symbol => 3,
        SchRecordId::Label => 4,
        SchRecordId::Bezier => 5,
        SchRecordId::Polyline => 6,
        SchRecordId::Polygon => 7,
        SchRecordId::Ellipse => 8,
        SchRecordId::Pie => 9,
        SchRecordId::EllipticalArc => 11,
        SchRecordId::Arc => 12,
        SchRecordId::Line => 13,
        SchRecordId::Rectangle => 14,
        SchRecordId::PowerObject => 17,
        SchRecordId::Port => 18,
        SchRecordId::NoErc => 22,
        SchRecordId::NetLabel => 25,
        SchRecordId::Bus => 26,
        SchRecordId::Wire => 27,
        SchRecordId::TextFrame => 28,
        SchRecordId::Junction => 29,
        SchRecordId::Image => 30,
        SchRecordId::SheetHeader => 31,
        SchRecordId::Designator => 34,
        SchRecordId::BusEntry => 37,
        SchRecordId::Parameter => 41,
        SchRecordId::WarningSign => 43,
        SchRecordId::ImplementationList => 44,
        SchRecordId::Implementation => 45,
        SchRecordId::MapDefinerList => 46,
        SchRecordId::MapDefiner => 47,
        SchRecordId::ImplementationParameters => 48,
        SchRecordId::TextFrameVariant => 209,
    }
}

/// Whether `value` is the code of some known schematic record kind.
pub open spec fn is_known_record_code(value: u8) -> bool {
    exists|id: SchRecordId| record_id_code(id) == value
}

impl SchRecordId {
    /// Convert from u8 (returns None for unknown IDs).
    pub fn from_u8(value: u8) -> (r: Option<Self>)
        ensures
            r matches Some(id) ==> record_id_code(id) == value,
            r is None <==> !is_known_record_code(value),
    {
        let r = match value {
            1 => Some(SchRecordId::Component),
            2 => Some(SchRecordId::Pin),
            3 => Some(SchRecordId::Symbol),
            4 => Some(SchRecordId::Label),
            5 => Some(SchRecordId::Bezier),
            6 => Some(SchRecordId::Polyline),
            7 => Some(SchRecordId::Polygon),
            8 => Some(SchRecordId::Ellipse),
            9 => Some(SchRecordId::Pie),
            11 => Some(SchRecordId::EllipticalArc),
            12 => Some(SchRecordId::Arc),
            13 => Some(SchRecordId::Line),
            14 => Some(SchRecordId::Rectangle),
            17 => Some(SchRecordId::PowerObject),
            18 => Some(SchRecordId::Port),
            22 => Some(SchRecordId::NoErc),
            25 => Some(SchRecordId::NetLabel),
            26 => Some(SchRecordId::Bus),
            27 => Some(SchRecordId::Wire),
            28 => Some(SchRecordId::TextFrame),
            29 => Some(SchRecordId::Junction),
            30 => Some(SchRecordId::Image),
            31 => Some(SchRecordId::SheetHeader),
            34 => Some(SchRecordId::Designator),
            37 => Some(SchRecordId::BusEntry),
            41 => Some(SchRecordId::Parameter),
            43 => Some(SchRecordId::WarningSign),
            44 => Some(SchRecordId::ImplementationList),
            45 => Some(SchRecordId::Implementation),
            46 => Some(SchRecordId::MapDefinerList),
            47 => Some(SchRecordId::MapDefiner),
            48 => Some(SchRecordId::ImplementationParameters),
            209 => Some(SchRecordId::TextFrameVariant),
            _ => None,
        };
        proof {
            if let Some(id) = r {
                assert(record_id_code(id) == value);
            }
            if r is None {
                assert forall|id: SchRecordId| record_id_code(id) != value by {
                    match id {
                        _ => {},
                    }
                }
            }
        }
        r
    }

    /// Convert to u8.
    pub fn to_u8(self) -> (r: u8)
        ensures
            r == record_id_code(self),
    {
        match self {
            SchRecordId::Component => 1,
            SchRecordId::Pin => 2,
            SchRecordId::Symbol => 3,
            SchRecordId::Label => 4,
            SchRecordId::Bezier => 5,
            SchRecordId::Polyline => 6,
            SchRecordId::Polygon => 7,
            SchRecordId::Ellipse => 8,
            SchRecordId::Pie => 9,
            SchRecordId::EllipticalArc => 11,
            SchRecordId::Arc => 12,
            SchRecordId::Line => 13,
            SchRecordId::Rectangle => 14,
            SchRecordId::PowerObject => 17,
            SchRecordId::Port => 18,
            SchRecordId::NoErc => 22,
            SchRecordId::NetLabel => 25,
            SchRecordId::Bus => 26,
            SchRecordId::Wire => 27,
            SchRecordId::TextFrame => 28,
            SchRecordId::Junction => 29,
            SchRecordId::Image => 30,
            SchRecordId::SheetHeader => 31,
            SchRecordId::Designator => 34,
            SchRecordId::BusEntry => 37,
            SchRecordId::Parameter => 41,
            SchRecordId::WarningSign => 43,
            SchRecordId::ImplementationList => 44,
            SchRecordId::Implementation => 45,
            SchRecordId::MapDefinerList => 46,
            SchRecordId::MapDefiner => 47,
            SchRecordId::ImplementationParameters => 48,
            SchRecordId::TextFrameVariant => 209,
        }
    }
}

/// Decoding the code of a record kind gives the kind back.
pub proof fn lemma_record_id_roundtrip(id: SchRecordId)
    ensures
        is_known_record_code(record_id_code(id)),
{
}

/// Distinct record kinds have distinct codes, so the code identifies the kind.
pub proof fn lemma_record_id_code_injective(a: SchRecordId, b: SchRecordId)
    requires
        record_id_code(a) == record_id_code(b),
    ensures
        a == b,
{
    match a {
        _ => match b {
            _ => {},
        },
    }
}

/// The record kind codes are those of the Altium schematic format: each
/// kind stands for its format code (a net label is 25, a wire 27, ...), and
/// a code is known exactly when the format defines it.
pub proof fn lemma_record_codes_of_format()
    ensures
        record_id_code(SchRecordId::Component) == 1,
        record_id_code(SchRecordId::Pin) == 2,
        record_id_code(SchRecordId::Symbol) == 3,
        record_id_code(SchRecordId::Label) == 4,
        record_id_code(SchRecordId::Bezier) == 5,
        record_id_code(SchRecordId::Polyline) == 6,
        record_id_code(SchRecordId::Polygon) == 7,
        record_id_code(SchRecordId::Ellipse) == 8,
        record_id_code(SchRecordId::Pie) == 9,
        record_id_code(SchRecordId::EllipticalArc) == 11,
        record_id_code(SchRecordId::Arc) == 12,
        record_id_code(SchRecordId::Line) == 13,
        record_id_code(SchRecordId::Rectangle) == 14,
        record_id_code(SchRecordId::PowerObject) == 17,
        record_id_code(SchRecordId::Port) == 18,
        record_id_code(SchRecordId::NoErc) == 22,
        record_id_code(SchRecordId::NetLabel) == 25,
        record_id_code(SchRecordId::Bus) == 26,
        record_id_code(SchRecordId::Wire) == 27,
        record_id_code(SchRecordId::TextFrame) == 28,
        record_id_code(SchRecordId::Junction) == 29,
        record_id_code(SchRecordId::Image) == 30,
        record_id_code(SchRecordId::SheetHeader) == 31,
        record_id_code(SchRecordId::Designator) == 34,
        record_id_code(SchRecordId::BusEntry) == 37,
        record_id_code(SchRecordId::Parameter) == 41,
        record_id_code(SchRecordId::WarningSign) == 43,
        record_id_code(SchRecordId::ImplementationList) == 44,
        record_id_code(SchRecordId::Implementation) == 45,
        record_id_code(SchRecordId::MapDefinerList) == 46,
        record_id_code(SchRecordId::MapDefiner) == 47,
        record_id_code(SchRecordId::ImplementationParameters) == 48,
        record_id_code(SchRecordId::TextFrameVariant) == 209,
        forall|v: u8| #[trigger] is_known_record_code(v) <==> (v == 1 || v == 2 || v == 3 || v == 4 || v == 5 || v == 6 || v == 7 || v == 8 || v == 9 || v == 11 || v == 12 || v == 13 || v == 14 || v == 17 || v == 18 || v == 22 || v == 25 || v == 26 || v == 27 || v == 28 || v == 29 || v == 30 || v == 31 || v == 34 || v == 37 || v == 41 || v == 43 || v == 44 || v == 45 || v == 46 || v == 47 || v == 48 || v == 209),
{
    assert forall|v: u8| #[trigger] is_known_record_code(v) <==> (v == 1 || v == 2 || v == 3 || v == 4 || v == 5 || v == 6 || v == 7 || v == 8 || v == 9 || v == 11 || v == 12 || v == 13 || v == 14 || v == 17 || v == 18 || v == 22 || v == 25 || v == 26 || v == 27 || v == 28 || v == 29 || v == 30 || v == 31 || v == 34 || v == 37 || v == 41 || v == 43 || v == 44 || v == 45 || v == 46 || v == 47 || v == 48 || v == 209) by {
        if is_known_record_code(v) {
            let id = choose|id: SchRecordId| record_id_code(id) == v;
            match id {
                _ => {},
            }
        }
        if v == 1 {
            assert(record_id_code(SchRecordId::Component) == v);
        }
        if v == 2 {
            assert(record_id_code(SchRecordId::Pin) == v);
        }
        if v == 3 {
            assert(record_id_code(SchRecordId::Symbol) == v);
        }
        if v == 4 {
            assert(record_id_code(SchRecordId::Label) == v);
        }
        if v == 5 {
            assert(record_id_code(SchRecordId::Bezier) == v);
        }
        if v == 6 {
            assert(record_id_code(SchRecordId::Polyline) == v);
        }
        if v == 7 {
            assert(record_id_code(SchRecordId::Polygon) == v);
        }
        if v == 8 {
            assert(record_id_code(SchRecordId::Ellipse) == v);
        }
        if v == 9 {
            assert(record_id_code(SchRecordId::Pie) == v);
        }
        if v == 11 {
            assert(record_id_code(SchRecordId::EllipticalArc) == v);
        }
        if v == 12 {
            assert(record_id_code(SchRecordId::Arc) == v);
        }
        if v == 13 {
            assert(record_id_code(SchRecordId::Line) == v);
        }
        if v == 14 {
            assert(record_id_code(SchRecordId::Rectangle) == v);
        }
        if v == 17 {
            assert(record_id_code(SchRecordId::PowerObject) == v);
        }
        if v == 18 {
            assert(record_id_code(SchRecordId::Port) == v);
        }
        if v == 22 {
            assert(record_id_code(SchRecordId::NoErc) == v);
        }
        if v == 25 {
            assert(record_id_code(SchRecordId::NetLabel) == v);
        }
        if v == 26 {
            assert(record_id_code(SchRecordId::Bus) == v);
        }
        if v == 27 {
            assert(record_id_code(SchRecordId::Wire) == v);
        }
        if v == 28 {
            assert(record_id_code(SchRecordId::TextFrame) == v);
        }
        if v == 29 {
            assert(record_id_code(SchRecordId::Junction) == v);
        }
        if v == 30 {
            assert(record_id_code(SchRecordId::Image) == v);
        }
        if v == 31 {
            assert(record_id_code(SchRecordId::SheetHeader) == v);
        }
        if v == 34 {
            assert(record_id_code(SchRecordId::Designator) == v);
        }
        if v == 37 {
            assert(record_id_code(SchRecordId::BusEntry) == v);
        }
        if v == 41 {
            assert(record_id_code(SchRecordId::Parameter) == v);
        }
        if v == 43 {
            assert(record_id_code(SchRecordId::WarningSign) == v);
        }
        if v == 44 {
            assert(record_id_code(SchRecordId::ImplementationList) == v);
        }
        if v == 45 {
            assert(record_id_code(SchRecordId::Implementation) == v);
        }
        if v == 46 {
            assert(record_id_code(SchRecordId::MapDefinerList) == v);
        }
        if v == 47 {
            assert(record_id_code(SchRecordId::MapDefiner) == v);
        }
        if v == 48 {
            assert(record_id_code(SchRecordId::ImplementationParameters) == v);
        }
        if v == 209 {
            assert(record_id_code(SchRecordId::TextFrameVariant) == v);
        }
    }
}

} // verus!
