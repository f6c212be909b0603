use altium_format::error::{AltiumError, Result};
use altium_format::field_readers::{
    take_bool_or, take_coord, take_coord_point, take_i32_or, take_indexed_coords, take_int_list,
    take_int_list_or_empty, take_optional_i32, take_required_i32, take_required_text,
};
use altium_format::params::ParameterCollection;
use altium_format::types::{Coord, CoordPoint};

fn pc(s: &str) -> ParameterCollection {
    let mut data = s.to_owned();
    data.push('\0');
    ParameterCollection::from_bytes(data.as_bytes())
}

struct RequiredStruct {
    name: String,
    count: i32,
}

fn required_from(p: &mut ParameterCollection) -> Result<RequiredStruct> {
    let name = take_required_text(p, "NAME")?;
    let count = take_required_i32(p, "COUNT")?;
    Ok(RequiredStruct { name, count })
}

struct DefaultStruct {
    value: i32,
    flag: bool,
}

fn default_from(p: &mut ParameterCollection) -> Result<DefaultStruct> {
    let value = take_i32_or(p, "VALUE", 99)?;
    let flag = take_bool_or(p, "FLAG", false);
    Ok(DefaultStruct { value, flag })
}

fn optional_from(p: &mut ParameterCollection) -> Result<Option<i32>> {
    take_optional_i32(p, "MAYBE")
}

fn coord_from(p: &mut ParameterCollection) -> Result<Coord> {
    take_coord(p, "LOC.X", "LOC.X_FRAC")
}

fn coord_point_from(p: &mut ParameterCollection) -> Result<CoordPoint> {
    take_coord_point(p, "LX", "LX_FRAC", "LY", "LY_FRAC")
}

struct BaseStruct {
    a: i32,
}

struct FlattenStruct {
    base: BaseStruct,
    b: i32,
}

fn flatten_from(p: &mut ParameterCollection) -> Result<FlattenStruct> {
    let base = BaseStruct { a: take_i32_or(p, "A", 0)? };
    let b = take_required_i32(p, "B")?;
    Ok(FlattenStruct { base, b })
}

#[test]
fn required_field_present() {
    let mut params = pc("|NAME=hello|COUNT=42|");
    let s = required_from(&mut params).unwrap();
    assert_eq!(s.name, "hello");
    assert_eq!(s.count, 42);
}

#[test]
fn required_field_missing_returns_error() {
    let mut params = pc("|NAME=hello|");
    let err = required_from(&mut params).err().unwrap();
    assert!(matches!(err, AltiumError::MissingParameter(_)), "expected MissingParameter, got {err:?}");
}

#[test]
fn default_used_when_absent() {
    let mut params = pc("|");
    let s = default_from(&mut params).unwrap();
    assert_eq!(s.value, 99);
    assert!(!s.flag);
}

#[test]
fn default_overridden_when_present() {
    let mut params = pc("|VALUE=7|FLAG=T|");
    let s = default_from(&mut params).unwrap();
    assert_eq!(s.value, 7);
    assert!(s.flag);
}

#[test]
fn optional_returns_none_when_absent() {
    let mut params = pc("|");
    assert_eq!(optional_from(&mut params).unwrap(), None);
}

#[test]
fn optional_returns_some_when_present() {
    let mut params = pc("|MAYBE=5|");
    assert_eq!(optional_from(&mut params).unwrap(), Some(5));
}

#[test]
fn coord_with_frac() {
    let mut params = pc("|LOC.X=100|LOC.X_FRAC=50000|");
    let x = coord_from(&mut params).unwrap();
    assert_eq!(x.to_raw(), 100 * 100_000 + 50_000);
}

#[test]
fn coord_without_frac_defaults_to_zero() {
    let mut params = pc("|LOC.X=100|");
    let x = coord_from(&mut params).unwrap();
    assert_eq!(x.to_raw(), 100 * 100_000);
}

#[test]
fn coord_point_parsed() {
    let mut params = pc("|LX=10|LY=20|");
    let p = coord_point_from(&mut params).unwrap();
    assert_eq!(p.x.to_raw(), 10 * 100_000);
    assert_eq!(p.y.to_raw(), 20 * 100_000);
}

#[test]
fn indexed_coords_parsed() {
    let mut params = pc("|COUNT=2|X1=1|Y1=2|X2=3|Y2=4|");
    let v = take_indexed_coords(&mut params, "COUNT", "X", "Y").unwrap();
    assert_eq!(v.len(), 2);
    assert_eq!(v[0].x.to_raw(), 100_000);
    assert_eq!(v[1].y.to_raw(), 400_000);
}

#[test]
fn flatten_composes_base_type() {
    let mut params = pc("|A=7|B=8|");
    let s = flatten_from(&mut params).unwrap();
    assert_eq!(s.base.a, 7);
    assert_eq!(s.b, 8);
}

#[test]
fn flatten_does_not_call_assert_exhausted() {
    let mut params = pc("|A=1|B=2|");
    let s = flatten_from(&mut params).unwrap();
    assert_eq!(s.base.a, 1);
    assert_eq!(s.b, 2);
    params.assert_exhausted().unwrap();
}

#[test]
fn list_parsed() {
    let mut params = pc("|ITEMS=1,2,3|");
    assert_eq!(take_int_list(&mut params, "ITEMS").unwrap(), vec![1, 2, 3]);
}

#[test]
fn list_missing_returns_error() {
    let mut params = pc("|");
    let err = take_int_list(&mut params, "ITEMS").err().unwrap();
    assert!(matches!(err, AltiumError::MissingParameter(_)));
}

#[test]
fn list_or_empty_returns_empty_when_absent() {
    let mut params = pc("|");
    assert!(take_int_list_or_empty(&mut params, "ITEMS").unwrap().is_empty());
}

#[test]
fn list_or_empty_parsed_when_present() {
    let mut params = pc("|ITEMS=10,20|");
    assert_eq!(take_int_list_or_empty(&mut params, "ITEMS").unwrap(), vec![10, 20]);
}

#[test]
fn invalid_list_item_is_invalid_parameter() {
    let mut params = pc("|ITEMS=1,x|");
    let err = take_int_list(&mut params, "ITEMS").err().unwrap();
    assert!(matches!(err, AltiumError::InvalidParameter(_)));
}

#[test]
fn coord_overflow_is_invalid_parameter() {
    let mut params = pc("|LOC.X=30000|");
    let err = coord_from(&mut params).err().unwrap();
    assert!(matches!(err, AltiumError::InvalidParameter(_)));
}

#[test]
fn leftover_parameter_is_named() {
    let mut params = ParameterCollection::from_string("|A=1|B=2");
    assert!(params.take("a").is_some());
    let err = params.assert_exhausted().unwrap_err();
    assert_eq!(err.message(), "Invalid parameter format: unconsumed parameter key 'B'");
    assert!(params.take("B").is_some());
    params.assert_exhausted().unwrap();
}
