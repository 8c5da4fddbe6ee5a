//! The typed values that a right-hand side parses to.
use vstd::prelude::*;

verus! {

/// A decimal number kept exactly as written: `mantissa * 10^exponent`.
#[derive(Clone, Copy, Debug, PartialEq, Eq, Structural)]
pub struct Decimal {
    pub mantissa: i64,
    pub exponent: i64,
}

/// A 2-D vector of decimals.
#[derive(Clone, Copy, Debug, PartialEq, Eq, Structural)]
pub struct Vector2 {
    pub x: Decimal,
    pub y: Decimal,
}

/// A point of a curve with the tangents on either side of it.
#[derive(Clone, Copy, Debug, PartialEq, Eq, Structural)]
pub struct ControlPoint {
    pub pos: Vector2,
    pub left_tangent: Decimal,
    pub right_tangent: Decimal,
}

impl ControlPoint {
    pub fn new(pos: Vector2, left_tangent: Decimal, right_tangent: Decimal) -> (r: Self)
        ensures
            r == (ControlPoint { pos, left_tangent, right_tangent }),
    {
        ControlPoint { pos, left_tangent, right_tangent }
    }

    pub fn new_point(x: Decimal, y: Decimal, left_tangent: Decimal, right_tangent: Decimal) -> (r:
        Self)
        ensures
            r == (ControlPoint { pos: Vector2 { x, y }, left_tangent, right_tangent }),
    {
        Self::new(Vector2 { x, y }, left_tangent, right_tangent)
    }
}

/// An ordered list of control points.
#[derive(Clone, Debug)]
pub struct Curve {
    points: Vec<ControlPoint>,
}

impl Curve {
    pub closed spec fn view(&self) -> Seq<ControlPoint> {
        self.points@
    }

    pub fn new() -> (r: Self)
        ensures
            r@ == Seq::<ControlPoint>::empty(),
    {
        Curve { points: Vec::new() }
    }

    pub fn add_point(&mut self, control_point: ControlPoint)
        ensures
            final(self)@ == old(self)@.push(control_point),
    {
        self.points.push(control_point);
    }

    pub fn points(&self) -> (r: &Vec<ControlPoint>)
        ensures
            r@ == self@,
    {
        &self.points
    }
}

impl Default for Curve {
    fn default() -> (r: Self)
        ensures
            r@ == Seq::<ControlPoint>::empty(),
    {
        Curve::new()
    }
}

/// A property value.
#[derive(Debug)]
pub enum VarType {
    Num(isize),
    Bool(bool),
    Float(Decimal),
    Str(String),
    Curve(Curve),
    Rect2([Vector2; 2]),
    IntArr(Vec<isize>),
    FloatArr(Vec<Decimal>),
    Vector(Vector2),
    VectorArr(Vec<Vector2>),
    ArrMap(Vec<PropertyMap>),
    Dict(PropertyMap),
    SubResource(usize),
    ExtResource(usize),
    Raw(String),
}

/// A map from property names to values, in insertion order. Its writes keep the
/// names distinct (`property::keys_distinct`); a lookup takes the first entry of a
/// name.
#[derive(Debug)]
pub struct PropertyMap {
    pub entries: Vec<(String, VarType)>,
}

impl PropertyMap {
    pub fn new() -> (r: Self)
        ensures
            r.entries@.len() == 0,
    {
        PropertyMap { entries: Vec::new() }
    }
}

impl TryFrom<VarType> for isize {
    type Error = ();

    fn try_from(value: VarType) -> (r: Result<isize, ()>) {
        match value {
            VarType::Num(n) => Ok(n),
            _ => Err(()),
        }
    }
}

impl vstd::std_specs::convert::TryFromSpecImpl<VarType> for isize {
    open spec fn obeys_try_from_spec() -> bool {
        true
    }

    open spec fn try_from_spec(value: VarType) -> Result<isize, ()> {
        match value {
            VarType::Num(n) => Ok(n),
            _ => Err(()),
        }
    }
}

impl TryFrom<VarType> for Decimal {
    type Error = ();

    fn try_from(value: VarType) -> (r: Result<Decimal, ()>) {
        match value {
            VarType::Float(n) => Ok(n),
            _ => Err(()),
        }
    }
}

impl vstd::std_specs::convert::TryFromSpecImpl<VarType> for Decimal {
    open spec fn obeys_try_from_spec() -> bool {
        true
    }

    open spec fn try_from_spec(value: VarType) -> Result<Decimal, ()> {
        match value {
            VarType::Float(n) => Ok(n),
            _ => Err(()),
        }
    }
}

impl TryFrom<VarType> for bool {
    type Error = ();

    fn try_from(value: VarType) -> (r: Result<bool, ()>) {
        match value {
            VarType::Bool(n) => Ok(n),
            _ => Err(()),
        }
    }
}

impl vstd::std_specs::convert::TryFromSpecImpl<VarType> for bool {
    open spec fn obeys_try_from_spec() -> bool {
        true
    }

    open spec fn try_from_spec(value: VarType) -> Result<bool, ()> {
        match value {
            VarType::Bool(n) => Ok(n),
            _ => Err(()),
        }
    }
}

impl TryFrom<VarType> for String {
    type Error = ();

    fn try_from(value: VarType) -> (r: Result<String, ()>) {
        match value {
            VarType::Str(n) => Ok(n),
            _ => Err(()),
        }
    }
}

impl vstd::std_specs::convert::TryFromSpecImpl<VarType> for String {
    open spec fn obeys_try_from_spec() -> bool {
        true
    }

    open spec fn try_from_spec(value: VarType) -> Result<String, ()> {
        match value {
            VarType::Str(n) => Ok(n),
            _ => Err(()),
        }
    }
}

impl TryFrom<VarType> for Curve {
    type Error = ();

    fn try_from(value: VarType) -> (r: Result<Curve, ()>) {
        match value {
            VarType::Curve(n) => Ok(n),
            _ => Err(()),
        }
    }
}

impl vstd::std_specs::convert::TryFromSpecImpl<VarType> for Curve {
    open spec fn obeys_try_from_spec() -> bool {
        true
    }

    open spec fn try_from_spec(value: VarType) -> Result<Curve, ()> {
        match value {
            VarType::Curve(n) => Ok(n),
            _ => Err(()),
        }
    }
}

impl TryFrom<&VarType> for isize {
    type Error = ();

    fn try_from(value: &VarType) -> (r: Result<isize, ()>) {
        match value {
            VarType::Num(n) => Ok(*n),
            _ => Err(()),
        }
    }
}

impl vstd::std_specs::convert::TryFromSpecImpl<&VarType> for isize {
    open spec fn obeys_try_from_spec() -> bool {
        true
    }

    open spec fn try_from_spec(value: &VarType) -> Result<isize, ()> {
        match value {
            VarType::Num(n) => Ok(*n),
            _ => Err(()),
        }
    }
}

impl TryFrom<&VarType> for Decimal {
    type Error = ();

    fn try_from(value: &VarType) -> (r: Result<Decimal, ()>) {
        match value {
            VarType::Float(n) => Ok(*n),
            _ => Err(()),
        }
    }
}

impl vstd::std_specs::convert::TryFromSpecImpl<&VarType> for Decimal {
    open spec fn obeys_try_from_spec() -> bool {
        true
    }

    open spec fn try_from_spec(value: &VarType) -> Result<Decimal, ()> {
        match value {
            VarType::Float(n) => Ok(*n),
            _ => Err(()),
        }
    }
}

impl TryFrom<&VarType> for bool {
    type Error = ();

    fn try_from(value: &VarType) -> (r: Result<bool, ()>) {
        match value {
            VarType::Bool(n) => Ok(*n),
            _ => Err(()),
        }
    }
}

impl vstd::std_specs::convert::TryFromSpecImpl<&VarType> for bool {
    open spec fn obeys_try_from_spec() -> bool {
        true
    }

    open spec fn try_from_spec(value: &VarType) -> Result<bool, ()> {
        match value {
            VarType::Bool(n) => Ok(*n),
            _ => Err(()),
        }
    }
}

} // verus!
