use crate::data::{read_vec3, vec3_of};
use crate::number::ParseError;
use crate::text::views;
use vstd::prelude::*;

verus! {

/// A homogeneous position in millionths of a unit; `w` is always zero here.
#[derive(Clone, Copy, Debug, PartialEq, Eq, Structural)]
pub struct Vertex {
    pub x: i64,
    pub y: i64,
    pub z: i64,
    pub w: i64,
}

impl Vertex {
    pub fn new(x: i64, y: i64, z: i64, w: i64) -> (r: Self)
        ensures
            r == (Vertex { x, y, z, w }),
    {
        Vertex { x, y, z, w }
    }
}

/// The strict reading of a `v` record's words: fewer than four words is an
/// error rather than a line to skip.
pub open spec fn strict_vertex(toks: Seq<Seq<u8>>) -> Result<Vertex, ParseError> {
    if toks.len() < 4 {
        Err(ParseError::Format)
    } else {
        match vec3_of(toks[1], toks[2], toks[3]) {
            None => Err(ParseError::Format),
            Some(p) => Ok(Vertex { x: p.x, y: p.y, z: p.z, w: 0 }),
        }
    }
}

/// Reads a `v` record strictly: too few words or a malformed number fail.
pub fn parse_vertex(arr: &Vec<Vec<u8>>) -> (r: Result<Vertex, ParseError>)
    ensures
        r == strict_vertex(views(arr@)),
{
    if arr.len() < 4 {
        return Err(ParseError::Format);
    }
    assert(views(arr@)[1] == arr@[1]@ && views(arr@)[2] == arr@[2]@ && views(arr@)[3] == arr@[3]@);
    match read_vec3(arr) {
        Ok(p) => Ok(Vertex::new(p.x, p.y, p.z, 0)),
        Err(e) => Err(e),
    }
}

} // verus!
