use crate::face::{fan, pick_shade, shade_of, triangulate, Corner, Face};
use crate::number::{
    index_value, number_value, parse_index, parse_number, ParseError, COORD_LIMIT,
};
use crate::text::{fields, split_fields, split_words, views, words};
use vstd::prelude::*;

verus! {

/// A point or vector in millionths of a unit.
#[derive(Clone, Copy, Debug, PartialEq, Eq, Structural)]
pub struct Vect3 {
    pub x: i64,
    pub y: i64,
    pub z: i64,
}

impl Vect3 {
    pub fn new(x: i64, y: i64, z: i64) -> (r: Self)
        ensures
            r == (Vect3 { x, y, z }),
    {
        Vect3 { x, y, z }
    }

    /// Every coordinate lies within the range a parsed number can take.
    pub open spec fn wf(self) -> bool {
        &&& -COORD_LIMIT < self.x < COORD_LIMIT
        &&& -COORD_LIMIT < self.y < COORD_LIMIT
        &&& -COORD_LIMIT < self.z < COORD_LIMIT
    }
}

/// A parsed model: positions, texture coordinates and normals in file order,
/// and the triangles of every kept polygon.
pub struct Data {
    pub geo_vert: Vec<Vect3>,
    pub text_vert: Vec<Vect3>,
    pub vert_norm: Vec<Vect3>,
    pub faces: Vec<Face>,
}

/// The mathematical content of a `Data`.
pub struct Model {
    pub geo: Seq<Vect3>,
    pub text: Seq<Vect3>,
    pub norm: Seq<Vect3>,
    pub faces: Seq<Face>,
}

impl View for Data {
    type V = Model;

    open spec fn view(&self) -> Model {
        Model {
            geo: self.geo_vert@,
            text: self.text_vert@,
            norm: self.vert_norm@,
            faces: self.faces@,
        }
    }
}

/// `c` refers to existing entries of `m`.
pub open spec fn corner_ok(m: Model, c: Corner) -> bool {
    &&& c.v < m.geo.len()
    &&& c.vt matches Some(t) ==> t < m.text.len()
    &&& c.vn matches Some(n) ==> n < m.norm.len()
}

impl Model {
    pub open spec fn empty() -> Model {
        Model { geo: Seq::empty(), text: Seq::empty(), norm: Seq::empty(), faces: Seq::empty() }
    }

    /// Every number is in range, every face refers to existing entries and has
    /// a palette shade.
    pub open spec fn wf(self) -> bool {
        &&& forall|i: int| 0 <= i < self.geo.len() ==> (#[trigger] self.geo[i]).wf()
        &&& forall|i: int| 0 <= i < self.text.len() ==> (#[trigger] self.text[i]).wf()
        &&& forall|i: int| 0 <= i < self.norm.len() ==> (#[trigger] self.norm[i]).wf()
        &&& forall|i: int|
            0 <= i < self.faces.len() ==> {
                let f = #[trigger] self.faces[i];
                corner_ok(self, f.p0) && corner_ok(self, f.p1) && corner_ok(self, f.p2) && f.shade
                    < 6
            }
    }
}

/// The point written by three numeric tokens.
pub open spec fn vec3_of(a: Seq<u8>, b: Seq<u8>, c: Seq<u8>) -> Option<Vect3> {
    match (number_value(a), number_value(b), number_value(c)) {
        (Some(x), Some(y), Some(z)) => Some(Vect3 { x: x as i64, y: y as i64, z: z as i64 }),
        _ => None,
    }
}

/// The value of optional token `i` of `toks`, zero when the line is shorter.
pub open spec fn optional_number(toks: Seq<Seq<u8>>, i: int) -> Option<int> {
    if i < toks.len() {
        number_value(toks[i])
    } else {
        Some(0)
    }
}

/// The texture coordinate of a `vt` line: `u` required, `v` and `w` zero when absent.
pub open spec fn texcoord_of(toks: Seq<Seq<u8>>) -> Option<Vect3> {
    match (number_value(toks[1]), optional_number(toks, 2), optional_number(toks, 3)) {
        (Some(u), Some(v), Some(w)) => Some(Vect3 { x: u as i64, y: v as i64, z: w as i64 }),
        _ => None,
    }
}

/// An optional reference of a corner: an empty or missing field means none.
pub open spec fn optional_index(parts: Seq<Seq<u8>>, i: int, count: nat) -> Result<
    Option<usize>,
    ParseError,
> {
    if i < parts.len() && parts[i].len() > 0 {
        match index_value(parts[i], count) {
            Ok(k) => Ok(Some(k)),
            Err(e) => Err(e),
        }
    } else {
        Ok(None)
    }
}

/// A face token `v[/vt[/vn]]` read against the entries of `m`.
pub open spec fn corner_of(tok: Seq<u8>, m: Model) -> Result<Corner, ParseError> {
    let parts = fields(tok, 47);
    if parts.len() > 3 {
        Err(ParseError::Format)
    } else {
        match index_value(parts[0], m.geo.len()) {
            Err(e) => Err(e),
            Ok(v) => match optional_index(parts, 1, m.text.len()) {
                Err(e) => Err(e),
                Ok(vt) => match optional_index(parts, 2, m.norm.len()) {
                    Err(e) => Err(e),
                    Ok(vn) => Ok(Corner { v, vt, vn }),
                },
            },
        }
    }
}

/// The corners of face tokens `toks`, or the first error among them.
pub open spec fn corners_of(toks: Seq<Seq<u8>>, m: Model) -> Result<Seq<Corner>, ParseError>
    decreases toks.len(),
{
    if toks.len() == 0 {
        Ok(Seq::empty())
    } else {
        match corners_of(toks.drop_last(), m) {
            Err(e) => Err(e),
            Ok(cs) => match corner_of(toks.last(), m) {
                Err(e) => Err(e),
                Ok(c) => Ok(cs.push(c)),
            },
        }
    }
}

/// Three corners of `cs` refer to three different positions.
pub open spec fn three_distinct(cs: Seq<Corner>) -> bool {
    exists|i: int, j: int, k: int|
        0 <= i < cs.len() && 0 <= j < cs.len() && 0 <= k < cs.len() && #[trigger] cs[i].v
            != #[trigger] cs[j].v && cs[i].v != #[trigger] cs[k].v && cs[j].v != cs[k].v
}

/// Triangles `tris` as faces, shaded as the faces numbered from `base` on.
pub open spec fn shaded(tris: Seq<(Corner, Corner, Corner)>, seed: u64, base: nat) -> Seq<Face> {
    Seq::new(
        tris.len(),
        |i: int|
            Face { p0: tris[i].0, p1: tris[i].1, p2: tris[i].2, shade: shade_of(seed, (base + i) as u64) },
    )
}

/// The model after an `f` line with words `toks`, its references read
/// against the entries of `m`. A line of fewer than three corners is skipped.
pub open spec fn face_line(m: Model, toks: Seq<Seq<u8>>, seed: u64) -> Result<Model, ParseError> {
    if toks.len() < 4 {
        Ok(m)
    } else {
    match corners_of(toks.skip(1), m) {
        Err(e) => Err(e),
        Ok(cs) => if three_distinct(cs) {
            Ok(Model { faces: m.faces + shaded(fan(cs), seed, m.faces.len()), ..m })
        } else {
            Ok(m)
        },
    }
    }
}

pub open spec fn is_v(t: Seq<u8>) -> bool {
    t == seq![118u8]
}

pub open spec fn is_vt(t: Seq<u8>) -> bool {
    t == seq![118u8, 116u8]
}

pub open spec fn is_vn(t: Seq<u8>) -> bool {
    t == seq![118u8, 110u8]
}

pub open spec fn is_f(t: Seq<u8>) -> bool {
    t == seq![102u8]
}

/// The model after a `v` line: a line of fewer than four words is skipped.
pub open spec fn position_line(m: Model, toks: Seq<Seq<u8>>) -> Result<Model, ParseError> {
    if toks.len() < 4 {
        Ok(m)
    } else {
        match vec3_of(toks[1], toks[2], toks[3]) {
            None => Err(ParseError::Format),
            Some(p) => Ok(Model { geo: m.geo.push(p), ..m }),
        }
    }
}

/// The model after a `vn` line: a line of fewer than four words is skipped.
pub open spec fn normal_line(m: Model, toks: Seq<Seq<u8>>) -> Result<Model, ParseError> {
    if toks.len() < 4 {
        Ok(m)
    } else {
        match vec3_of(toks[1], toks[2], toks[3]) {
            None => Err(ParseError::Format),
            Some(p) => Ok(Model { norm: m.norm.push(p), ..m }),
        }
    }
}

/// The model after a `vt` line: a line of fewer than two words is skipped.
pub open spec fn texcoord_line(m: Model, toks: Seq<Seq<u8>>) -> Result<Model, ParseError> {
    if toks.len() < 2 {
        Ok(m)
    } else {
        match texcoord_of(toks) {
            None => Err(ParseError::Format),
            Some(t) => Ok(Model { text: m.text.push(t), ..m }),
        }
    }
}

/// The model after one line with words `toks` in the first pass, which reads
/// positions, texture coordinates and normals. A record with too few words
/// is skipped, as is a record of another kind; a malformed number fails the
/// whole text.
pub open spec fn entry_line(m: Model, toks: Seq<Seq<u8>>) -> Result<Model, ParseError> {
    if toks.len() == 0 {
        Ok(m)
    } else if is_v(toks[0]) {
        position_line(m, toks)
    } else if is_vn(toks[0]) {
        normal_line(m, toks)
    } else if is_vt(toks[0]) {
        texcoord_line(m, toks)
    } else {
        Ok(m)
    }
}

/// The entries of `lines`, each split into words, in file order.
pub open spec fn read_entries(lines: Seq<Seq<u8>>) -> Result<Model, ParseError>
    decreases lines.len(),
{
    if lines.len() == 0 {
        Ok(Model::empty())
    } else {
        match read_entries(lines.drop_last()) {
            Err(e) => Err(e),
            Ok(m) => entry_line(m, words(lines.last())),
        }
    }
}

/// The model after one line in the second pass, which reads faces.
pub open spec fn polygon_line(m: Model, toks: Seq<Seq<u8>>, seed: u64) -> Result<Model, ParseError> {
    if toks.len() > 0 && is_f(toks[0]) {
        face_line(m, toks, seed)
    } else {
        Ok(m)
    }
}

/// `m` with the faces of `lines` appended, shaded under `seed`.
pub open spec fn read_faces(lines: Seq<Seq<u8>>, m: Model, seed: u64) -> Result<Model, ParseError>
    decreases lines.len(),
{
    if lines.len() == 0 {
        Ok(m)
    } else {
        match read_faces(lines.drop_last(), m, seed) {
            Err(e) => Err(e),
            Ok(n) => polygon_line(n, words(lines.last()), seed),
        }
    }
}

/// The model a geometry text describes, its lines ending at each newline
/// byte. Every position, texture coordinate and normal of the text is read
/// first; face references are then checked against the whole text's counts,
/// so a face may name entries that come after it. A reference to a missing
/// entry fails the text, as does a malformed number. A face whose corners
/// refer to fewer than three distinct positions is dropped.
pub open spec fn parse_text(text: Seq<u8>, seed: u64) -> Result<Model, ParseError> {
    match read_entries(fields(text, 10)) {
        Err(e) => Err(e),
        Ok(m) => read_faces(fields(text, 10), m, seed),
    }
}

impl Data {
    pub fn new() -> (r: Self)
        ensures
            r@ == Model::empty(),
    {
        Data { geo_vert: Vec::new(), text_vert: Vec::new(), vert_norm: Vec::new(), faces: Vec::new() }
    }
}

/// Whether word `t` is the single byte `a`.
fn is_word1(t: &Vec<u8>, a: u8) -> (r: bool)
    ensures
        r == (t@ == seq![a]),
{
    if t.len() == 1 && t[0] == a {
        assert(t@ =~= seq![a]);
        true
    } else {
        proof {
            if t@ == seq![a] {
                assert(t@[0] == a);
            }
        }
        false
    }
}

/// Whether word `t` is the two bytes `a`, `b`.
fn is_word2(t: &Vec<u8>, a: u8, b: u8) -> (r: bool)
    ensures
        r == (t@ == seq![a, b]),
{
    if t.len() == 2 && t[0] == a && t[1] == b {
        assert(t@ =~= seq![a, b]);
        true
    } else {
        proof {
            if t@ == seq![a, b] {
                assert(t@[0] == a && t@[1] == b);
            }
        }
        false
    }
}

/// Reads the point of a `v` or `vn` line.
pub(crate) fn read_vec3(toks: &Vec<Vec<u8>>) -> (r: Result<Vect3, ParseError>)
    requires
        toks@.len() >= 4,
    ensures
        vec3_of(toks@[1]@, toks@[2]@, toks@[3]@) matches Some(p) ==> r == Ok::<Vect3, ParseError>(p),
        vec3_of(toks@[1]@, toks@[2]@, toks@[3]@) is None ==> r == Err::<Vect3, ParseError>(
            ParseError::Format,
        ),
        r matches Ok(p) ==> p.wf(),
{
    let x = match parse_number(toks[1].as_slice()) {
        Ok(v) => v,
        Err(e) => {
            return Err(e);
        },
    };
    let y = match parse_number(toks[2].as_slice()) {
        Ok(v) => v,
        Err(e) => {
            return Err(e);
        },
    };
    let z = match parse_number(toks[3].as_slice()) {
        Ok(v) => v,
        Err(e) => {
            return Err(e);
        },
    };
    Ok(Vect3::new(x, y, z))
}

/// Reads optional numeric token `i`, zero when the line is shorter.
fn read_optional_number(toks: &Vec<Vec<u8>>, i: usize) -> (r: Result<i64, ParseError>)
    ensures
        optional_number(views(toks@), i as int) matches Some(v) ==> r == Ok::<i64, ParseError>(
            v as i64,
        ),
        optional_number(views(toks@), i as int) is None ==> r == Err::<i64, ParseError>(
            ParseError::Format,
        ),
        r matches Ok(v) ==> -COORD_LIMIT < v < COORD_LIMIT,
{
    if i < toks.len() {
        parse_number(toks[i].as_slice())
    } else {
        Ok(0)
    }
}

/// Reads the texture coordinate of a `vt` line.
fn read_texcoord(toks: &Vec<Vec<u8>>) -> (r: Result<Vect3, ParseError>)
    requires
        toks@.len() >= 2,
    ensures
        texcoord_of(views(toks@)) matches Some(p) ==> r == Ok::<Vect3, ParseError>(p),
        texcoord_of(views(toks@)) is None ==> r == Err::<Vect3, ParseError>(ParseError::Format),
        r matches Ok(p) ==> p.wf(),
{
    let u = match parse_number(toks[1].as_slice()) {
        Ok(v) => v,
        Err(e) => {
            return Err(e);
        },
    };
    let v = match read_optional_number(toks, 2) {
        Ok(v) => v,
        Err(e) => {
            return Err(e);
        },
    };
    let w = match read_optional_number(toks, 3) {
        Ok(v) => v,
        Err(e) => {
            return Err(e);
        },
    };
    Ok(Vect3::new(u, v, w))
}

/// Reads optional reference `i` of a corner's fields.
fn read_optional_index(parts: &Vec<Vec<u8>>, i: usize, count: usize) -> (r: Result<
    Option<usize>,
    ParseError,
>)
    ensures
        r == optional_index(views(parts@), i as int, count as nat),
        r matches Ok(Some(k)) ==> k < count,
{
    if i < parts.len() && parts[i].len() > 0 {
        match parse_index(parts[i].as_slice(), count) {
            Ok(k) => Ok(Some(k)),
            Err(e) => Err(e),
        }
    } else {
        Ok(None)
    }
}

/// Reads one face token `v[/vt[/vn]]` against the entries parsed so far.
pub fn parse_face_point(tok: &Vec<u8>, data: &Data) -> (r: Result<Corner, ParseError>)
    ensures
        r == corner_of(tok@, data@),
        r matches Ok(c) ==> corner_ok(data@, c),
{
    let parts = split_fields(tok.as_slice(), 47);
    if parts.len() > 3 {
        return Err(ParseError::Format);
    }
    assert(views(parts@).len() == parts@.len());
    assert(views(parts@)[0] == parts@[0]@);
    let v = match parse_index(parts[0].as_slice(), data.geo_vert.len()) {
        Ok(k) => k,
        Err(e) => {
            return Err(e);
        },
    };
    let vt = match read_optional_index(&parts, 1, data.text_vert.len()) {
        Ok(k) => k,
        Err(e) => {
            return Err(e);
        },
    };
    let vn = match read_optional_index(&parts, 2, data.vert_norm.len()) {
        Ok(k) => k,
        Err(e) => {
            return Err(e);
        },
    };
    Ok(Corner { v, vt, vn })
}

proof fn lemma_corners_err_extends(t: Seq<Seq<u8>>, k: int, m: Model)
    requires
        0 <= k <= t.len(),
        corners_of(t.take(k), m) is Err,
    ensures
        corners_of(t, m) == corners_of(t.take(k), m),
    decreases t.len() - k,
{
    if k < t.len() {
        assert(t.take(k + 1).drop_last() =~= t.take(k));
        lemma_corners_err_extends(t, k + 1, m);
    } else {
        assert(t.take(k) =~= t);
    }
}

/// Reads the corners of an `f` line.
fn read_corners(toks: &Vec<Vec<u8>>, data: &Data) -> (r: Result<Vec<Corner>, ParseError>)
    requires
        toks@.len() >= 1,
    ensures
        corners_of(views(toks@).skip(1), data@) matches Ok(cs) ==> (r matches Ok(v) && v@ == cs),
        corners_of(views(toks@).skip(1), data@) matches Err(e) ==> r == Err::<Vec<Corner>, ParseError>(e),
        r matches Ok(v) ==> forall|i: int| 0 <= i < v@.len() ==> corner_ok(data@, #[trigger] v@[i]),
{
    let ghost t = views(toks@).skip(1);
    let mut cs: Vec<Corner> = Vec::new();
    let mut i: usize = 1;
    assert(t.take(0) =~= Seq::<Seq<u8>>::empty());
    while i < toks.len()
        invariant
            1 <= i <= toks@.len(),
            t == views(toks@).skip(1),
            corners_of(t.take(i - 1), data@) == Ok::<Seq<Corner>, ParseError>(cs@),
            forall|j: int| 0 <= j < cs@.len() ==> corner_ok(data@, #[trigger] cs@[j]),
        decreases toks@.len() - i,
    {
        assert(t.take(i as int).drop_last() =~= t.take(i - 1));
        assert(t.take(i as int).last() == toks@[i as int]@);
        match parse_face_point(&toks[i], data) {
            Ok(c) => {
                cs.push(c);
            },
            Err(e) => {
                proof {
                    lemma_corners_err_extends(t, i as int, data@);
                }
                return Err(e);
            },
        }
        i = i + 1;
    }
    assert(t.take(i - 1) =~= t);
    Ok(cs)
}

/// Whether three corners refer to three different positions.
fn has_three_distinct(cs: &Vec<Corner>) -> (r: bool)
    ensures
        r == three_distinct(cs@),
{
    let n = cs.len();
    if n == 0 {
        return false;
    }
    let a = cs[0].v;
    let mut j: usize = 1;
    while j < n && cs[j].v == a
        invariant
            1 <= j <= n == cs@.len(),
            a == cs@[0].v,
            forall|x: int| 0 <= x < j ==> (#[trigger] cs@[x]).v == a,
        decreases n - j,
    {
        j = j + 1;
    }
    if j == n {
        return false;
    }
    let b = cs[j].v;
    let mut k: usize = 1;
    while k < n && (cs[k].v == a || cs[k].v == b)
        invariant
            1 <= k <= n == cs@.len(),
            a == cs@[0].v,
            b == cs@[j as int].v,
            forall|x: int| 0 <= x < k ==> (#[trigger] cs@[x]).v == a || cs@[x].v == b,
        decreases n - k,
    {
        k = k + 1;
    }
    if k == n {
        return false;
    }
    assert(cs@[0].v != cs@[j as int].v && cs@[0].v != cs@[k as int].v && cs@[j as int].v
        != cs@[k as int].v);
    true
}

/// Applies an `f` line: its polygon is fanned into triangles, each shaded
/// from `seed` and its position in the face list.
pub fn parse_faces(data: &mut Data, toks: &Vec<Vec<u8>>, seed: u64) -> (r: Result<(), ParseError>)
    requires
        old(data)@.wf(),
    ensures
        face_line(old(data)@, views(toks@), seed) matches Ok(m) ==> (r is Ok && final(data)@ == m),
        face_line(old(data)@, views(toks@), seed) matches Err(e) ==> r == Err::<(), ParseError>(e),
        r is Err ==> final(data)@ == old(data)@,
        final(data)@.wf(),
{
    if toks.len() < 4 {
        return Ok(());
    }
    let cs = match read_corners(toks, data) {
        Ok(cs) => cs,
        Err(e) => {
            return Err(e);
        },
    };
    if !has_three_distinct(&cs) {
        return Ok(());
    }
    let tris = triangulate(cs.as_slice());
    let ghost m = data@;
    let ghost base = data.faces@.len();
    let mut t: usize = 0;
    while t < tris.len()
        invariant
            t <= tris@.len(),
            tris@ == fan(cs@),
            m.wf(),
            forall|i: int| 0 <= i < cs@.len() ==> corner_ok(m, #[trigger] cs@[i]),
            base == m.faces.len(),
            data@ == (Model { faces: m.faces + shaded(tris@, seed, base).take(t as int), ..m }),
        decreases tris@.len() - t,
    {
        let (p0, p1, p2) = tris[t];
        let k = data.faces.len() as u64;
        let shade = pick_shade(seed, k);
        data.faces.push(Face::new(p0, p1, p2, shade));
        proof {
            assert(shaded(tris@, seed, base).take(t + 1) =~= shaded(tris@, seed, base).take(
                t as int,
            ).push(Face { p0, p1, p2, shade }));
            assert((m.faces + shaded(tris@, seed, base).take(t as int)).push(Face { p0, p1, p2, shade })
                =~= m.faces + shaded(tris@, seed, base).take(t + 1));
        }
        t = t + 1;
    }
    assert(shaded(tris@, seed, base).take(t as int) =~= shaded(tris@, seed, base));
    assert(data@.wf()) by {
        assert forall|i: int| 0 <= i < data@.faces.len() implies {
            let f = #[trigger] data@.faces[i];
            corner_ok(data@, f.p0) && corner_ok(data@, f.p1) && corner_ok(data@, f.p2) && f.shade < 6
        } by {
            if i >= base {
                let q = i - base;
                assert(data@.faces[i] == shaded(tris@, seed, base)[q]);
                assert(cs@[q + 1] == fan(cs@)[q].1);
            }
        }
    }
    Ok(())
}

proof fn lemma_push_keeps_faces_ok(old_m: Model, m: Model)
    requires
        old_m.wf(),
        m.faces == old_m.faces,
        old_m.geo.len() <= m.geo.len(),
        old_m.text.len() <= m.text.len(),
        old_m.norm.len() <= m.norm.len(),
    ensures
        forall|i: int|
            0 <= i < m.faces.len() ==> {
                let f = #[trigger] m.faces[i];
                corner_ok(m, f.p0) && corner_ok(m, f.p1) && corner_ok(m, f.p2) && f.shade < 6
            },
{
    assert forall|i: int| 0 <= i < m.faces.len() implies {
        let f = #[trigger] m.faces[i];
        corner_ok(m, f.p0) && corner_ok(m, f.p1) && corner_ok(m, f.p2) && f.shade < 6
    } by {
        let f = m.faces[i];
        assert(old_m.faces[i] == f);
    }
}

/// Applies a `v` line: appends its position.
pub fn parse_geo_vert(data: &mut Data, arr: &Vec<Vec<u8>>) -> (r: Result<(), ParseError>)
    requires
        old(data)@.wf(),
    ensures
        position_line(old(data)@, views(arr@)) matches Ok(m) ==> (r is Ok && final(data)@ == m),
        position_line(old(data)@, views(arr@)) matches Err(e) ==> r == Err::<(), ParseError>(e),
        r is Err ==> final(data)@ == old(data)@,
        final(data)@.wf(),
{
    if arr.len() < 4 {
        return Ok(());
    }
    assert(views(arr@)[1] == arr@[1]@ && views(arr@)[2] == arr@[2]@ && views(arr@)[3] == arr@[3]@);
    let p = match read_vec3(arr) {
        Ok(p) => p,
        Err(e) => {
            return Err(e);
        },
    };
    let ghost old_m = data@;
    data.geo_vert.push(p);
    proof {
        lemma_push_keeps_faces_ok(old_m, data@);
    }
    Ok(())
}

/// Applies a `vn` line: appends its normal.
pub fn parse_vert_norm(data: &mut Data, arr: &Vec<Vec<u8>>) -> (r: Result<(), ParseError>)
    requires
        old(data)@.wf(),
    ensures
        normal_line(old(data)@, views(arr@)) matches Ok(m) ==> (r is Ok && final(data)@ == m),
        normal_line(old(data)@, views(arr@)) matches Err(e) ==> r == Err::<(), ParseError>(e),
        r is Err ==> final(data)@ == old(data)@,
        final(data)@.wf(),
{
    if arr.len() < 4 {
        return Ok(());
    }
    assert(views(arr@)[1] == arr@[1]@ && views(arr@)[2] == arr@[2]@ && views(arr@)[3] == arr@[3]@);
    let p = match read_vec3(arr) {
        Ok(p) => p,
        Err(e) => {
            return Err(e);
        },
    };
    let ghost old_m = data@;
    data.vert_norm.push(p);
    proof {
        lemma_push_keeps_faces_ok(old_m, data@);
    }
    Ok(())
}

/// Applies a `vt` line: appends its texture coordinate.
pub fn parse_text_vert(data: &mut Data, arr: &Vec<Vec<u8>>) -> (r: Result<(), ParseError>)
    requires
        old(data)@.wf(),
    ensures
        texcoord_line(old(data)@, views(arr@)) matches Ok(m) ==> (r is Ok && final(data)@ == m),
        texcoord_line(old(data)@, views(arr@)) matches Err(e) ==> r == Err::<(), ParseError>(e),
        r is Err ==> final(data)@ == old(data)@,
        final(data)@.wf(),
{
    if arr.len() < 2 {
        return Ok(());
    }
    assert(views(arr@)[1] == arr@[1]@);
    let p = match read_texcoord(arr) {
        Ok(p) => p,
        Err(e) => {
            return Err(e);
        },
    };
    let ghost old_m = data@;
    data.text_vert.push(p);
    proof {
        lemma_push_keeps_faces_ok(old_m, data@);
    }
    Ok(())
}

/// Applies one line of the first pass, already split into words.
fn apply_entry_words(data: &mut Data, toks: &Vec<Vec<u8>>) -> (r: Result<(), ParseError>)
    requires
        old(data)@.wf(),
    ensures
        entry_line(old(data)@, views(toks@)) matches Ok(m) ==> (r is Ok && final(data)@ == m),
        entry_line(old(data)@, views(toks@)) matches Err(e) ==> r == Err::<(), ParseError>(e),
        final(data)@.wf(),
{
    if toks.len() == 0 {
        return Ok(());
    }
    assert(views(toks@)[0] == toks@[0]@);
    let kw = &toks[0];
    if is_word1(kw, 118) {
        parse_geo_vert(data, toks)
    } else if is_word2(kw, 118, 110) {
        parse_vert_norm(data, toks)
    } else if is_word2(kw, 118, 116) {
        parse_text_vert(data, toks)
    } else {
        Ok(())
    }
}

/// Applies one line of the second pass, already split into words.
fn apply_polygon_words(data: &mut Data, toks: &Vec<Vec<u8>>, seed: u64) -> (r: Result<(), ParseError>)
    requires
        old(data)@.wf(),
    ensures
        polygon_line(old(data)@, views(toks@), seed) matches Ok(m) ==> (r is Ok && final(data)@
            == m),
        polygon_line(old(data)@, views(toks@), seed) matches Err(e) ==> r == Err::<(), ParseError>(
            e,
        ),
        final(data)@.wf(),
{
    if toks.len() == 0 {
        return Ok(());
    }
    assert(views(toks@)[0] == toks@[0]@);
    if is_word1(&toks[0], 102) {
        parse_faces(data, toks, seed)
    } else {
        Ok(())
    }
}

proof fn lemma_entries_err_extends(t: Seq<Seq<u8>>, k: int)
    requires
        0 <= k <= t.len(),
        read_entries(t.take(k)) is Err,
    ensures
        read_entries(t) == read_entries(t.take(k)),
    decreases t.len() - k,
{
    if k < t.len() {
        assert(t.take(k + 1).drop_last() =~= t.take(k));
        lemma_entries_err_extends(t, k + 1);
    } else {
        assert(t.take(k) =~= t);
    }
}

proof fn lemma_faces_err_extends(t: Seq<Seq<u8>>, k: int, m: Model, seed: u64)
    requires
        0 <= k <= t.len(),
        read_faces(t.take(k), m, seed) is Err,
    ensures
        read_faces(t, m, seed) == read_faces(t.take(k), m, seed),
    decreases t.len() - k,
{
    if k < t.len() {
        assert(t.take(k + 1).drop_last() =~= t.take(k));
        lemma_faces_err_extends(t, k + 1, m, seed);
    } else {
        assert(t.take(k) =~= t);
    }
}

/// Reads a geometry text. Faces are shaded by a generator seeded with `seed`,
/// so the same text and seed always give the same model.
pub fn parsing_data(text: &[u8], seed: u64) -> (r: Result<Data, ParseError>)
    ensures
        parse_text(text@, seed) matches Ok(m) ==> (r matches Ok(d) && d@ == m),
        parse_text(text@, seed) matches Err(e) ==> r matches Err(f) && f == e,
        r matches Ok(d) ==> d@.wf(),
{
    let lines = split_fields(text, 10);
    let ghost ls = views(lines@);
    let mut data = Data::new();
    let mut i: usize = 0;
    assert(ls.take(0) =~= Seq::<Seq<u8>>::empty());
    while i < lines.len()
        invariant
            i <= lines@.len(),
            ls == views(lines@),
            ls == fields(text@, 10),
            read_entries(ls.take(i as int)) == Ok::<Model, ParseError>(data@),
            data@.wf(),
        decreases lines@.len() - i,
    {
        assert(ls.take(i + 1).drop_last() =~= ls.take(i as int));
        assert(ls.take(i + 1).last() == lines@[i as int]@);
        let toks = split_words(lines[i].as_slice());
        match apply_entry_words(&mut data, &toks) {
            Ok(()) => {},
            Err(e) => {
                proof {
                    lemma_entries_err_extends(ls, i + 1);
                }
                return Err(e);
            },
        }
        i = i + 1;
    }
    assert(ls.take(i as int) =~= ls);
    let ghost entries = data@;
    let mut j: usize = 0;
    assert(ls.take(0) =~= Seq::<Seq<u8>>::empty());
    while j < lines.len()
        invariant
            j <= lines@.len(),
            ls == views(lines@),
            ls == fields(text@, 10),
            read_entries(ls) == Ok::<Model, ParseError>(entries),
            read_faces(ls.take(j as int), entries, seed) == Ok::<Model, ParseError>(data@),
            data@.wf(),
        decreases lines@.len() - j,
    {
        assert(ls.take(j + 1).drop_last() =~= ls.take(j as int));
        assert(ls.take(j + 1).last() == lines@[j as int]@);
        let toks = split_words(lines[j].as_slice());
        match apply_polygon_words(&mut data, &toks, seed) {
            Ok(()) => {},
            Err(e) => {
                proof {
                    lemma_faces_err_extends(ls, j + 1, entries, seed);
                }
                return Err(e);
            },
        }
        j = j + 1;
    }
    assert(ls.take(j as int) =~= ls);
    Ok(data)
}

proof fn lemma_corners_len(t: Seq<Seq<u8>>, m: Model)
    requires
        corners_of(t, m) is Ok,
    ensures
        corners_of(t, m)->Ok_0.len() == t.len(),
    decreases t.len(),
{
    if t.len() > 0 {
        lemma_corners_len(t.drop_last(), m);
    }
}

/// An `f` record whose corners read as `cs`, with three distinct positions
/// among them, adds exactly `cs.len() - 2` faces, the `i`-th being the
/// record's first corner followed by its corners `i + 1` and `i + 2` (each
/// with its own texture and normal references); nothing else in the model
/// changes.
pub proof fn face_record_adds_fan(m: Model, toks: Seq<Seq<u8>>, seed: u64, cs: Seq<Corner>)
    requires
        toks.len() >= 1,
        corners_of(toks.skip(1), m) == Ok::<Seq<Corner>, ParseError>(cs),
        three_distinct(cs),
    ensures
        toks.len() - 1 == cs.len() >= 3,
        face_line(m, toks, seed) is Ok,
        face_line(m, toks, seed)->Ok_0.faces.len() == m.faces.len() + cs.len() - 2,
        forall|i: int|
            0 <= i < cs.len() - 2 ==> {
                let f = #[trigger] face_line(m, toks, seed)->Ok_0.faces[m.faces.len() + i];
                f.p0 == cs[0] && f.p1 == cs[i + 1] && f.p2 == cs[i + 2]
            },
        face_line(m, toks, seed)->Ok_0.geo == m.geo,
        face_line(m, toks, seed)->Ok_0.text == m.text,
        face_line(m, toks, seed)->Ok_0.norm == m.norm,
        face_line(m, toks, seed)->Ok_0.faces.take(m.faces.len() as int) == m.faces,
{
    lemma_corners_len(toks.skip(1), m);
    assert(cs.len() >= 3) by {
        let (i, j, k) = choose|i: int, j: int, k: int|
            0 <= i < cs.len() && 0 <= j < cs.len() && 0 <= k < cs.len() && #[trigger] cs[i].v
                != #[trigger] cs[j].v && cs[i].v != #[trigger] cs[k].v && cs[j].v != cs[k].v;
    }
    let r = face_line(m, toks, seed)->Ok_0;
    assert(r.faces.take(m.faces.len() as int) =~= m.faces);
}

/// An `f` record of fewer than three corners leaves the model as it is,
/// whatever its words hold.
pub proof fn short_face_record_is_dropped(m: Model, toks: Seq<Seq<u8>>, seed: u64)
    requires
        toks.len() < 4,
    ensures
        face_line(m, toks, seed) == Ok::<Model, ParseError>(m),
{
}

/// Changing `f` lines changes no position, texture coordinate or normal, and
/// a face line may come before the entries it names: the entries read are
/// those of the whole text.
pub proof fn faces_keep_entries(lines: Seq<Seq<u8>>, m: Model, seed: u64)
    ensures
        read_faces(lines, m, seed) matches Ok(n) ==> n.geo == m.geo && n.text == m.text && n.norm
            == m.norm && n.faces.len() >= m.faces.len() && n.faces.take(m.faces.len() as int)
            == m.faces,
    decreases lines.len(),
{
    if lines.len() > 0 {
        faces_keep_entries(lines.drop_last(), m, seed);
        if let Ok(n) = read_faces(lines.drop_last(), m, seed) {
            let toks = words(lines.last());
            if let Ok(o) = polygon_line(n, toks, seed) {
                if o != n {
                    let cs = corners_of(toks.skip(1), n)->Ok_0;
                    assert(o.faces == n.faces + shaded(fan(cs), seed, n.faces.len()));
                    assert(o.faces.take(m.faces.len() as int) =~= n.faces.take(
                        m.faces.len() as int,
                    ));
                }
            }
        }
    }
}


} // verus!
