use crate::data::{corner_ok, Data, Model};
use crate::face::{grey_level, grey_scale, Corner, Face};
use crate::normalize::{Normalized, Point};
use crate::number::{Ratio, MICRO};
use vstd::prelude::*;

verus! {

/// The number of values per vertex: position and colour, plus a texture
/// coordinate when one is asked for.
pub open spec fn stride(with_tex: bool) -> nat {
    if with_tex {
        8
    } else {
        6
    }
}

pub open spec fn zero() -> Ratio {
    Ratio { num: 0, den: 1 }
}

/// The values of one vertex: its normalised position, its face's grey three
/// times, then (if asked for) its texture coordinate's `u` and `v`, or zeros
/// when the corner has none.
pub open spec fn vertex_attrs(
    m: Model,
    pts: Seq<Point>,
    den: i128,
    c: Corner,
    shade: u8,
    with_tex: bool,
) -> Seq<Ratio> {
    let p = pts[c.v as int];
    let g = grey_level(shade);
    let base = seq![
        Ratio { num: p.x, den },
        Ratio { num: p.y, den },
        Ratio { num: p.z, den },
        g,
        g,
        g,
    ];
    if !with_tex {
        base
    } else {
        match c.vt {
            Some(t) => base + seq![
                Ratio { num: m.text[t as int].x as i128, den: MICRO as i128 },
                Ratio { num: m.text[t as int].y as i128, den: MICRO as i128 },
            ],
            None => base + seq![zero(), zero()],
        }
    }
}

/// The values of the three vertices of `f`.
pub open spec fn face_attrs(m: Model, pts: Seq<Point>, den: i128, f: Face, with_tex: bool) -> Seq<
    Ratio,
> {
    vertex_attrs(m, pts, den, f.p0, f.shade, with_tex) + vertex_attrs(
        m,
        pts,
        den,
        f.p1,
        f.shade,
        with_tex,
    ) + vertex_attrs(m, pts, den, f.p2, f.shade, with_tex)
}

/// The interleaved values of `faces`, face after face.
pub open spec fn buffer_of(
    m: Model,
    pts: Seq<Point>,
    den: i128,
    faces: Seq<Face>,
    with_tex: bool,
) -> Seq<Ratio>
    decreases faces.len(),
{
    if faces.len() == 0 {
        Seq::empty()
    } else {
        buffer_of(m, pts, den, faces.drop_last(), with_tex) + face_attrs(
            m,
            pts,
            den,
            faces.last(),
            with_tex,
        )
    }
}

fn push_vertex(
    out: &mut Vec<Ratio>,
    data: &Data,
    norm: &Normalized,
    c: Corner,
    shade: u8,
    with_tex: bool,
)
    requires
        corner_ok(data@, c),
        shade < 6,
        norm.points@.len() == data@.geo.len(),
    ensures
        final(out)@ == old(out)@ + vertex_attrs(data@, norm.points@, norm.den, c, shade, with_tex),
{
    let p = norm.points[c.v];
    let g = grey_scale(shade);
    let ghost start = out@;
    out.push(Ratio { num: p.x, den: norm.den });
    out.push(Ratio { num: p.y, den: norm.den });
    out.push(Ratio { num: p.z, den: norm.den });
    out.push(g);
    out.push(g);
    out.push(g);
    if with_tex {
        match c.vt {
            Some(t) => {
                let q = data.text_vert[t];
                out.push(Ratio { num: q.x as i128, den: 1_000_000 });
                out.push(Ratio { num: q.y as i128, den: 1_000_000 });
            },
            None => {
                out.push(Ratio { num: 0, den: 1 });
                out.push(Ratio { num: 0, den: 1 });
            },
        }
    }
    assert(out@ =~= start + vertex_attrs(data@, norm.points@, norm.den, c, shade, with_tex));
}

/// Builds the interleaved vertex values of every face: per vertex its
/// position, its face's grey, and, when `with_tex`, its texture coordinate.
pub fn load_vertices(data: &Data, norm: &Normalized, with_tex: bool) -> (r: Vec<Ratio>)
    requires
        data@.wf(),
        norm.points@.len() == data@.geo.len(),
    ensures
        r@ == buffer_of(data@, norm.points@, norm.den, data@.faces, with_tex),
{
    let mut out: Vec<Ratio> = Vec::new();
    let mut i: usize = 0;
    let ghost fs = data@.faces;
    assert(fs.take(0) =~= Seq::<Face>::empty());
    while i < data.faces.len()
        invariant
            i <= fs.len(),
            fs == data@.faces,
            data@.wf(),
            norm.points@.len() == data@.geo.len(),
            out@ == buffer_of(data@, norm.points@, norm.den, fs.take(i as int), with_tex),
        decreases fs.len() - i,
    {
        let f = data.faces[i];
        assert(fs.take(i + 1).drop_last() =~= fs.take(i as int));
        assert(fs[i as int] == f);
        push_vertex(&mut out, data, norm, f.p0, f.shade, with_tex);
        push_vertex(&mut out, data, norm, f.p1, f.shade, with_tex);
        push_vertex(&mut out, data, norm, f.p2, f.shade, with_tex);
        assert(out@ =~= buffer_of(data@, norm.points@, norm.den, fs.take(i + 1), with_tex));
        i = i + 1;
    }
    assert(fs.take(i as int) =~= fs);
    out
}

/// The buffer holds `stride` values for each of the three vertices of every face.
pub proof fn buffer_length(m: Model, pts: Seq<Point>, den: i128, faces: Seq<Face>, with_tex: bool)
    ensures
        buffer_of(m, pts, den, faces, with_tex).len() == 3 * stride(with_tex) * faces.len(),
    decreases faces.len(),
{
    if faces.len() > 0 {
        buffer_length(m, pts, den, faces.drop_last(), with_tex);
        assert(3 * stride(with_tex) * faces.len() == 3 * stride(with_tex) * (faces.len() - 1) + 3
            * stride(with_tex)) by (nonlinear_arith);
    }
}

} // verus!
