//! The structure of Wavefront OBJ mesh text as the scenes load it: vertex,
//! normal, group and face lines, face corners and their triangulation.
use vstd::prelude::*;
use crate::text::{
    chars_of, string_of, trim, trim_chars, has_prefix, starts_with_chars, slice_chars, words,
    split_words, split_all, split_all_chars, parse_usize_spec, parse_usize_chars, views,
    string_views, lines_of, split_lines, chars_eq,
};

verus! {

/// The vertex and normal indices (0-based) of a face corner `v`, `v/t` or
/// `v/t/n`: the 1-based vertex number, and the normal number when a third
/// non-empty part gives one (else the vertex's). None when a number is not
/// an unsigned decimal or is 0.
pub open spec fn corner_spec(tok: Seq<char>) -> Option<(usize, usize)> {
    let segs = split_all(tok, '/');
    match parse_usize_spec(segs[0]) {
        None => None,
        Some(v) => if v == 0 {
            None
        } else if segs.len() >= 3 && segs[2].len() > 0 {
            match parse_usize_spec(segs[2]) {
                None => None,
                Some(n) => if n == 0 {
                    None
                } else {
                    Some(((v - 1) as usize, (n - 1) as usize))
                },
            }
        } else {
            Some(((v - 1) as usize, (v - 1) as usize))
        },
    }
}

/// The corners of the tokens `toks` that are readable, in order.
pub open spec fn corners_spec(toks: Seq<Seq<char>>) -> Seq<(usize, usize)>
    decreases toks.len(),
{
    if toks.len() == 0 {
        seq![]
    } else {
        let rest = corners_spec(toks.drop_last());
        match corner_spec(toks.last()) {
            Some(c) => rest.push(c),
            None => rest,
        }
    }
}

/// A triangle of corners.
pub type Tri = ((usize, usize), (usize, usize), (usize, usize));

/// The fan triangulation of a polygon: (c0, ci, ci+1) for each inner i; none
/// for fewer than three corners.
pub open spec fn fan_spec(cs: Seq<(usize, usize)>) -> Seq<Tri> {
    if cs.len() < 3 {
        seq![]
    } else {
        Seq::new((cs.len() - 2) as nat, |i: int| (cs[0], cs[i + 1], cs[i + 2]))
    }
}

/// What one line of OBJ text is.
pub enum ObjLineModel {
    /// A blank line or a `#` comment.
    Skip,
    /// `v ...`: the words after the keyword (the coordinates).
    Position(Seq<Seq<char>>),
    /// `vn ...`: the words after the keyword (the normal).
    Normal(Seq<Seq<char>>),
    /// `g name`: the trimmed group name.
    Group(Seq<char>),
    /// `f ...`: the triangles of the face.
    Face(Seq<Tri>),
    /// Anything else.
    Other,
}

/// What the line `line` is (it is trimmed first; the keyword is followed by
/// a space).
pub open spec fn obj_line_spec(line: Seq<char>) -> ObjLineModel {
    let t = trim(line);
    if t.len() == 0 || t[0] == '#' {
        ObjLineModel::Skip
    } else if has_prefix(t, "v "@) {
        ObjLineModel::Position(words(t.skip(2)))
    } else if has_prefix(t, "vn "@) {
        ObjLineModel::Normal(words(t.skip(3)))
    } else if has_prefix(t, "g "@) {
        ObjLineModel::Group(trim(t.skip(2)))
    } else if has_prefix(t, "f "@) {
        ObjLineModel::Face(fan_spec(corners_spec(words(t.skip(2)))))
    } else {
        ObjLineModel::Other
    }
}

/// What one line of OBJ text is.
pub enum ObjLine {
    Skip,
    Position(Vec<String>),
    Normal(Vec<String>),
    Group(String),
    Face(Vec<Tri>),
    Other,
}

/// The line's meaning, mathematically.
pub open spec fn obj_line_view(l: ObjLine) -> ObjLineModel {
    match l {
        ObjLine::Skip => ObjLineModel::Skip,
        ObjLine::Position(w) => ObjLineModel::Position(string_views(w@)),
        ObjLine::Normal(w) => ObjLineModel::Normal(string_views(w@)),
        ObjLine::Group(g) => ObjLineModel::Group(g@),
        ObjLine::Face(t) => ObjLineModel::Face(t@),
        ObjLine::Other => ObjLineModel::Other,
    }
}

fn corner(tok: &Vec<char>) -> (r: Option<(usize, usize)>)
    ensures
        r == corner_spec(tok@),
{
    let segs = split_all_chars(tok, '/');
    assert(views(segs@).len() > 0);
    assert(views(segs@)[0] == segs@[0]@);
    match parse_usize_chars(&segs[0]) {
        None => None,
        Some(v) => {
            if v == 0 {
                None
            } else if segs.len() >= 3 && segs[2].len() > 0 {
                assert(views(segs@)[2] == segs@[2]@);
                match parse_usize_chars(&segs[2]) {
                    None => None,
                    Some(n) => {
                        if n == 0 {
                            None
                        } else {
                            Some((v - 1, n - 1))
                        }
                    },
                }
            } else {
                proof {
                    if segs.len() >= 3 {
                        assert(views(segs@)[2] == segs@[2]@);
                    }
                }
                Some((v - 1, v - 1))
            }
        },
    }
}

fn to_strings(ws: &Vec<Vec<char>>) -> (r: Vec<String>)
    ensures
        string_views(r@) == views(ws@),
{
    let mut out: Vec<String> = Vec::new();
    for i in 0..ws.len()
        invariant
            string_views(out@) == views(ws@).take(i as int),
    {
        let ghost before = out@;
        out.push(string_of(&ws[i]));
        assert(string_views(out@) =~= string_views(before).push(ws@[i as int]@));
        assert(views(ws@).take(i + 1) =~= views(ws@).take(i as int).push(ws@[i as int]@));
    }
    assert(views(ws@).take(ws.len() as int) == views(ws@));
    out
}

/// The triangles of a face whose corner tokens are `toks`.
pub fn face_triangles(toks: &Vec<Vec<char>>) -> (r: Vec<Tri>)
    ensures
        r@ == fan_spec(corners_spec(views(toks@))),
{
    let ghost tv = views(toks@);
    let mut cs: Vec<(usize, usize)> = Vec::new();
    for i in 0..toks.len()
        invariant
            tv == views(toks@),
            cs@ == corners_spec(tv.take(i as int)),
    {
        assert(tv.take(i + 1).drop_last() == tv.take(i as int));
        assert(tv.take(i + 1).last() == toks@[i as int]@);
        match corner(&toks[i]) {
            Some(c) => {
                cs.push(c);
            },
            None => {},
        }
    }
    assert(tv.take(toks.len() as int) == tv);
    let mut tris: Vec<Tri> = Vec::new();
    if cs.len() >= 3 {
        let n = cs.len() - 2;
        for i in 0..n
            invariant
                n == cs.len() - 2,
                cs.len() >= 3,
                tris@ =~= Seq::new(i as nat, |k: int| (cs@[0], cs@[k + 1], cs@[k + 2])),
        {
            tris.push((cs[0], cs[i + 1], cs[i + 2]));
        }
    }
    tris
}

/// Reads one line of OBJ text (see `obj_line_spec`).
pub fn parse_obj_line(line: &str) -> (r: ObjLine)
    ensures
        obj_line_view(r) == obj_line_spec(line@),
{
    let t = trim_chars(&chars_of(line));
    proof {
        reveal_strlit("v ");
        reveal_strlit("vn ");
        reveal_strlit("g ");
        reveal_strlit("f ");
    }
    if t.len() == 0 || t[0] == '#' {
        ObjLine::Skip
    } else if starts_with_chars(&t, &chars_of("v ")) {
        ObjLine::Position(to_strings(&split_words(&slice_chars(&t, 2, t.len()))))
    } else if starts_with_chars(&t, &chars_of("vn ")) {
        ObjLine::Normal(to_strings(&split_words(&slice_chars(&t, 3, t.len()))))
    } else if starts_with_chars(&t, &chars_of("g ")) {
        ObjLine::Group(string_of(&trim_chars(&slice_chars(&t, 2, t.len()))))
    } else if starts_with_chars(&t, &chars_of("f ")) {
        ObjLine::Face(face_triangles(&split_words(&slice_chars(&t, 2, t.len()))))
    } else {
        ObjLine::Other
    }
}

/// Reads every line of OBJ text, in order.
pub fn parse_obj(src: &str) -> (r: Vec<ObjLine>)
    ensures
        r@.len() == lines_of(src@).len(),
        forall|i: int| 0 <= i < r@.len() ==> obj_line_view(#[trigger] r@[i]) == obj_line_spec(lines_of(src@)[i]),
{
    let ls = split_lines(&chars_of(src));
    let mut out: Vec<ObjLine> = Vec::new();
    for i in 0..ls.len()
        invariant
            views(ls@) == lines_of(src@),
            out@.len() == i,
            forall|k: int| 0 <= k < i ==> obj_line_view(#[trigger] out@[k]) == obj_line_spec(lines_of(src@)[k]),
    {
        let line = string_of(&ls[i]);
        assert(views(ls@)[i as int] == ls@[i as int]@);
        out.push(parse_obj_line(line.as_str()));
    }
    out
}

/// The named parts of the scenes, whose groups have a material of their own.
pub open spec fn material_names() -> Seq<Seq<char>> {
    seq![
        "floor"@, "neon_frame_0"@, "neon_frame_1"@, "neon_frame_2"@, "neon_frame_3"@,
        "neon_frame_4"@, "neon_frame_5"@, "neon_frame_6"@, "neon_frame_7"@, "faceplate"@,
        "meter_frame"@, "dial_scale"@, "needle_left"@, "needle_right"@, "knob"@, "meter_glass"@,
        "leds"@, "screws"@, "hull"@, "arch_rib"@, "floor_grating"@, "neon_strip"@, "conduit"@,
        "hazard_trim"@, "paint"@, "glass"@, "taillight"@, "tire"@, "rim"@, "carbon"@, "exhaust"@,
        "trunk"@, "frond"@, "mast"@, "lamp"@, "tower"@, "spire"@,
    ]
}

/// Their material numbers, in half steps (the shader reads half of each).
pub open spec fn material_codes() -> Seq<u32> {
    seq![
        0u32, 2, 4, 6, 8, 10, 12, 14, 16, 2, 4, 6, 8, 10, 12, 14, 16, 18, 2, 4, 6, 8, 10, 12, 6, 8,
        12, 14, 15, 16, 18, 20, 21, 22, 23, 24, 25,
    ]
}

/// The material number of a mesh group, in half steps: that of the named
/// part it is; any other group keeps the scene's default (`None`).
pub open spec fn group_material_spec(name: Seq<char>) -> Option<u32> {
    material_from(material_names(), material_codes(), name, 0)
}

/// The material number of the group `name`, in half steps (see
/// `group_material_spec`).
pub fn group_material_half_steps(name: &str) -> (r: Option<u32>)
    ensures
        r == group_material_spec(name@),
{
    let n = chars_of(name);
    let names: Vec<&'static str> = vec![
        "floor", "neon_frame_0", "neon_frame_1", "neon_frame_2", "neon_frame_3", "neon_frame_4",
        "neon_frame_5", "neon_frame_6", "neon_frame_7", "faceplate", "meter_frame", "dial_scale",
        "needle_left", "needle_right", "knob", "meter_glass", "leds", "screws", "hull", "arch_rib",
        "floor_grating", "neon_strip", "conduit", "hazard_trim", "paint", "glass", "taillight",
        "tire", "rim", "carbon", "exhaust", "trunk", "frond", "mast", "lamp", "tower", "spire",
    ];
    let codes: Vec<u32> = vec![
        0, 2, 4, 6, 8, 10, 12, 14, 16, 2, 4, 6, 8, 10, 12, 14, 16, 18, 2, 4, 6, 8, 10, 12, 6, 8, 12,
        14, 15, 16, 18, 20, 21, 22, 23, 24, 25,
    ];
    let ghost nv = names@.map_values(|s: &'static str| s@);
    assert(nv =~= material_names());
    assert(codes@ =~= material_codes());
    let mut i: usize = 0;
    while i < names.len()
        invariant
            names.len() == 37,
            codes.len() == 37,
            nv == names@.map_values(|s: &'static str| s@),
            nv == material_names(),
            codes@ == material_codes(),
            n@ == name@,
            group_material_spec(n@) == material_from(nv, codes@, n@, i as int),
            i <= 37,
        decreases 37 - i,
    {
        if chars_eq(&chars_of(names[i]), &n) {
            assert(nv.len() == 37);
            assert(nv[i as int] == n@);
            assert(material_from(nv, codes@, n@, i as int) == Some(codes@[i as int]));
            return Some(codes[i]);
        }
        i = i + 1;
    }
    None
}

/// The code of the first of `names[i..]` equal to `n`, or `None`.
pub open spec fn material_from(names: Seq<Seq<char>>, codes: Seq<u32>, n: Seq<char>, i: int) -> Option<u32>
    decreases names.len() - i,
{
    if i < 0 || i >= names.len() {
        None
    } else if names[i] == n {
        Some(codes[i])
    } else {
        material_from(names, codes, n, i + 1)
    }
}

} // verus!
