//! Scene description parsing: a mesh in the OBJ text format becomes a list
//! of triangles.
//!
//! The grammar handled here is the fragment the renderer consumes: `v`
//! records with three decimal coordinates build the vertex table, and `f`
//! records with three one-based vertex references (texture and normal
//! references after a slash are ignored) build triangles, each carrying a
//! red diffuse material.  Records are split on newlines and fields on
//! blanks.  Each accepted document maps to exactly one list of vertex
//! triples, pinned by the mirrored specification; a malformed record is a
//! fatal error, since no partial scene is usable.

use vstd::prelude::*;

use crate::fixed::clip;
use crate::fixed::Fixed;
use crate::fixed::SCALE;
use crate::hitable::Hitable;
use crate::hitable_list::HitableList;
use crate::material::Material;
use crate::triangle::Triangle;
use crate::vector::vcross;
use crate::vector::vsub;
use crate::vector::V3;
use crate::vector::Vec3;

verus! {

/// A record the parser cannot accept.
#[derive(Clone, Copy, Debug, PartialEq, Eq, Structural)]
pub enum ParseError {
    /// A vertex record without three readable coordinates.
    BadVertex,
    /// A face record without three readable vertex references.
    BadFace,
    /// A face record referring outside the vertex table.
    BadIndex,
}

/// Is this byte a blank (space, tab or carriage return)?
pub open spec fn ws(b: u8) -> bool {
    b == 32 || b == 9 || b == 13
}

/// Is this byte a decimal digit?
pub open spec fn digit(b: u8) -> bool {
    48 <= b <= 57
}

/// The first position at or after `i` holding byte `b`, or the length.
pub open spec fn find_from(s: Seq<u8>, b: u8, i: int) -> int
    decreases s.len() - i,
{
    if i < 0 {
        0
    } else if i >= s.len() {
        s.len() as int
    } else if s[i] == b {
        i
    } else {
        find_from(s, b, i + 1)
    }
}

/// The first blank position at or after `i`, or the length.
pub open spec fn find_ws_from(s: Seq<u8>, i: int) -> int
    decreases s.len() - i,
{
    if i < 0 {
        0
    } else if i >= s.len() {
        s.len() as int
    } else if ws(s[i]) {
        i
    } else {
        find_ws_from(s, i + 1)
    }
}

/// `find_from` stays between its start and the length.
pub proof fn lemma_find_from_bounds(s: Seq<u8>, b: u8, i: int)
    requires
        0 <= i <= s.len(),
    ensures
        i <= find_from(s, b, i) <= s.len(),
    decreases s.len() - i,
{
    if i < s.len() && s[i] != b {
        lemma_find_from_bounds(s, b, i + 1);
    }
}

/// `find_ws_from` stays between its start and the length.
pub proof fn lemma_find_ws_from_bounds(s: Seq<u8>, i: int)
    requires
        0 <= i <= s.len(),
    ensures
        i <= find_ws_from(s, i) <= s.len(),
    decreases s.len() - i,
{
    if i < s.len() && !ws(s[i]) {
        lemma_find_ws_from_bounds(s, i + 1);
    }
}

/// The blank-separated fields of a record, from position `i` on.
pub open spec fn tokens_from(s: Seq<u8>, i: int) -> Seq<Seq<u8>>
    decreases s.len() - i, s.len() - i + 1,
{
    if i < 0 || i >= s.len() {
        Seq::empty()
    } else if ws(s[i]) {
        tokens_from(s, i + 1)
    } else {
        let e0 = find_ws_from(s, i + 1);
        let e = if e0 < i + 1 {
            i + 1
        } else if e0 > s.len() {
            s.len() as int
        } else {
            e0
        };
        seq![s.subrange(i, e)] + tokens_from(s, e)
    }
}

/// The value of a run of decimal digits.
pub open spec fn digits_val(s: Seq<u8>) -> int
    decreases s.len(),
{
    if s.len() == 0 {
        0
    } else {
        digits_val(s.drop_last()) * 10 + (s.last() - 48)
    }
}

/// Does the run hold only decimal digits?
pub open spec fn all_digits(s: Seq<u8>) -> bool {
    forall|k: int| 0 <= k < s.len() ==> digit(#[trigger] s[k])
}

/// Ten to the `k`.
pub open spec fn pow10(k: nat) -> int
    decreases k,
{
    if k == 0 {
        1
    } else {
        10 * pow10((k - 1) as nat)
    }
}

/// The raw value of a decimal token: an optional minus sign, then an
/// integer part and an optional fraction separated by a dot, each of at
/// most nine digits with at least one digit overall; the fraction is
/// scaled and truncated, the whole saturated into the raw range.
pub open spec fn parse_fixed_tok(s: Seq<u8>) -> Option<int> {
    if s.len() == 0 {
        None
    } else {
        let neg = s[0] == 45;
        let body = if neg {
            s.drop_first()
        } else {
            s
        };
        let d0 = find_from(body, 46, 0);
        let d = if d0 < 0 {
            0
        } else if d0 > body.len() {
            body.len() as int
        } else {
            d0
        };
        let ip = body.subrange(0, d);
        let fp = if d < body.len() {
            body.subrange(d + 1, body.len() as int)
        } else {
            Seq::empty()
        };
        if all_digits(ip) && all_digits(fp) && ip.len() <= 9 && fp.len() <= 9 && ip.len()
            + fp.len() >= 1 {
            let v = digits_val(ip) * SCALE + (digits_val(fp) * SCALE) / pow10(fp.len());
            Some(
                clip(
                    if neg {
                        -v
                    } else {
                        v
                    },
                ),
            )
        } else {
            None
        }
    }
}

/// The value of a face reference token: the decimal run before any slash,
/// of one to nine digits.
pub open spec fn parse_index_tok(s: Seq<u8>) -> Option<int> {
    let d0 = find_from(s, 47, 0);
    let d = if d0 < 0 {
        0
    } else if d0 > s.len() {
        s.len() as int
    } else {
        d0
    };
    let ip = s.subrange(0, d);
    if all_digits(ip) && 1 <= ip.len() <= 9 {
        Some(digits_val(ip))
    } else {
        None
    }
}

/// The parser's walk over the document from byte `pos` on, carrying the
/// vertex table and the triples gathered so far: one record per line, `v`
/// records extend the table, `f` records append a triple, anything else is
/// skipped.
pub open spec fn parse_from(s: Seq<u8>, pos: int, verts: Seq<V3>, tris: Seq<(V3, V3, V3)>) -> Result<
    Seq<(V3, V3, V3)>,
    ParseError,
>
    decreases s.len() - pos,
{
    if pos < 0 || pos >= s.len() {
        Ok(tris)
    } else {
        let e0 = find_from(s, 10, pos);
        let e = if e0 < pos {
            pos
        } else if e0 > s.len() {
            s.len() as int
        } else {
            e0
        };
        let next = if e < s.len() {
            e + 1
        } else {
            e
        };
        let line = s.subrange(pos, e);
        let toks = tokens_from(line, 0);
        if toks.len() > 0 && toks[0] == seq![118u8] {
            if toks.len() < 4 {
                Err(ParseError::BadVertex)
            } else {
                match (parse_fixed_tok(toks[1]), parse_fixed_tok(toks[2]), parse_fixed_tok(
                    toks[3],
                )) {
                    (Some(x), Some(y), Some(z)) => parse_from(
                        s,
                        next,
                        verts.push(V3 { x, y, z }),
                        tris,
                    ),
                    _ => Err(ParseError::BadVertex),
                }
            }
        } else if toks.len() > 0 && toks[0] == seq![102u8] {
            if toks.len() < 4 {
                Err(ParseError::BadFace)
            } else {
                match (parse_index_tok(toks[1]), parse_index_tok(toks[2]), parse_index_tok(
                    toks[3],
                )) {
                    (Some(a), Some(b), Some(c)) => {
                        if 1 <= a <= verts.len() && 1 <= b <= verts.len() && 1 <= c
                            <= verts.len() {
                            parse_from(
                                s,
                                next,
                                verts,
                                tris.push((verts[a - 1], verts[b - 1], verts[c - 1])),
                            )
                        } else {
                            Err(ParseError::BadIndex)
                        }
                    },
                    _ => Err(ParseError::BadFace),
                }
            }
        } else {
            parse_from(s, next, verts, tris)
        }
    }
}

/// What a whole document parses to.
pub open spec fn parse_spec(s: Seq<u8>) -> Result<Seq<(V3, V3, V3)>, ParseError> {
    parse_from(s, 0, Seq::empty(), Seq::empty())
}

/// The red diffuse material every parsed triangle carries.
pub open spec fn parsed_material(m: Material) -> bool {
    m matches Material::Lambertian(c) && c.m() == (V3 { x: SCALE as int, y: 0, z: 0 })
}

/// The parsed list realizes the triples: one triangle per triple, with the
/// triple's corners, the derived face normal and the red material.
pub open spec fn tri_list_matches(objs: Seq<Hitable>, tris: Seq<(V3, V3, V3)>) -> bool {
    &&& objs.len() == tris.len()
    &&& forall|k: int|
        0 <= k < objs.len() ==> {
            &&& #[trigger] objs[k] matches Hitable::Triangle(t)
            &&& t.v0_m() == tris[k].0
            &&& t.v1_m() == tris[k].1
            &&& t.v2_m() == tris[k].2
            &&& t.normal_m() == vcross(vsub(tris[k].1, tris[k].0), vsub(tris[k].2, tris[k].0))
            &&& parsed_material(t.material_m())
        }
}

/// A scene description held as document bytes, tagged with its format.
#[derive(Debug)]
pub enum Parser {
    /// A document in the OBJ text format.
    OBJ(Vec<u8>),
}

impl Parser {
    /// Parse the document into a list of triangle primitives, or report
    /// the first malformed record.
    pub fn parse(&self) -> (res: Result<HitableList, ParseError>)
        ensures
            match res {
                Ok(list) => {
                    &&& parse_spec(self->0@) matches Ok(tris) && tri_list_matches(
                        list.objs@,
                        tris,
                    )
                    &&& forall|k: int|
                        0 <= k < list.objs@.len() ==> crate::hitable::wf(#[trigger] list.objs@[k])
                },
                Err(e) => parse_spec(self->0@) == Err::<Seq<(V3, V3, V3)>, ParseError>(e),
            },
    {
        match self {
            Parser::OBJ(bytes) => Parser::parse_obj(bytes),
        }
    }

    /// The OBJ walk itself.
    fn parse_obj(bytes: &Vec<u8>) -> (res: Result<HitableList, ParseError>)
        ensures
            match res {
                Ok(list) => {
                    &&& parse_spec(bytes@) matches Ok(tris) && tri_list_matches(list.objs@, tris)
                    &&& forall|k: int|
                        0 <= k < list.objs@.len() ==> crate::hitable::wf(#[trigger] list.objs@[k])
                },
                Err(e) => parse_spec(bytes@) == Err::<Seq<(V3, V3, V3)>, ParseError>(e),
            },
    {
        let mut list = HitableList::new();
        let mut vector_table: Vec<Vec3> = Vec::new();
        let ghost mut gverts: Seq<V3> = Seq::empty();
        let ghost mut gtris: Seq<(V3, V3, V3)> = Seq::empty();
        let mut pos: usize = 0;
        let red = Material::Lambertian(
            Vec3::new(Fixed::one(), Fixed::zero(), Fixed::zero()),
        );
        while pos < bytes.len()
            invariant
                pos <= bytes@.len(),
                parse_spec(bytes@) == parse_from(bytes@, pos as int, gverts, gtris),
                vector_table@.len() == gverts.len(),
                forall|k: int|
                    0 <= k < gverts.len() ==> (#[trigger] vector_table@[k]).m() == gverts[k],
                tri_list_matches(list.objs@, gtris),
                forall|k: int|
                    0 <= k < list.objs@.len() ==> crate::hitable::wf(#[trigger] list.objs@[k]),
                parsed_material(red),
            decreases bytes@.len() - pos,
        {
            let ghost pos0 = pos as int;
            let ghost gverts0 = gverts;
            let ghost gtris0 = gtris;
            let e = find_byte(bytes, 10, pos);
            let ghost gnext: int = if (e as int) < bytes@.len() {
                e as int + 1
            } else {
                e as int
            };
            let ghost line = bytes@.subrange(pos as int, e as int);
            let toks = tokenize(bytes, pos, e);
            let ghost gtoks = tokens_from(line, 0);
            proof {
                assert(gtoks == toks@.map_values(|t: Vec<u8>| t@));
                assert(forall|k: int|
                    0 <= k < gtoks.len() ==> gtoks[k] == (#[trigger] toks@[k])@);
            }
            let is_vertex = first_token_is(&toks, 118);
            let is_face = first_token_is(&toks, 102);
            if is_vertex {
                if toks.len() < 4 {
                    proof {
                        assert(parse_from(bytes@, pos0, gverts0, gtris0) == Err::<
                            Seq<(V3, V3, V3)>,
                            ParseError,
                        >(ParseError::BadVertex));
                    }
                    return Err(ParseError::BadVertex);
                }
                let x = parse_fixed(&toks[1]);
                let y = parse_fixed(&toks[2]);
                let z = parse_fixed(&toks[3]);
                match (x, y, z) {
                    (Some(xf), Some(yf), Some(zf)) => {
                        let v = Vec3::new(xf, yf, zf);
                        vector_table.push(v);
                        proof {
                            gverts = gverts.push(v.m());
                            assert(parse_from(bytes@, pos0, gverts0, gtris0) == parse_from(
                                bytes@,
                                gnext,
                                gverts,
                                gtris,
                            ));
                        }
                    },
                    _ => {
                        proof {
                            assert(parse_from(bytes@, pos0, gverts0, gtris0) == Err::<
                                Seq<(V3, V3, V3)>,
                                ParseError,
                            >(ParseError::BadVertex));
                        }
                        return Err(ParseError::BadVertex);
                    },
                }
            } else if is_face {
                if toks.len() < 4 {
                    proof {
                        assert(parse_from(bytes@, pos0, gverts0, gtris0) == Err::<
                            Seq<(V3, V3, V3)>,
                            ParseError,
                        >(ParseError::BadFace));
                    }
                    return Err(ParseError::BadFace);
                }
                let a = parse_index(&toks[1]);
                let b = parse_index(&toks[2]);
                let c = parse_index(&toks[3]);
                match (a, b, c) {
                    (Some(ai), Some(bi), Some(ci)) => {
                        let n = vector_table.len() as u64;
                        if !(1 <= ai && ai <= n && 1 <= bi && bi <= n && 1 <= ci && ci <= n) {
                            proof {
                                assert(parse_from(bytes@, pos0, gverts0, gtris0) == Err::<
                                    Seq<(V3, V3, V3)>,
                                    ParseError,
                                >(ParseError::BadIndex));
                            }
                            return Err(ParseError::BadIndex);
                        }
                        let v0 = vector_table[(ai - 1) as usize];
                        let v1 = vector_table[(bi - 1) as usize];
                        let v2 = vector_table[(ci - 1) as usize];
                        let triangle = Triangle::new(v0, v1, v2, red);
                        let ghost objs0 = list.objs@;
                        list.push(Hitable::Triangle(triangle));
                        proof {
                            gtris = gtris.push((v0.m(), v1.m(), v2.m()));
                            assert(parse_from(bytes@, pos0, gverts0, gtris0) == parse_from(
                                bytes@,
                                gnext,
                                gverts,
                                gtris,
                            ));
                            assert forall|k: int| 0 <= k < list.objs@.len() implies ({
                                &&& #[trigger] list.objs@[k] matches Hitable::Triangle(t)
                                &&& t.v0_m() == gtris[k].0
                                &&& t.v1_m() == gtris[k].1
                                &&& t.v2_m() == gtris[k].2
                                &&& t.normal_m() == vcross(
                                    vsub(gtris[k].1, gtris[k].0),
                                    vsub(gtris[k].2, gtris[k].0),
                                )
                                &&& parsed_material(t.material_m())
                            }) by {
                                if k < objs0.len() {
                                    assert(list.objs@[k] == objs0[k]);
                                    assert(gtris[k] == gtris0[k]);
                                } else {
                                    assert(list.objs@[k] == Hitable::Triangle(triangle));
                                }
                            }
                        }
                    },
                    _ => {
                        proof {
                            assert(parse_from(bytes@, pos0, gverts0, gtris0) == Err::<
                                Seq<(V3, V3, V3)>,
                                ParseError,
                            >(ParseError::BadFace));
                        }
                        return Err(ParseError::BadFace);
                    },
                }
            } else {
                proof {
                    assert(parse_from(bytes@, pos0, gverts0, gtris0) == parse_from(
                        bytes@,
                        gnext,
                        gverts,
                        gtris,
                    ));
                }
            }
            if e < bytes.len() {
                pos = e + 1;
            } else {
                pos = e;
            }
        }
        Ok(list)
    }
}

/// The first position at or after `from` holding byte `b`, or the length.
fn find_byte(bytes: &Vec<u8>, b: u8, from: usize) -> (r: usize)
    requires
        from <= bytes@.len(),
    ensures
        from <= r <= bytes@.len(),
        r as int == find_from(bytes@, b, from as int) || (find_from(bytes@, b, from as int)
            > bytes@.len() && r == bytes@.len()),
        r as int == ({
            let e0 = find_from(bytes@, b, from as int);
            if e0 < from as int {
                from as int
            } else if e0 > bytes@.len() {
                bytes@.len() as int
            } else {
                e0
            }
        }),
{
    proof {
        lemma_find_from_bounds(bytes@, b, from as int);
    }
    let mut j: usize = from;
    while j < bytes.len() && bytes[j] != b
        invariant
            from <= j <= bytes@.len(),
            find_from(bytes@, b, from as int) == find_from(bytes@, b, j as int),
        decreases bytes@.len() - j,
    {
        j = j + 1;
    }
    proof {
        lemma_find_from_bounds(bytes@, b, from as int);
    }
    j
}

/// The blank-separated fields of the record in `bytes[from..to]`.
fn tokenize(bytes: &Vec<u8>, from: usize, to: usize) -> (toks: Vec<Vec<u8>>)
    requires
        from <= to <= bytes@.len(),
    ensures
        toks@.map_values(|t: Vec<u8>| t@) == tokens_from(bytes@.subrange(from as int, to as int), 0),
{
    let ghost line = bytes@.subrange(from as int, to as int);
    let mut toks: Vec<Vec<u8>> = Vec::new();
    let mut i: usize = from;
    proof {
        assert(toks@.map_values(|t: Vec<u8>| t@) =~= Seq::<Seq<u8>>::empty());
        assert(Seq::<Seq<u8>>::empty() + tokens_from(line, 0) =~= tokens_from(line, 0));
    }
    while i < to
        invariant
            from <= i <= to <= bytes@.len(),
            line == bytes@.subrange(from as int, to as int),
            tokens_from(line, 0) == toks@.map_values(|t: Vec<u8>| t@) + tokens_from(
                line,
                i - from,
            ),
        decreases to - i,
    {
        let bch = bytes[i];
        if bch == 32 || bch == 9 || bch == 13 {
            proof {
                assert(line[i - from] == bytes@[i as int]);
                assert(tokens_from(line, i - from) == tokens_from(line, i + 1 - from));
            }
            i = i + 1;
        } else {
            let mut j: usize = i + 1;
            proof {
                lemma_find_ws_from_bounds(line, i + 1 - from);
            }
            while j < to && !(bytes[j] == 32 || bytes[j] == 9 || bytes[j] == 13)
                invariant
                    from <= i < j <= to <= bytes@.len(),
                    line == bytes@.subrange(from as int, to as int),
                    find_ws_from(line, i + 1 - from) == find_ws_from(line, j - from),
                decreases to - j,
            {
                proof {
                    assert(line[j - from] == bytes@[j as int]);
                }
                j = j + 1;
            }
            let ghost e0 = find_ws_from(line, i + 1 - from);
            proof {
                if j < to {
                    assert(line[j - from] == bytes@[j as int]);
                    assert(ws(line[j - from]));
                    assert(e0 == j - from);
                } else {
                    assert(find_ws_from(line, j - from) == line.len());
                    assert(e0 == line.len());
                }
            }
            let tok = copy_range(bytes, i, j);
            proof {
                assert(tok@ =~= line.subrange(i - from, j - from));
            }
            let ghost before = toks@.map_values(|t: Vec<u8>| t@);
            toks.push(tok);
            proof {
                assert(toks@.map_values(|t: Vec<u8>| t@) =~= before.push(tok@));
                assert(tokens_from(line, i - from) == seq![line.subrange(i - from, j - from)]
                    + tokens_from(line, j - from));
                assert(before.push(tok@) + tokens_from(line, j - from) =~= before + (seq![
                    line.subrange(i - from, j - from)
                ] + tokens_from(line, j - from)));
            }
            i = j;
        }
    }
    proof {
        assert(tokens_from(line, i - from) =~= Seq::<Seq<u8>>::empty());
        assert(toks@.map_values(|t: Vec<u8>| t@) + Seq::<Seq<u8>>::empty() =~= toks@.map_values(
            |t: Vec<u8>| t@,
        ));
    }
    toks
}

/// A copy of `bytes[a..b]`.
fn copy_range(bytes: &Vec<u8>, a: usize, b: usize) -> (r: Vec<u8>)
    requires
        a <= b <= bytes@.len(),
    ensures
        r@ == bytes@.subrange(a as int, b as int),
{
    let mut r: Vec<u8> = Vec::new();
    let mut k: usize = a;
    while k < b
        invariant
            a <= k <= b <= bytes@.len(),
            r@ == bytes@.subrange(a as int, k as int),
        decreases b - k,
    {
        r.push(bytes[k]);
        proof {
            assert(r@ =~= bytes@.subrange(a as int, k + 1));
        }
        k = k + 1;
    }
    r
}

/// Is the first field exactly the single byte `b`?
fn first_token_is(toks: &Vec<Vec<u8>>, b: u8) -> (r: bool)
    ensures
        r == (toks@.map_values(|t: Vec<u8>| t@).len() > 0 && toks@.map_values(|t: Vec<u8>| t@)[0]
            == seq![b]),
{
    if toks.len() == 0 {
        return false;
    }
    let t0 = &toks[0];
    let r = t0.len() == 1 && t0[0] == b;
    proof {
        assert(toks@.map_values(|t: Vec<u8>| t@)[0] == toks@[0]@);
        if r {
            assert(toks@[0]@ =~= seq![b]);
        } else {
            assert(toks@[0]@ != seq![b]) by {
                if toks@[0]@.len() == 1 && toks@[0]@ == seq![b] {
                    assert(toks@[0]@[0] == b);
                }
            }
        }
    }
    r
}

/// The value of the digit run `tok[a..b]`, walked left to right.
fn digits_value(tok: &Vec<u8>, a: usize, b: usize) -> (r: Option<u64>)
    requires
        a <= b <= tok@.len(),
    ensures
        match r {
            Some(v) => all_digits(tok@.subrange(a as int, b as int)) && b - a <= 9 && v as int
                == digits_val(tok@.subrange(a as int, b as int)) && v < 1000000000,
            None => !(all_digits(tok@.subrange(a as int, b as int)) && b - a <= 9),
        },
{
    if b - a > 9 {
        return None;
    }
    let mut v: u64 = 0;
    let mut k: usize = a;
    proof {
        assert(tok@.subrange(a as int, a as int).len() == 0);
    }
    while k < b
        invariant
            a <= k <= b <= tok@.len(),
            b - a <= 9,
            all_digits(tok@.subrange(a as int, k as int)),
            v as int == digits_val(tok@.subrange(a as int, k as int)),
            (v as int) < pow10((k - a) as nat),
            v < 1000000000,
        decreases b - k,
    {
        let ch = tok[k];
        if !(48 <= ch && ch <= 57) {
            proof {
                assert(tok@.subrange(a as int, b as int)[k - a] == tok@[k as int]);
            }
            return None;
        }
        proof {
            let pre = tok@.subrange(a as int, k + 1);
            assert(pre.drop_last() =~= tok@.subrange(a as int, k as int));
            assert(pre.last() == tok@[k as int]);
            assert forall|j: int| 0 <= j < pre.len() implies digit(#[trigger] pre[j]) by {
                if j < pre.len() - 1 {
                    assert(pre[j] == tok@.subrange(a as int, k as int)[j]);
                } else {
                    assert(pre[j] == tok@[k as int]);
                }
            }
        }
        v = v * 10 + ((ch - 48) as u64);
        k = k + 1;
        proof {
            lemma_digits_grow(tok@.subrange(a as int, k as int));
            lemma_pow10_bound((k - a) as nat);
        }
    }
    proof {
        assert(tok@.subrange(a as int, k as int) =~= tok@.subrange(a as int, b as int));
    }
    Some(v)
}

/// A digit run's value stays below ten to its length.
proof fn lemma_digits_grow(s: Seq<u8>)
    requires
        all_digits(s),
    ensures
        digits_val(s) < pow10(s.len()),
        digits_val(s) >= 0,
    decreases s.len(),
{
    if s.len() > 0 {
        assert(all_digits(s.drop_last())) by {
            assert(forall|k: int|
                0 <= k < s.len() - 1 ==> s.drop_last()[k] == #[trigger] s[k]);
        }
        lemma_digits_grow(s.drop_last());
    }
}

/// Powers of ten are positive.
proof fn lemma_pow10_pos(k: nat)
    ensures
        pow10(k) >= 1,
    decreases k,
{
    if k > 0 {
        lemma_pow10_pos((k - 1) as nat);
    }
}

/// Powers of ten grow with the exponent.
proof fn lemma_pow10_mono(k1: nat, k2: nat)
    requires
        k1 <= k2,
    ensures
        pow10(k1) <= pow10(k2),
    decreases k2,
{
    if k1 < k2 {
        lemma_pow10_mono(k1, (k2 - 1) as nat);
        lemma_pow10_pos((k2 - 1) as nat);
    }
}

/// Read a decimal token into a scalar.
fn parse_fixed(tok: &Vec<u8>) -> (r: Option<Fixed>)
    ensures
        match (r, parse_fixed_tok(tok@)) {
            (Some(f), Some(v)) => f.val() == v,
            (None, None) => true,
            _ => false,
        },
{
    if tok.len() == 0 {
        return None;
    }
    let neg = tok[0] == 45;
    let start: usize = if neg {
        1
    } else {
        0
    };
    let ghost body = if neg {
        tok@.drop_first()
    } else {
        tok@
    };
    let d = find_byte(tok, 46, start);
    let ghost dd = d - start;
    proof {
        assert(body =~= tok@.subrange(start as int, tok@.len() as int));
        lemma_find_shift(tok@, body, 46, start as int);
        assert(body.subrange(0, dd) =~= tok@.subrange(start as int, d as int));
        if (d as int) < tok@.len() {
            assert(body.subrange(dd + 1, body.len() as int) =~= tok@.subrange(
                d + 1,
                tok@.len() as int,
            ));
        }
    }
    let ip = digits_value(tok, start, d);
    let fp: Option<u64>;
    let ghost fseq: Seq<u8>;
    let mut flen: usize = 0;
    if d < tok.len() {
        fp = digits_value(tok, d + 1, tok.len());
        flen = tok.len() - (d + 1);
        proof {
            fseq = tok@.subrange(d + 1, tok@.len() as int);
        }
    } else {
        fp = Some(0);
        proof {
            fseq = Seq::empty();
            assert(digits_val(fseq) == 0);
            assert(all_digits(fseq));
        }
    }
    match (ip, fp) {
        (Some(iv), Some(fv)) => {
            if d == start && flen == 0 {
                return None;
            }
            let scaled_int: i64 = (iv as i64) * (SCALE as i64);
            let mut den: u64 = 1;
            let mut k: usize = 0;
            while k < flen
                invariant
                    k <= flen <= 9,
                    den as int == pow10(k as nat),
                    den <= 1000000000,
                decreases flen - k,
            {
                den = den * 10;
                k = k + 1;
                proof {
                    lemma_pow10_bound(k as nat);
                }
            }
            proof {
                lemma_pow10_pos(flen as nat);
            }
            let scaled_frac: u64 = (fv * (SCALE as u64)) / den;
            proof {
                vstd::arithmetic::div_mod::lemma_div_is_ordered(
                    (fv as int) * (SCALE as int),
                    1000000000 * (SCALE as int),
                    den as int,
                );
                vstd::arithmetic::div_mod::lemma_div_is_ordered_by_denominator(
                    1000000000 * (SCALE as int),
                    1,
                    den as int,
                );
            }
            let total: i64 = scaled_int + (scaled_frac as i64);
            let raw: i64 = if neg {
                -total
            } else {
                total
            };
            let f = Fixed::from_raw(raw);
            Some(f)
        },
        _ => None,
    }
}

/// Dropping a prefix shifts byte searches by the prefix length.
proof fn lemma_find_shift(s: Seq<u8>, body: Seq<u8>, b: u8, start: int)
    requires
        0 <= start <= s.len(),
        body == s.subrange(start, s.len() as int),
    ensures
        find_from(s, b, start) == start + find_from(body, b, 0),
{
    lemma_find_shift_aux(s, body, b, start, 0);
}

/// The shifted search agrees position by position.
proof fn lemma_find_shift_aux(s: Seq<u8>, body: Seq<u8>, b: u8, start: int, k: int)
    requires
        0 <= start <= s.len(),
        body == s.subrange(start, s.len() as int),
        0 <= k <= body.len(),
    ensures
        find_from(s, b, start + k) == start + find_from(body, b, k),
    decreases body.len() - k,
{
    if k < body.len() {
        assert(body[k] == s[start + k]);
        if body[k] != b {
            lemma_find_shift_aux(s, body, b, start, k + 1);
        }
    }
}

/// Powers of ten up to the ninth stay within a billion.
proof fn lemma_pow10_bound(k: nat)
    requires
        k <= 9,
    ensures
        pow10(k) <= 1000000000,
{
    lemma_pow10_mono(k, 9);
    assert(pow10(9) == 1000000000) by {
        reveal_with_fuel(pow10, 10);
    }
}

/// Read a face reference token into its leading decimal value.
fn parse_index(tok: &Vec<u8>) -> (r: Option<u64>)
    ensures
        match (r, parse_index_tok(tok@)) {
            (Some(v), Some(sv)) => v as int == sv,
            (None, None) => true,
            _ => false,
        },
{
    let d = find_byte(tok, 47, 0);
    let iv = digits_value(tok, 0, d);
    match iv {
        Some(v) => {
            if d == 0 {
                return None;
            }
            Some(v)
        },
        None => None,
    }
}

} // verus!
