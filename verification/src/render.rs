//! What drawing a page decides before it draws: the commands of an
//! abbreviated path, the offsets of glyphs, the color space and components of
//! a color, and the area of a page. The drawing itself, in floating point,
//! stands outside the library.
use crate::container::{color_space_found, font_found, spec_resolve, Resources};
use crate::document::{CtPageArea, DocumentXmlFile};
use crate::graphic::{CGTransform, Cap, CtColor, FillRule, Join, PathObject, TextObject, TextVal};
use crate::page::PageXmlFile;
use crate::res::{spec_srgb, srgb, ColorSpace, DrawParam, Type};
use crate::value::{chars_of, float_literal, is_float_literal, parse_uint, spec_uint_upto, string_from_chars, StArray};
use crate::xml::str_eq;
use vstd::prelude::*;

verus! {

#[derive(Debug)]
pub enum MyError {
    /// unknown path command, at the position of the command
    UnknownPathCommand(String, usize),
    ParseError,
    Invalid,
    /// the values ended before a command had all its operands
    UnexpectedEnd,
}

/// What a `MyError` says, over the characters of its command.
pub enum RenderFault {
    UnknownPathCommand(Seq<char>, int),
    ParseError,
    Invalid,
    UnexpectedEnd,
}

impl MyError {
    pub open spec fn fault(self) -> RenderFault {
        match self {
            MyError::UnknownPathCommand(c, i) => RenderFault::UnknownPathCommand(c@, i as int),
            MyError::ParseError => RenderFault::ParseError,
            MyError::Invalid => RenderFault::Invalid,
            MyError::UnexpectedEnd => RenderFault::UnexpectedEnd,
        }
    }
}

#[derive(Debug, PartialEq, Eq, Structural, Clone, Copy)]
pub enum ArcSize {
    Small,
    Large,
}

#[derive(Debug, PartialEq, Eq, Structural, Clone, Copy)]
pub enum PathDirection {
    CW,
    CCW,
}

/// A command of a path; each coordinate is a float kept as its literal.
#[derive(Debug)]
pub enum PathOp {
    MoveTo(String, String),
    LineTo(String, String),
    QuadTo(String, String, String, String),
    CubicTo(String, String, String, String, String, String),
    ArcTo {
        rx: String,
        ry: String,
        rotation: String,
        large_arc: ArcSize,
        sweep: PathDirection,
        end_x: String,
        end_y: String,
    },
    Close,
}

/// A command of a path over the characters of its operands.
pub enum SpecPathOp {
    MoveTo(Seq<Seq<char>>),
    LineTo(Seq<Seq<char>>),
    QuadTo(Seq<Seq<char>>),
    CubicTo(Seq<Seq<char>>),
    ArcTo(Seq<Seq<char>>, ArcSize, PathDirection),
    Close,
}

impl PathOp {
    pub open spec fn view(self) -> SpecPathOp {
        match self {
            PathOp::MoveTo(x, y) => SpecPathOp::MoveTo(seq![x@, y@]),
            PathOp::LineTo(x, y) => SpecPathOp::LineTo(seq![x@, y@]),
            PathOp::QuadTo(a, b, c, d) => SpecPathOp::QuadTo(seq![a@, b@, c@, d@]),
            PathOp::CubicTo(a, b, c, d, e, f) => SpecPathOp::CubicTo(seq![a@, b@, c@, d@, e@, f@]),
            PathOp::ArcTo { rx, ry, rotation, large_arc, sweep, end_x, end_y } => SpecPathOp::ArcTo(
                seq![rx@, ry@, rotation@, end_x@, end_y@],
                large_arc,
                sweep,
            ),
            PathOp::Close => SpecPathOp::Close,
        }
    }
}

// ---------------------------------------------------------------------------
// Operands
// ---------------------------------------------------------------------------

/// The float operand at `i`.
pub open spec fn float_at(ts: Seq<Seq<char>>, i: int) -> Result<Seq<char>, RenderFault> {
    if i >= ts.len() {
        Err(RenderFault::UnexpectedEnd)
    } else if float_literal(ts[i]) {
        Ok(ts[i])
    } else {
        Err(RenderFault::ParseError)
    }
}

/// The `usize` operand at `i`.
pub open spec fn count_at(ts: Seq<Seq<char>>, i: int) -> Result<nat, RenderFault> {
    if i >= ts.len() {
        Err(RenderFault::UnexpectedEnd)
    } else {
        match spec_uint_upto(ts[i], usize::MAX as int) {
            Some(v) => Ok(v),
            None => Err(RenderFault::ParseError),
        }
    }
}

/// The flag operand (`0` or `1`, read as a `u8`) at `i`.
pub open spec fn flag_at(ts: Seq<Seq<char>>, i: int) -> Result<bool, RenderFault> {
    if i >= ts.len() {
        Err(RenderFault::UnexpectedEnd)
    } else {
        match spec_uint_upto(ts[i], u8::MAX as int) {
            None => Err(RenderFault::ParseError),
            Some(v) => if v == 1 {
                Ok(true)
            } else if v == 0 {
                Ok(false)
            } else {
                Err(RenderFault::Invalid)
            },
        }
    }
}

/// The next value, read as a float: its literal.
pub fn next_val(tokens: &Vec<String>, pos: &mut usize) -> (r: Result<String, MyError>)
    requires
        *old(pos) <= tokens@.len(),
    ensures
        *final(pos) == if *old(pos) < tokens@.len() {
            *old(pos) + 1
        } else {
            *old(pos) as int
        },
        match float_at(tokens@.map_values(|t: String| t@), *old(pos) as int) {
            Ok(v) => r matches Ok(s) && s@ == v,
            Err(f) => r matches Err(e) && e.fault() == f,
        },
{
    if *pos >= tokens.len() {
        return Err(MyError::UnexpectedEnd);
    }
    let t = &tokens[*pos];
    *pos = *pos + 1;
    if is_float_literal(t.as_str()) {
        Ok(t.clone())
    } else {
        Err(MyError::ParseError)
    }
}

fn next_count(tokens: &Vec<String>, pos: &mut usize) -> (r: Result<usize, MyError>)
    requires
        *old(pos) <= tokens@.len(),
    ensures
        *final(pos) == if *old(pos) < tokens@.len() {
            *old(pos) + 1
        } else {
            *old(pos) as int
        },
        match count_at(tokens@.map_values(|t: String| t@), *old(pos) as int) {
            Ok(v) => r == Ok::<usize, MyError>(v as usize),
            Err(f) => r matches Err(e) && e.fault() == f,
        },
{
    if *pos >= tokens.len() {
        return Err(MyError::UnexpectedEnd);
    }
    let t = &tokens[*pos];
    *pos = *pos + 1;
    match parse_uint(t.as_str(), usize::MAX as u64) {
        Some(v) => Ok(v as usize),
        None => Err(MyError::ParseError),
    }
}

fn next_flag(tokens: &Vec<String>, pos: &mut usize) -> (r: Result<bool, MyError>)
    requires
        *old(pos) <= tokens@.len(),
    ensures
        *final(pos) == if *old(pos) < tokens@.len() {
            *old(pos) + 1
        } else {
            *old(pos) as int
        },
        match flag_at(tokens@.map_values(|t: String| t@), *old(pos) as int) {
            Ok(v) => r == Ok::<bool, MyError>(v),
            Err(f) => r matches Err(e) && e.fault() == f,
        },
{
    if *pos >= tokens.len() {
        return Err(MyError::UnexpectedEnd);
    }
    let t = &tokens[*pos];
    *pos = *pos + 1;
    match parse_uint(t.as_str(), u8::MAX as u64) {
        Some(v) => if v == 1 {
            Ok(true)
        } else if v == 0 {
            Ok(false)
        } else {
            Err(MyError::Invalid)
        },
        None => Err(MyError::ParseError),
    }
}

// ---------------------------------------------------------------------------
// Abbreviated paths
// ---------------------------------------------------------------------------

/// The number of operands of a command; nothing for an unknown one.
pub open spec fn arity(c: Seq<char>) -> Option<nat> {
    if c == "S"@ || c == "M"@ || c == "L"@ {
        Some(2)
    } else if c == "Q"@ {
        Some(4)
    } else if c == "B"@ {
        Some(6)
    } else if c == "A"@ {
        Some(7)
    } else if c == "C"@ {
        Some(0)
    } else {
        None
    }
}

/// The first fault among the float operands `i .. i + n`.
pub open spec fn floats_from(ts: Seq<Seq<char>>, i: int, n: nat) -> Result<Seq<Seq<char>>, RenderFault>
    decreases n,
{
    if n == 0 {
        Ok(Seq::empty())
    } else {
        match float_at(ts, i) {
            Err(f) => Err(f),
            Ok(v) => match floats_from(ts, i + 1, (n - 1) as nat) {
                Err(f) => Err(f),
                Ok(rest) => Ok(seq![v] + rest),
            },
        }
    }
}

/// The command at `i`, with its operands read in order.
pub open spec fn command_at(ts: Seq<Seq<char>>, i: int) -> Result<SpecPathOp, RenderFault> {
    let c = ts[i];
    if c == "S"@ || c == "M"@ {
        match floats_from(ts, i + 1, 2) {
            Err(f) => Err(f),
            Ok(v) => Ok(SpecPathOp::MoveTo(v)),
        }
    } else if c == "L"@ {
        match floats_from(ts, i + 1, 2) {
            Err(f) => Err(f),
            Ok(v) => Ok(SpecPathOp::LineTo(v)),
        }
    } else if c == "Q"@ {
        match floats_from(ts, i + 1, 4) {
            Err(f) => Err(f),
            Ok(v) => Ok(SpecPathOp::QuadTo(v)),
        }
    } else if c == "B"@ {
        match floats_from(ts, i + 1, 6) {
            Err(f) => Err(f),
            Ok(v) => Ok(SpecPathOp::CubicTo(v)),
        }
    } else if c == "A"@ {
        match floats_from(ts, i + 1, 3) {
            Err(f) => Err(f),
            Ok(v) => match flag_at(ts, i + 4) {
                Err(f) => Err(f),
                Ok(large) => match flag_at(ts, i + 5) {
                    Err(f) => Err(f),
                    Ok(cw) => match floats_from(ts, i + 6, 2) {
                        Err(f) => Err(f),
                        Ok(e) => Ok(
                            SpecPathOp::ArcTo(
                                v + e,
                                if large {
                                    ArcSize::Large
                                } else {
                                    ArcSize::Small
                                },
                                if cw {
                                    PathDirection::CW
                                } else {
                                    PathDirection::CCW
                                },
                            ),
                        ),
                    },
                },
            },
        }
    } else if c == "C"@ {
        Ok(SpecPathOp::Close)
    } else {
        Err(RenderFault::UnknownPathCommand(c, i))
    }
}

/// The commands of the values from `i` on.
pub open spec fn path_from(ts: Seq<Seq<char>>, i: int) -> Result<Seq<SpecPathOp>, RenderFault>
    decreases ts.len() - i,
{
    if i < 0 || i >= ts.len() {
        Ok(Seq::empty())
    } else {
        match command_at(ts, i) {
            Err(f) => Err(f),
            Ok(op) => match arity(ts[i]) {
                None => Err(RenderFault::UnknownPathCommand(ts[i], i)),
                Some(n) => if i + 1 + n <= ts.len() {
                    match path_from(ts, i + 1 + n) {
                        Err(f) => Err(f),
                        Ok(rest) => Ok(seq![op] + rest),
                    }
                } else {
                    Ok(seq![op])
                },
            },
        }
    }
}

/// Float operands are taken as they stand, in the order written: `n` of them
/// from `i` on are the values `i .. i + n`.
pub proof fn lemma_floats_in_order(ts: Seq<Seq<char>>, i: int, n: nat)
    requires
        0 <= i,
    ensures
        floats_from(ts, i, n) matches Ok(v) ==> v.len() == n && (n > 0 ==> i + n <= ts.len() && v
            == ts.subrange(i, i + n)),
    decreases n,
{
    if n > 0 {
        lemma_floats_in_order(ts, i + 1, (n - 1) as nat);
        if let Ok(v) = floats_from(ts, i, n) {
            assert(v =~= ts.subrange(i, i + n));
        }
    }
}

/// Every command keeps its operands in the order written: the operands of
/// the command at `i` are the values right after it, as many as the command
/// takes (`M`/`S` and `L` 2, `Q` 4, `B` 6; `A` its radii and angle, then its
/// two flags, then its end point), and the command is the one its letter
/// names.
pub proof fn lemma_command_operands_in_order(ts: Seq<Seq<char>>, i: int)
    requires
        0 <= i < ts.len(),
    ensures
        command_at(ts, i) matches Ok(op) ==> match op {
            SpecPathOp::MoveTo(v) => (ts[i] == "S"@ || ts[i] == "M"@) && v == ts.subrange(
                i + 1,
                i + 3,
            ),
            SpecPathOp::LineTo(v) => ts[i] == "L"@ && v == ts.subrange(i + 1, i + 3),
            SpecPathOp::QuadTo(v) => ts[i] == "Q"@ && v == ts.subrange(i + 1, i + 5),
            SpecPathOp::CubicTo(v) => ts[i] == "B"@ && v == ts.subrange(i + 1, i + 7),
            SpecPathOp::ArcTo(v, large, sweep) => {
                &&& ts[i] == "A"@
                &&& v == ts.subrange(i + 1, i + 4) + ts.subrange(i + 6, i + 8)
                &&& i + 8 <= ts.len()
                &&& (large == ArcSize::Large <==> spec_uint_upto(ts[i + 4], 255) == Some(1nat))
                &&& (sweep == PathDirection::CW <==> spec_uint_upto(ts[i + 5], 255) == Some(1nat))
            },
            SpecPathOp::Close => ts[i] == "C"@,
        },
{
    lemma_floats_in_order(ts, i + 1, 2);
    lemma_floats_in_order(ts, i + 1, 3);
    lemma_floats_in_order(ts, i + 1, 4);
    lemma_floats_in_order(ts, i + 1, 6);
    lemma_floats_in_order(ts, i + 6, 2);
}

/// The first command read from `i` on is the one written at `i`.
pub proof fn lemma_path_starts_at_command(ts: Seq<Seq<char>>, i: int)
    requires
        0 <= i < ts.len(),
    ensures
        path_from(ts, i) matches Ok(ops) ==> ops.len() >= 1 && command_at(ts, i) == Ok::<
            SpecPathOp,
            RenderFault,
        >(ops[0]),
{
}

pub open spec fn words_of(a: StArray<String>) -> Seq<Seq<char>> {
    a.0@.map_values(|t: String| t@)
}

fn read_floats(tokens: &Vec<String>, pos: &mut usize, n: usize) -> (r: Result<Vec<String>, MyError>)
    requires
        *old(pos) <= tokens@.len(),
    ensures
        *final(pos) <= tokens@.len(),
        r matches Ok(x) ==> x@.len() == n,
        match floats_from(tokens@.map_values(|t: String| t@), *old(pos) as int, n as nat) {
            Ok(v) => r matches Ok(x) && x@.map_values(|s: String| s@) == v && *final(pos)
                == *old(pos) + n,
            Err(f) => r matches Err(e) && e.fault() == f,
        },
    decreases n,
{
    let ghost ts = tokens@.map_values(|t: String| t@);
    if n == 0 {
        assert(Seq::<String>::empty().map_values(|s: String| s@) =~= Seq::<Seq<char>>::empty());
        return Ok(Vec::new());
    }
    let v = next_val(tokens, pos)?;
    let rest = read_floats(tokens, pos, n - 1)?;
    let mut out: Vec<String> = Vec::new();
    out.push(v);
    let mut k: usize = 0;
    while k < rest.len()
        invariant
            k <= rest@.len(),
            out@.len() == k + 1,
            out@[0]@ == v@,
            forall|j: int| 0 <= j < k ==> out@[j + 1] == rest@[j],
        decreases rest@.len() - k,
    {
        out.push(rest[k].clone());
        k = k + 1;
    }
    assert(out@.map_values(|s: String| s@) =~= seq![v@] + rest@.map_values(|s: String| s@));
    Ok(out)
}

/// Reads the command at `pos` and its operands.
fn read_command(tokens: &Vec<String>, pos: &mut usize) -> (r: Result<PathOp, MyError>)
    requires
        *old(pos) < tokens@.len(),
    ensures
        match command_at(tokens@.map_values(|t: String| t@), *old(pos) as int) {
            Ok(op) => r matches Ok(x) && x.view() == op && (arity(tokens@[*old(pos) as int]@) matches Some(
                n,
            ) && *final(pos) == *old(pos) + 1 + n) && *final(pos) <= tokens@.len(),
            Err(f) => r matches Err(e) && e.fault() == f,
        },
{
    let ghost ts = tokens@.map_values(|t: String| t@);
    let idx = *pos;
    let n = tokens.len();
    let c = &tokens[idx];
    *pos = idx + 1;
    assert(ts[idx as int] == c@);
    let op = if str_eq(c.as_str(), "S") || str_eq(c.as_str(), "M") {
        let v = read_floats(tokens, pos, 2)?;
        assert(seq![v@[0]@, v@[1]@] =~= v@.map_values(|s: String| s@));
        PathOp::MoveTo(v[0].clone(), v[1].clone())
    } else if str_eq(c.as_str(), "L") {
        let v = read_floats(tokens, pos, 2)?;
        assert(seq![v@[0]@, v@[1]@] =~= v@.map_values(|s: String| s@));
        PathOp::LineTo(v[0].clone(), v[1].clone())
    } else if str_eq(c.as_str(), "Q") {
        let v = read_floats(tokens, pos, 4)?;
        assert(seq![v@[0]@, v@[1]@, v@[2]@, v@[3]@] =~= v@.map_values(|s: String| s@));
        PathOp::QuadTo(v[0].clone(), v[1].clone(), v[2].clone(), v[3].clone())
    } else if str_eq(c.as_str(), "B") {
        let v = read_floats(tokens, pos, 6)?;
        assert(seq![v@[0]@, v@[1]@, v@[2]@, v@[3]@, v@[4]@, v@[5]@] =~= v@.map_values(
            |s: String| s@,
        ));
        PathOp::CubicTo(
            v[0].clone(),
            v[1].clone(),
            v[2].clone(),
            v[3].clone(),
            v[4].clone(),
            v[5].clone(),
        )
    } else if str_eq(c.as_str(), "A") {
        let v = read_floats(tokens, pos, 3)?;
        let large = next_flag(tokens, pos)?;
        let cw = next_flag(tokens, pos)?;
        let e = read_floats(tokens, pos, 2)?;
        assert(seq![v@[0]@, v@[1]@, v@[2]@, e@[0]@, e@[1]@] =~= v@.map_values(|s: String| s@)
            + e@.map_values(|s: String| s@));
        PathOp::ArcTo {
            rx: v[0].clone(),
            ry: v[1].clone(),
            rotation: v[2].clone(),
            large_arc: if large {
                ArcSize::Large
            } else {
                ArcSize::Small
            },
            sweep: if cw {
                PathDirection::CW
            } else {
                PathDirection::CCW
            },
            end_x: e[0].clone(),
            end_y: e[1].clone(),
        }
    } else if str_eq(c.as_str(), "C") {
        PathOp::Close
    } else {
        return Err(MyError::UnknownPathCommand(c.clone(), idx));
    };
    Ok(op)
}

/// Reads the commands of an abbreviated path: `M`/`S x y`, `L x y`,
/// `Q x1 y1 x2 y2`, `B x1 y1 x2 y2 x3 y3`, `A rx ry angle large sweep x y`
/// and `C`.
pub fn abbreviated_data_2_path(abbr: &StArray<String>) -> (r: Result<Vec<PathOp>, MyError>)
    ensures
        match path_from(words_of(*abbr), 0) {
            Ok(v) => r matches Ok(ops) && ops@.map_values(|o: PathOp| o.view()) == v,
            Err(f) => r matches Err(e) && e.fault() == f,
        },
        r matches Ok(ops) ==> (words_of(*abbr).len() > 0 ==> ops@.len() >= 1 && command_at(
            words_of(*abbr),
            0,
        ) == Ok::<SpecPathOp, RenderFault>(ops@[0].view())),
{
    let tokens = &abbr.0;
    let ghost ts = words_of(*abbr);
    proof {
        if ts.len() > 0 {
            lemma_path_starts_at_command(ts, 0);
        }
    }
    let mut ops: Vec<PathOp> = Vec::new();
    let mut pos: usize = 0;
    assert(ops@.map_values(|o: PathOp| o.view()) + Seq::<SpecPathOp>::empty() =~= Seq::<SpecPathOp>::empty());
    while pos < tokens.len()
        invariant
            ts == words_of(*abbr),
            ts == tokens@.map_values(|t: String| t@),
            pos <= tokens@.len(),
            path_from(ts, 0) == (match path_from(ts, pos as int) {
                Err(f) => Err(f),
                Ok(rest) => Ok(ops@.map_values(|o: PathOp| o.view()) + rest),
            }),
        decreases tokens@.len() - pos,
    {
        let ghost idx = pos;
        let op = read_command(tokens, &mut pos)?;
        assert(command_at(ts, idx as int) is Ok);
        assert(command_at(ts, idx as int) == Ok::<SpecPathOp, RenderFault>(op.view()));
        assert(pos > idx);
        assert(path_from(ts, idx as int) == (match path_from(ts, pos as int) {
            Err(f) => Err(f),
            Ok(rest) => Ok(seq![op.view()] + rest),
        }));
        let ghost before = ops@.map_values(|o: PathOp| o.view());
        ops.push(op);
        assert(ops@.map_values(|o: PathOp| o.view()) =~= before.push(op.view()));
        proof {
            match path_from(ts, pos as int) {
                Ok(rest) => {
                    assert(before.push(op.view()) + rest =~= before + (seq![op.view()] + rest));
                },
                Err(_) => {},
            }
        }
    }
    assert(path_from(ts, pos as int) == Ok::<Seq<SpecPathOp>, RenderFault>(Seq::empty()));
    assert(ops@.map_values(|o: PathOp| o.view()) + Seq::<SpecPathOp>::empty() =~= ops@.map_values(
        |o: PathOp| o.view(),
    ));
    Ok(ops)
}

// ---------------------------------------------------------------------------
// Offsets of glyphs
// ---------------------------------------------------------------------------

/// The values from `i` on, with each `g n v` written out as `n` times `v`.
pub open spec fn flat_from(ts: Seq<Seq<char>>, i: int) -> Result<Seq<Seq<char>>, RenderFault>
    decreases ts.len() - i,
{
    if i < 0 || i >= ts.len() {
        Ok(Seq::empty())
    } else if ts[i] == "g"@ {
        match count_at(ts, i + 1) {
            Err(f) => Err(f),
            Ok(n) => match float_at(ts, i + 2) {
                Err(f) => Err(f),
                Ok(v) => if i + 3 <= ts.len() {
                    match flat_from(ts, i + 3) {
                        Err(f) => Err(f),
                        Ok(rest) => Ok(Seq::new(n, |k: int| v) + rest),
                    }
                } else {
                    Ok(Seq::new(n, |k: int| v))
                },
            },
        }
    } else {
        match float_at(ts, i) {
            Err(f) => Err(f),
            Ok(v) => match flat_from(ts, i + 1) {
                Err(f) => Err(f),
                Ok(rest) => Ok(seq![v] + rest),
            },
        }
    }
}

/// Writes out the offsets of glyphs: `g n v` stands for `n` times the value
/// `v`; any other value is a float, kept as its literal.
pub fn flat_g(d: &StArray<String>) -> (r: Result<Vec<String>, MyError>)
    ensures
        match flat_from(words_of(*d), 0) {
            Ok(v) => r matches Ok(x) && x@.map_values(|s: String| s@) == v,
            Err(f) => r matches Err(e) && e.fault() == f,
        },
{
    let tokens = &d.0;
    let ghost ts = words_of(*d);
    let mut res: Vec<String> = Vec::new();
    let mut pos: usize = 0;
    assert(res@.map_values(|s: String| s@) + Seq::<Seq<char>>::empty() =~= Seq::<Seq<char>>::empty());
    while pos < tokens.len()
        invariant
            ts == words_of(*d),
            ts == tokens@.map_values(|t: String| t@),
            pos <= tokens@.len(),
            flat_from(ts, 0) == (match flat_from(ts, pos as int) {
                Err(f) => Err(f),
                Ok(rest) => Ok(res@.map_values(|s: String| s@) + rest),
            }),
        decreases tokens@.len() - pos,
    {
        let idx = pos;
        let ghost before = res@.map_values(|s: String| s@);
        if str_eq(tokens[pos].as_str(), "g") {
            pos = pos + 1;
            let rep = next_count(tokens, &mut pos)?;
            let val = next_val(tokens, &mut pos)?;
            let mut k: usize = 0;
            while k < rep
                invariant
                    k <= rep,
                    res@.map_values(|s: String| s@) =~= before + Seq::new(k as nat, |j: int| val@),
                decreases rep - k,
            {
                let ghost prev = res@.map_values(|s: String| s@);
                let c = val.clone();
                res.push(c);
                proof {
                    assert(res@.map_values(|s: String| s@) =~= prev.push(val@));
                    assert(Seq::new((k + 1) as nat, |j: int| val@) =~= Seq::new(k as nat, |j: int| val@).push(val@));
                    assert(before + Seq::new(k as nat, |j: int| val@).push(val@) =~= (before + Seq::new(k as nat, |j: int| val@)).push(val@));
                }
                k = k + 1;
            }
            proof {
                assert(flat_from(ts, idx as int) == (match flat_from(ts, pos as int) {
                    Err(f) => Err(f),
                    Ok(rest) => Ok(Seq::new(rep as nat, |j: int| val@) + rest),
                }));
                match flat_from(ts, pos as int) {
                    Ok(rest) => {
                        assert(before + Seq::new(rep as nat, |j: int| val@) + rest =~= before + (
                        Seq::new(rep as nat, |j: int| val@) + rest));
                    },
                    Err(_) => {},
                }
            }
        } else {
            let val = next_val(tokens, &mut pos)?;
            res.push(val);
            proof {
                assert(res@.map_values(|s: String| s@) =~= before.push(val@));
                match flat_from(ts, pos as int) {
                    Ok(rest) => {
                        assert(before.push(val@) + rest =~= before + (seq![val@] + rest));
                    },
                    Err(_) => {},
                }
            }
        }
    }
    assert(res@.map_values(|s: String| s@) + Seq::<Seq<char>>::empty() =~= res@.map_values(
        |s: String| s@,
    ));
    Ok(res)
}

// ---------------------------------------------------------------------------
// The area of a page
// ---------------------------------------------------------------------------

/// The first area among those of `ts`.
pub open spec fn first_area(ts: Seq<PageXmlFile>) -> Option<CtPageArea>
    decreases ts.len(),
{
    if ts.len() == 0 {
        None
    } else if ts[0].area is Some {
        ts[0].area
    } else {
        first_area(ts.skip(1))
    }
}

/// The area of a page: its own, else the first of its templates', else the
/// area of its document.
pub open spec fn page_area(page: PageXmlFile, ts: Seq<PageXmlFile>, doc: DocumentXmlFile) -> CtPageArea {
    match page.area {
        Some(a) => a,
        None => match first_area(ts) {
            Some(a) => a,
            None => doc.common_data.page_area,
        },
    }
}

/// The first template with an area gives it: the area of the template at
/// `k`, when none before it has one.
pub proof fn lemma_first_area_is_first(ts: Seq<PageXmlFile>, k: int)
    requires
        0 <= k < ts.len(),
        ts[k].area is Some,
        forall|j: int| 0 <= j < k ==> (#[trigger] ts[j]).area is None,
    ensures
        first_area(ts) == ts[k].area,
    decreases k,
{
    if k > 0 {
        let rest = ts.skip(1);
        assert forall|j: int| 0 <= j < k - 1 implies (#[trigger] rest[j]).area is None by {
            assert(rest[j] == ts[j + 1]);
        }
        assert(rest[k - 1] == ts[k]);
        lemma_first_area_is_first(rest, k - 1);
    }
}

/// No template with an area: none is taken from them.
pub proof fn lemma_first_area_none(ts: Seq<PageXmlFile>)
    requires
        forall|j: int| 0 <= j < ts.len() ==> (#[trigger] ts[j]).area is None,
    ensures
        first_area(ts) is None,
    decreases ts.len(),
{
    if ts.len() > 0 {
        let rest = ts.skip(1);
        assert forall|j: int| 0 <= j < rest.len() implies (#[trigger] rest[j]).area is None by {
            assert(rest[j] == ts[j + 1]);
        }
        lemma_first_area_none(rest);
    }
}

/// The area a page is drawn in: where the page has its own area, that one,
/// whatever its templates and document say; else the area of the first of
/// its templates that has one; else the area its document gives.
pub proof fn lemma_page_area_precedence(page: PageXmlFile, ts: Seq<PageXmlFile>, doc: DocumentXmlFile)
    ensures
        page.area matches Some(a) ==> page_area(page, ts, doc) == a,
        page.area is None ==> forall|k: int|
            0 <= k < ts.len() && (#[trigger] ts[k]).area is Some && (forall|j: int|
                0 <= j < k ==> ts[j].area is None) ==> page_area(page, ts, doc) == ts[k].area->0,
        page.area is None && (forall|j: int| 0 <= j < ts.len() ==> (#[trigger] ts[j]).area is None)
            ==> page_area(page, ts, doc) == doc.common_data.page_area,
{
    if page.area is None {
        assert forall|k: int|
            0 <= k < ts.len() && (#[trigger] ts[k]).area is Some && (forall|j: int|
                0 <= j < k ==> ts[j].area is None) implies page_area(page, ts, doc) == ts[k].area->0 by {
            lemma_first_area_is_first(ts, k);
        }
        if forall|j: int| 0 <= j < ts.len() ==> (#[trigger] ts[j]).area is None {
            lemma_first_area_none(ts);
        }
    }
}

pub fn decide_size<'a>(
    page: &'a PageXmlFile,
    templates: &'a Vec<&'a PageXmlFile>,
    doc: &'a DocumentXmlFile,
) -> (r: &'a CtPageArea)
    ensures
        *r == page_area(*page, templates@.map_values(|t: &PageXmlFile| *t), *doc),
        page.area matches Some(a) ==> *r == a,
        page.area is None && (forall|j: int|
            0 <= j < templates@.len() ==> (#[trigger] templates@[j]).area is None) ==> *r
            == doc.common_data.page_area,
{
    let ghost ts = templates@.map_values(|t: &PageXmlFile| *t);
    proof {
        lemma_page_area_precedence(*page, ts, *doc);
        assert forall|j: int| 0 <= j < ts.len() implies ts[j] == *templates@[j] by {}
    }
    match &page.area {
        Some(a) => {
            assert(page.area == Some(*a));
            return a;
        },
        None => {},
    }
    let mut i: usize = 0;
    assert(ts.skip(0) =~= ts);
    while i < templates.len()
        invariant
            i <= templates@.len() == ts.len(),
            ts == templates@.map_values(|t: &PageXmlFile| *t),
            first_area(ts) == first_area(ts.skip(i as int)),
            page.area is None,
        decreases templates@.len() - i,
    {
        assert(ts.skip(i as int)[0] == ts[i as int]);
        assert(ts.skip(i as int).skip(1) =~= ts.skip(i + 1));
        match &templates[i].area {
            Some(a) => {
                assert(ts[i as int] == *templates@[i as int]);
                assert(ts[i as int].area == Some(*a));
                assert(first_area(ts.skip(i as int)) == Some(*a));
                return a;
            },
            None => {},
        }
        i = i + 1;
    }
    &doc.common_data.page_area
}


// ---------------------------------------------------------------------------
// Colors
// ---------------------------------------------------------------------------

/// Why a color cannot be resolved.
#[derive(Debug, PartialEq, Eq, Structural, Clone, Copy)]
pub enum ColorError {
    /// the index names no color of the palette
    PlateColorNotFound,
    /// the color is indexed but its space has no palette
    PaletteNotFound,
    /// the color has neither components nor an index
    InvalidColor,
}

/// A color as its space decides it: the kind of the space, the bits to a
/// component, the components, and the alpha, from 0 (transparent) to 255
/// (opaque); the opacity is the alpha divided by 255.
pub struct ResolvedColor {
    pub typ: Type,
    pub bits_per_component: u8,
    pub components: Vec<u16>,
    pub alpha: u8,
}

/// The color space of a color: the one it names, else the default of the
/// document, else sRGB; a color that names none is in sRGB.
pub open spec fn chosen_color_space(ct: CtColor, r: Resources) -> ColorSpace {
    match ct.color_space {
        None => spec_srgb(),
        Some(id) => match color_space_found(r, id) {
            Some(cs) => cs,
            None => match r.default_cs {
                Some(d) => match color_space_found(r, d) {
                    Some(cs) => cs,
                    None => spec_srgb(),
                },
                None => spec_srgb(),
            },
        },
    }
}

/// The components of a color in the space `cs`: its own, else those of the
/// palette at its index.
pub open spec fn color_components(ct: CtColor, cs: ColorSpace) -> Result<Seq<u16>, ColorError> {
    match ct.value {
        Some(v) => Ok(v.0@),
        None => match ct.index {
            Some(idx) => match cs.palette {
                Some(p) => if idx < p.cv@.len() {
                    Ok(p.cv@[idx as int].0@)
                } else {
                    Err(ColorError::PlateColorNotFound)
                },
                None => Err(ColorError::PaletteNotFound),
            },
            None => Err(ColorError::InvalidColor),
        },
    }
}

pub open spec fn channels(t: Type) -> nat {
    match t {
        Type::RGB => 3,
        Type::GRAY => 1,
        Type::CMYK => 4,
    }
}

/// The components of `ct`, where it has any, are as many as the channels of
/// its color space (resolving another color is an error of the caller).
pub open spec fn color_fits(ct: CtColor, res: Resources) -> bool {
    let cs = chosen_color_space(ct, res);
    color_components(ct, cs) matches Ok(v) ==> v.len() == channels(cs.typ)
}

/// `ct` resolves: it has components, as many as the channels of its space.
pub open spec fn color_resolves(ct: CtColor, res: Resources) -> bool {
    let cs = chosen_color_space(ct, res);
    color_components(ct, cs) matches Ok(v) && v.len() == channels(cs.typ)
}

/// The color that applies: the element's own, else the one inherited.
pub open spec fn color_chosen(own: Option<CtColor>, inherited: Option<CtColor>) -> Option<CtColor> {
    match own {
        Some(c) => Some(c),
        None => inherited,
    }
}

/// The color that applies, if any, resolves.
pub open spec fn chosen_resolves(own: Option<CtColor>, inherited: Option<CtColor>, res: Resources) -> bool {
    color_chosen(own, inherited) matches Some(c) ==> color_resolves(c, res)
}

/// `r` is what resolving `ct` among the resources `res` gives.
pub open spec fn resolved(ct: CtColor, res: Resources, r: Result<ResolvedColor, ColorError>) -> bool {
    let cs = chosen_color_space(ct, res);
    match color_components(ct, cs) {
        Err(e) => r == Err::<ResolvedColor, ColorError>(e),
        Ok(v) => r matches Ok(c) && c.typ == cs.typ && c.components@ == v && c.bits_per_component == (
        match cs.bits_per_component {
            Some(b) => b,
            None => 8u8,
        }) && c.alpha == (match ct.alpha {
            Some(a) => a,
            None => 255u8,
        }),
    }
}

/// What a resolved color holds: the components of its own value where it
/// has one; else, for an index `i`, the `i`-th entry (counted from 0) of the
/// palette of its color space, and an error only where `i` is at or beyond
/// the palette's length; its alpha is its own, 255 where it has none.
pub open spec fn palette_law(ct: CtColor, res: Resources, r: Result<ResolvedColor, ColorError>) -> bool {
    let cs = chosen_color_space(ct, res);
    &&& match ct.value {
        Some(v) => (r matches Ok(c) && c.components@ == v.0@),
        None => match (ct.index, cs.palette) {
            (Some(i), Some(p)) => if i < p.cv@.len() {
                (r matches Ok(c) && c.components@ == p.cv@[i as int].0@)
            } else {
                r == Err::<ResolvedColor, ColorError>(ColorError::PlateColorNotFound)
            },
            _ => true,
        },
    }
    &&& (r matches Ok(c) ==> c.alpha == (match ct.alpha {
        Some(a) => a,
        None => 255u8,
    }) && c.typ == cs.typ)
}

/// A color resolves to its own components, or to the palette entry at its
/// index, counted from 0.
pub proof fn lemma_colors_from_value_or_palette(ct: CtColor, res: Resources, r: Result<ResolvedColor, ColorError>)
    requires
        resolved(ct, res, r),
    ensures
        palette_law(ct, res, r),
{
}

/// Decides a color: its space, the bits to a component (8 where the space
/// says none), its components and its opacity.
pub fn resolve_color(ct_color: &CtColor, resources: &Resources) -> (r: Result<ResolvedColor, ColorError>)
    requires
        color_fits(*ct_color, *resources),
    ensures
        resolved(*ct_color, *resources, r),
        palette_law(*ct_color, *resources, r),
{
    let fallback = srgb();
    let cs: &ColorSpace = match ct_color.color_space {
        None => &fallback,
        Some(id) => match resources.get_color_space_by_id(id) {
            Some(c) => c,
            None => match resources.default_cs {
                Some(d) => match resources.get_color_space_by_id(d) {
                    Some(c) => c,
                    None => &fallback,
                },
                None => &fallback,
            },
        },
    };
    assert(*cs == chosen_color_space(*ct_color, *resources));
    let val: &StArray<u16> = match &ct_color.value {
        Some(v) => v,
        None => match ct_color.index {
            Some(idx) => match &cs.palette {
                Some(pal) => {
                    if idx < pal.cv.len() {
                        &pal.cv[idx]
                    } else {
                        return Err(ColorError::PlateColorNotFound);
                    }
                },
                None => {
                    return Err(ColorError::PaletteNotFound);
                },
            },
            None => {
                return Err(ColorError::InvalidColor);
            },
        },
    };
    assert(color_components(*ct_color, *cs) == Ok::<Seq<u16>, ColorError>(val.0@));
    let mut components: Vec<u16> = Vec::new();
    let mut i: usize = 0;
    while i < val.0.len()
        invariant
            i <= val.0@.len(),
            components@ == val.0@.take(i as int),
        decreases val.0@.len() - i,
    {
        components.push(val.0[i]);
        i = i + 1;
        assert(components@ =~= val.0@.take(i as int));
    }
    assert(val.0@.take(i as int) =~= val.0@);
    let bits = match cs.bits_per_component {
        Some(b) => b,
        None => 8u8,
    };
    let alpha = match ct_color.alpha {
        Some(a) => a,
        None => 255u8,
    };
    Ok(ResolvedColor { typ: cs.typ, bits_per_component: bits, components, alpha })
}

/// Resolves a color that resolves.
fn resolved_color(ct_color: &CtColor, resources: &Resources) -> (c: ResolvedColor)
    requires
        color_resolves(*ct_color, *resources),
    ensures
        resolved(*ct_color, *resources, Ok(c)),
{
    resolve_color(ct_color, resources).unwrap()
}

// ---------------------------------------------------------------------------
// The stack of drawing parameters
// ---------------------------------------------------------------------------

/// The last value that `f` finds in the parameters of `s`, the innermost
/// first.
pub open spec fn last_some<T>(s: Seq<DrawParam>, f: spec_fn(DrawParam) -> Option<T>) -> Option<T>
    decreases s.len(),
{
    if s.len() == 0 {
        None
    } else if f(s.last()) is Some {
        f(s.last())
    } else {
        last_some(s.drop_last(), f)
    }
}

/// The drawing parameters in force while graphic units are drawn, the
/// innermost last.
pub struct DrawParamStack {
    pub draw_params: Vec<DrawParam>,
}

impl DrawParamStack {
    pub open spec fn view(&self) -> Seq<DrawParam> {
        self.draw_params@
    }

    /// An empty stack.
    pub fn new() -> (r: Self)
        ensures
            r@ == Seq::<DrawParam>::empty(),
    {
        DrawParamStack { draw_params: Vec::new() }
    }

    /// Puts the parameters on the stack, where there are any.
    pub fn push(&mut self, draw_param: Option<DrawParam>)
        ensures
            final(self)@ == match draw_param {
                Some(d) => old(self)@.push(d),
                None => old(self)@,
            },
    {
        if let Some(draw_param) = draw_param {
            self.draw_params.push(draw_param);
        }
    }

    /// Takes the innermost parameters off the stack where `draw_param` says
    /// that some were put on it.
    pub fn pop(&mut self, draw_param: Option<DrawParam>) -> (r: Option<DrawParam>)
        ensures
            draw_param is None ==> r is None && final(self)@ == old(self)@,
            draw_param is Some && old(self)@.len() == 0 ==> r is None && final(self)@ == old(self)@,
            draw_param is Some && old(self)@.len() > 0 ==> r == Some(old(self)@.last())
                && final(self)@ == old(self)@.drop_last(),
    {
        if draw_param.is_some() {
            self.draw_params.pop()
        } else {
            None
        }
    }

    pub fn is_empty(&self) -> (r: bool)
        ensures
            r == (self@.len() == 0),
    {
        self.draw_params.len() == 0
    }

    /// The join of an element: its own, else the innermost one of the
    /// stack, else `fallback`.
    pub fn get_join(&self, element_join: Option<&Join>, fallback: &Join) -> (r: Join)
        ensures
            r == match element_join {
                Some(j) => *j,
                None => match last_some(self@, |d: DrawParam| d.join) {
                    Some(j) => j,
                    None => *fallback,
                },
            },
    {
        if let Some(j) = element_join {
            return *j;
        }
        let mut i: usize = self.draw_params.len();
        assert(self@.take(i as int) =~= self@);
        while i > 0
            invariant
                element_join is None,
                i <= self@.len(),
                last_some(self@, |d: DrawParam| d.join) == last_some(self@.take(i as int), |d: DrawParam| d.join),
            decreases i,
        {
            let ghost t = self@.take(i as int);
            assert(t.last() == self@[i - 1]);
            assert(t.drop_last() =~= self@.take(i - 1));
            if let Some(j) = self.draw_params[i - 1].join {
                return j;
            }
            i = i - 1;
        }
        *fallback
    }

    /// The cap of an element: its own, else the innermost one of the stack,
    /// else `fallback`.
    pub fn get_cap(&self, element_cap: Option<&Cap>, fallback: &Cap) -> (r: Cap)
        ensures
            r == match element_cap {
                Some(c) => *c,
                None => match last_some(self@, |d: DrawParam| d.cap) {
                    Some(c) => c,
                    None => *fallback,
                },
            },
    {
        if let Some(c) = element_cap {
            return *c;
        }
        let mut i: usize = self.draw_params.len();
        assert(self@.take(i as int) =~= self@);
        while i > 0
            invariant
                element_cap is None,
                i <= self@.len(),
                last_some(self@, |d: DrawParam| d.cap) == last_some(self@.take(i as int), |d: DrawParam| d.cap),
            decreases i,
        {
            let ghost t = self@.take(i as int);
            assert(t.last() == self@[i - 1]);
            assert(t.drop_last() =~= self@.take(i - 1));
            if let Some(c) = self.draw_params[i - 1].cap {
                return c;
            }
            i = i - 1;
        }
        *fallback
    }

    /// The miter limit of an element, a float kept as its literal: its own,
    /// else the innermost one of the stack, else `fallback`.
    pub fn get_miter_limit<'a>(&'a self, element_miter_limit: Option<&'a String>, fallback: &'a String) -> (r: &'a String)
        ensures
            *r == match element_miter_limit {
                Some(m) => *m,
                None => match last_some(self@, |d: DrawParam| d.miter_limit) {
                    Some(m) => m,
                    None => *fallback,
                },
            },
    {
        if let Some(m) = element_miter_limit {
            return m;
        }
        let mut i: usize = self.draw_params.len();
        assert(self@.take(i as int) =~= self@);
        while i > 0
            invariant
                element_miter_limit is None,
                i <= self@.len(),
                last_some(self@, |d: DrawParam| d.miter_limit) == last_some(self@.take(i as int), |d: DrawParam| d.miter_limit),
            decreases i,
        {
            let ghost t = self@.take(i as int);
            assert(t.last() == self@[i - 1]);
            assert(t.drop_last() =~= self@.take(i - 1));
            match &self.draw_params[i - 1].miter_limit {
                Some(m) => {
                    assert(self@[i - 1].miter_limit == Some(*m));
                    return m;
                },
                None => {},
            }
            i = i - 1;
        }
        fallback
    }

    /// The color an element is stroked with: its own, else the innermost one
    /// of the stack, resolved; `None` where neither is given and the caller's
    /// fallback stands.
    pub fn get_stroke_color(&self, element_stroke_color: Option<&CtColor>, resources: &Resources) -> (r: Option<ResolvedColor>)
        requires
            chosen_resolves(
                match element_stroke_color {
                    Some(c) => Some(*c),
                    None => None,
                },
                last_some(self@, |d: DrawParam| d.stroke_color),
                *resources,
            ),
        ensures
            match element_stroke_color {
                Some(c) => r matches Some(x) && resolved(*c, *resources, Ok(x)),
                None => match last_some(self@, |d: DrawParam| d.stroke_color) {
                    Some(c) => r matches Some(x) && resolved(c, *resources, Ok(x)),
                    None => r is None,
                },
            },
    {
        if let Some(c) = element_stroke_color {
            return Some(resolved_color(c, resources));
        }
        let mut i: usize = self.draw_params.len();
        assert(self@.take(i as int) =~= self@);
        while i > 0
            invariant
                element_stroke_color is None,
                chosen_resolves(None, last_some(self@, |d: DrawParam| d.stroke_color), *resources),
                i <= self@.len(),
                last_some(self@, |d: DrawParam| d.stroke_color) == last_some(self@.take(i as int), |d: DrawParam| d.stroke_color),
            decreases i,
        {
            let ghost t = self@.take(i as int);
            assert(t.last() == self@[i - 1]);
            assert(t.drop_last() =~= self@.take(i - 1));
            match &self.draw_params[i - 1].stroke_color {
                Some(c) => {
                    assert(self@[i - 1].stroke_color == Some(*c));
                    return Some(resolved_color(c, resources));
                },
                None => {},
            }
            i = i - 1;
        }
        None
    }

    /// The color an element is filled with: its own, else the innermost one
    /// of the stack, resolved; `None` where neither is given and the caller's
    /// fallback stands.
    pub fn get_fill_color(&self, element_fill_color: Option<&CtColor>, resources: &Resources) -> (r: Option<ResolvedColor>)
        requires
            chosen_resolves(
                match element_fill_color {
                    Some(c) => Some(*c),
                    None => None,
                },
                last_some(self@, |d: DrawParam| d.fill_color),
                *resources,
            ),
        ensures
            match element_fill_color {
                Some(c) => r matches Some(x) && resolved(*c, *resources, Ok(x)),
                None => match last_some(self@, |d: DrawParam| d.fill_color) {
                    Some(c) => r matches Some(x) && resolved(c, *resources, Ok(x)),
                    None => r is None,
                },
            },
    {
        if let Some(c) = element_fill_color {
            return Some(resolved_color(c, resources));
        }
        let mut i: usize = self.draw_params.len();
        assert(self@.take(i as int) =~= self@);
        while i > 0
            invariant
                element_fill_color is None,
                chosen_resolves(None, last_some(self@, |d: DrawParam| d.fill_color), *resources),
                i <= self@.len(),
                last_some(self@, |d: DrawParam| d.fill_color) == last_some(self@.take(i as int), |d: DrawParam| d.fill_color),
            decreases i,
        {
            let ghost t = self@.take(i as int);
            assert(t.last() == self@[i - 1]);
            assert(t.drop_last() =~= self@.take(i - 1));
            match &self.draw_params[i - 1].fill_color {
                Some(c) => {
                    assert(self@[i - 1].fill_color == Some(*c));
                    return Some(resolved_color(c, resources));
                },
                None => {},
            }
            i = i - 1;
        }
        None
    }
}

// ---------------------------------------------------------------------------
// What drawing a path object decides
// ---------------------------------------------------------------------------

/// How the outline of a path is drawn. The color is `None` where neither the
/// object nor the stack gives one and black stands; the miter limit is given
/// for a mitered join only.
pub struct StrokePlan {
    pub color: Option<ResolvedColor>,
    pub join: Join,
    pub miter_limit: Option<String>,
    pub cap: Cap,
    pub line_width: String,
    pub alpha: Option<u8>,
}

/// How the inside of a path is filled. The color is `None` where neither the
/// object nor the stack gives one and transparency stands.
pub struct FillPlan {
    pub color: Option<ResolvedColor>,
    pub rule: FillRule,
    pub alpha: Option<u8>,
}

/// How a path object is drawn: its commands, then its outline and its
/// inside, each where the object asks for it.
pub struct PathPlan {
    pub ops: Vec<PathOp>,
    pub stroke: Option<StrokePlan>,
    pub fill: Option<FillPlan>,
}

/// The stroke of a path object as the object and the stack decide it.
pub open spec fn stroke_planned(stack: Seq<DrawParam>, p: PathObject, res: Resources, s: StrokePlan) -> bool {
    let join = match p.join {
        Some(j) => j,
        None => match last_some(stack, |d: DrawParam| d.join) {
            Some(j) => j,
            None => Join::Miter,
        },
    };
    &&& match p.stroke_color {
        Some(c) => s.color matches Some(x) && resolved(c, res, Ok(x)),
        None => match last_some(stack, |d: DrawParam| d.stroke_color) {
            Some(c) => s.color matches Some(x) && resolved(c, res, Ok(x)),
            None => s.color is None,
        },
    }
    &&& s.join == join
    &&& (join == Join::Miter) == (s.miter_limit is Some)
    &&& s.miter_limit matches Some(m) ==> m@ == match p.miter_limit {
        Some(l) => l@,
        None => match last_some(stack, |d: DrawParam| d.miter_limit) {
            Some(l) => l@,
            None => "3.528"@,
        },
    }
    &&& s.cap == match p.cap {
        Some(c) => c,
        None => match last_some(stack, |d: DrawParam| d.cap) {
            Some(c) => c,
            None => Cap::Butt,
        },
    }
    &&& s.line_width@ == match p.line_width {
        Some(w) => w@,
        None => "0.353"@,
    }
    &&& s.alpha == p.alpha
}

/// The fill of a path object as the object and the stack decide it.
pub open spec fn fill_planned(stack: Seq<DrawParam>, p: PathObject, res: Resources, f: FillPlan) -> bool {
    &&& match p.fill_color {
        Some(c) => f.color matches Some(x) && resolved(c, res, Ok(x)),
        None => match last_some(stack, |d: DrawParam| d.fill_color) {
            Some(c) => f.color matches Some(x) && resolved(c, res, Ok(x)),
            None => f.color is None,
        },
    }
    &&& f.rule == match p.rule {
        Some(r) => r,
        None => FillRule::NoneZero,
    }
    &&& f.alpha == p.alpha
}

/// Decides how a path object is drawn: `None` for an invisible one; else its
/// commands, an outline unless the object says not to stroke, and a fill
/// where the object says to fill.
pub fn path_object_plan(stack: &DrawParamStack, path_object: &PathObject, resources: &Resources) -> (r: Result<Option<PathPlan>, MyError>)
    requires
        path_object.visible != Some(false) && path_from(words_of(path_object.abbreviated_data), 0) is Ok
            ==> {
            &&& path_object.stroke != Some(false) ==> chosen_resolves(
                path_object.stroke_color,
                last_some(stack@, |d: DrawParam| d.stroke_color),
                *resources,
            )
            &&& path_object.fill == Some(true) ==> chosen_resolves(
                path_object.fill_color,
                last_some(stack@, |d: DrawParam| d.fill_color),
                *resources,
            )
        },
    ensures
        path_object.visible == Some(false) ==> r matches Ok(None),
        path_object.visible != Some(false) ==> match path_from(words_of(path_object.abbreviated_data), 0) {
            Err(f) => r matches Err(e) && e.fault() == f,
            Ok(ops) => r matches Ok(Some(plan)) && plan.ops@.map_values(|o: PathOp| o.view()) == ops
                && (plan.stroke is Some) == (path_object.stroke != Some(false))
                && (plan.stroke matches Some(s) ==> stroke_planned(stack@, *path_object, *resources, s))
                && (plan.fill is Some) == (path_object.fill == Some(true))
                && (plan.fill matches Some(f) ==> fill_planned(stack@, *path_object, *resources, f)),
        },
{
    let vis = match path_object.visible {
        Some(v) => v,
        None => true,
    };
    if !vis {
        return Ok(None);
    }
    let ops = abbreviated_data_2_path(&path_object.abbreviated_data)?;
    let stroke = if match path_object.stroke {
        Some(v) => v,
        None => true,
    } {
        let color = stack.get_stroke_color(path_object.stroke_color.as_ref(), resources);
        let join = stack.get_join(path_object.join.as_ref(), &Join::Miter);
        let miter_limit = if join == Join::Miter {
            let fallback = String::from_str("3.528");
            proof {
                reveal_strlit("3.528");
            }
            let m = stack.get_miter_limit(path_object.miter_limit.as_ref(), &fallback);
            Some(m.clone())
        } else {
            None
        };
        let cap = stack.get_cap(path_object.cap.as_ref(), &Cap::Butt);
        let line_width = match &path_object.line_width {
            Some(w) => w.clone(),
            None => {
                proof {
                    reveal_strlit("0.353");
                }
                String::from_str("0.353")
            },
        };
        Some(StrokePlan { color, join, miter_limit, cap, line_width, alpha: path_object.alpha })
    } else {
        None
    };
    let fill = if match path_object.fill {
        Some(v) => v,
        None => false,
    } {
        let color = stack.get_fill_color(path_object.fill_color.as_ref(), resources);
        let rule = match path_object.rule {
            Some(r) => r,
            None => FillRule::NoneZero,
        };
        Some(FillPlan { color, rule, alpha: path_object.alpha })
    } else {
        None
    };
    Ok(Some(PathPlan { ops, stroke, fill }))
}

// ---------------------------------------------------------------------------
// What drawing a text object decides
// ---------------------------------------------------------------------------

/// The path that `p` names relative to the directory `base`, as joining
/// paths does on Unix: an absolute `p` stands alone, else a separator goes
/// between the two where `base` does not end in one.
pub open spec fn spec_path_join(base: Seq<char>, p: Seq<char>) -> Seq<char> {
    if p.len() > 0 && p[0] == '/' {
        p
    } else if base.len() == 0 || base.last() == '/' {
        base + p
    } else {
        base + seq!['/'] + p
    }
}

/// Joins `p` to the directory `base`.
pub fn path_join(base: &str, p: &str) -> (r: String)
    ensures
        r@ == spec_path_join(base@, p@),
{
    let pc = chars_of(p);
    if pc.len() > 0 && pc[0] == '/' {
        return string_from_chars(pc.as_slice());
    }
    let mut out = chars_of(base);
    if out.len() > 0 && out[out.len() - 1] != '/' {
        out.push('/');
    }
    let ghost start = out@;
    let mut i: usize = 0;
    while i < pc.len()
        invariant
            i <= pc@.len(),
            out@ == start + pc@.take(i as int),
        decreases pc@.len() - i,
    {
        out.push(pc[i]);
        i = i + 1;
        assert(out@ =~= start + pc@.take(i as int));
    }
    assert(pc@.take(i as int) =~= pc@);
    assert(start + p@ =~= spec_path_join(base@, p@));
    string_from_chars(out.as_slice())
}

/// Where the typeface of a text comes from.
pub enum FontChoice {
    /// a font file embedded in the document, at this path of the archive
    Embedded(String),
    /// a font of the system, by its name
    Family(String),
    /// no font has the identifier: the fallback typeface
    Fallback,
}

/// The typeface of the font with the identifier `id`: its embedded file,
/// resolved against the resource file that declares it, else its name.
pub fn font_choice(resources: &Resources, id: u64) -> (r: FontChoice)
    ensures
        match font_found(*resources, id) {
            None => r is Fallback,
            Some((file, font)) => match font.font_file {
                Some(ff) => r matches FontChoice::Embedded(p) && p@ == spec_resolve(
                    file.path@,
                    spec_path_join(file.content.base_loc@, ff@),
                ),
                None => r matches FontChoice::Family(n) && n@ == font.font_name@,
            },
        },
{
    match resources.get_font_by_id(id) {
        Some((file, font)) => match &font.font_file {
            Some(ff) => {
                let joined = path_join(file.content.base_loc.as_str(), ff.as_str());
                FontChoice::Embedded(file.resolve(joined.as_str()))
            },
            None => FontChoice::Family(font.font_name.clone()),
        },
        None => FontChoice::Fallback,
    }
}

/// Where the run of a text code starts: the text code at `index` starts at
/// `(x, y)`, floats kept as their literals.
pub struct TextOrigin {
    pub index: usize,
    pub x: String,
    pub y: String,
}

impl TextOrigin {
    pub open spec fn view(self) -> (int, Seq<char>, Seq<char>) {
        (self.index as int, self.x@, self.y@)
    }
}

/// The origins of the text codes from `i` on, after a run that started at
/// `(x, y)`: a text code without characters is passed over, and one without
/// a coordinate keeps that of the run before it.
pub open spec fn origins_from(tvs: Seq<TextVal>, i: int, x: Seq<char>, y: Seq<char>) -> Seq<(int, Seq<char>, Seq<char>)>
    decreases tvs.len() - i,
{
    if i < 0 || i >= tvs.len() {
        Seq::empty()
    } else if tvs[i].text_code.val@.len() == 0 {
        origins_from(tvs, i + 1, x, y)
    } else {
        let nx = match tvs[i].text_code.x {
            Some(v) => v@,
            None => x,
        };
        let ny = match tvs[i].text_code.y {
            Some(v) => v@,
            None => y,
        };
        seq![(i, nx, ny)] + origins_from(tvs, i + 1, nx, ny)
    }
}

/// How a text object is drawn: its typeface and size, where each run
/// starts, and its outline and its inside, each where the object asks for
/// it. A color is `None` where neither the object nor the stack gives one:
/// transparency stands for the outline, black for the inside.
pub struct TextPlan {
    pub font: FontChoice,
    pub size: String,
    pub origins: Vec<TextOrigin>,
    pub stroke: Option<Option<ResolvedColor>>,
    pub fill: Option<Option<ResolvedColor>>,
    pub alpha: Option<u8>,
}

/// A text object that can be drawn: one with text codes, the first of
/// which places its run.
pub open spec fn drawable_text(t: TextObject) -> bool {
    &&& t.text_vals@.len() > 0
    &&& t.text_vals@[0].text_code.x is Some
    &&& t.text_vals@[0].text_code.y is Some
}

/// Where the runs of a drawable text object start.
pub open spec fn text_runs(t: TextObject) -> Seq<(int, Seq<char>, Seq<char>)> {
    let tvs = t.text_vals@;
    origins_from(tvs, 0, tvs[0].text_code.x->0@, tvs[0].text_code.y->0@)
}

/// Decides how a text object is drawn; `None` for an invisible one. Its
/// colors are decided where it has a run to draw.
pub fn text_object_plan(stack: &DrawParamStack, text_object: &TextObject, resources: &Resources) -> (r: Option<TextPlan>)
    requires
        text_object.visible != Some(false) ==> drawable_text(*text_object),
        text_object.visible != Some(false) && text_runs(*text_object).len() > 0 ==> {
            &&& text_object.stroke == Some(true) ==> chosen_resolves(
                text_object.stroke_color,
                last_some(stack@, |d: DrawParam| d.stroke_color),
                *resources,
            )
            &&& text_object.fill != Some(false) ==> chosen_resolves(
                text_object.fill_color,
                last_some(stack@, |d: DrawParam| d.fill_color),
                *resources,
            )
        },
    ensures
        text_object.visible == Some(false) ==> r is None,
        text_object.visible != Some(false) ==> (r matches Some(plan) && {
            let tvs = text_object.text_vals@;
            let x0 = tvs[0].text_code.x->0@;
            let y0 = tvs[0].text_code.y->0@;
            &&& plan.origins@.map_values(|o: TextOrigin| o.view()) == origins_from(tvs, 0, x0, y0)
            &&& plan.size@ == text_object.size@
            &&& plan.alpha == text_object.alpha
            &&& match font_found(*resources, text_object.font) {
                None => plan.font is Fallback,
                Some((file, font)) => match font.font_file {
                    Some(ff) => plan.font matches FontChoice::Embedded(p) && p@ == spec_resolve(
                        file.path@,
                        spec_path_join(file.content.base_loc@, ff@),
                    ),
                    None => plan.font matches FontChoice::Family(n) && n@ == font.font_name@,
                },
            }
            &&& (plan.stroke is Some) == (text_object.stroke == Some(true) && text_runs(*text_object).len()
                > 0)
            &&& plan.stroke matches Some(c) ==> match text_object.stroke_color {
                Some(sc) => c matches Some(x) && resolved(sc, *resources, Ok(x)),
                None => match last_some(stack@, |d: DrawParam| d.stroke_color) {
                    Some(sc) => c matches Some(x) && resolved(sc, *resources, Ok(x)),
                    None => c is None,
                },
            }
            &&& (plan.fill is Some) == (text_object.fill != Some(false) && text_runs(*text_object).len() > 0)
            &&& plan.fill matches Some(c) ==> match text_object.fill_color {
                Some(fc) => c matches Some(x) && resolved(fc, *resources, Ok(x)),
                None => match last_some(stack@, |d: DrawParam| d.fill_color) {
                    Some(fc) => c matches Some(x) && resolved(fc, *resources, Ok(x)),
                    None => c is None,
                },
            }
        }),
{
    let vis = match text_object.visible {
        Some(v) => v,
        None => true,
    };
    if !vis {
        return None;
    }
    let tvs = &text_object.text_vals;
    let ghost stvs = tvs@;
    let mut last_x: &String = match &tvs[0].text_code.x {
        Some(v) => v,
        None => {
            assert(false);
            return None;
        },
    };
    let mut last_y: &String = match &tvs[0].text_code.y {
        Some(v) => v,
        None => {
            assert(false);
            return None;
        },
    };
    let ghost x0 = last_x@;
    let ghost y0 = last_y@;
    let mut origins: Vec<TextOrigin> = Vec::new();
    let mut i: usize = 0;
    while i < tvs.len()
        invariant
            stvs == tvs@,
            i <= stvs.len(),
            origins_from(stvs, 0, x0, y0) == origins@.map_values(|o: TextOrigin| o.view())
                + origins_from(stvs, i as int, last_x@, last_y@),
        decreases stvs.len() - i,
    {
        let ghost before = origins@.map_values(|o: TextOrigin| o.view());
        let tc = &tvs[i].text_code;
        if !tc.val.as_str().is_empty() {
            let x: &String = match &tc.x {
                Some(v) => v,
                None => last_x,
            };
            let y: &String = match &tc.y {
                Some(v) => v,
                None => last_y,
            };
            origins.push(TextOrigin { index: i, x: x.clone(), y: y.clone() });
            proof {
                assert(origins@.map_values(|o: TextOrigin| o.view()) =~= before.push((i as int, x@, y@)));
                assert(before.push((i as int, x@, y@)) + origins_from(stvs, i + 1, x@, y@) =~= before + (
                seq![(i as int, x@, y@)] + origins_from(stvs, i + 1, x@, y@)));
            }
            last_x = x;
            last_y = y;
        } else {
            proof {
                assert(tc.val@.len() == 0);
            }
        }
        i = i + 1;
    }
    assert(origins@.map_values(|o: TextOrigin| o.view()) + Seq::<(int, Seq<char>, Seq<char>)>::empty()
        =~= origins@.map_values(|o: TextOrigin| o.view()));
    let has_runs = origins.len() > 0;
    let stroke = if has_runs && match text_object.stroke {
        Some(v) => v,
        None => false,
    } {
        Some(stack.get_stroke_color(text_object.stroke_color.as_ref(), resources))
    } else {
        None
    };
    let fill = if has_runs && match text_object.fill {
        Some(v) => v,
        None => true,
    } {
        Some(stack.get_fill_color(text_object.fill_color.as_ref(), resources))
    } else {
        None
    };
    Some(TextPlan {
        font: font_choice(resources, text_object.font),
        size: text_object.size.clone(),
        origins,
        stroke,
        fill,
        alpha: text_object.alpha,
    })
}

// ---------------------------------------------------------------------------
// Glyph positions
// ---------------------------------------------------------------------------

/// The steps between the glyphs of a text code: pairs of offsets, floats
/// kept as their literals, as many as the longer of the two lists, where a
/// missing offset is `"0"`.
pub open spec fn steps_of(dx: Seq<Seq<char>>, dy: Seq<Seq<char>>) -> Seq<(Seq<char>, Seq<char>)> {
    let n = if dx.len() >= dy.len() {
        dx.len()
    } else {
        dy.len()
    };
    Seq::new(
        n,
        |k: int|
            (if k < dx.len() {
                dx[k]
            } else {
                "0"@
            }, if k < dy.len() {
                dy[k]
            } else {
                "0"@
            }),
    )
}

/// The flattened offsets of an optional list: none for a missing one.
pub open spec fn flat_opt(d: Option<StArray<String>>) -> Result<Seq<Seq<char>>, RenderFault> {
    match d {
        None => Ok(Seq::empty()),
        Some(a) => flat_from(words_of(a), 0),
    }
}

fn flat_g_opt(d: Option<&StArray<String>>) -> (r: Result<Vec<String>, MyError>)
    ensures
        match flat_opt(match d {
            Some(a) => Some(*a),
            None => None,
        }) {
            Ok(v) => r matches Ok(x) && x@.map_values(|s: String| s@) == v,
            Err(f) => r matches Err(e) && e.fault() == f,
        },
{
    match d {
        Some(a) => flat_g(a),
        None => {
            let v: Vec<String> = Vec::new();
            assert(v@.map_values(|s: String| s@) =~= Seq::<Seq<char>>::empty());
            Ok(v)
        },
    }
}

/// The steps between the glyphs of a text code, from its offsets along
/// both axes: the points of its glyphs are the sums of these steps, from
/// the origin on.
pub fn delta_steps(delta_x: Option<&StArray<String>>, delta_y: Option<&StArray<String>>) -> (r: Result<Vec<(String, String)>, MyError>)
    ensures
        match flat_opt(match delta_x {
            Some(a) => Some(*a),
            None => None,
        }) {
            Err(f) => r matches Err(e) && e.fault() == f,
            Ok(dx) => match flat_opt(match delta_y {
                Some(a) => Some(*a),
                None => None,
            }) {
                Err(f) => r matches Err(e) && e.fault() == f,
                Ok(dy) => r matches Ok(v) && v@.map_values(|p: (String, String)| (p.0@, p.1@)) == steps_of(dx, dy),
            },
        },
{
    let dxs = flat_g_opt(delta_x)?;
    let dys = flat_g_opt(delta_y)?;
    let ghost dx = dxs@.map_values(|s: String| s@);
    let ghost dy = dys@.map_values(|s: String| s@);
    let n = if dxs.len() >= dys.len() {
        dxs.len()
    } else {
        dys.len()
    };
    proof {
        reveal_strlit("0");
    }
    let mut out: Vec<(String, String)> = Vec::new();
    let mut i: usize = 0;
    while i < n
        invariant
            dx == dxs@.map_values(|s: String| s@),
            dy == dys@.map_values(|s: String| s@),
            n == (if dxs@.len() >= dys@.len() {
                dxs@.len()
            } else {
                dys@.len()
            }),
            i <= n,
            out@.map_values(|p: (String, String)| (p.0@, p.1@)) == steps_of(dx, dy).take(i as int),
        decreases n - i,
    {
        let a = if i < dxs.len() {
            dxs[i].clone()
        } else {
            String::from_str("0")
        };
        let b = if i < dys.len() {
            dys[i].clone()
        } else {
            String::from_str("0")
        };
        let ghost before = out@.map_values(|p: (String, String)| (p.0@, p.1@));
        out.push((a, b));
        proof {
            assert(out@.map_values(|p: (String, String)| (p.0@, p.1@)) =~= before.push((a@, b@)));
            assert(steps_of(dx, dy).take(i + 1) =~= steps_of(dx, dy).take(i as int).push(steps_of(dx, dy)[i as int]));
        }
        i = i + 1;
    }
    assert(steps_of(dx, dy).take(i as int) =~= steps_of(dx, dy));
    Ok(out)
}

/// The points of the glyphs of a text code, the origin first; a glyph past
/// the last point is placed at the last point.
pub struct Deltas<P> {
    pub points: Vec<P>,
}

impl<P: Copy> Deltas<P> {
    /// There is at least the origin.
    pub open spec fn well_formed(&self) -> bool {
        self.points@.len() > 0
    }

    /// The point of the glyph at `i`.
    pub open spec fn point_at(&self, i: int) -> P {
        if i < self.points@.len() {
            self.points@[i]
        } else {
            self.points@.last()
        }
    }

    /// Points for the glyphs `start..end`.
    pub fn slice(&self, start: usize, end: usize) -> (r: Vec<P>)
        requires
            self.well_formed(),
            start <= end,
        ensures
            r@.len() == end - start,
            forall|k: int| 0 <= k < r@.len() ==> r@[k] == self.point_at(start + k),
    {
        let mut out: Vec<P> = Vec::new();
        let mut i: usize = start;
        while i < end
            invariant
                self.well_formed(),
                start <= i <= end,
                out@.len() == i - start,
                forall|k: int| 0 <= k < out@.len() ==> out@[k] == self.point_at(start + k),
            decreases end - i,
        {
            let p = self.index(i);
            out.push(*p);
            i = i + 1;
        }
        out
    }

    /// The point of the glyph at `index`.
    pub fn index(&self, index: usize) -> (r: &P)
        requires
            self.well_formed(),
        ensures
            *r == self.point_at(index as int),
    {
        if index >= self.points.len() {
            &self.points[self.points.len() - 1]
        } else {
            &self.points[index]
        }
    }
}

/// A run of glyphs of a text code.
pub enum GlyphRun {
    /// glyphs that a transform gives, placed at the points `start..end`
    Glyphs { glyphs: Vec<u32>, start: usize, end: usize },
    /// the glyph of the character at `char_pos`, placed at the point `point`
    Char { char_pos: usize, point: usize },
}

pub enum SpecGlyphRun {
    Glyphs(Seq<u32>, int, int),
    Char(int, int),
}

impl GlyphRun {
    pub open spec fn view(self) -> SpecGlyphRun {
        match self {
            GlyphRun::Glyphs { glyphs, start, end } => SpecGlyphRun::Glyphs(glyphs@, start as int, end as int),
            GlyphRun::Char { char_pos, point } => SpecGlyphRun::Char(char_pos as int, point as int),
        }
    }
}

/// The characters `from..to`, each its own glyph at the point `shift`
/// before its position.
pub open spec fn char_runs(from: int, to: int, shift: int) -> Seq<SpecGlyphRun> {
    Seq::new(
        if to > from {
            (to - from) as nat
        } else {
            0
        },
        |k: int| SpecGlyphRun::Char(from + k, from + k - shift),
    )
}

pub open spec fn code_count_of(c: CGTransform) -> int {
    match c.code_count {
        Some(n) => n as int,
        None => 1,
    }
}

pub open spec fn glyph_count_of(c: CGTransform) -> int {
    match c.glyph_count {
        Some(n) => n as int,
        None => 1,
    }
}

/// The runs of a text of `n` characters under the transform `c`: the
/// characters before it each give their glyph; at its position the
/// transform gives its glyphs for its characters, or, where it covers no
/// character, that character is passed over; the characters after it each
/// give their glyph.
pub open spec fn glyph_runs(n: int, c: CGTransform) -> Seq<SpecGlyphRun> {
    let p = c.code_position as int;
    let cc = code_count_of(c);
    if p >= n {
        char_runs(0, n, 0)
    } else if cc < 1 {
        char_runs(0, p, 0) + char_runs(p + 1, n, 1)
    } else {
        char_runs(0, p, 0) + seq![SpecGlyphRun::Glyphs(c.glyphs.0@.take(glyph_count_of(c)), p, p + cc)]
            + char_runs(p + cc, n, 0)
    }
}

/// A transform that can be applied to a text of `n` characters: where it
/// gives glyphs, it has as many glyphs as it says and as many as the
/// characters it covers.
pub open spec fn transform_fits(n: int, c: CGTransform) -> bool {
    (c.code_position < n && code_count_of(c) >= 1) ==> (glyph_count_of(c) <= c.glyphs.0@.len()
        && glyph_count_of(c) == code_count_of(c))
}

/// The runs of glyphs of a text of `n` characters under the transform `c`.
pub fn text_val_runs(n: usize, c: &CGTransform) -> (r: Vec<GlyphRun>)
    requires
        transform_fits(n as int, *c),
        n + code_count_of(*c) <= usize::MAX,
    ensures
        r@.map_values(|g: GlyphRun| g.view()) == glyph_runs(n as int, *c),
{
    let p = c.code_position as usize;
    let cc: u32 = match c.code_count {
        Some(v) => v,
        None => 1,
    };
    let mut out: Vec<GlyphRun> = Vec::new();
    let first_end = if p < n {
        p
    } else {
        n
    };
    push_char_runs(&mut out, 0, first_end, 0);
    if p < n {
        if cc < 1 {
            push_char_runs(&mut out, p + 1, n, 1);
        } else {
            let gc: usize = match c.glyph_count {
                Some(v) => v as usize,
                None => 1,
            };
            let mut glyphs: Vec<u32> = Vec::new();
            let mut k: usize = 0;
            while k < gc
                invariant
                    gc == glyph_count_of(*c) <= c.glyphs.0@.len(),
                    k <= gc,
                    glyphs@ == c.glyphs.0@.take(k as int),
                decreases gc - k,
            {
                glyphs.push(c.glyphs.0[k]);
                k = k + 1;
                assert(glyphs@ =~= c.glyphs.0@.take(k as int));
            }
            let end = p + cc as usize;
            let ghost before = out@.map_values(|g: GlyphRun| g.view());
            out.push(GlyphRun::Glyphs { glyphs, start: p, end });
            assert(out@.map_values(|g: GlyphRun| g.view()) =~= before.push(
                SpecGlyphRun::Glyphs(c.glyphs.0@.take(glyph_count_of(*c)), p as int, end as int),
            ));
            push_char_runs(&mut out, end, n, 0);
        }
    }
    assert(out@.map_values(|g: GlyphRun| g.view()) =~= glyph_runs(n as int, *c));
    out
}

fn push_char_runs(out: &mut Vec<GlyphRun>, from: usize, to: usize, shift: usize)
    requires
        shift <= from || from >= to,
    ensures
        final(out)@.map_values(|g: GlyphRun| g.view()) == old(out)@.map_values(|g: GlyphRun| g.view())
            + char_runs(from as int, to as int, shift as int),
{
    let ghost start = out@.map_values(|g: GlyphRun| g.view());
    let mut i: usize = from;
    assert(char_runs(from as int, from as int, shift as int) =~= Seq::<SpecGlyphRun>::empty());
    assert(start + Seq::<SpecGlyphRun>::empty() =~= start);
    while i < to
        invariant
            from <= i,
            from <= to ==> i <= to,
            from > to ==> i == from,
            i < to ==> shift <= i,
            shift <= from || from >= to,
            out@.map_values(|g: GlyphRun| g.view()) == start + char_runs(from as int, i as int, shift as int),
        decreases to - i,
    {
        let ghost before = out@.map_values(|g: GlyphRun| g.view());
        out.push(GlyphRun::Char { char_pos: i, point: i - shift });
        assert(out@.map_values(|g: GlyphRun| g.view()) =~= before.push(SpecGlyphRun::Char(i as int, i - shift)));
        assert(char_runs(from as int, i + 1, shift as int) =~= char_runs(from as int, i as int, shift as int).push(
            SpecGlyphRun::Char(i as int, i - shift),
        ));
        i = i + 1;
    }
    if from >= to {
        assert(char_runs(from as int, to as int, shift as int) =~= Seq::<SpecGlyphRun>::empty());
        assert(out@.map_values(|g: GlyphRun| g.view()) =~= start + char_runs(from as int, to as int, shift as int));
    }
}

} // verus!
