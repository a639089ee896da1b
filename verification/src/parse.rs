//! The geometry text format: one directive per line, tokens separated by
//! single spaces.
//!
//! `v x y z` adds a vertex position, `vn x y z` a vertex normal,
//! `f i1//n i2//n i3//n` a triangular face of 1-based vertex and normal
//! indices, and `o name` names the mesh.  An empty leading token skips
//! the line; any other leading token is an unsupported directive.  Every
//! face index is validated against the final vertex and normal counts,
//! so a parsed mesh can never refer outside its own lists.

use vstd::prelude::*;
use crate::fixed::{Fx, SCALE, sat64};
use crate::render_objects::{Colour, Face, Mesh, MalformedGeometry, face_valid};
use crate::structures::Vector;

verus! {

/// Split a byte sequence at every separator; the result always holds at
/// least one (possibly empty) piece.
pub open spec fn split_seq(s: Seq<u8>, sep: u8) -> Seq<Seq<u8>>
    decreases s.len(),
{
    if s.len() == 0 {
        seq![Seq::<u8>::empty()]
    } else if s[0] == sep {
        seq![Seq::<u8>::empty()] + split_seq(s.drop_first(), sep)
    } else {
        let rest = split_seq(s.drop_first(), sep);
        seq![seq![s[0]] + rest[0]] + rest.drop_first()
    }
}

/// A split is never empty.
pub proof fn lemma_split_nonempty(s: Seq<u8>, sep: u8)
    ensures
        split_seq(s, sep).len() >= 1,
    decreases s.len(),
{
    if s.len() > 0 {
        lemma_split_nonempty(s.drop_first(), sep);
    }
}

/// Whether a byte is a decimal digit.
pub open spec fn is_digit(b: u8) -> bool {
    48 <= b <= 57
}

/// Whether every byte of a sequence is a decimal digit.
pub open spec fn all_digits(s: Seq<u8>) -> bool {
    forall|i: int| 0 <= i < s.len() ==> is_digit(#[trigger] s[i])
}

/// The value of a digit string, most significant digit first.
pub open spec fn digits_val(s: Seq<u8>) -> int
    decreases s.len(),
{
    if s.len() == 0 {
        0
    } else {
        digits_val(s.take(s.len() - 1)) * 10 + (s[s.len() - 1] - 48)
    }
}

/// Largest whole value a numeric token may carry before it saturates.
pub const DIGITS_LIMIT: i64 = 0x7fffffffffff;

/// Ten to the `k`-th power.
pub open spec fn pow10(k: int) -> int
    decreases k,
{
    if k <= 0 {
        1
    } else {
        10 * pow10(k - 1)
    }
}

/// The raw fixed-point value of a fraction digit string (at most the
/// first nine digits are read).
pub open spec fn frac_raw(fr: Seq<u8>) -> int {
    let fr9 = if fr.len() <= 9 { fr } else { fr.take(9) };
    digits_val(fr9) * SCALE / pow10(fr9.len() as int)
}

/// Parse an unsigned decimal token (digits, with one optional point and
/// fraction digits) into a fixed-point value; whole parts beyond the
/// machine range saturate.
pub open spec fn parse_ufx(tok: Seq<u8>) -> Option<Fx> {
    let parts = split_seq(tok, 46);
    if parts.len() == 1 {
        if parts[0].len() == 0 || !all_digits(parts[0]) {
            None
        } else {
            Some(Fx { raw: sat64(digits_val(parts[0]) * SCALE) as i64 })
        }
    } else if parts.len() == 2 {
        if parts[0].len() == 0 || !all_digits(parts[0]) || !all_digits(parts[1]) {
            None
        } else {
            Some(Fx { raw: sat64(digits_val(parts[0]) * SCALE + frac_raw(parts[1])) as i64 })
        }
    } else {
        None
    }
}

/// Parse a signed decimal token into a fixed-point value.
pub open spec fn parse_fx_spec(tok: Seq<u8>) -> Option<Fx> {
    if tok.len() == 0 {
        None
    } else if tok[0] == 45 {
        match parse_ufx(tok.drop_first()) {
            Some(v) => Some(Fx { raw: sat64(-(v.raw as int)) as i64 }),
            None => None,
        }
    } else {
        parse_ufx(tok)
    }
}

/// Parse an index token: a non-empty digit string whose value stays
/// within the machine range.
pub open spec fn parse_index_spec(tok: Seq<u8>) -> Option<int> {
    if tok.len() == 0 || !all_digits(tok) || digits_val(tok) > DIGITS_LIMIT {
        None
    } else {
        Some(digits_val(tok))
    }
}

/// What one line of the format means.
pub ghost enum ParsedLine {
    /// `o name`: the mesh name (ASCII bytes).
    Name(Seq<u8>),
    /// `v x y z`: a vertex position.
    Vertex(Fx, Fx, Fx),
    /// `vn x y z`: a vertex normal.
    Normal(Fx, Fx, Fx),
    /// `f a//n b//n c//n`: zero-based vertex and normal indices.
    FaceLine(int, int, int, int),
    /// An empty leading token: the line is skipped.
    Blank,
    /// A rejected line.
    Bad(MalformedGeometry),
}

/// One face corner token `a//n`: split at the slashes, a 1-based vertex
/// index, an empty middle, and a 1-based normal index.
pub open spec fn parse_corner(tok: Seq<u8>) -> Option<(int, int)> {
    let parts = split_seq(tok, 47);
    if parts.len() != 3 || parts[1].len() != 0 {
        None
    } else {
        match (parse_index_spec(parts[0]), parse_index_spec(parts[2])) {
            (Some(v), Some(n)) => Some((v, n)),
            _ => None,
        }
    }
}

/// Classify one line of the format.
pub open spec fn classify_line(line: Seq<u8>) -> ParsedLine {
    let toks = split_seq(line, 32);
    let head = toks[0];
    if head.len() == 0 {
        ParsedLine::Blank
    } else if head == seq![111u8] {
        if toks.len() >= 2 && forall|i: int| 0 <= i < toks[1].len() ==> #[trigger] toks[1][i] < 128 {
            ParsedLine::Name(toks[1])
        } else {
            ParsedLine::Bad(MalformedGeometry::UnparsableField)
        }
    } else if head == seq![118u8] || head == seq![118u8, 110u8] {
        if toks.len() == 4 {
            match (parse_fx_spec(toks[1]), parse_fx_spec(toks[2]), parse_fx_spec(toks[3])) {
                (Some(x), Some(y), Some(z)) => if head.len() == 1 {
                    ParsedLine::Vertex(x, y, z)
                } else {
                    ParsedLine::Normal(x, y, z)
                },
                _ => ParsedLine::Bad(MalformedGeometry::UnparsableField),
            }
        } else {
            ParsedLine::Bad(MalformedGeometry::UnparsableField)
        }
    } else if head == seq![102u8] {
        if toks.len() == 4 {
            match (parse_corner(toks[1]), parse_corner(toks[2]), parse_corner(toks[3])) {
                (Some(a), Some(b), Some(c)) => if a.0 >= 1 && b.0 >= 1 && c.0 >= 1 && a.1 >= 1 {
                    ParsedLine::FaceLine(a.0 - 1, b.0 - 1, c.0 - 1, a.1 - 1)
                } else {
                    // A 1-based index of zero has no cell to name.
                    ParsedLine::Bad(MalformedGeometry::BadIndex)
                },
                _ => ParsedLine::Bad(MalformedGeometry::UnparsableField),
            }
        } else {
            ParsedLine::Bad(MalformedGeometry::UnparsableField)
        }
    } else {
        ParsedLine::Bad(MalformedGeometry::UnsupportedDirective)
    }
}

/// The accumulated geometry of a parse: name bytes, vertex positions,
/// normals, and faces as zero-based `(v0, v1, v2, normal)` indices.
pub ghost struct ParseState {
    pub name: Seq<u8>,
    pub verts: Seq<Vector>,
    pub normals: Seq<Vector>,
    pub faces: Seq<(int, int, int, int)>,
}

/// Fold the classified lines from index `i` onward over a parse state.
pub open spec fn parse_lines(lines: Seq<Seq<u8>>, i: int, st: ParseState)
    -> Result<ParseState, MalformedGeometry>
    decreases lines.len() - i,
{
    if i < 0 || i >= lines.len() {
        Ok(st)
    } else {
        match classify_line(lines[i]) {
            ParsedLine::Bad(e) => Err(e),
            ParsedLine::Blank => parse_lines(lines, i + 1, st),
            ParsedLine::Name(n) => parse_lines(lines, i + 1, ParseState { name: n, ..st }),
            ParsedLine::Vertex(x, y, z) => parse_lines(lines, i + 1, ParseState {
                verts: st.verts.push(Vector { x, y, z, w: Fx { raw: SCALE } }),
                ..st
            }),
            ParsedLine::Normal(x, y, z) => parse_lines(lines, i + 1, ParseState {
                normals: st.normals.push(Vector { x, y, z, w: Fx { raw: 0i64 } }),
                ..st
            }),
            ParsedLine::FaceLine(a, b, c, n) => parse_lines(lines, i + 1, ParseState {
                faces: st.faces.push((a, b, c, n)),
                ..st
            }),
        }
    }
}

/// The empty parse state.
pub open spec fn empty_state() -> ParseState {
    ParseState { name: Seq::empty(), verts: Seq::empty(), normals: Seq::empty(), faces: Seq::empty() }
}

/// Whether every parsed face's indices fall inside the parsed lists.
pub open spec fn state_valid(st: ParseState) -> bool {
    forall|i: int| 0 <= i < st.faces.len() ==> {
        let f = #[trigger] st.faces[i];
        f.0 < st.verts.len() && f.1 < st.verts.len() && f.2 < st.verts.len()
            && f.3 < st.normals.len()
    }
}

/// The faces of a validated state, as mesh faces: each keeps its vertex
/// indices, takes its normal from the normal list, and is coloured full
/// grey.
pub open spec fn state_faces(st: ParseState) -> Seq<Face> {
    Seq::new(st.faces.len(), |i: int| Face {
        v0: st.faces[i].0 as usize,
        v1: st.faces[i].1 as usize,
        v2: st.faces[i].2 as usize,
        colour: Colour::Grey(Fx { raw: SCALE }),
        normal: st.normals[st.faces[i].3],
    })
}

/// The parse of a whole text: its lines folded over the empty state,
/// then the face indices validated.
pub open spec fn spec_parse_mesh(text: Seq<u8>) -> Result<ParseState, MalformedGeometry> {
    match parse_lines(split_seq(text, 10), 0, empty_state()) {
        Err(e) => Err(e),
        Ok(st) => if state_valid(st) {
            Ok(st)
        } else {
            Err(MalformedGeometry::BadIndex)
        },
    }
}

/// Split a byte slice at every separator, walking backwards so each
/// step prepends to the front piece.
fn split_bytes(s: &[u8], sep: u8) -> (r: Vec<Vec<u8>>)
    ensures
        r.deep_view() == split_seq(s@, sep),
        r@.len() >= 1,
{
    let mut out: Vec<Vec<u8>> = Vec::new();
    out.push(Vec::new());
    proof {
        assert(s@.skip(s@.len() as int) =~= Seq::<u8>::empty());
        assert(out.deep_view() =~~= split_seq(s@.skip(s@.len() as int), sep));
    }
    let mut i: usize = s.len();
    while i > 0
        invariant
            i <= s@.len(),
            out@.len() >= 1,
            out.deep_view() == split_seq(s@.skip(i as int), sep),
        decreases i,
    {
        i -= 1;
        let b: u8 = s[i];
        let ghost tail = s@.skip(i as int + 1);
        proof {
            assert(s@.skip(i as int).drop_first() =~= tail);
            assert(s@.skip(i as int)[0] == s@[i as int]);
            lemma_split_nonempty(tail, sep);
        }
        if b == sep {
            out.insert(0, Vec::new());
            proof {
                assert(out.deep_view() =~~= split_seq(s@.skip(i as int), sep));
            }
        } else {
            let mut first: Vec<u8> = out.remove(0);
            first.insert(0, b);
            out.insert(0, first);
            proof {
                assert(out.deep_view() =~~= split_seq(s@.skip(i as int), sep));
            }
        }
    }
    proof {
        assert(s@.skip(0) =~= s@);
    }
    out
}

/// Every digit string has a value below ten to its length.
proof fn lemma_digits_val_bound(s: Seq<u8>)
    requires
        all_digits(s),
    ensures
        0 <= digits_val(s) < pow10(s.len() as int),
    decreases s.len(),
{
    if s.len() > 0 {
        assert(all_digits(s.take(s.len() - 1)));
        lemma_digits_val_bound(s.take(s.len() - 1));
    }
}

/// Ten to any power is positive.
proof fn lemma_pow10_pos(k: int)
    ensures
        pow10(k) >= 1,
    decreases (if k <= 0 { 0int } else { k }),
{
    if k > 0 {
        lemma_pow10_pos(k - 1);
        assert(10 * pow10(k - 1) >= 10) by (nonlinear_arith)
            requires pow10(k - 1) >= 1;
    }
}

/// Ten to a power is monotone in the exponent.
proof fn lemma_pow10_mono(a: int, b: int)
    requires
        a <= b,
    ensures
        pow10(a) <= pow10(b),
    decreases (if b <= 0 { 0int } else { b }),
{
    if a < b && b > 0 {
        lemma_pow10_mono(a, b - 1);
        lemma_pow10_pos(b - 1);
    }
}

/// A fraction token's raw value is never negative.
proof fn lemma_frac_raw_nonneg(fr: Seq<u8>)
    requires
        all_digits(fr),
    ensures
        frac_raw(fr) >= 0,
{
    let fr9 = if fr.len() <= 9 { fr } else { fr.take(9) };
    assert(all_digits(fr9));
    lemma_digits_val_bound(fr9);
    lemma_pow10_pos(fr9.len() as int);
    vstd::arithmetic::div_mod::lemma_div_pos_is_pos(digits_val(fr9) * SCALE, pow10(fr9.len() as int));
    assert(digits_val(fr9) * SCALE >= 0) by (nonlinear_arith)
        requires digits_val(fr9) >= 0, SCALE == 65536i64;
}

/// An unsigned parse never yields a negative value.
pub proof fn lemma_parse_ufx_nonneg(tok: Seq<u8>)
    ensures
        parse_ufx(tok) matches Some(v) ==> v.raw >= 0,
{
    let parts = split_seq(tok, 46);
    if parts.len() == 1 {
        if parts[0].len() != 0 && all_digits(parts[0]) {
            lemma_digits_val_bound(parts[0]);
            assert(digits_val(parts[0]) * SCALE >= 0) by (nonlinear_arith)
                requires digits_val(parts[0]) >= 0, SCALE == 65536i64;
        }
    } else if parts.len() == 2 {
        if parts[0].len() != 0 && all_digits(parts[0]) && all_digits(parts[1]) {
            lemma_digits_val_bound(parts[0]);
            lemma_frac_raw_nonneg(parts[1]);
            assert(digits_val(parts[0]) * SCALE >= 0) by (nonlinear_arith)
                requires digits_val(parts[0]) >= 0, SCALE == 65536i64;
        }
    }
}

/// The digit check and capped value of a token: the value itself up to
/// [`DIGITS_LIMIT`], one past it beyond.
fn digits_capped(s: &Vec<u8>) -> (r: (bool, u64))
    ensures
        r.0 == all_digits(s@),
        r.0 && digits_val(s@) <= DIGITS_LIMIT ==> r.1 == digits_val(s@),
        r.0 && digits_val(s@) > DIGITS_LIMIT ==> r.1 == DIGITS_LIMIT + 1,
{
    let mut acc: u64 = 0;
    let mut i: usize = 0;
    while i < s.len()
        invariant
            i <= s@.len(),
            all_digits(s@.take(i as int)),
            digits_val(s@.take(i as int)) <= DIGITS_LIMIT ==> acc == digits_val(s@.take(i as int)),
            digits_val(s@.take(i as int)) > DIGITS_LIMIT ==> acc == DIGITS_LIMIT + 1,
            acc <= DIGITS_LIMIT + 1,
        decreases s@.len() - i,
    {
        let b: u8 = s[i];
        if b < 48 || b > 57 {
            return (false, 0);
        }
        proof {
            assert(s@.take(i as int + 1).take(i as int) =~= s@.take(i as int));
            assert(s@.take(i as int + 1)[i as int] == s@[i as int]);
            assert(all_digits(s@.take(i as int + 1)));
            lemma_digits_val_bound(s@.take(i as int));
        }
        acc = acc * 10 + (b - 48) as u64;
        if acc > DIGITS_LIMIT as u64 {
            acc = DIGITS_LIMIT as u64 + 1;
        }
        i += 1;
    }
    proof {
        assert(s@.take(s@.len() as int) =~= s@);
    }
    (true, acc)
}

/// The raw fixed-point value of a fraction token (all digits required,
/// at most the first nine read).
fn frac_value(s: &Vec<u8>) -> (r: Option<i64>)
    ensures
        (r is Some) == all_digits(s@),
        r matches Some(v) ==> v == frac_raw(s@) && 0 <= v < SCALE,
{
    let checked: (bool, u64) = digits_capped(s);
    if !checked.0 {
        return None;
    }
    let k: usize = if s.len() <= 9 { s.len() } else { 9 };
    let ghost fr9 = if s@.len() <= 9 { s@ } else { s@.take(9) };
    proof {
        assert(fr9 =~= s@.take(k as int));
    }
    let mut acc: u64 = 0;
    let mut den: u64 = 1;
    let mut i: usize = 0;
    while i < k
        invariant
            i <= k <= 9,
            k <= s@.len(),
            all_digits(s@),
            acc == digits_val(s@.take(i as int)),
            den == pow10(i as int),
        decreases k - i,
    {
        proof {
            assert(s@.take(i as int + 1).take(i as int) =~= s@.take(i as int));
            assert(s@.take(i as int + 1)[i as int] == s@[i as int]);
            assert(all_digits(s@.take(i as int + 1)));
            assert(all_digits(s@.take(i as int)));
            lemma_digits_val_bound(s@.take(i as int));
            lemma_pow10_mono(i as int, 8);
            lemma_pow10_mono(i as int + 1, 9);
            lemma_pow10_pos(i as int);
            reveal_with_fuel(pow10, 11);
            assert(pow10(8) == 100000000 && pow10(9) == 1000000000);
        }
        let b: u8 = s[i];
        acc = acc * 10 + (b - 48) as u64;
        den = den * 10;
        i += 1;
    }
    proof {
        lemma_pow10_mono(k as int, 9);
        lemma_pow10_pos(k as int);
        reveal_with_fuel(pow10, 11);
        assert(pow10(9) == 1000000000);
        assert(all_digits(s@.take(k as int)));
        lemma_digits_val_bound(s@.take(k as int));
    }
    proof {
        lemma_digits_val_bound(fr9);
        assert(digits_val(fr9) == acc && pow10(fr9.len() as int) == den);
        assert((acc as int) * (SCALE as int) < (den as int) * (SCALE as int)) by (nonlinear_arith)
            requires acc < den, SCALE == 65536i64;
        vstd::arithmetic::div_mod::lemma_multiply_divide_lt(
            (acc as int) * (SCALE as int), den as int, SCALE as int);
    }
    let raw: u64 = acc * (SCALE as u64) / den;
    Some(raw as i64)
}

/// Parse an unsigned decimal token into a fixed-point value.
fn parse_ufx_tok(tok: &Vec<u8>) -> (r: Option<Fx>)
    ensures
        r == parse_ufx(tok@),
{
    let parts: Vec<Vec<u8>> = split_bytes(tok.as_slice(), 46);
    proof {
        assert(parts.deep_view().len() == parts@.len());
        assert forall|i: int| 0 <= i < parts@.len()
            implies #[trigger] parts.deep_view()[i] =~= parts@[i]@ by {}
    }
    if parts.len() == 1 {
        let whole: (bool, u64) = digits_capped(&parts[0]);
        if parts[0].len() == 0 || !whole.0 {
            None
        } else if whole.1 > DIGITS_LIMIT as u64 {
            proof {
                assert(digits_val(parts.deep_view()[0]) * SCALE > i64::MAX) by (nonlinear_arith)
                    requires
                        digits_val(parts.deep_view()[0]) > 0x7fffffffffffi64,
                        SCALE == 65536i64;
            }
            Some(Fx { raw: i64::MAX })
        } else {
            Some(Fx { raw: (whole.1 * (SCALE as u64)) as i64 })
        }
    } else if parts.len() == 2 {
        let whole: (bool, u64) = digits_capped(&parts[0]);
        let frac: Option<i64> = frac_value(&parts[1]);
        if parts[0].len() == 0 || !whole.0 || frac.is_none() {
            None
        } else {
            let fv: i64 = match frac {
                Some(v) => v,
                None => 0,
            };
            if whole.1 > DIGITS_LIMIT as u64 {
                proof {
                    assert(digits_val(parts.deep_view()[0]) * SCALE + frac_raw(parts.deep_view()[1])
                        > i64::MAX) by (nonlinear_arith)
                        requires
                            digits_val(parts.deep_view()[0]) > 0x7fffffffffffi64,
                            SCALE == 65536i64,
                            frac_raw(parts.deep_view()[1]) >= 0;
                }
                Some(Fx { raw: i64::MAX })
            } else {
                Some(Fx { raw: (whole.1 * (SCALE as u64) + fv as u64) as i64 })
            }
        }
    } else {
        None
    }
}

/// The bytes of a token after its first byte.
fn tail_bytes(tok: &Vec<u8>) -> (r: Vec<u8>)
    requires
        tok@.len() >= 1,
    ensures
        r@ == tok@.drop_first(),
{
    let mut out: Vec<u8> = Vec::new();
    let mut i: usize = 1;
    while i < tok.len()
        invariant
            1 <= i <= tok@.len(),
            out@ =~= tok@.subrange(1, i as int),
        decreases tok@.len() - i,
    {
        out.push(tok[i]);
        proof {
            assert(out@ =~= tok@.subrange(1, i as int + 1));
        }
        i += 1;
    }
    proof {
        assert(out@ =~= tok@.drop_first());
    }
    out
}

/// Parse a signed decimal token into a fixed-point value.
fn parse_fx_tok(tok: &Vec<u8>) -> (r: Option<Fx>)
    ensures
        r == parse_fx_spec(tok@),
{
    if tok.len() == 0 {
        None
    } else if tok[0] == 45 {
        let rest: Vec<u8> = tail_bytes(tok);
        proof {
            lemma_parse_ufx_nonneg(rest@);
        }
        match parse_ufx_tok(&rest) {
            Some(v) => Some(Fx { raw: -v.raw }),
            None => None,
        }
    } else {
        parse_ufx_tok(tok)
    }
}

/// Parse an index token into its (machine-ranged) value.
fn parse_index_tok(tok: &Vec<u8>) -> (r: Option<u64>)
    ensures
        (r is Some) == (parse_index_spec(tok@) is Some),
        r matches Some(v) ==> parse_index_spec(tok@) == Some(v as int),
{
    let checked: (bool, u64) = digits_capped(tok);
    if tok.len() == 0 || !checked.0 || checked.1 > DIGITS_LIMIT as u64 {
        None
    } else {
        Some(checked.1)
    }
}

/// The parsed face index tuples, as plain integers.
pub open spec fn faces_ints(s: Seq<(u64, u64, u64, u64)>) -> Seq<(int, int, int, int)> {
    Seq::new(s.len(), |i: int| (s[i].0 as int, s[i].1 as int, s[i].2 as int, s[i].3 as int))
}

/// A copy of a byte token.
fn copy_bytes(tok: &Vec<u8>) -> (r: Vec<u8>)
    ensures
        r@ == tok@,
{
    let mut out: Vec<u8> = Vec::new();
    let mut i: usize = 0;
    while i < tok.len()
        invariant
            i <= tok@.len(),
            out@ =~= tok@.take(i as int),
        decreases tok@.len() - i,
    {
        out.push(tok[i]);
        proof {
            assert(out@ =~= tok@.take(i as int + 1));
        }
        i += 1;
    }
    proof {
        assert(out@ =~= tok@);
    }
    out
}

/// Relies on `String::from_utf8_lossy`: ASCII bytes are valid UTF-8 and
/// decode to the same characters, one character per byte.
#[verifier::external_body]
fn ascii_string(bytes: &Vec<u8>) -> (r: String)
    requires
        forall|i: int| 0 <= i < bytes@.len() ==> bytes@[i] < 128,
    ensures
        r@.len() == bytes@.len(),
        forall|i: int| 0 <= i < bytes@.len() ==> r@[i] == bytes@[i] as char,
{
    String::from_utf8_lossy(bytes).into_owned()
}

/// Apply one line to the parse state held in the four lists; a rejected
/// line returns its error and leaves the state alone.
#[verifier::rlimit(100)]
fn apply_line(line: &Vec<u8>, name: &mut Vec<u8>, verts: &mut Vec<Vector>,
    normals: &mut Vec<Vector>, fidx: &mut Vec<(u64, u64, u64, u64)>)
    -> (r: Option<MalformedGeometry>)
    ensures
        ({
            let st_in = ParseState {
                name: old(name)@, verts: old(verts)@, normals: old(normals)@,
                faces: faces_ints(old(fidx)@),
            };
            let st_out = ParseState {
                name: final(name)@, verts: final(verts)@, normals: final(normals)@,
                faces: faces_ints(final(fidx)@),
            };
            match classify_line(line@) {
                ParsedLine::Bad(e) => r == Some(e),
                ParsedLine::Blank => r is None && st_out == st_in,
                ParsedLine::Name(n) => r is None && st_out == (ParseState { name: n, ..st_in }),
                ParsedLine::Vertex(x, y, z) => r is None && st_out == (ParseState {
                    verts: st_in.verts.push(Vector { x, y, z, w: Fx { raw: SCALE } }), ..st_in }),
                ParsedLine::Normal(x, y, z) => r is None && st_out == (ParseState {
                    normals: st_in.normals.push(Vector { x, y, z, w: Fx { raw: 0i64 } }), ..st_in }),
                ParsedLine::FaceLine(a, b, c, n) => r is None && st_out == (ParseState {
                    faces: st_in.faces.push((a, b, c, n)), ..st_in }),
            }
        }),
{
    let toks: Vec<Vec<u8>> = split_bytes(line.as_slice(), 32);
    proof {
        assert(toks.deep_view().len() == toks@.len());
        assert forall|i: int| 0 <= i < toks@.len()
            implies #[trigger] toks.deep_view()[i] =~= toks@[i]@ by {}
    }
    let ghost cls = classify_line(line@);
    let ghost tseq = split_seq(line@, 32);
    let nt: usize = toks.len();
    let head_len: usize = toks[0].len();
    if head_len == 0 {
        proof {
            assert(cls is Blank);
        }
        None
    } else if head_len == 1 && toks[0][0] == 111 {
        proof {
            assert(toks@[0]@ =~= seq![111u8]);
        }
        if nt < 2 {
            return Some(MalformedGeometry::UnparsableField);
        }
        let cand: &Vec<u8> = &toks[1];
        let mut ai: usize = 0;
        let mut ascii_ok: bool = true;
        while ai < cand.len()
            invariant
                ai <= cand@.len(),
                ascii_ok == (forall|j: int| 0 <= j < ai ==> #[trigger] cand@[j] < 128),
            decreases cand@.len() - ai,
        {
            if cand[ai] >= 128 {
                ascii_ok = false;
            }
            ai += 1;
        }
        if !ascii_ok {
            proof {
                assert(cls == ParsedLine::Bad(MalformedGeometry::UnparsableField));
            }
            return Some(MalformedGeometry::UnparsableField);
        }
        let fresh: Vec<u8> = copy_bytes(&toks[1]);
        *name = fresh;
        proof {
            assert(cls == ParsedLine::Name(tseq[1]));
        }
        None
    } else if (head_len == 1 && toks[0][0] == 118)
        || (head_len == 2 && toks[0][0] == 118 && toks[0][1] == 110) {
        proof {
            if head_len == 1 {
                assert(toks@[0]@ =~= seq![118u8]);
            } else {
                assert(toks@[0]@ =~= seq![118u8, 110u8]);
            }
        }
        if nt != 4 {
            return Some(MalformedGeometry::UnparsableField);
        }
        let x: Option<Fx> = parse_fx_tok(&toks[1]);
        let y: Option<Fx> = parse_fx_tok(&toks[2]);
        let z: Option<Fx> = parse_fx_tok(&toks[3]);
        match (x, y, z) {
            (Some(xv), Some(yv), Some(zv)) => {
                if head_len == 1 {
                    verts.push(Vector { x: xv, y: yv, z: zv, w: Fx { raw: SCALE } });
                    proof {
                        assert(cls == ParsedLine::Vertex(xv, yv, zv));
                    }
                } else {
                    normals.push(Vector { x: xv, y: yv, z: zv, w: Fx { raw: 0i64 } });
                    proof {
                        assert(cls == ParsedLine::Normal(xv, yv, zv));
                    }
                }
                None
            },
            _ => {
                proof {
                    assert(cls == ParsedLine::Bad(MalformedGeometry::UnparsableField));
                }
                Some(MalformedGeometry::UnparsableField)
            },
        }
    } else if head_len == 1 && toks[0][0] == 102 {
        proof {
            assert(toks@[0]@ =~= seq![102u8]);
        }
        if nt != 4 {
            return Some(MalformedGeometry::UnparsableField);
        }
        let ca: Option<(u64, u64)> = parse_corner_tok(&toks[1]);
        let cb: Option<(u64, u64)> = parse_corner_tok(&toks[2]);
        let cc: Option<(u64, u64)> = parse_corner_tok(&toks[3]);
        match (ca, cb, cc) {
            (Some(a), Some(b), Some(c)) => {
                if a.0 >= 1 && b.0 >= 1 && c.0 >= 1 && a.1 >= 1 {
                    let ghost fin = faces_ints(fidx@);
                    fidx.push((a.0 - 1, b.0 - 1, c.0 - 1, a.1 - 1));
                    proof {
                        assert(cls == ParsedLine::FaceLine(
                            a.0 - 1, b.0 - 1, c.0 - 1, a.1 - 1));
                        assert(faces_ints(fidx@) =~= fin.push(
                            (a.0 - 1, b.0 - 1, c.0 - 1, a.1 - 1)));
                    }
                    None
                } else {
                    proof {
                        assert(cls == ParsedLine::Bad(MalformedGeometry::BadIndex));
                    }
                    Some(MalformedGeometry::BadIndex)
                }
            },
            _ => {
                proof {
                    assert(cls == ParsedLine::Bad(MalformedGeometry::UnparsableField));
                }
                Some(MalformedGeometry::UnparsableField)
            },
        }
    } else {
        proof {
            assert(!(toks@[0]@ =~= seq![111u8]));
            assert(!(toks@[0]@ =~= seq![118u8]));
            assert(!(toks@[0]@ =~= seq![118u8, 110u8]));
            assert(!(toks@[0]@ =~= seq![102u8]));
            assert(cls == ParsedLine::Bad(MalformedGeometry::UnsupportedDirective));
        }
        Some(MalformedGeometry::UnsupportedDirective)
    }
}

/// A named line only ever carries ASCII bytes.
proof fn lemma_classify_name_ascii(line: Seq<u8>)
    ensures
        classify_line(line) matches ParsedLine::Name(n)
            ==> forall|i: int| 0 <= i < n.len() ==> #[trigger] n[i] < 128,
{
}

impl Mesh {
    /// Build a mesh from geometry text: fold every line over the parse
    /// state, then validate all face indices against the vertex and
    /// normal counts.  Failure names the first offence: an unparsable
    /// numeric field, an unsupported directive, or an index outside the
    /// mesh (a 1-based index of zero included).
    #[verifier::rlimit(100)]
    pub fn from_text(text: &[u8], pos: Vector, rot: Vector) -> (r: Result<Mesh, MalformedGeometry>)
        ensures
            (r is Ok) == (spec_parse_mesh(text@) is Ok),
            r matches Ok(m) ==> {
                let st = spec_parse_mesh(text@)->Ok_0;
                &&& m.vertices@ == st.verts
                &&& m.faces@ == state_faces(st)
                &&& m.name@.len() == st.name.len()
                &&& (forall|i: int| 0 <= i < st.name.len() ==> m.name@[i] == st.name[i] as char)
                &&& m.pos == pos
                &&& m.rot == rot
                &&& m.wf()
            },
            r matches Err(e) ==> spec_parse_mesh(text@) == Err::<ParseState, MalformedGeometry>(e),
    {
        let lines: Vec<Vec<u8>> = split_bytes(text, 10);
        let ghost lseq = split_seq(text@, 10);
        let mut name: Vec<u8> = Vec::new();
        let mut verts: Vec<Vector> = Vec::new();
        let mut normals: Vec<Vector> = Vec::new();
        let mut fidx: Vec<(u64, u64, u64, u64)> = Vec::new();
        proof {
            assert(faces_ints(fidx@) =~= Seq::<(int, int, int, int)>::empty());
            assert(ParseState {
                name: name@, verts: verts@, normals: normals@, faces: faces_ints(fidx@),
            } == empty_state());
        }
        let mut li: usize = 0;
        while li < lines.len()
            invariant
                lseq == split_seq(text@, 10),
                lines.deep_view() == lseq,
                li <= lines@.len(),
                lseq.len() == lines@.len(),
                forall|j: int| 0 <= j < name@.len() ==> #[trigger] name@[j] < 128,
                parse_lines(lseq, 0, empty_state()) == parse_lines(lseq, li as int, ParseState {
                    name: name@,
                    verts: verts@,
                    normals: normals@,
                    faces: faces_ints(fidx@),
                }),
            decreases lines@.len() - li,
        {
            let ghost st_in = ParseState {
                name: name@, verts: verts@, normals: normals@, faces: faces_ints(fidx@),
            };
            proof {
                assert(lines.deep_view()[li as int] =~= lines@[li as int]@);
            }
            let res: Option<MalformedGeometry> = apply_line(&lines[li], &mut name, &mut verts,
                &mut normals, &mut fidx);
            let ghost st_out = ParseState {
                name: name@, verts: verts@, normals: normals@, faces: faces_ints(fidx@),
            };
            proof {
                assert(classify_line(lines@[li as int]@) == classify_line(lseq[li as int]));
            }
            match res {
                Some(e) => {
                    proof {
                        assert(parse_lines(lseq, li as int, st_in)
                            == Err::<ParseState, MalformedGeometry>(e));
                    }
                    return Err(e);
                },
                None => {
                    proof {
                        lemma_classify_name_ascii(lseq[li as int]);
                        assert(parse_lines(lseq, li as int, st_in)
                            == parse_lines(lseq, li as int + 1, st_out));
                    }
                },
            }
            li += 1;
        }
        let ghost st = ParseState {
            name: name@, verts: verts@, normals: normals@, faces: faces_ints(fidx@),
        };
        proof {
            assert(parse_lines(lseq, 0, empty_state()) == Ok::<ParseState, MalformedGeometry>(st));
        }
        let nv: usize = verts.len();
        let nn: usize = normals.len();
        let mut fi: usize = 0;
        while fi < fidx.len()
            invariant
                fi <= fidx@.len(),
                nv == verts@.len(),
                nn == normals@.len(),
                st.faces == faces_ints(fidx@),
                st.verts == verts@,
                st.normals == normals@,
                st.name == name@,
                forall|j: int| 0 <= j < name@.len() ==> #[trigger] name@[j] < 128,
                parse_lines(split_seq(text@, 10), 0, empty_state())
                    == Ok::<ParseState, MalformedGeometry>(st),
                forall|j: int| 0 <= j < fi ==> {
                    let f = #[trigger] st.faces[j];
                    f.0 < nv && f.1 < nv && f.2 < nv && f.3 < nn
                },
            decreases fidx@.len() - fi,
        {
            let f: (u64, u64, u64, u64) = fidx[fi];
            proof {
                assert(st.faces[fi as int] == (f.0 as int, f.1 as int, f.2 as int, f.3 as int));
            }
            if f.0 >= nv as u64 || f.1 >= nv as u64 || f.2 >= nv as u64 || f.3 >= nn as u64 {
                proof {
                    assert(!state_valid(st));
                }
                return Err(MalformedGeometry::BadIndex);
            }
            fi += 1;
        }
        proof {
            assert(state_valid(st));
        }
        let mut faces: Vec<Face> = Vec::new();
        let mut bi: usize = 0;
        while bi < fidx.len()
            invariant
                bi <= fidx@.len(),
                nv == verts@.len(),
                nn == normals@.len(),
                st.faces == faces_ints(fidx@),
                st.verts == verts@,
                st.normals == normals@,
                st.name == name@,
                forall|j: int| 0 <= j < name@.len() ==> #[trigger] name@[j] < 128,
                parse_lines(split_seq(text@, 10), 0, empty_state())
                    == Ok::<ParseState, MalformedGeometry>(st),
                state_valid(st),
                faces@.len() == bi,
                forall|j: int| 0 <= j < bi ==> #[trigger] faces@[j] == state_faces(st)[j],
            decreases fidx@.len() - bi,
        {
            let f: (u64, u64, u64, u64) = fidx[bi];
            proof {
                assert(st.faces[bi as int] == (f.0 as int, f.1 as int, f.2 as int, f.3 as int));
            }
            faces.push(Face {
                v0: f.0 as usize,
                v1: f.1 as usize,
                v2: f.2 as usize,
                colour: Colour::Grey(Fx { raw: SCALE }),
                normal: normals[f.3 as usize],
            });
            bi += 1;
        }
        proof {
            assert(faces@ =~= state_faces(st));
        }
        let name_str: String = ascii_string(&name);
        let mesh = Mesh { name: name_str, vertices: verts, faces, pos, rot };
        proof {
            assert forall|j: int| 0 <= j < mesh.faces@.len()
                implies face_valid(#[trigger] mesh.faces@[j], mesh.vertices@.len() as int) by {
                assert(mesh.faces@[j] == state_faces(st)[j]);
                assert(st.faces[j].0 < st.verts.len());
            }
        }
        Ok(mesh)
    }
}

/// Parse a face corner token `a//n` into its two 1-based indices.
fn parse_corner_tok(tok: &Vec<u8>) -> (r: Option<(u64, u64)>)
    ensures
        (r is Some) == (parse_corner(tok@) is Some),
        r matches Some(v) ==> parse_corner(tok@) == Some((v.0 as int, v.1 as int)),
{
    let parts: Vec<Vec<u8>> = split_bytes(tok.as_slice(), 47);
    proof {
        assert(parts.deep_view().len() == parts@.len());
        assert forall|i: int| 0 <= i < parts@.len()
            implies #[trigger] parts.deep_view()[i] =~= parts@[i]@ by {}
    }
    if parts.len() != 3 {
        return None;
    }
    if parts[1].len() != 0 {
        return None;
    }
    let v: Option<u64> = parse_index_tok(&parts[0]);
    let n: Option<u64> = parse_index_tok(&parts[2]);
    match (v, n) {
        (Some(vi), Some(ni)) => Some((vi, ni)),
        _ => None,
    }
}

} // verus!
