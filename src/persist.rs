//! The persisted form of a reference string: one fixed-width record per
//! point, the coordinates `x`, `y`, `z` each as 48 little-endian bytes.
use crate::error::ProverError;
use crate::group::{Point, all_wf, base_modulus, is_curve_point, limbs6_value};
use vstd::prelude::*;

verus! {

/// Bytes of one coordinate.
pub const COORD_BYTES: usize = 48;

/// Bytes of one record (one point).
pub const RECORD_BYTES: usize = 144;

/// The eight little-endian bytes of `v`.
pub open spec fn u64_le(v: u64) -> Seq<u8> {
    seq![
        v as u8,
        (v >> 8u64) as u8,
        (v >> 16u64) as u8,
        (v >> 24u64) as u8,
        (v >> 32u64) as u8,
        (v >> 40u64) as u8,
        (v >> 48u64) as u8,
        (v >> 56u64) as u8,
    ]
}

/// The word whose little-endian bytes start at `b[o]`.
pub open spec fn u64_at(b: Seq<u8>, o: int) -> u64 {
    (b[o] as u64) | ((b[o + 1] as u64) << 8u64) | ((b[o + 2] as u64) << 16u64) | ((b[o + 3] as u64)
        << 24u64) | ((b[o + 4] as u64) << 32u64) | ((b[o + 5] as u64) << 40u64) | ((b[o + 6] as u64)
        << 48u64) | ((b[o + 7] as u64) << 56u64)
}

proof fn lemma_u64_round_trip(b: Seq<u8>, o: int, v: u64)
    requires
        0 <= o,
        o + 8 <= b.len(),
        forall|m: int| 0 <= m < 8 ==> #[trigger] b[o + m] == u64_le(v)[m],
    ensures
        u64_at(b, o) == v,
{
    assert(b[o + 0] == v as u8);
    assert(b[o + 1] == (v >> 8u64) as u8);
    assert(b[o + 2] == (v >> 16u64) as u8);
    assert(b[o + 3] == (v >> 24u64) as u8);
    assert(b[o + 4] == (v >> 32u64) as u8);
    assert(b[o + 5] == (v >> 40u64) as u8);
    assert(b[o + 6] == (v >> 48u64) as u8);
    assert(b[o + 7] == (v >> 56u64) as u8);
    assert(((v as u8) as u64) | ((((v >> 8u64) as u8) as u64) << 8u64) | ((((v >> 16u64) as u8) as u64)
        << 16u64) | ((((v >> 24u64) as u8) as u64) << 24u64) | ((((v >> 32u64) as u8) as u64) << 32u64)
        | ((((v >> 40u64) as u8) as u64) << 40u64) | ((((v >> 48u64) as u8) as u64) << 48u64) | ((((v
        >> 56u64) as u8) as u64) << 56u64) == v) by (bit_vector);
}

fn push_u64_le(out: &mut Vec<u8>, v: u64)
    ensures
        final(out)@ == old(out)@ + u64_le(v),
{
    out.push(v as u8);
    out.push((v >> 8u64) as u8);
    out.push((v >> 16u64) as u8);
    out.push((v >> 24u64) as u8);
    out.push((v >> 32u64) as u8);
    out.push((v >> 40u64) as u8);
    out.push((v >> 48u64) as u8);
    out.push((v >> 56u64) as u8);
    assert(final(out)@ =~= old(out)@ + u64_le(v));
}

fn read_u64_at(b: &Vec<u8>, o: usize) -> (v: u64)
    requires
        o + 8 <= b@.len(),
        b@.len() <= usize::MAX,
    ensures
        v == u64_at(b@, o as int),
{
    (b[o] as u64) | ((b[o + 1] as u64) << 8u64) | ((b[o + 2] as u64) << 16u64) | ((b[o + 3] as u64)
        << 24u64) | ((b[o + 4] as u64) << 32u64) | ((b[o + 5] as u64) << 40u64) | ((b[o + 6] as u64)
        << 48u64) | ((b[o + 7] as u64) << 56u64)
}

/// The 48 little-endian bytes of a coordinate given as limbs, most
/// significant first.
#[verifier::opaque]
pub open spec fn coord_le(l: [u64; 6]) -> Seq<u8> {
    u64_le(l[5]) + u64_le(l[4]) + u64_le(l[3]) + u64_le(l[2]) + u64_le(l[1]) + u64_le(l[0])
}

/// The limbs of the coordinate whose bytes start at `b[o]`.
#[verifier::opaque]
pub open spec fn coord_at(b: Seq<u8>, o: int) -> [u64; 6] {
    [u64_at(b, o + 40), u64_at(b, o + 32), u64_at(b, o + 24), u64_at(b, o + 16), u64_at(b, o + 8), u64_at(b, o)]
}

proof fn lemma_coord_le_len(l: [u64; 6])
    ensures
        coord_le(l).len() == 48,
{
    reveal(coord_le);
}

proof fn lemma_coord_round_trip(b: Seq<u8>, o: int, l: [u64; 6])
    requires
        0 <= o,
        o + 48 <= b.len(),
        forall|m: int| 0 <= m < 48 ==> #[trigger] b[o + m] == coord_le(l)[m],
    ensures
        coord_at(b, o) == l,
{
    reveal(coord_le);
    reveal(coord_at);
    let c = coord_le(l);
    assert forall|m: int| 0 <= m < 8 implies #[trigger] b[o + m] == u64_le(l[5])[m] by {
        assert(b[o + m] == c[m]);
    }
    assert forall|m: int| 0 <= m < 8 implies #[trigger] b[o + 8 + m] == u64_le(l[4])[m] by {
        assert(b[o + (8 + m)] == c[8 + m]);
    }
    assert forall|m: int| 0 <= m < 8 implies #[trigger] b[o + 16 + m] == u64_le(l[3])[m] by {
        assert(b[o + (16 + m)] == c[16 + m]);
    }
    assert forall|m: int| 0 <= m < 8 implies #[trigger] b[o + 24 + m] == u64_le(l[2])[m] by {
        assert(b[o + (24 + m)] == c[24 + m]);
    }
    assert forall|m: int| 0 <= m < 8 implies #[trigger] b[o + 32 + m] == u64_le(l[1])[m] by {
        assert(b[o + (32 + m)] == c[32 + m]);
    }
    assert forall|m: int| 0 <= m < 8 implies #[trigger] b[o + 40 + m] == u64_le(l[0])[m] by {
        assert(b[o + (40 + m)] == c[40 + m]);
    }
    lemma_u64_round_trip(b, o, l[5]);
    lemma_u64_round_trip(b, o + 8, l[4]);
    lemma_u64_round_trip(b, o + 16, l[3]);
    lemma_u64_round_trip(b, o + 24, l[2]);
    lemma_u64_round_trip(b, o + 32, l[1]);
    lemma_u64_round_trip(b, o + 40, l[0]);
    assert(coord_at(b, o) =~= l);
}

/// The limbs of the base-field modulus, most significant first.
pub const BASE_MODULUS_LIMBS: [u64; 6] = [
    0x1a0111ea397fe69a,
    0x4b1ba7b6434bacd7,
    0x64774b84f38512bf,
    0x6730d2a0f6b0f624,
    0x1eabfffeb153ffff,
    0xb9feffffffffaaab,
];

/// `a` precedes `b` in lexicographic order of limbs, most significant first.
pub open spec fn limbs_lex_lt(a: [u64; 6], b: [u64; 6]) -> bool {
    if a[0] != b[0] {
        a[0] < b[0]
    } else if a[1] != b[1] {
        a[1] < b[1]
    } else if a[2] != b[2] {
        a[2] < b[2]
    } else if a[3] != b[3] {
        a[3] < b[3]
    } else if a[4] != b[4] {
        a[4] < b[4]
    } else {
        a[5] < b[5]
    }
}

proof fn lemma_digit_order(x: int, y: int, s: int, t: int, m: int)
    requires
        0 <= x < 0x1_0000_0000_0000_0000int,
        0 <= y < 0x1_0000_0000_0000_0000int,
        0 <= s < m,
        0 <= t < m,
    ensures
        (x * m + s < y * m + t) == (x < y || (x == y && s < t)),
        0 <= x * m + s < 0x1_0000_0000_0000_0000int * m,
{
    if x < y {
        assert(x * m + m <= y * m) by (nonlinear_arith)
            requires
                x < y,
                m > 0,
        ;
    } else if x > y {
        assert(y * m + m <= x * m) by (nonlinear_arith)
            requires
                y < x,
                m > 0,
        ;
    }
    assert(x * m + m <= 0x1_0000_0000_0000_0000int * m) by (nonlinear_arith)
        requires
            x < 0x1_0000_0000_0000_0000int,
            m > 0,
    ;
    assert(0 <= x * m) by (nonlinear_arith)
        requires
            x >= 0,
            m > 0,
    ;
}

proof fn lemma_lex_is_value_order(a: [u64; 6], b: [u64; 6])
    ensures
        limbs_lex_lt(a, b) == (limbs6_value(a) < limbs6_value(b)),
{
    let w1: int = 0x1_0000_0000_0000_0000int;
    let w2: int = 0x1_0000_0000_0000_0000_0000_0000_0000_0000int;
    let w3: int = 0x1_0000_0000_0000_0000_0000_0000_0000_0000_0000_0000_0000_0000int;
    let w4: int = 0x1_0000_0000_0000_0000_0000_0000_0000_0000_0000_0000_0000_0000_0000_0000_0000_0000int;
    let w5: int = 0x1_0000_0000_0000_0000_0000_0000_0000_0000_0000_0000_0000_0000_0000_0000_0000_0000_0000_0000_0000_0000int;
    let a1 = a[5] as int;
    let b1 = b[5] as int;
    lemma_digit_order(a[4] as int, b[4] as int, a1, b1, w1);
    let a2 = a[4] as int * w1 + a1;
    let b2 = b[4] as int * w1 + b1;
    lemma_digit_order(a[3] as int, b[3] as int, a2, b2, w2);
    let a3 = a[3] as int * w2 + a2;
    let b3 = b[3] as int * w2 + b2;
    lemma_digit_order(a[2] as int, b[2] as int, a3, b3, w3);
    let a4 = a[2] as int * w3 + a3;
    let b4 = b[2] as int * w3 + b3;
    lemma_digit_order(a[1] as int, b[1] as int, a4, b4, w4);
    let a5 = a[1] as int * w4 + a4;
    let b5 = b[1] as int * w4 + b4;
    lemma_digit_order(a[0] as int, b[0] as int, a5, b5, w5);
    assert(limbs6_value(a) == a[0] as int * w5 + a5);
    assert(limbs6_value(b) == b[0] as int * w5 + b5);
}

/// The coordinate is below the base-field modulus.
fn coord_reduced(l: &[u64; 6]) -> (r: bool)
    ensures
        r == (limbs6_value(*l) < base_modulus()),
{
    let q = BASE_MODULUS_LIMBS;
    proof {
        lemma_lex_is_value_order(*l, q);
        assert(limbs6_value(q) == base_modulus());
    }
    if l[0] != q[0] {
        l[0] < q[0]
    } else if l[1] != q[1] {
        l[1] < q[1]
    } else if l[2] != q[2] {
        l[2] < q[2]
    } else if l[3] != q[3] {
        l[3] < q[3]
    } else if l[4] != q[4] {
        l[4] < q[4]
    } else {
        l[5] < q[5]
    }
}

/// The record of one point: its `x`, `y` and `z` coordinates in turn.
pub open spec fn point_le(p: Point) -> Seq<u8> {
    coord_le(p.x) + coord_le(p.y) + coord_le(p.z)
}

/// The persisted bytes of a sequence of points: their records in order.
pub open spec fn encode_points(ps: Seq<Point>) -> Seq<u8>
    decreases ps.len(),
{
    if ps.len() == 0 {
        Seq::empty()
    } else {
        encode_points(ps.drop_last()) + point_le(ps.last())
    }
}

/// The point whose record starts at `b[o]`.
pub open spec fn point_at(b: Seq<u8>, o: int) -> Point {
    Point { x: coord_at(b, o), y: coord_at(b, o + 48), z: coord_at(b, o + 96) }
}

/// What loading `degree` points from `b` gives: `Deserialization` unless
/// `b` holds exactly `degree` records of curve points with reduced
/// coordinates.
pub open spec fn decode_points(b: Seq<u8>, degree: nat) -> Result<Seq<Point>, ProverError> {
    let ps = Seq::new(degree, |k: int| point_at(b, 144 * k));
    if b.len() != 144 * degree {
        Err(ProverError::Deserialization)
    } else if !all_wf(ps) {
        Err(ProverError::Deserialization)
    } else {
        Ok(ps)
    }
}

proof fn lemma_encode_layout(ps: Seq<Point>)
    ensures
        encode_points(ps).len() == 144 * ps.len(),
        forall|k: int, m: int|
            0 <= k < ps.len() && 0 <= m < 144 ==> #[trigger] encode_points(ps)[144 * k + m] == point_le(
                ps[k],
            )[m],
    decreases ps.len(),
{
    if ps.len() > 0 {
        let init = ps.drop_last();
        lemma_coord_le_len(ps.last().x);
        lemma_coord_le_len(ps.last().y);
        lemma_coord_le_len(ps.last().z);
        lemma_encode_layout(init);
        let e = encode_points(ps);
        assert(e == encode_points(init) + point_le(ps.last()));
        assert forall|k: int, m: int| 0 <= k < ps.len() && 0 <= m < 144 implies #[trigger] e[144 * k + m]
            == point_le(ps[k])[m] by {
            if k < ps.len() - 1 {
                assert(144 * k + m < 144 * init.len()) by (nonlinear_arith)
                    requires
                        k < init.len(),
                        m < 144,
                ;
                assert(init[k] == ps[k]);
            } else {
                assert(144 * k + m - 144 * init.len() == m) by (nonlinear_arith)
                    requires
                        k == init.len(),
                ;
            }
        }
    }
}

proof fn lemma_point_round_trip(b: Seq<u8>, o: int, p: Point)
    requires
        0 <= o,
        o + 144 <= b.len(),
        forall|m: int| 0 <= m < 144 ==> #[trigger] b[o + m] == point_le(p)[m],
    ensures
        point_at(b, o) == p,
{
    lemma_coord_le_len(p.x);
    lemma_coord_le_len(p.y);
    lemma_coord_le_len(p.z);
    let e = point_le(p);
    assert forall|m: int| 0 <= m < 48 implies #[trigger] b[o + m] == coord_le(p.x)[m] by {
        assert(b[o + m] == e[m]);
    }
    assert forall|m: int| 0 <= m < 48 implies #[trigger] b[(o + 48) + m] == coord_le(p.y)[m] by {
        assert(b[o + (48 + m)] == e[48 + m]);
    }
    assert forall|m: int| 0 <= m < 48 implies #[trigger] b[(o + 96) + m] == coord_le(p.z)[m] by {
        assert(b[o + (96 + m)] == e[96 + m]);
    }
    lemma_coord_round_trip(b, o, p.x);
    lemma_coord_round_trip(b, o + 48, p.y);
    lemma_coord_round_trip(b, o + 96, p.z);
}

/// Loading what was persisted gives back the same points.
pub proof fn lemma_persist_round_trip(ps: Seq<Point>)
    requires
        all_wf(ps),
    ensures
        decode_points(encode_points(ps), ps.len()) == Ok::<Seq<Point>, ProverError>(ps),
{
    let b = encode_points(ps);
    lemma_encode_layout(ps);
    let ds = Seq::new(ps.len(), |k: int| point_at(b, 144 * k));
    assert forall|k: int| 0 <= k < ps.len() implies #[trigger] ds[k] == ps[k] by {
        let o = 144 * k;
        let p = ps[k];
        assert(0 <= o && o + 144 <= b.len()) by (nonlinear_arith)
            requires
                o == 144 * k,
                0 <= k < ps.len(),
                b.len() == 144 * ps.len(),
        ;
        assert forall|m: int| 0 <= m < 144 implies #[trigger] b[o + m] == point_le(p)[m] by {
            assert(b[144 * k + m] == point_le(p)[m]);
        }
        lemma_point_round_trip(b, o, p);
    }
    assert(ds =~= ps);
}

fn push_coord(out: &mut Vec<u8>, l: &[u64; 6])
    ensures
        final(out)@ == old(out)@ + coord_le(*l),
{
    reveal(coord_le);
    push_u64_le(out, l[5]);
    push_u64_le(out, l[4]);
    push_u64_le(out, l[3]);
    push_u64_le(out, l[2]);
    push_u64_le(out, l[1]);
    push_u64_le(out, l[0]);
    assert(final(out)@ =~= old(out)@ + coord_le(*l));
}

/// The persisted bytes of `points`: one 144-byte record per point, the
/// coordinates as little-endian integers.
pub fn encode_srs(points: &Vec<Point>) -> (r: Vec<u8>)
    ensures
        r@ == encode_points(points@),
{
    let mut out: Vec<u8> = Vec::new();
    let mut i: usize = 0;
    while i < points.len()
        invariant
            i <= points@.len(),
            out@ == encode_points(points@.subrange(0, i as int)),
        decreases points@.len() - i,
    {
        let p = &points[i];
        push_coord(&mut out, &p.x);
        push_coord(&mut out, &p.y);
        push_coord(&mut out, &p.z);
        proof {
            let next = points@.subrange(0, i + 1);
            assert(next.drop_last() =~= points@.subrange(0, i as int));
            assert(next.last() == points@[i as int]);
        }
        i = i + 1;
    }
    assert(points@.subrange(0, points@.len() as int) =~= points@);
    out
}

fn read_coord(b: &Vec<u8>, o: usize) -> (l: [u64; 6])
    requires
        o + 48 <= b@.len(),
        b@.len() <= usize::MAX,
    ensures
        l == coord_at(b@, o as int),
{
    reveal(coord_at);
    let l = [
        read_u64_at(b, o + 40),
        read_u64_at(b, o + 32),
        read_u64_at(b, o + 24),
        read_u64_at(b, o + 16),
        read_u64_at(b, o + 8),
        read_u64_at(b, o),
    ];
    assert(l =~= coord_at(b@, o as int));
    l
}

/// Loads `degree` points from persisted bytes; `Deserialization` when the
/// length is not exactly `degree` records, a coordinate is not reduced, or a
/// record is not a curve point.
pub fn decode_srs(b: &Vec<u8>, degree: usize) -> (r: Result<Vec<Point>, ProverError>)
    ensures
        match r {
            Ok(v) => decode_points(b@, degree as nat) == Ok::<Seq<Point>, ProverError>(v@),
            Err(e) => decode_points(b@, degree as nat) == Err::<Seq<Point>, ProverError>(e),
        },
{
    let ghost ps = Seq::new(degree as nat, |k: int| point_at(b@, 144 * k));
    if degree > b.len() / RECORD_BYTES || degree * RECORD_BYTES != b.len() {
        proof {
            if degree <= b@.len() / 144 {
                assert(degree * 144 <= b@.len()) by (nonlinear_arith)
                    requires
                        degree <= b@.len() / 144,
                ;
            } else {
                assert(degree * 144 > b@.len()) by (nonlinear_arith)
                    requires
                        degree > b@.len() / 144,
                ;
            }
        }
        return Err(ProverError::Deserialization);
    }
    let mut out: Vec<Point> = Vec::new();
    let mut k: usize = 0;
    while k < degree
        invariant
            k <= degree,
            degree * 144 == b@.len(),
            b@.len() <= usize::MAX,
            ps == Seq::new(degree as nat, |k: int| point_at(b@, 144 * k)),
            out@ == ps.subrange(0, k as int),
            all_wf(out@),
        decreases degree - k,
    {
        assert(k * 144 + 144 <= degree * 144) by (nonlinear_arith)
            requires
                k < degree,
        ;
        let o = k * RECORD_BYTES;
        let p = Point { x: read_coord(b, o), y: read_coord(b, o + 48), z: read_coord(b, o + 96) };
        assert(p == ps[k as int]);
        if !coord_reduced(&p.x) || !coord_reduced(&p.y) || !coord_reduced(&p.z) {
            assert(!ps[k as int].wf());
            assert(!all_wf(ps));
            return Err(ProverError::Deserialization);
        }
        if !is_curve_point(&p) {
            assert(!ps[k as int].wf());
            assert(!all_wf(ps));
            return Err(ProverError::Deserialization);
        }
        out.push(p);
        assert(out@ =~= ps.subrange(0, k + 1));
        k = k + 1;
    }
    assert(out@ =~= ps);
    Ok(out)
}

} // verus!
