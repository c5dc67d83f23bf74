use vstd::prelude::*;

verus! {

/// A point as the store records it: the IEEE-754 bit patterns of its two coordinates.
#[derive(Clone, Copy, Debug, PartialEq, Eq, Structural)]
pub struct StoredPoint {
    pub x_bits: u64,
    pub y_bits: u64,
}

/// Bytes of one record: `x` then `y`, each as eight big-endian bytes.
pub const RECORD_SIZE: usize = 16;

/// How many points the store buffers before it asks to be flushed.
pub const MAX_BUFFERED_POINTS: usize = 1000;

/// The eight bytes of `v`, most significant first.
pub open spec fn be_bytes(v: u64) -> Seq<u8> {
    seq![
        (v >> 56) as u8,
        (v >> 48) as u8,
        (v >> 40) as u8,
        (v >> 32) as u8,
        (v >> 24) as u8,
        (v >> 16) as u8,
        (v >> 8) as u8,
        v as u8,
    ]
}

/// The value of the eight bytes `b`, most significant first.
pub open spec fn be_value(b: Seq<u8>) -> u64 {
    (b[0] as u64) << 56 | (b[1] as u64) << 48 | (b[2] as u64) << 40 | (b[3] as u64) << 32 | (b[4]
        as u64) << 24 | (b[5] as u64) << 16 | (b[6] as u64) << 8 | (b[7] as u64)
}

/// The sixteen bytes that record `p`.
pub open spec fn record_bytes(p: StoredPoint) -> Seq<u8> {
    be_bytes(p.x_bits) + be_bytes(p.y_bits)
}

/// The bytes of a store holding `s`: its records one after another.
pub open spec fn encode(s: Seq<StoredPoint>) -> Seq<u8> {
    Seq::new(16 * s.len(), |j: int| record_bytes(s[j / 16])[j % 16])
}

/// The point recorded at index `i` of `b`.
pub open spec fn record_at(b: Seq<u8>, i: int) -> StoredPoint {
    StoredPoint {
        x_bits: be_value(b.subrange(16 * i, 16 * i + 8)),
        y_bits: be_value(b.subrange(16 * i + 8, 16 * i + 16)),
    }
}

/// The points that the bytes `b` record; a trailing fragment shorter than a record is
/// ignored.
pub open spec fn decode(b: Seq<u8>) -> Seq<StoredPoint> {
    Seq::new((b.len() / 16) as nat, |i: int| record_at(b, i))
}

proof fn lemma_be_round_trip(v: u64)
    ensures
        be_value(be_bytes(v)) == v,
{
    assert(((v >> 56) as u8 as u64) << 56 | ((v >> 48) as u8 as u64) << 48 | ((v >> 40) as u8
        as u64) << 40 | ((v >> 32) as u8 as u64) << 32 | ((v >> 24) as u8 as u64) << 24 | ((v
        >> 16) as u8 as u64) << 16 | ((v >> 8) as u8 as u64) << 8 | (v as u8 as u64) == v)
        by (bit_vector);
}

proof fn lemma_encode_push(s: Seq<StoredPoint>, p: StoredPoint)
    ensures
        encode(s.push(p)) == encode(s) + record_bytes(p),
{
    let n = s.len();
    let a = encode(s.push(p));
    let b = encode(s) + record_bytes(p);
    assert forall|j: int| 0 <= j < a.len() implies a[j] == b[j] by {
        if j < 16 * n {
            assert(j / 16 < n) by (nonlinear_arith)
                requires 0 <= j < 16 * n;
        } else {
            assert(j / 16 == n && j % 16 == j - 16 * n) by (nonlinear_arith)
                requires 16 * n <= j < 16 * n + 16;
        }
    }
    assert(a =~= b);
}

/// Reading back what was written gives the same points, in the same order, bit for bit.
pub proof fn round_trip(s: Seq<StoredPoint>)
    ensures
        decode(encode(s)) == s,
{
    let e = encode(s);
    assert((16 * s.len()) / 16 == s.len()) by (nonlinear_arith);
    assert forall|i: int| 0 <= i < s.len() implies #[trigger] record_at(e, i) == s[i] by {
        assert forall|k: int| 0 <= k < 16 implies #[trigger] e[16 * i + k] == record_bytes(s[i])[k] by {
            assert((16 * i + k) / 16 == i && (16 * i + k) % 16 == k) by (nonlinear_arith)
                requires 0 <= k < 16, 0 <= i;
        }
        assert(16 * i + 16 <= e.len()) by (nonlinear_arith)
            requires 0 <= i < s.len(), e.len() == 16 * s.len();
        assert(e.subrange(16 * i, 16 * i + 8) =~= be_bytes(s[i].x_bits));
        assert(e.subrange(16 * i + 8, 16 * i + 16) =~= be_bytes(s[i].y_bits));
        lemma_be_round_trip(s[i].x_bits);
        lemma_be_round_trip(s[i].y_bits);
    }
    assert(decode(e) =~= s);
}

/// Appends the eight big-endian bytes of `v` to `out`.
fn put_be(out: &mut Vec<u8>, v: u64)
    ensures
        final(out)@ == old(out)@ + be_bytes(v),
{
    out.push((v >> 56) as u8);
    out.push((v >> 48) as u8);
    out.push((v >> 40) as u8);
    out.push((v >> 32) as u8);
    out.push((v >> 24) as u8);
    out.push((v >> 16) as u8);
    out.push((v >> 8) as u8);
    out.push(v as u8);
    assert(out@ =~= old(out)@ + be_bytes(v));
}

/// The value of the eight big-endian bytes of `b` from `start` on.
fn read_be(b: &Vec<u8>, start: usize) -> (r: u64)
    requires
        start + 8 <= b@.len() <= usize::MAX,
    ensures
        r == be_value(b@.subrange(start as int, start + 8)),
{
    (b[start] as u64) << 56 | (b[start + 1] as u64) << 48 | (b[start + 2] as u64) << 40 | (b[start
        + 3] as u64) << 32 | (b[start + 4] as u64) << 24 | (b[start + 5] as u64) << 16 | (b[start
        + 6] as u64) << 8 | (b[start + 7] as u64)
}

/// The bytes that record `points`.
pub fn encode_points(points: &Vec<StoredPoint>) -> (r: Vec<u8>)
    requires
        16 * points@.len() <= usize::MAX,
    ensures
        r@ == encode(points@),
{
    let mut out: Vec<u8> = Vec::with_capacity(points.len() * RECORD_SIZE);
    assert(encode(points@.subrange(0, 0)) =~= Seq::<u8>::empty());
    let mut i: usize = 0;
    while i < points.len()
        invariant
            0 <= i <= points@.len(),
            out@ == encode(points@.subrange(0, i as int)),
        decreases points.len() - i,
    {
        proof {
            let s = points@.subrange(0, i as int);
            assert(points@.subrange(0, i + 1) == s.push(points@[i as int]));
            lemma_encode_push(s, points@[i as int]);
        }
        put_be(&mut out, points[i].x_bits);
        put_be(&mut out, points[i].y_bits);
        assert(out@ =~= encode(points@.subrange(0, i as int)) + record_bytes(points@[i as int]));
        i += 1;
    }
    assert(points@.subrange(0, points@.len() as int) == points@);
    out
}

/// The points that `bytes` records; a trailing fragment shorter than a record is ignored.
pub fn decode_points(bytes: &Vec<u8>) -> (r: Vec<StoredPoint>)
    ensures
        r@ == decode(bytes@),
{
    let n = bytes.len() / RECORD_SIZE;
    let mut out: Vec<StoredPoint> = Vec::with_capacity(n);
    let mut i: usize = 0;
    while i < n
        invariant
            0 <= i <= n,
            n == bytes@.len() / 16,
            bytes@.len() <= usize::MAX,
            out@.len() == i,
            forall|k: int| 0 <= k < i ==> #[trigger] out@[k] == record_at(bytes@, k),
        decreases n - i,
    {
        assert(16 * i + 16 <= bytes@.len()) by (nonlinear_arith)
            requires i < n, n == bytes@.len() / 16;
        assert(i * 16 == 16 * i);
        let start = i * RECORD_SIZE;
        let x_bits = read_be(bytes, start);
        let y_bits = read_be(bytes, start + 8);
        out.push(StoredPoint { x_bits, y_bits });
        i += 1;
    }
    assert(out@ =~= decode(bytes@));
    out
}

/// The store of an aggregate's points: the name of its file, and the points accepted
/// since the file was last written.
pub struct Flake {
    flake_file: String,
    buffered_points: Vec<StoredPoint>,
}

impl Flake {
    /// The name of the store's file.
    pub closed spec fn file(self) -> Seq<char> {
        self.flake_file@
    }

    /// The points accepted and not yet written out, in order.
    pub closed spec fn pending(self) -> Seq<StoredPoint> {
        self.buffered_points@
    }

    /// The buffer is never full between calls.
    pub closed spec fn wf(self) -> bool {
        self.buffered_points@.len() < MAX_BUFFERED_POINTS
    }

    /// A store kept in the file `flake_file`, with nothing buffered.
    pub fn new(flake_file: &str) -> (r: Flake)
        ensures
            r.wf(),
            r.file() == flake_file@,
            r.pending() == Seq::<StoredPoint>::empty(),
    {
        Flake { flake_file: flake_file.to_owned(), buffered_points: Vec::new() }
    }

    /// The name of the store's file.
    pub fn flake_file(&self) -> (r: &str)
        ensures
            r@ == self.file(),
    {
        self.flake_file.as_str()
    }

    /// The points that the contents of the store's file record, in order.
    pub fn get_points(contents: &Vec<u8>) -> (r: Vec<StoredPoint>)
        ensures
            r@ == decode(contents@),
    {
        decode_points(contents)
    }

    /// Buffers `point`. Once `MAX_BUFFERED_POINTS` points are buffered, the buffer is
    /// emptied and the bytes to append to the store's file for them are returned.
    pub fn add_point(&mut self, point: StoredPoint) -> (full: Option<Vec<u8>>)
        requires
            old(self).wf(),
        ensures
            final(self).wf(),
            final(self).file() == old(self).file(),
            old(self).pending().len() + 1 < MAX_BUFFERED_POINTS ==> full is None
                && final(self).pending() == old(self).pending().push(point),
            old(self).pending().len() + 1 == MAX_BUFFERED_POINTS ==> full is Some
                && full.unwrap()@ == encode(old(self).pending().push(point))
                && final(self).pending() == Seq::<StoredPoint>::empty(),
    {
        self.buffered_points.push(point);
        if self.buffered_points.len() >= MAX_BUFFERED_POINTS {
            Some(self.flush())
        } else {
            None
        }
    }

    /// Empties the buffer and returns the bytes to append to the store's file for the
    /// points it held.
    pub fn flush(&mut self) -> (bytes: Vec<u8>)
        requires
            old(self).pending().len() <= MAX_BUFFERED_POINTS,
        ensures
            final(self).wf(),
            final(self).file() == old(self).file(),
            final(self).pending() == Seq::<StoredPoint>::empty(),
            bytes@ == encode(old(self).pending()),
    {
        let bytes = encode_points(&self.buffered_points);
        self.buffered_points = Vec::new();
        bytes
    }
}

} // verus!
