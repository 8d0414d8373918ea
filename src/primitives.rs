//! The basic primitives every EBML element is built from: variable-length
//! integers (VINTs) and big-endian integers.
//!
//! A VINT announces its own length in its first octet: the highest set bit
//! of that octet, counted from bit 7, gives the number of octets (bit 7 for
//! one octet, bit 0 for eight). The remaining bits and octets hold the value
//! in big-endian order. Element IDs keep that length marker as part of their
//! value; element sizes do not.

use vstd::prelude::*;
use vstd::arithmetic::div_mod::*;

use crate::error::Error;

verus! {

/// Represents a Variable Length Integer, otherwise known as a VINT.
/// It is an integer value that is represented using a variable number of octets.
pub struct VInt {
    pub(crate) value: i64,
}

impl View for VInt {
    type V = i64;

    closed spec fn view(&self) -> i64 {
        self.value
    }
}

impl VInt {
    /// Construct a new VINT.
    pub fn new(value: i64) -> (r: VInt)
        ensures
            r@ == value,
    {
        VInt { value: value }
    }

    /// Return the integer value represented by a VINT.
    pub fn value(&self) -> (r: i64)
        ensures
            r == self@,
    {
        self.value
    }
}

/// 256 to the power `n`.
pub open spec fn pow256(n: nat) -> nat
    decreases n,
{
    if n == 0 {
        1
    } else {
        256 * pow256((n - 1) as nat)
    }
}

/// The value of `s` read as an unsigned big-endian number.
pub open spec fn be_value(s: Seq<u8>) -> nat
    decreases s.len(),
{
    if s.len() == 0 {
        0
    } else {
        be_value(s.drop_last()) * 256 + s.last() as nat
    }
}

/// The `n` low-order octets of `v`, most significant first.
pub open spec fn be_bytes(v: nat, n: nat) -> Seq<u8>
    decreases n,
{
    if n == 0 {
        seq![]
    } else {
        be_bytes(v / 256, (n - 1) as nat).push((v % 256) as u8)
    }
}

/// The number of octets of a VINT whose first octet is `first`: 1 when bit 7
/// is its highest set bit, down to 8 for bit 0; 0 when no bit is set.
pub open spec fn vint_width(first: u8) -> nat {
    if first >= 0x80 {
        1
    } else if first >= 0x40 {
        2
    } else if first >= 0x20 {
        3
    } else if first >= 0x10 {
        4
    } else if first >= 0x08 {
        5
    } else if first >= 0x04 {
        6
    } else if first >= 0x02 {
        7
    } else if first >= 0x01 {
        8
    } else {
        0
    }
}

/// The length-marker bit in the first octet of a VINT of `width` octets.
pub open spec fn marker_bit(width: nat) -> nat {
    if width == 1 {
        0x80
    } else if width == 2 {
        0x40
    } else if width == 3 {
        0x20
    } else if width == 4 {
        0x10
    } else if width == 5 {
        0x08
    } else if width == 6 {
        0x04
    } else if width == 7 {
        0x02
    } else if width == 8 {
        0x01
    } else {
        0
    }
}

/// 2 to the power `7 * width`: the weight of the length marker in a VINT of
/// `width` octets, and the first value too large for a size VINT that wide.
pub open spec fn vint_capacity(width: nat) -> nat {
    if width == 1 {
        0x80
    } else if width == 2 {
        0x4000
    } else if width == 3 {
        0x20_0000
    } else if width == 4 {
        0x1000_0000
    } else if width == 5 {
        0x8_0000_0000
    } else if width == 6 {
        0x400_0000_0000
    } else if width == 7 {
        0x2_0000_0000_0000
    } else if width == 8 {
        0x100_0000_0000_0000
    } else {
        0
    }
}

/// The octets of the VINT at the start of `s`, the first one without its
/// length marker when `do_mask` is set.
pub open spec fn vint_octets(s: Seq<u8>, do_mask: bool) -> Seq<u8> {
    let w = vint_width(s[0]);
    if do_mask {
        s.take(w as int).update(0, (s[0] - marker_bit(w)) as u8)
    } else {
        s.take(w as int)
    }
}

/// The VINT at the start of `s`: its value and its number of octets.
pub open spec fn vint_decode(s: Seq<u8>, do_mask: bool) -> Result<(nat, nat), Error> {
    if s.len() == 0 {
        Err(Error::UnexpectedEof)
    } else if vint_width(s[0]) == 0 {
        Err(Error::InvalidVint)
    } else if s.len() < vint_width(s[0]) {
        Err(Error::UnexpectedEof)
    } else {
        Ok((be_value(vint_octets(s, do_mask)), vint_width(s[0])))
    }
}

/// The fewest octets a size VINT of value `v` needs; 0 when eight are not enough.
pub open spec fn size_width(v: nat) -> nat {
    if v < vint_capacity(1) {
        1
    } else if v < vint_capacity(2) {
        2
    } else if v < vint_capacity(3) {
        3
    } else if v < vint_capacity(4) {
        4
    } else if v < vint_capacity(5) {
        5
    } else if v < vint_capacity(6) {
        6
    } else if v < vint_capacity(7) {
        7
    } else if v < vint_capacity(8) {
        8
    } else {
        0
    }
}

/// Whether `v` is an element ID of `width` octets: its highest set bit is
/// the length marker of a VINT that wide.
pub open spec fn is_id_of_width(v: nat, width: nat) -> bool {
    1 <= width <= 8 && vint_capacity(width) <= v < 2 * vint_capacity(width)
}

/// The number of octets of the element ID `v`; 0 when `v` is no ID.
pub open spec fn id_width(v: nat) -> nat {
    if is_id_of_width(v, 1) {
        1
    } else if is_id_of_width(v, 2) {
        2
    } else if is_id_of_width(v, 3) {
        3
    } else if is_id_of_width(v, 4) {
        4
    } else if is_id_of_width(v, 5) {
        5
    } else if is_id_of_width(v, 6) {
        6
    } else if is_id_of_width(v, 7) {
        7
    } else if is_id_of_width(v, 8) {
        8
    } else {
        0
    }
}

/// The largest value any VINT can carry, plus one: 2 to the power 57.
pub open spec fn vint_bound() -> nat {
    2 * vint_capacity(8)
}

/// The octets that encode `v`: as a size with its length marker added
/// (`do_mask`), or as an element ID, which carries its marker already.
pub open spec fn vint_encode(v: nat, do_mask: bool) -> Result<Seq<u8>, Error> {
    if do_mask {
        if size_width(v) == 0 {
            Err(Error::IntegerTooBig)
        } else {
            Ok(be_bytes(v + vint_capacity(size_width(v)), size_width(v)))
        }
    } else {
        if v >= vint_bound() {
            Err(Error::IntegerTooBig)
        } else if id_width(v) == 0 {
            Err(Error::InvalidVint)
        } else {
            Ok(be_bytes(v, id_width(v)))
        }
    }
}

/// The powers of 256 up to the eighth.
pub proof fn lemma_pow256_values()
    ensures
        pow256(0) == 1,
        pow256(1) == 0x100,
        pow256(2) == 0x1_0000,
        pow256(3) == 0x100_0000,
        pow256(4) == 0x1_0000_0000,
        pow256(5) == 0x100_0000_0000,
        pow256(6) == 0x1_0000_0000_0000,
        pow256(7) == 0x100_0000_0000_0000,
        pow256(8) == 0x1_0000_0000_0000_0000,
{
    assert(pow256(0) == 1);
    assert(pow256(1) == 0x100);
    assert(pow256(2) == 0x1_0000);
    assert(pow256(3) == 0x100_0000);
    assert(pow256(4) == 0x1_0000_0000);
    assert(pow256(5) == 0x100_0000_0000);
    assert(pow256(6) == 0x1_0000_0000_0000);
    assert(pow256(7) == 0x100_0000_0000_0000);
}

/// A VINT's width brackets its first octet between the marker bit and twice it.
pub proof fn lemma_vint_width_bounds(first: u8)
    ensures
        vint_width(first) <= 8,
        vint_width(first) != 0 ==> marker_bit(vint_width(first)) <= first < 2 * marker_bit(
            vint_width(first),
        ),
        vint_width(first) == 0 <==> first == 0,
{
}

/// A value read from `n` octets is below `256^n`, and below the first
/// octet plus one times `256^(n - 1)`.
pub proof fn lemma_be_value_bound(s: Seq<u8>)
    ensures
        be_value(s) < pow256(s.len()),
        s.len() >= 1 ==> be_value(s) < (s[0] + 1) * pow256((s.len() - 1) as nat),
    decreases s.len(),
{
    if s.len() == 1 {
        assert(s.drop_last().len() == 0);
    } else if s.len() >= 2 {
        let t = s.drop_last();
        lemma_be_value_bound(t);
        assert(t[0] == s[0]);
        let p = pow256((t.len() - 1) as nat);
        let b = be_value(t);
        let f = s[0] + 1;
        assert(b * 256 + 255 < f * (256 * p)) by (nonlinear_arith)
            requires
                b < f * p,
        ;
        assert(pow256(s.len()) == 256 * pow256(t.len()));
    }
}

/// The octets `be_bytes(v, n)` are `n` long and read back as `v` modulo `256^n`.
pub proof fn lemma_be_bytes_value(v: nat, n: nat)
    ensures
        be_bytes(v, n).len() == n,
        be_value(be_bytes(v, n)) == v % pow256(n),
    decreases n,
{
    if n > 0 {
        lemma_be_bytes_value(v / 256, (n - 1) as nat);
        let b = be_bytes(v, n);
        assert(b.drop_last() =~= be_bytes(v / 256, (n - 1) as nat));
        lemma_pow256_monotone(0, (n - 1) as nat);
        lemma_mod_breakdown(v as int, 256, pow256((n - 1) as nat) as int);
    }
}

/// The first of the octets `be_bytes(v, n)` is `v / 256^(n - 1)` when `v` fits.
pub proof fn lemma_be_bytes_first(v: nat, n: nat)
    requires
        n >= 1,
        v < pow256(n),
    ensures
        be_bytes(v, n)[0] == v / pow256((n - 1) as nat),
    decreases n,
{
    lemma_be_bytes_value(v, n);
    if n == 1 {
        assert(be_bytes(v, 1)[0] == (v % 256) as u8);
    } else {
        let p = pow256((n - 2) as nat);
        lemma_pow256_monotone(0, (n - 2) as nat);
        assert(v / 256 < pow256((n - 1) as nat)) by {
            lemma_multiply_divide_lt(v as int, 256, pow256((n - 1) as nat) as int);
        }
        lemma_be_bytes_first(v / 256, (n - 1) as nat);
        lemma_be_bytes_value(v / 256, (n - 1) as nat);
        lemma_div_denominator(v as int, 256, p as int);
    }
}

/// Taking `c` off the first octet takes `c * 256^(n - 1)` off the value.
pub proof fn lemma_be_value_lower_first(s: Seq<u8>, c: nat)
    requires
        s.len() >= 1,
        c <= s[0],
    ensures
        be_value(s.update(0, (s[0] - c) as u8)) == be_value(s) - c * pow256((s.len() - 1) as nat),
    decreases s.len(),
{
    let u = s.update(0, (s[0] - c) as u8);
    if s.len() == 1 {
        assert(be_value(u.drop_last()) == 0);
        assert(be_value(s.drop_last()) == 0);
        assert(pow256(0) == 1);
    } else {
        let t = s.drop_last();
        assert(u.drop_last() =~= t.update(0, (t[0] - c) as u8));
        assert(u.last() == s.last());
        lemma_be_value_lower_first(t, c);
        let p = pow256((t.len() - 1) as nat);
        assert((be_value(t) - c * p) * 256 == be_value(t) * 256 - c * (256 * p))
            by (nonlinear_arith);
        assert(be_value(u) == be_value(s) - c * pow256((s.len() - 1) as nat));
    }
}

/// Every decoded VINT value is below 2 to the power 57, and a decoded size
/// is below the capacity of its width.
pub proof fn lemma_vint_decode_bound(s: Seq<u8>, do_mask: bool)
    requires
        vint_decode(s, do_mask) is Ok,
    ensures
        1 <= vint_decode(s, do_mask)->Ok_0.1 <= 8,
        vint_decode(s, do_mask)->Ok_0.0 < vint_bound(),
        do_mask ==> vint_decode(s, do_mask)->Ok_0.0 < vint_capacity(
            vint_decode(s, do_mask)->Ok_0.1,
        ),
{
    let w = vint_width(s[0]);
    let o = vint_octets(s, do_mask);
    lemma_vint_width_bounds(s[0]);
    lemma_pow256_values();
    lemma_be_value_bound(o);
    let p = pow256((w - 1) as nat);
    let m = marker_bit(w);
    assert((o[0] + 1) * p <= 2 * m * p) by (nonlinear_arith)
        requires
            o[0] < 2 * m,
    ;
    if do_mask {
        assert((o[0] + 1) * p <= m * p) by (nonlinear_arith)
            requires
                o[0] + 1 <= m,
        ;
    }
}

/// The octet count of a VINT that starts with `first`.
fn width_of(first: u8) -> (w: usize)
    ensures
        w == vint_width(first),
{
    if first >= 0x80 {
        1
    } else if first >= 0x40 {
        2
    } else if first >= 0x20 {
        3
    } else if first >= 0x10 {
        4
    } else if first >= 0x08 {
        5
    } else if first >= 0x04 {
        6
    } else if first >= 0x02 {
        7
    } else if first >= 0x01 {
        8
    } else {
        0
    }
}

/// The length-marker bit of a VINT of `width` octets.
fn marker_of(width: usize) -> (m: u8)
    requires
        1 <= width <= 8,
    ensures
        m == marker_bit(width as nat),
{
    if width == 1 {
        0x80
    } else if width == 2 {
        0x40
    } else if width == 3 {
        0x20
    } else if width == 4 {
        0x10
    } else if width == 5 {
        0x08
    } else if width == 6 {
        0x04
    } else if width == 7 {
        0x02
    } else {
        0x01
    }
}

/// Decode the VINT at the start of `buf`, returning its value and its
/// number of octets. The length marker is removed from the value when
/// `do_mask` is set.
pub fn decode_vint(buf: &[u8], do_mask: bool) -> (r: Result<(u64, usize), Error>)
    ensures
        match r {
            Ok((v, n)) => vint_decode(buf@, do_mask) == Ok::<(nat, nat), Error>(
                (v as nat, n as nat),
            ),
            Err(e) => vint_decode(buf@, do_mask) == Err::<(nat, nat), Error>(e),
        },
{
    if buf.len() == 0 {
        return Err(Error::UnexpectedEof);
    }
    let first = buf[0];
    let w = width_of(first);
    if w == 0 {
        return Err(Error::InvalidVint);
    }
    if buf.len() < w {
        return Err(Error::UnexpectedEof);
    }
    proof {
        lemma_vint_width_bounds(first);
        lemma_pow256_values();
    }
    let ghost octs = vint_octets(buf@, do_mask);
    let mut value: u64 = if do_mask {
        (first - marker_of(w)) as u64
    } else {
        first as u64
    };
    assert(be_value(octs.take(1).drop_last()) == 0);
    let mut i: usize = 1;
    while i < w
        invariant
            1 <= i <= w <= 8,
            w <= buf@.len(),
            w == vint_width(buf@[0]),
            octs == vint_octets(buf@, do_mask),
            octs.len() == w,
            value == be_value(octs.take(i as int)),
            value < pow256(i as nat),
            pow256(8) == 0x1_0000_0000_0000_0000,
        decreases w - i,
    {
        proof {
            assert(octs.take(i + 1).drop_last() == octs.take(i as int));
            if i < 8 {
                lemma_pow256_monotone((i + 1) as nat, 8);
            }
        }
        value = value * 256 + buf[i] as u64;
        i += 1;
    }
    assert(octs.take(w as int) == octs);
    Ok((value, w))
}

/// `256^a <= 256^b` when `a <= b`.
pub proof fn lemma_pow256_monotone(a: nat, b: nat)
    requires
        a <= b,
    ensures
        pow256(a) <= pow256(b),
    decreases b - a,
{
    if a < b {
        lemma_pow256_monotone(a, (b - 1) as nat);
    }
}

/// The capacity of a width is its marker bit in the first of its octets.
proof fn lemma_capacity(w: nat)
    requires
        1 <= w <= 8,
    ensures
        vint_capacity(w) == marker_bit(w) * pow256((w - 1) as nat),
        (2 * marker_bit(w)) * pow256((w - 1) as nat) == 2 * vint_capacity(w),
        2 * vint_capacity(w) <= pow256(w),
        pow256((w - 1) as nat) > 0,
{
    lemma_pow256_values();
    let p = pow256((w - 1) as nat);
    if w == 1 {
        assert(p == 1);
    } else if w == 2 {
        assert(p == 0x100);
    } else if w == 3 {
        assert(p == 0x1_0000);
    } else if w == 4 {
        assert(p == 0x100_0000);
    } else if w == 5 {
        assert(p == 0x1_0000_0000);
    } else if w == 6 {
        assert(p == 0x100_0000_0000);
    } else if w == 7 {
        assert(p == 0x1_0000_0000_0000);
    } else {
        assert(p == 0x100_0000_0000_0000);
    }
    assert((2 * marker_bit(w)) * p == 2 * (marker_bit(w) * p)) by (nonlinear_arith);
}

/// `lo <= x / p < hi` when `lo * p <= x < hi * p`.
proof fn lemma_div_bracket(x: nat, p: nat, lo: nat, hi: nat)
    requires
        p > 0,
        lo * p <= x < hi * p,
    ensures
        lo <= x / p < hi,
{
    lemma_fundamental_div_mod(x as int, p as int);
    let q = x / p;
    let r = x % p;
    assert(lo <= q < hi) by (nonlinear_arith)
        requires
            x == p * q + r,
            0 <= r < p,
            lo * p <= x < hi * p,
    ;
}

/// The octets `be_bytes(x, w)`, with any suffix, start with a VINT of width
/// `w` that reads back as `x` when `x` carries the marker of that width.
proof fn lemma_decode_be_bytes(x: nat, w: nat, rest: Seq<u8>)
    requires
        1 <= w <= 8,
        vint_capacity(w) <= x < 2 * vint_capacity(w),
    ensures
        vint_decode(be_bytes(x, w) + rest, false) == Ok::<(nat, nat), Error>((x, w)),
        vint_decode(be_bytes(x, w) + rest, true) == Ok::<(nat, nat), Error>(
            ((x - vint_capacity(w)) as nat, w),
        ),
{
    lemma_capacity(w);
    let p = pow256((w - 1) as nat);
    let m = marker_bit(w);
    lemma_be_bytes_value(x, w);
    lemma_small_mod(x, pow256(w));
    lemma_be_bytes_first(x, w);
    lemma_div_bracket(x, p, m, 2 * m);
    let bytes = be_bytes(x, w);
    let s = bytes + rest;
    assert(s.take(w as int) =~= bytes);
    lemma_be_value_lower_first(bytes, m);
}

/// A size written as a VINT reads back as the same size from the same
/// octets, whatever follows them; and no VINT with fewer octets could hold it.
pub proof fn lemma_size_round_trip(v: nat, rest: Seq<u8>)
    requires
        v < vint_capacity(8),
    ensures
        vint_encode(v, true) is Ok,
        vint_decode(vint_encode(v, true)->Ok_0 + rest, true) == Ok::<(nat, nat), Error>(
            (v, vint_encode(v, true)->Ok_0.len()),
        ),
        1 <= vint_encode(v, true)->Ok_0.len() <= 8,
        forall|k: nat| 1 <= k < vint_encode(v, true)->Ok_0.len() ==> v >= vint_capacity(k),
{
    let w = size_width(v);
    lemma_decode_be_bytes(v + vint_capacity(w), w, rest);
    lemma_be_bytes_value(v + vint_capacity(w), w);
}

/// An element ID written as a VINT reads back as the same ID from the same
/// octets, whatever follows them.
pub proof fn lemma_id_round_trip(v: nat, rest: Seq<u8>)
    requires
        id_width(v) != 0,
    ensures
        vint_encode(v, false) is Ok,
        vint_decode(vint_encode(v, false)->Ok_0 + rest, false) == Ok::<(nat, nat), Error>(
            (v, vint_encode(v, false)->Ok_0.len()),
        ),
        vint_encode(v, false)->Ok_0.len() == id_width(v),
{
    let w = id_width(v);
    lemma_decode_be_bytes(v, w, rest);
    lemma_be_bytes_value(v, w);
}

/// The `n` low-order octets of `v`, most significant first.
fn be_octets(v: u64, n: usize) -> (r: Vec<u8>)
    ensures
        r@ == be_bytes(v as nat, n as nat),
    decreases n,
{
    if n == 0 {
        Vec::new()
    } else {
        let mut r = be_octets(v / 256, n - 1);
        r.push((v % 256) as u8);
        r
    }
}

/// The capacity of a VINT of `width` octets.
fn capacity_of(width: usize) -> (c: u64)
    requires
        1 <= width <= 8,
    ensures
        c == vint_capacity(width as nat),
{
    if width == 1 {
        0x80
    } else if width == 2 {
        0x4000
    } else if width == 3 {
        0x20_0000
    } else if width == 4 {
        0x1000_0000
    } else if width == 5 {
        0x8_0000_0000
    } else if width == 6 {
        0x400_0000_0000
    } else if width == 7 {
        0x2_0000_0000_0000
    } else {
        0x100_0000_0000_0000
    }
}

/// The fewest octets a size VINT of value `v` needs; 0 when eight are not enough.
fn size_width_of(v: u64) -> (n: usize)
    ensures
        n == size_width(v as nat),
{
    let mut n: usize = 1;
    while n <= 8
        invariant
            1 <= n <= 9,
            forall|k: nat| 1 <= k < n ==> v >= vint_capacity(k),
        decreases 9 - n,
    {
        if v < capacity_of(n) {
            return n;
        }
        n += 1;
    }
    0
}

/// The number of octets of the element ID `v`; 0 when `v` is no ID.
fn id_width_of(v: u64) -> (n: usize)
    ensures
        n == id_width(v as nat),
{
    let mut n: usize = 1;
    while n <= 8
        invariant
            1 <= n <= 9,
            forall|k: nat| 1 <= k < n ==> !is_id_of_width(v as nat, k),
        decreases 9 - n,
    {
        let c = capacity_of(n);
        if c <= v && v - c < c {
            return n;
        }
        n += 1;
    }
    0
}

/// Write `v` as a VINT at the end of `w`: as an element size, with its
/// length marker added, when `do_mask` is set; otherwise as an element ID,
/// whose value carries its marker already.
pub fn write_variable_size_integer(w: &mut Vec<u8>, v: u64, do_mask: bool) -> (r: Result<(), Error>)
    ensures
        match vint_encode(v as nat, do_mask) {
            Ok(bytes) => r is Ok && final(w)@ == old(w)@ + bytes,
            Err(e) => r == Err::<(), Error>(e) && final(w)@ == old(w)@,
        },
{
    let mut bytes = if do_mask {
        let n = size_width_of(v);
        if n == 0 {
            return Err(Error::IntegerTooBig);
        }
        be_octets(v + capacity_of(n), n)
    } else {
        if v >= 0x200_0000_0000_0000 {
            return Err(Error::IntegerTooBig);
        }
        let n = id_width_of(v);
        if n == 0 {
            return Err(Error::InvalidVint);
        }
        be_octets(v, n)
    };
    w.append(&mut bytes);
    Ok(())
}

/// The value whose 64-bit two's-complement pattern reads as `u` unsigned.
pub open spec fn signed_of(u: nat) -> int {
    if u < 0x8000_0000_0000_0000 {
        u as int
    } else {
        u - 0x1_0000_0000_0000_0000
    }
}

/// Read at most eight octets as an unsigned big-endian number; no octets
/// read as 0.
pub fn uint_from_be(buf: &[u8]) -> (r: u64)
    requires
        buf@.len() <= 8,
    ensures
        r == be_value(buf@),
{
    proof {
        lemma_pow256_values();
    }
    let mut value: u64 = 0;
    let mut i: usize = 0;
    while i < buf.len()
        invariant
            i <= buf@.len() <= 8,
            value == be_value(buf@.take(i as int)),
            value < pow256(i as nat),
            pow256(8) == 0x1_0000_0000_0000_0000,
        decreases buf@.len() - i,
    {
        proof {
            assert(buf@.take(i + 1).drop_last() =~= buf@.take(i as int));
            lemma_pow256_monotone((i + 1) as nat, 8);
        }
        value = value * 256 + buf[i] as u64;
        i += 1;
    }
    assert(buf@.take(i as int) =~= buf@);
    value
}

/// The signed integer with the same 64-bit pattern as `u`.
pub fn int_from_bits(u: u64) -> (r: i64)
    ensures
        r == signed_of(u as nat),
{
    if u < 0x8000_0000_0000_0000 {
        u as i64
    } else {
        -((u64::MAX - u) as i64) - 1
    }
}

/// A VINT cut short anywhere reads as truncated, never as a value.
pub proof fn lemma_truncated_vint_fails(s: Seq<u8>, do_mask: bool, k: nat)
    requires
        vint_decode(s, do_mask) is Ok,
        k < vint_decode(s, do_mask)->Ok_0.1,
    ensures
        vint_decode(s.take(k as int), do_mask) == Err::<(nat, nat), Error>(Error::UnexpectedEof),
{
}

} // verus!
