//! The binary form of a tile map, as bincode writes it with its default
//! options, and the proof that a byte string starts with at most one map.

use crate::tilemap::{layers_view, TileMapView};
use vstd::prelude::*;

verus! {

/// `n` written as `k` bytes, least significant first.
pub open spec fn le_bytes(n: nat, k: nat) -> Seq<u8>
    decreases k,
{
    if k == 0 {
        Seq::empty()
    } else {
        seq![(n % 256) as u8] + le_bytes(n / 256, (k - 1) as nat)
    }
}

/// 256 to the power `k`: the numbers that `k` bytes can hold.
pub open spec fn byte_range(k: nat) -> nat
    decreases k,
{
    if k == 0 {
        1
    } else {
        256 * byte_range((k - 1) as nat)
    }
}

/// A `u32` in four little-endian bytes.
pub open spec fn encode_u32(v: u32) -> Seq<u8> {
    le_bytes(v as nat, 4)
}

/// A sequence length in eight little-endian bytes.
pub open spec fn encode_len(n: nat) -> Seq<u8> {
    le_bytes(n, 8)
}

/// Ids one after another, four bytes each.
pub open spec fn encode_ids(s: Seq<u32>) -> Seq<u8>
    decreases s.len(),
{
    if s.len() == 0 {
        Seq::empty()
    } else {
        encode_u32(s[0]) + encode_ids(s.drop_first())
    }
}

/// One layer: its length, then its ids.
pub open spec fn encode_layer(s: Seq<u32>) -> Seq<u8> {
    encode_len(s.len()) + encode_ids(s)
}

/// Layers one after another.
pub open spec fn encode_layer_list(ls: Seq<Seq<u32>>) -> Seq<u8>
    decreases ls.len(),
{
    if ls.len() == 0 {
        Seq::empty()
    } else {
        encode_layer(ls[0]) + encode_layer_list(ls.drop_first())
    }
}

/// The bytes of a map: the number of layers, the layers, then width,
/// height and layer count.
pub open spec fn encoding(tiles: Seq<Seq<u32>>, width: u32, height: u32, layer_count: u32) -> Seq<u8> {
    encode_len(tiles.len()) + (encode_layer_list(tiles) + (encode_u32(width) + (encode_u32(height)
        + encode_u32(layer_count))))
}

pub open spec fn encoding_of(v: TileMapView) -> Seq<u8> {
    encoding(v.tiles, v.width, v.height, v.layer_count)
}

pub open spec fn is_prefix(p: Seq<u8>, s: Seq<u8>) -> bool {
    p.len() <= s.len() && s.subrange(0, p.len() as int) == p
}

/// Every length fits in a `usize`, as the lengths of vectors do.
pub open spec fn lengths_fit(tiles: Seq<Seq<u32>>) -> bool {
    &&& tiles.len() <= usize::MAX
    &&& forall|l: int| 0 <= l < tiles.len() ==> #[trigger] tiles[l].len() <= usize::MAX
}

/// `v` is a well-formed map and `bytes` begin with its encoding.
pub open spec fn decodes(bytes: Seq<u8>, v: TileMapView) -> bool {
    v.valid() && is_prefix(encoding_of(v), bytes)
}

/// Some well-formed map can be read from the start of `bytes`.
pub open spec fn readable(bytes: Seq<u8>) -> bool {
    exists|v: TileMapView| decodes(bytes, v)
}

#[verifier::external_type_specification]
#[verifier::external_body]
pub struct ExBincodeErrorKind(bincode::ErrorKind);

/// Relies on bincode::serialize (fixed-width little-endian integers, each
/// sequence preceded by its length as a u64) to write the layers, the size
/// and the layer count in that order. It succeeds on these values: the
/// default options set no size limit, every sequence has a known length, and
/// the output is a `Vec`, whose writes do not fail.
#[verifier::external_body]
pub(crate) fn serialize_parts(tiles: &Vec<Vec<u32>>, width: u32, height: u32, layer_count: u32) -> (r:
    Result<Vec<u8>, Box<bincode::ErrorKind>>)
    ensures
        r is Ok,
        r matches Ok(bytes) ==> bytes@ == encoding(layers_view(tiles@), width, height, layer_count),
{
    bincode::serialize(&(tiles, (width, height), layer_count))
}

/// Relies on bincode::deserialize with the same options: it reads a value
/// from the front of `bytes`, leaves any trailing bytes unread, and succeeds
/// whenever the front holds the encoding of some value.
#[verifier::external_body]
pub(crate) fn deserialize_parts(bytes: &[u8]) -> (r: Result<
    (Vec<Vec<u32>>, (u32, u32), u32),
    Box<bincode::ErrorKind>,
>)
    ensures
        r matches Ok(v) ==> is_prefix(encoding(layers_view(v.0@), v.1.0, v.1.1, v.2), bytes@),
        forall|t: Seq<Seq<u32>>, w: u32, h: u32, n: u32|
            lengths_fit(t) && is_prefix(#[trigger] encoding(t, w, h, n), bytes@) ==> r is Ok,
{
    bincode::deserialize(bytes)
}

proof fn lemma_le_bytes_len(n: nat, k: nat)
    ensures
        le_bytes(n, k).len() == k,
    decreases k,
{
    if k > 0 {
        lemma_le_bytes_len(n / 256, (k - 1) as nat);
    }
}

proof fn lemma_le_bytes_injective(n: nat, m: nat, k: nat)
    requires
        n < byte_range(k),
        m < byte_range(k),
        le_bytes(n, k) == le_bytes(m, k),
    ensures
        n == m,
    decreases k,
{
    if k > 0 {
        let p = byte_range((k - 1) as nat);
        let a = le_bytes(n / 256, (k - 1) as nat);
        let b = le_bytes(m / 256, (k - 1) as nat);
        lemma_le_bytes_len(n, k);
        lemma_le_bytes_len(n / 256, (k - 1) as nat);
        lemma_le_bytes_len(m / 256, (k - 1) as nat);
        assert(le_bytes(n, k) == seq![(n % 256) as u8] + a);
        assert(le_bytes(m, k) == seq![(m % 256) as u8] + b);
        assert((seq![(n % 256) as u8] + a)[0] == (n % 256) as u8);
        assert((seq![(m % 256) as u8] + b)[0] == (m % 256) as u8);
        assert(0 <= n % 256 < 256 && 0 <= m % 256 < 256);
        assert(((n % 256) as u8) as int == n % 256);
        assert(((m % 256) as u8) as int == m % 256);
        assert(n % 256 == m % 256);
        assert(a =~= le_bytes(n, k).subrange(1, k as int));
        assert(b =~= le_bytes(m, k).subrange(1, k as int));
        assert(n / 256 < p && m / 256 < p) by (nonlinear_arith)
            requires
                n < 256 * p,
                m < 256 * p,
        ;
        lemma_le_bytes_injective(n / 256, m / 256, (k - 1) as nat);
        assert(n == m) by (nonlinear_arith)
            requires
                n % 256 == m % 256,
                n / 256 == m / 256,
        ;
    }
}

proof fn lemma_byte_ranges()
    ensures
        byte_range(4) == 0x1_0000_0000,
        byte_range(8) == 0x1_0000_0000_0000_0000,
{
    assert(byte_range(0) == 1);
    assert(byte_range(1) == 0x100);
    assert(byte_range(2) == 0x1_0000);
    assert(byte_range(3) == 0x100_0000);
    assert(byte_range(4) == 0x1_0000_0000);
    assert(byte_range(5) == 0x100_0000_0000);
    assert(byte_range(6) == 0x1_0000_0000_0000);
    assert(byte_range(7) == 0x100_0000_0000_0000);
    assert(byte_range(8) == 0x1_0000_0000_0000_0000);
}

proof fn lemma_encode_ids_len(s: Seq<u32>)
    ensures
        encode_ids(s).len() == 4 * s.len(),
    decreases s.len(),
{
    if s.len() > 0 {
        lemma_le_bytes_len(s[0] as nat, 4);
        lemma_encode_ids_len(s.drop_first());
    }
}

proof fn lemma_encode_ids_injective(a: Seq<u32>, b: Seq<u32>)
    requires
        a.len() == b.len(),
        encode_ids(a) == encode_ids(b),
    ensures
        a == b,
    decreases a.len(),
{
    if a.len() > 0 {
        let ea = encode_ids(a);
        lemma_le_bytes_len(a[0] as nat, 4);
        lemma_le_bytes_len(b[0] as nat, 4);
        assert(encode_u32(a[0]) =~= ea.subrange(0, 4));
        assert(encode_u32(b[0]) =~= ea.subrange(0, 4));
        lemma_byte_ranges();
        lemma_le_bytes_injective(a[0] as nat, b[0] as nat, 4);
        assert(encode_ids(a.drop_first()) =~= ea.subrange(4, ea.len() as int));
        assert(encode_ids(b.drop_first()) =~= ea.subrange(4, ea.len() as int));
        lemma_encode_ids_injective(a.drop_first(), b.drop_first());
        assert(a =~= seq![a[0]] + a.drop_first());
        assert(b =~= seq![b[0]] + b.drop_first());
    }
}

proof fn lemma_prefix_split(a: Seq<u8>, b: Seq<u8>, s: Seq<u8>)
    requires
        is_prefix(a + b, s),
    ensures
        is_prefix(a, s),
        is_prefix(b, s.subrange(a.len() as int, s.len() as int)),
{
    assert(s.subrange(0, a.len() as int) =~= a) by {
        assert forall|i: int| 0 <= i < a.len() implies s.subrange(0, a.len() as int)[i] == a[i] by {
            assert(s.subrange(0, (a + b).len() as int)[i] == (a + b)[i]);
        }
    }
    let rest = s.subrange(a.len() as int, s.len() as int);
    assert(rest.subrange(0, b.len() as int) =~= b) by {
        assert forall|i: int| 0 <= i < b.len() implies rest.subrange(0, b.len() as int)[i] == b[i] by {
            assert(s.subrange(0, (a + b).len() as int)[a.len() + i] == (a + b)[a.len() + i]);
        }
    }
}

proof fn lemma_prefix_same_len(a: Seq<u8>, b: Seq<u8>, s: Seq<u8>)
    requires
        is_prefix(a, s),
        is_prefix(b, s),
        a.len() == b.len(),
    ensures
        a == b,
{
}

/// Two length fields at the front of the same bytes hold the same length.
proof fn lemma_len_fields(n: nat, m: nat, s: Seq<u8>)
    requires
        n <= usize::MAX,
        m <= usize::MAX,
        is_prefix(encode_len(n), s),
        is_prefix(encode_len(m), s),
    ensures
        n == m,
{
    lemma_le_bytes_len(n, 8);
    lemma_le_bytes_len(m, 8);
    lemma_byte_ranges();
    lemma_le_bytes_injective(n, m, 8);
}

/// Two `u32` fields at the front of the same bytes hold the same value.
proof fn lemma_u32_fields(n: u32, m: u32, s: Seq<u8>)
    requires
        is_prefix(encode_u32(n), s),
        is_prefix(encode_u32(m), s),
    ensures
        n == m,
{
    lemma_le_bytes_len(n as nat, 4);
    lemma_le_bytes_len(m as nat, 4);
    lemma_byte_ranges();
    lemma_le_bytes_injective(n as nat, m as nat, 4);
}

proof fn lemma_layer_lists_unique(a: Seq<Seq<u32>>, b: Seq<Seq<u32>>, s: Seq<u8>)
    requires
        a.len() == b.len(),
        lengths_fit(a),
        lengths_fit(b),
        is_prefix(encode_layer_list(a), s),
        is_prefix(encode_layer_list(b), s),
    ensures
        a == b,
    decreases a.len(),
{
    if a.len() > 0 {
        let a0 = a[0];
        let b0 = b[0];
        lemma_prefix_split(encode_layer(a0), encode_layer_list(a.drop_first()), s);
        lemma_prefix_split(encode_layer(b0), encode_layer_list(b.drop_first()), s);
        lemma_prefix_split(encode_len(a0.len()), encode_ids(a0), s);
        lemma_prefix_split(encode_len(b0.len()), encode_ids(b0), s);
        assert(a0.len() <= usize::MAX && b0.len() <= usize::MAX);
        lemma_len_fields(a0.len(), b0.len(), s);
        lemma_le_bytes_len(a0.len(), 8);
        lemma_encode_ids_len(a0);
        lemma_encode_ids_len(b0);
        let rest = s.subrange(8, s.len() as int);
        lemma_prefix_same_len(encode_ids(a0), encode_ids(b0), rest);
        lemma_encode_ids_injective(a0, b0);
        let tail = s.subrange(encode_layer(a0).len() as int, s.len() as int);
        assert forall|l: int| 0 <= l < a.drop_first().len() implies #[trigger] a.drop_first()[l].len()
            <= usize::MAX by {
            assert(a.drop_first()[l] == a[l + 1]);
        }
        assert forall|l: int| 0 <= l < b.drop_first().len() implies #[trigger] b.drop_first()[l].len()
            <= usize::MAX by {
            assert(b.drop_first()[l] == b[l + 1]);
        }
        lemma_layer_lists_unique(a.drop_first(), b.drop_first(), tail);
        assert(a =~= seq![a0] + a.drop_first());
        assert(b =~= seq![b0] + b.drop_first());
    }
}

/// The encoding is prefix-free: a byte string begins with the encoding of
/// at most one map.
pub proof fn lemma_encoding_unique(
    t1: Seq<Seq<u32>>,
    w1: u32,
    h1: u32,
    n1: u32,
    t2: Seq<Seq<u32>>,
    w2: u32,
    h2: u32,
    n2: u32,
    s: Seq<u8>,
)
    requires
        lengths_fit(t1),
        lengths_fit(t2),
        is_prefix(encoding(t1, w1, h1, n1), s),
        is_prefix(encoding(t2, w2, h2, n2), s),
    ensures
        t1 == t2,
        w1 == w2,
        h1 == h2,
        n1 == n2,
{
    let tail1 = encode_u32(w1) + (encode_u32(h1) + encode_u32(n1));
    let tail2 = encode_u32(w2) + (encode_u32(h2) + encode_u32(n2));
    lemma_prefix_split(encode_len(t1.len()), encode_layer_list(t1) + tail1, s);
    lemma_prefix_split(encode_len(t2.len()), encode_layer_list(t2) + tail2, s);
    lemma_len_fields(t1.len(), t2.len(), s);
    lemma_le_bytes_len(t1.len(), 8);
    let s1 = s.subrange(8, s.len() as int);
    lemma_prefix_split(encode_layer_list(t1), tail1, s1);
    lemma_prefix_split(encode_layer_list(t2), tail2, s1);
    lemma_layer_lists_unique(t1, t2, s1);
    let s2 = s1.subrange(encode_layer_list(t1).len() as int, s1.len() as int);
    lemma_prefix_split(encode_u32(w1), encode_u32(h1) + encode_u32(n1), s2);
    lemma_prefix_split(encode_u32(w2), encode_u32(h2) + encode_u32(n2), s2);
    lemma_u32_fields(w1, w2, s2);
    lemma_le_bytes_len(w1 as nat, 4);
    let s3 = s2.subrange(4, s2.len() as int);
    lemma_prefix_split(encode_u32(h1), encode_u32(n1), s3);
    lemma_prefix_split(encode_u32(h2), encode_u32(n2), s3);
    lemma_u32_fields(h1, h2, s3);
    lemma_le_bytes_len(h1 as nat, 4);
    let s4 = s3.subrange(4, s3.len() as int);
    lemma_u32_fields(n1, n2, s4);
}

} // verus!
