//! The keys under which messages are persisted.

use vstd::prelude::*;

verus! {

/// The key of message `id`: the eight bytes of the identifier, most
/// significant first, so that keys sort as identifiers do.
pub open spec fn key_bytes(id: u64) -> Seq<u8> {
    seq![
        (id >> 56) as u8,
        ((id >> 48) & 0xff) as u8,
        ((id >> 40) & 0xff) as u8,
        ((id >> 32) & 0xff) as u8,
        ((id >> 24) & 0xff) as u8,
        ((id >> 16) & 0xff) as u8,
        ((id >> 8) & 0xff) as u8,
        (id & 0xff) as u8,
    ]
}

/// `a` comes before `b` when both are read byte by byte from the front.
pub open spec fn sorts_before(a: Seq<u8>, b: Seq<u8>) -> bool {
    exists|k: int|
        0 <= k < a.len() && k < b.len() && #[trigger] a[k] < b[k] && (forall|j: int|
            0 <= j < k ==> a[j] == b[j])
}

/// The number that the first `count` bytes of the key of `id` spell.
spec fn prefix(id: u64, count: int) -> int {
    if count <= 0 {
        0
    } else if count >= 8 {
        id as int
    } else {
        (id >> ((64 - 8 * count) as u64)) as int
    }
}

proof fn lemma_prefixes(id: u64)
    ensures
        key_bytes(id).len() == 8,
        forall|k: int|
            0 <= k < 8 ==> prefix(id, k + 1) == 256 * prefix(id, k) + #[trigger] key_bytes(id)[k],
{
    assert((id >> 56) < 256) by (bit_vector);
    assert((id >> 48) == 256 * (id >> 56) + ((id >> 48) & 0xff)) by (bit_vector);
    assert((id >> 40) == 256 * (id >> 48) + ((id >> 40) & 0xff)) by (bit_vector);
    assert((id >> 32) == 256 * (id >> 40) + ((id >> 32) & 0xff)) by (bit_vector);
    assert((id >> 24) == 256 * (id >> 32) + ((id >> 24) & 0xff)) by (bit_vector);
    assert((id >> 16) == 256 * (id >> 24) + ((id >> 16) & 0xff)) by (bit_vector);
    assert((id >> 8) == 256 * (id >> 16) + ((id >> 8) & 0xff)) by (bit_vector);
    assert(id == 256 * (id >> 8) + (id & 0xff)) by (bit_vector);
    assert(((id >> 48) & 0xff) < 256) by (bit_vector);
    assert(((id >> 40) & 0xff) < 256) by (bit_vector);
    assert(((id >> 32) & 0xff) < 256) by (bit_vector);
    assert(((id >> 24) & 0xff) < 256) by (bit_vector);
    assert(((id >> 16) & 0xff) < 256) by (bit_vector);
    assert(((id >> 8) & 0xff) < 256) by (bit_vector);
    assert((id & 0xff) < 256) by (bit_vector);
}

/// Computes [`key_bytes`].
pub fn storage_key(id: u64) -> (key: [u8; 8])
    ensures
        key@ == key_bytes(id),
{
    proof {
        lemma_prefixes(id);
        assert((id >> 56) < 256) by (bit_vector);
        assert(((id >> 48) & 0xff) < 256) by (bit_vector);
        assert(((id >> 40) & 0xff) < 256) by (bit_vector);
        assert(((id >> 32) & 0xff) < 256) by (bit_vector);
        assert(((id >> 24) & 0xff) < 256) by (bit_vector);
        assert(((id >> 16) & 0xff) < 256) by (bit_vector);
        assert(((id >> 8) & 0xff) < 256) by (bit_vector);
        assert((id & 0xff) < 256) by (bit_vector);
    }
    let key: [u8; 8] = [
        (id >> 56) as u8,
        ((id >> 48) & 0xff) as u8,
        ((id >> 40) & 0xff) as u8,
        ((id >> 32) & 0xff) as u8,
        ((id >> 24) & 0xff) as u8,
        ((id >> 16) & 0xff) as u8,
        ((id >> 8) & 0xff) as u8,
        (id & 0xff) as u8,
    ];
    proof {
        assert(key@ =~= key_bytes(id));
    }
    key
}

/// Two identifiers with one key are one identifier.
pub proof fn lemma_key_holds_id(a: u64, b: u64)
    requires
        key_bytes(a) == key_bytes(b),
    ensures
        a == b,
{
    lemma_prefixes(a);
    lemma_prefixes(b);
    let ka = key_bytes(a);
    let kb = key_bytes(b);
    assert(forall|k: int| 0 <= k < 8 ==> ka[k] == kb[k]);
    lemma_equal_prefixes(a, b, 8);
}

/// When the first `count` bytes of two keys agree, so do the numbers they
/// spell.
proof fn lemma_equal_prefixes(a: u64, b: u64, count: int)
    requires
        0 <= count <= 8,
        forall|j: int| 0 <= j < count ==> key_bytes(a)[j] == key_bytes(b)[j],
    ensures
        prefix(a, count) == prefix(b, count),
    decreases count,
{
    if count > 0 {
        lemma_prefixes(a);
        lemma_prefixes(b);
        lemma_equal_prefixes(a, b, count - 1);
        assert(key_bytes(a)[count - 1] == key_bytes(b)[count - 1]);
    }
}

/// When the numbers that the first `count` bytes of two keys spell differ,
/// the numbers spelt by more bytes differ the same way.
proof fn lemma_prefix_order_stays(a: u64, b: u64, count: int, more: int)
    requires
        0 <= count <= more <= 8,
        prefix(a, count) < prefix(b, count),
    ensures
        prefix(a, more) < prefix(b, more),
    decreases more - count,
{
    if count < more {
        lemma_prefixes(a);
        lemma_prefixes(b);
        assert(prefix(a, count + 1) == 256 * prefix(a, count) + key_bytes(a)[count]);
        assert(prefix(b, count + 1) == 256 * prefix(b, count) + key_bytes(b)[count]);
        lemma_prefix_order_stays(a, b, count + 1, more);
    }
}

/// Keys sort as identifiers do.
pub proof fn lemma_keys_sort_as_ids(a: u64, b: u64)
    ensures
        a < b <==> sorts_before(key_bytes(a), key_bytes(b)),
{
    lemma_prefixes(a);
    lemma_prefixes(b);
    let ka = key_bytes(a);
    let kb = key_bytes(b);
    if sorts_before(ka, kb) {
        let k = choose|k: int|
            0 <= k < ka.len() && k < kb.len() && #[trigger] ka[k] < kb[k] && (forall|j: int|
                0 <= j < k ==> ka[j] == kb[j]);
        lemma_equal_prefixes(a, b, k);
        assert(prefix(a, k + 1) == 256 * prefix(a, k) + ka[k]);
        assert(prefix(b, k + 1) == 256 * prefix(b, k) + kb[k]);
        lemma_prefix_order_stays(a, b, k + 1, 8);
    }
    if a < b {
        lemma_first_difference(a, b, 0);
    }
}

/// Two keys whose first `from` bytes agree, of identifiers `a < b`, differ
/// first at a byte where the key of `a` has the smaller one.
proof fn lemma_first_difference(a: u64, b: u64, from: int)
    requires
        a < b,
        0 <= from <= 8,
        forall|j: int| 0 <= j < from ==> key_bytes(a)[j] == key_bytes(b)[j],
    ensures
        sorts_before(key_bytes(a), key_bytes(b)),
    decreases 8 - from,
{
    lemma_prefixes(a);
    lemma_prefixes(b);
    let ka = key_bytes(a);
    let kb = key_bytes(b);
    lemma_equal_prefixes(a, b, from);
    if from == 8 {
        assert(false);
    } else if ka[from] == kb[from] {
        lemma_first_difference(a, b, from + 1);
    } else if ka[from] < kb[from] {
        assert(0 <= from < ka.len() && from < kb.len() && ka[from] < kb[from]);
    } else {
        assert(prefix(a, from + 1) == 256 * prefix(a, from) + ka[from]);
        assert(prefix(b, from + 1) == 256 * prefix(b, from) + kb[from]);
        lemma_prefix_order_stays(b, a, from + 1, 8);
        assert(false);
    }
}

} // verus!
