use vstd::prelude::*;
use vstd::utf8::{encode_utf8, encode_utf8_decode_utf8};

verus! {

/// How one identifier stands to another in the order of the store.
#[derive(Clone, Copy, Debug, PartialEq, Eq)]
pub enum Place {
    Before,
    Same,
    After,
}

/// `a` and `b` agree on their first `k` bytes, and there `a` ends or holds
/// the smaller byte.
pub open spec fn parts_at(a: Seq<u8>, b: Seq<u8>, k: int) -> bool {
    &&& 0 <= k <= a.len()
    &&& k <= b.len()
    &&& forall|i: int| 0 <= i < k ==> a[i] == b[i]
    &&& if k == a.len() {
        k < b.len()
    } else {
        k < b.len() && a[k] < b[k]
    }
}

/// Byte sequences in dictionary order.
pub open spec fn bytes_before(a: Seq<u8>, b: Seq<u8>) -> bool {
    exists|k: int| parts_at(a, b, k)
}

/// Identifiers in the order of their UTF-8 bytes, the order in which the
/// store lists its keys.
pub open spec fn id_before(a: Seq<char>, b: Seq<char>) -> bool {
    bytes_before(encode_utf8(a), encode_utf8(b))
}

/// No identifier comes before itself.
pub proof fn lemma_id_before_irreflexive(a: Seq<char>)
    ensures
        !id_before(a, a),
{
}

/// The order of identifiers is transitive.
pub proof fn lemma_id_before_transitive(a: Seq<char>, b: Seq<char>, c: Seq<char>)
    requires
        id_before(a, b),
        id_before(b, c),
    ensures
        id_before(a, c),
{
    let (x, y, z) = (encode_utf8(a), encode_utf8(b), encode_utf8(c));
    let k1 = choose|k: int| parts_at(x, y, k);
    let k2 = choose|k: int| parts_at(y, z, k);
    let k = if k1 <= k2 {
        k1
    } else {
        k2
    };
    assert(parts_at(x, z, k));
}

/// Two identifiers with the same bytes are the same identifier.
pub proof fn lemma_same_bytes_same_id(a: Seq<char>, b: Seq<char>)
    requires
        encode_utf8(a) == encode_utf8(b),
    ensures
        a == b,
{
    encode_utf8_decode_utf8(a);
    encode_utf8_decode_utf8(b);
}

/// Compares two identifiers byte by byte.
pub fn compare_ids(a: &str, b: &str) -> (place: Place)
    ensures
        place == Place::Before <==> id_before(a@, b@),
        place == Place::Same <==> a@ == b@,
        place == Place::After <==> id_before(b@, a@),
{
    let x = a.as_bytes();
    let y = b.as_bytes();
    proof {
        lemma_id_before_irreflexive(a@);
        if id_before(a@, b@) && id_before(b@, a@) {
            lemma_id_before_transitive(a@, b@, a@);
        }
    }
    let mut i: usize = 0;
    while i < x.len() && i < y.len()
        invariant
            i <= x@.len(),
            i <= y@.len(),
            x@ == encode_utf8(a@),
            y@ == encode_utf8(b@),
            forall|j: int| 0 <= j < i ==> x@[j] == y@[j],
        decreases x@.len() - i,
    {
        if x[i] < y[i] {
            assert(parts_at(x@, y@, i as int));
            return Place::Before;
        }
        if x[i] > y[i] {
            assert(parts_at(y@, x@, i as int));
            return Place::After;
        }
        i += 1;
    }
    if i < y.len() {
        assert(parts_at(x@, y@, i as int));
        Place::Before
    } else if i < x.len() {
        assert(parts_at(y@, x@, i as int));
        Place::After
    } else {
        proof {
            assert(x@ =~= y@);
            lemma_same_bytes_same_id(a@, b@);
        }
        Place::Same
    }
}

/// Whether two identifiers are the same.
pub fn same_id(a: &str, b: &str) -> (same: bool)
    ensures
        same == (a@ == b@),
{
    match compare_ids(a, b) {
        Place::Same => true,
        _ => false,
    }
}

} // verus!
