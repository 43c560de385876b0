//! Byte-string keys for the address-keyed index, with their lexicographic
//! order. An address is keyed by its UTF-8 bytes, so the order below is the
//! natural order of the persisted keys.

use vstd::prelude::*;

verus! {

/// The key an address string is indexed under: its UTF-8 bytes.
pub open spec fn addr_bytes(s: Seq<char>) -> Seq<u8> {
    vstd::utf8::encode_utf8(s)
}

/// Strict lexicographic order on byte strings: `a` sorts before `b`.
pub open spec fn key_lt(a: Seq<u8>, b: Seq<u8>) -> bool
    decreases a.len(),
{
    if b.len() == 0 {
        false
    } else if a.len() == 0 {
        true
    } else if a[0] < b[0] {
        true
    } else if a[0] > b[0] {
        false
    } else {
        key_lt(a.drop_first(), b.drop_first())
    }
}

/// Nothing sorts strictly before itself.
pub proof fn lemma_key_lt_irreflexive(a: Seq<u8>)
    ensures
        !key_lt(a, a),
    decreases a.len(),
{
    if a.len() > 0 {
        lemma_key_lt_irreflexive(a.drop_first());
    }
}

/// Distinct keys are ordered one way or the other.
pub proof fn lemma_key_lt_connected(a: Seq<u8>, b: Seq<u8>)
    requires
        a != b,
    ensures
        key_lt(a, b) || key_lt(b, a),
    decreases a.len(),
{
    if a.len() == 0 {
        if b.len() == 0 {
            assert(a =~= b);
        }
    } else if b.len() == 0 {
    } else if a[0] == b[0] {
        if a.drop_first() == b.drop_first() {
            assert(a.drop_first().len() == a.len() - 1);
            assert(b.drop_first().len() == b.len() - 1);
            assert forall|i: int| 0 <= i < a.len() implies a[i] == b[i] by {
                if i > 0 {
                    assert(a.drop_first()[i - 1] == a[i]);
                    assert(b.drop_first()[i - 1] == b[i]);
                }
            }
            assert(a =~= b);
        } else {
            lemma_key_lt_connected(a.drop_first(), b.drop_first());
        }
    }
}

/// At most one of `a < b` and `b < a` holds.
pub proof fn lemma_key_lt_asymmetric(a: Seq<u8>, b: Seq<u8>)
    requires
        key_lt(a, b),
    ensures
        !key_lt(b, a),
    decreases a.len(),
{
    if a.len() > 0 && b.len() > 0 && a[0] == b[0] {
        lemma_key_lt_asymmetric(a.drop_first(), b.drop_first());
    }
}

/// The order is transitive.
pub proof fn lemma_key_lt_transitive(a: Seq<u8>, b: Seq<u8>, c: Seq<u8>)
    requires
        key_lt(a, b),
        key_lt(b, c),
    ensures
        key_lt(a, c),
    decreases a.len(),
{
    if a.len() > 0 && b.len() > 0 && c.len() > 0 && a[0] == c[0] {
        if a[0] == b[0] && b[0] == c[0] {
            lemma_key_lt_transitive(a.drop_first(), b.drop_first(), c.drop_first());
        }
    }
}

/// How two keys compare.
#[derive(Clone, Copy, Debug, PartialEq, Eq, Structural)]
pub enum KeyOrder {
    Less,
    Equal,
    Greater,
}

/// Compares two byte keys in lexicographic order.
pub fn compare_keys(a: &Vec<u8>, b: &Vec<u8>) -> (o: KeyOrder)
    ensures
        o == KeyOrder::Less <==> key_lt(a@, b@),
        o == KeyOrder::Equal <==> a@ == b@,
        o == KeyOrder::Greater <==> key_lt(b@, a@),
{
    proof {
        lemma_key_lt_irreflexive(a@);
        lemma_key_lt_irreflexive(b@);
        assert(a@.skip(0) =~= a@);
        assert(b@.skip(0) =~= b@);
    }
    let shorter: usize = if a.len() < b.len() {
        a.len()
    } else {
        b.len()
    };
    let mut i: usize = 0;
    while i < shorter
        invariant
            i <= shorter,
            shorter <= a@.len(),
            shorter <= b@.len(),
            shorter == if a@.len() < b@.len() {
                a@.len() as int
            } else {
                b@.len() as int
            },
            a@.take(i as int) == b@.take(i as int),
            key_lt(a@, b@) == key_lt(a@.skip(i as int), b@.skip(i as int)),
            key_lt(b@, a@) == key_lt(b@.skip(i as int), a@.skip(i as int)),
        decreases shorter - i,
    {
        let x = a[i];
        let y = b[i];
        if x < y {
            proof {
                assert(a@.skip(i as int)[0] == x);
                assert(b@.skip(i as int)[0] == y);
                assert(key_lt(a@.skip(i as int), b@.skip(i as int)));
                assert(!key_lt(b@.skip(i as int), a@.skip(i as int)));
                assert(a@ != b@) by {
                    assert(a@[i as int] != b@[i as int]);
                }
            }
            return KeyOrder::Less;
        } else if y < x {
            proof {
                assert(key_lt(b@.skip(i as int), a@.skip(i as int)));
                assert(!key_lt(a@.skip(i as int), b@.skip(i as int)));
                assert(a@ != b@) by {
                    assert(a@[i as int] != b@[i as int]);
                }
            }
            return KeyOrder::Greater;
        }
        proof {
            assert(a@.skip(i as int).drop_first() =~= a@.skip(i + 1));
            assert(b@.skip(i as int).drop_first() =~= b@.skip(i + 1));
            assert(a@.take(i + 1) =~= b@.take(i + 1)) by {
                assert(a@[i as int] == b@[i as int]);
            }
        }
        i += 1;
    }
    proof {
        assert(a@.skip(i as int).len() == 0 || b@.skip(i as int).len() == 0);
    }
    if a.len() == b.len() {
        proof {
            assert(a@ =~= b@);
        }
        KeyOrder::Equal
    } else if a.len() < b.len() {
        proof {
            assert(key_lt(a@.skip(i as int), b@.skip(i as int)));
            assert(a@ != b@) by {
                assert(a@.len() != b@.len());
            }
        }
        KeyOrder::Less
    } else {
        proof {
            assert(key_lt(b@.skip(i as int), a@.skip(i as int)));
            assert(a@ != b@) by {
                assert(a@.len() != b@.len());
            }
        }
        KeyOrder::Greater
    }
}

/// The index key of an address string: its UTF-8 bytes, owned.
pub fn addr_key(s: &str) -> (k: Vec<u8>)
    ensures
        k@ == addr_bytes(s@),
{
    let bytes = s.as_bytes();
    let mut out: Vec<u8> = Vec::new();
    let mut i: usize = 0;
    while i < bytes.len()
        invariant
            i <= bytes@.len(),
            bytes@ == addr_bytes(s@),
            out@ == bytes@.take(i as int),
        decreases bytes@.len() - i,
    {
        out.push(bytes[i]);
        i += 1;
        proof {
            assert(out@ =~= bytes@.take(i as int));
        }
    }
    proof {
        assert(out@ =~= bytes@);
    }
    out
}

} // verus!
