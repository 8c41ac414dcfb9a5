//! What holds of lookups and changes for every store.

use vstd::prelude::*;

use crate::projector::{
    Bindings, bucket_or_empty, local_value, merged, resolve, with_binding, without_binding,
};

verus! {

/// A key that no directory of the chain binds resolves to nothing.
pub proof fn lemma_unbound_key_not_found(b: Bindings, chain: Seq<Seq<char>>, k: Seq<char>)
    requires
        forall|i: int| 0 <= i < chain.len() ==> local_value(b, #[trigger] chain[i], k) is None,
    ensures
        resolve(b, chain, k) is None,
    decreases chain.len(),
{
    if chain.len() > 0 {
        assert(local_value(b, chain[0], k) is None);
        assert forall|i: int| 0 <= i < chain.drop_first().len() implies local_value(
            b,
            #[trigger] chain.drop_first()[i],
            k,
        ) is None by {
            assert(chain.drop_first()[i] == chain[i + 1]);
        }
        lemma_unbound_key_not_found(b, chain.drop_first(), k);
    }
}

/// The merged view binds exactly the keys that resolve along the chain, each
/// to the value it resolves to: merging agrees with nearest-wins lookup.
pub proof fn lemma_merged_agrees_with_resolve(b: Bindings, chain: Seq<Seq<char>>, k: Seq<char>)
    ensures
        merged(b, chain).contains_key(k) <==> resolve(b, chain, k) is Some,
        merged(b, chain).contains_key(k) ==> resolve(b, chain, k) == Some(merged(b, chain)[k]),
    decreases chain.len(),
{
    if chain.len() > 0 {
        lemma_merged_agrees_with_resolve(b, chain.drop_first(), k);
    }
}

/// A binding made at `d` is not seen along a chain that does not pass
/// through `d`: neither by lookup nor in the merged view.
pub proof fn lemma_set_is_local(
    b: Bindings,
    d: Seq<char>,
    k: Seq<char>,
    v: Seq<char>,
    chain: Seq<Seq<char>>,
    q: Seq<char>,
)
    requires
        !chain.contains(d),
    ensures
        resolve(with_binding(b, d, k, v), chain, q) == resolve(b, chain, q),
        merged(with_binding(b, d, k, v), chain) == merged(b, chain),
    decreases chain.len(),
{
    if chain.len() > 0 {
        let b2 = with_binding(b, d, k, v);
        assert(chain[0] != d);
        assert(local_value(b2, chain[0], q) == local_value(b, chain[0], q));
        assert(bucket_or_empty(b2, chain[0]) == bucket_or_empty(b, chain[0]));
        assert(!chain.drop_first().contains(d)) by {
            if chain.drop_first().contains(d) {
                let i = choose|i: int| 0 <= i < chain.drop_first().len() && chain.drop_first()[i] == d;
                assert(chain[i + 1] == d);
            }
        }
        lemma_set_is_local(b, d, k, v, chain.drop_first(), q);
    }
}

/// From a directory that has just bound `k`, `k` resolves to the new value.
pub proof fn lemma_set_seen_at_anchor(
    b: Bindings,
    d: Seq<char>,
    k: Seq<char>,
    v: Seq<char>,
    chain: Seq<Seq<char>>,
)
    requires
        chain.len() > 0,
        chain[0] == d,
    ensures
        resolve(with_binding(b, d, k, v), chain, k) == Some(v),
        merged(with_binding(b, d, k, v), chain)[k] == v,
{
    let b2 = with_binding(b, d, k, v);
    assert(local_value(b2, d, k) == Some(v));
    assert(bucket_or_empty(b2, d)[k] == v);
}

/// Unbinding at `d` is not seen along a chain that does not pass through `d`.
pub proof fn lemma_remove_is_local(
    b: Bindings,
    d: Seq<char>,
    k: Seq<char>,
    chain: Seq<Seq<char>>,
    q: Seq<char>,
)
    requires
        !chain.contains(d),
    ensures
        resolve(without_binding(b, d, k), chain, q) == resolve(b, chain, q),
        merged(without_binding(b, d, k), chain) == merged(b, chain),
    decreases chain.len(),
{
    if chain.len() > 0 {
        let b2 = without_binding(b, d, k);
        assert(chain[0] != d);
        assert(local_value(b2, chain[0], q) == local_value(b, chain[0], q));
        assert(bucket_or_empty(b2, chain[0]) == bucket_or_empty(b, chain[0]));
        assert(!chain.drop_first().contains(d)) by {
            if chain.drop_first().contains(d) {
                let i = choose|i: int| 0 <= i < chain.drop_first().len() && chain.drop_first()[i] == d;
                assert(chain[i + 1] == d);
            }
        }
        lemma_remove_is_local(b, d, k, chain.drop_first(), q);
    }
}

/// Unbinding a key that `d` does not bind, or at a directory with no bucket,
/// changes nothing.
pub proof fn lemma_remove_absent_is_noop(b: Bindings, d: Seq<char>, k: Seq<char>)
    requires
        local_value(b, d, k) is None,
    ensures
        without_binding(b, d, k) == b,
{
    if b.contains_key(d) {
        assert(b[d].remove(k) =~= b[d]);
        assert(b.insert(d, b[d].remove(k)) =~= b);
    }
}

/// Unbinding twice does what unbinding once does.
pub proof fn lemma_remove_idempotent(b: Bindings, d: Seq<char>, k: Seq<char>)
    ensures
        without_binding(without_binding(b, d, k), d, k) == without_binding(b, d, k),
{
    let once = without_binding(b, d, k);
    if b.contains_key(d) {
        assert(once[d].remove(k) =~= once[d]);
        assert(once.insert(d, once[d].remove(k)) =~= once);
    }
}

} // verus!
