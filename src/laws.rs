//! What holds of the adapter across several calls, over the store model.
use vstd::prelude::*;

use crate::codec::{decode, encode, lemma_decode_encode, sized};
use crate::node::NodeView;
use crate::persist::{default_key, pair_of, pairs_of, DefaultDerivation, Derivation};
use crate::store::set_all;

verus! {

/// A node stored with the default derivation, read back by its key, decodes
/// to the node itself.
pub proof fn lemma_store_then_read(m: Map<Seq<char>, Seq<char>>, n: NodeView)
    requires
        sized(n),
    ensures
        pair_of(DefaultDerivation, n) == Ok::<(Seq<char>, Seq<char>), Seq<char>>(
            (default_key(n), encode(n)),
        ),
        m.insert(default_key(n), encode(n)).contains_key(default_key(n)),
        decode(m.insert(default_key(n), encode(n))[default_key(n)]) == Some(n),
{
    lemma_decode_encode(n);
}

pub open spec fn default_pairs(ns: Seq<NodeView>) -> Seq<(Seq<char>, Seq<char>)> {
    ns.map_values(|n: NodeView| (default_key(n), encode(n)))
}

proof fn lemma_default_pairs(ns: Seq<NodeView>)
    ensures
        pairs_of(DefaultDerivation, ns) == Ok::<Seq<(Seq<char>, Seq<char>)>, Seq<char>>(
            default_pairs(ns),
        ),
    decreases ns.len(),
{
    if ns.len() > 0 {
        lemma_default_pairs(ns.drop_last());
        assert(default_pairs(ns.drop_last()).push((default_key(ns.last()), encode(ns.last())))
            =~= default_pairs(ns));
    } else {
        assert(default_pairs(ns) =~= Seq::<(Seq<char>, Seq<char>)>::empty());
    }
}

proof fn lemma_set_all_distinct(m: Map<Seq<char>, Seq<char>>, p: Seq<(Seq<char>, Seq<char>)>, i: int)
    requires
        0 <= i < p.len(),
        forall|a: int, b: int| 0 <= a < b < p.len() ==> (#[trigger] p[a]).0 != (#[trigger] p[b]).0,
    ensures
        set_all(m, p).contains_key(p[i].0),
        set_all(m, p)[p[i].0] == p[i].1,
    decreases p.len(),
{
    if i < p.len() - 1 {
        let q = p.drop_last();
        assert(q[i] == p[i]);
        assert(p[i].0 != p[p.len() - 1].0);
        lemma_set_all_distinct(m, q, i);
    }
}

/// A batch of nodes with distinct default keys, all written, can each be read
/// back by its key and decodes to that node.
pub proof fn lemma_batch_then_read(m: Map<Seq<char>, Seq<char>>, ns: Seq<NodeView>)
    requires
        forall|i: int| 0 <= i < ns.len() ==> sized(#[trigger] ns[i]),
        forall|a: int, b: int|
            0 <= a < b < ns.len() ==> default_key(#[trigger] ns[a]) != default_key(#[trigger] ns[b]),
    ensures
        pairs_of(DefaultDerivation, ns) is Ok,
        pairs_of(DefaultDerivation, ns)->Ok_0.len() == ns.len(),
        forall|i: int|
            0 <= i < ns.len() ==> {
                let after = set_all(m, pairs_of(DefaultDerivation, ns)->Ok_0);
                after.contains_key(default_key(#[trigger] ns[i])) && decode(
                    after[default_key(ns[i])],
                ) == Some(ns[i])
            },
{
    lemma_default_pairs(ns);
    let p = default_pairs(ns);
    assert forall|a: int, b: int| 0 <= a < b < p.len() implies (#[trigger] p[a]).0 != (
    #[trigger] p[b]).0 by {
        assert(default_key(ns[a]) != default_key(ns[b]));
    }
    assert forall|i: int| 0 <= i < ns.len() implies {
        let after = set_all(m, p);
        after.contains_key(default_key(#[trigger] ns[i])) && decode(after[default_key(ns[i])])
            == Some(ns[i])
    } by {
        lemma_set_all_distinct(m, p, i);
        lemma_decode_encode(ns[i]);
    }
}

/// Two nodes that derive the same key, stored one after the other: the key
/// holds the second node's value, unmixed with the first.
pub proof fn lemma_last_write_wins<D: Derivation>(
    d: D,
    m: Map<Seq<char>, Seq<char>>,
    a: NodeView,
    b: NodeView,
)
    requires
        pair_of(d, a) is Ok,
        pair_of(d, b) is Ok,
        d.key_of(a) == d.key_of(b),
    ensures
        ({
            let (k, va) = pair_of(d, a)->Ok_0;
            let (_, vb) = pair_of(d, b)->Ok_0;
            m.insert(k, va).insert(k, vb) == m.insert(k, vb) && m.insert(k, va).insert(k, vb)[k]
                == vb
        }),
{
    let (k, va) = pair_of(d, a)->Ok_0;
    let (_, vb) = pair_of(d, b)->Ok_0;
    assert(m.insert(k, va).insert(k, vb) =~= m.insert(k, vb));
}

} // verus!
