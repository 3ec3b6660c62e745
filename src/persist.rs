//! Writing nodes into a key-value store: how keys and values are derived,
//! and the single and batch store operations with their failure reports.
use vstd::prelude::*;

use crate::codec::{decimal, encode, encode_node, push_decimal, push_mark};
use crate::node::{Node, NodeView};
use crate::store::{pairs_view, set_all, KeyValueStore};

verus! {

/// Why a node was not persisted.
#[derive(Debug, Clone, PartialEq, Eq)]
pub enum PersistError {
    /// The store could not be reached; nothing was written.
    Connection,
    /// A key or value could not be derived; nothing was written.
    Derivation(String),
    /// The store reported a failure for the write command.
    Store(String),
}

pub open spec fn text_result(r: Result<String, String>) -> Result<Seq<char>, Seq<char>> {
    match r {
        Ok(s) => Ok(s@),
        Err(e) => Err(e@),
    }
}

/// How a node is turned into the key it is stored under and the value
/// stored there. Both depend on the node alone.
pub trait Derivation {
    spec fn key_of(&self, n: NodeView) -> Result<Seq<char>, Seq<char>>;

    spec fn value_of(&self, n: NodeView) -> Result<Seq<char>, Seq<char>>;

    fn derive_key(&self, node: &Node) -> (r: Result<String, String>)
        ensures
            text_result(r) == self.key_of(node@),
    ;

    fn derive_value(&self, node: &Node) -> (r: Result<String, String>)
        ensures
            text_result(r) == self.value_of(node@),
    ;
}

/// The hash of a node's path and chunk.
pub uninterp spec fn content_hash(path: Seq<char>, chunk: Seq<char>) -> u64;

/// Relies on std's `BuildHasher::hash_one` over `DefaultHasher` built by
/// `Default` (fixed keys, no per-process seed): the hash depends on the path
/// and the chunk alone.
#[verifier::external_body]
fn hash_content(path: &str, chunk: &str) -> (r: u64)
    ensures
        r == content_hash(path@, chunk@),
{
    std::hash::BuildHasher::hash_one(
        &std::hash::BuildHasherDefault::<std::collections::hash_map::DefaultHasher>::default(),
        (path, chunk),
    )
}

/// A path, a colon and a hash in decimal.
pub open spec fn hashed_key(path: Seq<char>, hash: u64) -> Seq<char> {
    path + seq![':'] + decimal(hash as nat)
}

/// The default key: the path and the hash of path and chunk.
pub open spec fn default_key(n: NodeView) -> Seq<char> {
    hashed_key(n.path, content_hash(n.path, n.chunk))
}

/// Builds a key from a path and the hash of its content.
pub fn key_from_hash(path: &str, hash: u64) -> (r: String)
    ensures
        r@ == hashed_key(path@, hash),
{
    let mut key = String::from_str(path);
    proof { reveal_strlit(":"); }
    push_mark(&mut key, ":");
    push_decimal(&mut key, hash);
    assert(key@ =~= hashed_key(path@, hash));
    key
}

/// Keys are path and content hash; values are the node's encoding.
pub struct DefaultDerivation;

impl Derivation for DefaultDerivation {
    open spec fn key_of(&self, n: NodeView) -> Result<Seq<char>, Seq<char>> {
        Ok(default_key(n))
    }

    open spec fn value_of(&self, n: NodeView) -> Result<Seq<char>, Seq<char>> {
        Ok(encode(n))
    }

    fn derive_key(&self, node: &Node) -> (r: Result<String, String>) {
        let h = hash_content(node.path.as_str(), node.chunk.as_str());
        Ok(key_from_hash(node.path.as_str(), h))
    }

    fn derive_value(&self, node: &Node) -> (r: Result<String, String>) {
        Ok(encode_node(node))
    }
}

/// Every node gets one fixed key and one fixed value, or one fixed failure
/// for either.
pub struct FixedDerivation {
    pub key: Result<String, String>,
    pub value: Result<String, String>,
}

fn copy_text(r: &Result<String, String>) -> (c: Result<String, String>)
    ensures
        text_result(c) == text_result(*r),
{
    match r {
        Ok(s) => Ok(s.clone()),
        Err(e) => Err(e.clone()),
    }
}

impl Derivation for FixedDerivation {
    open spec fn key_of(&self, n: NodeView) -> Result<Seq<char>, Seq<char>> {
        text_result(self.key)
    }

    open spec fn value_of(&self, n: NodeView) -> Result<Seq<char>, Seq<char>> {
        text_result(self.value)
    }

    fn derive_key(&self, node: &Node) -> (r: Result<String, String>) {
        copy_text(&self.key)
    }

    fn derive_value(&self, node: &Node) -> (r: Result<String, String>) {
        copy_text(&self.value)
    }
}

/// The key and value of one node, or the first derivation failure (the key
/// is derived first).
pub open spec fn pair_of<D: Derivation>(d: D, n: NodeView) -> Result<
    (Seq<char>, Seq<char>),
    Seq<char>,
> {
    match d.key_of(n) {
        Err(e) => Err(e),
        Ok(k) => match d.value_of(n) {
            Err(e) => Err(e),
            Ok(v) => Ok((k, v)),
        },
    }
}

/// The pairs of all nodes in order, or the failure of the first node whose
/// derivation fails.
pub open spec fn pairs_of<D: Derivation>(d: D, ns: Seq<NodeView>) -> Result<
    Seq<(Seq<char>, Seq<char>)>,
    Seq<char>,
>
    decreases ns.len(),
{
    if ns.len() == 0 {
        Ok(Seq::empty())
    } else {
        match pairs_of(d, ns.drop_last()) {
            Err(e) => Err(e),
            Ok(p) => match pair_of(d, ns.last()) {
                Err(e) => Err(e),
                Ok(kv) => Ok(p.push(kv)),
            },
        }
    }
}

proof fn lemma_pairs_of_err<D: Derivation>(d: D, ns: Seq<NodeView>, k: int)
    requires
        0 <= k <= ns.len(),
        pairs_of(d, ns.take(k)) is Err,
    ensures
        pairs_of(d, ns) == pairs_of(d, ns.take(k)),
    decreases ns.len(),
{
    if k == ns.len() {
        assert(ns.take(k) =~= ns);
    } else {
        assert(ns.drop_last().take(k) =~= ns.take(k));
        lemma_pairs_of_err(d, ns.drop_last(), k);
    }
}

pub open spec fn node_views(ns: Seq<Node>) -> Seq<NodeView> {
    ns.map_values(|n: Node| n@)
}

/// What a preparation step returned, in terms of derivation: `None` for an
/// error that is not a derivation failure.
pub open spec fn prepared_pair(r: Result<(String, String), PersistError>) -> Option<
    Result<(Seq<char>, Seq<char>), Seq<char>>,
> {
    match r {
        Ok((k, v)) => Some(Ok((k@, v@))),
        Err(PersistError::Derivation(m)) => Some(Err(m@)),
        Err(_) => None,
    }
}

pub open spec fn prepared_pairs(r: Result<Vec<(String, String)>, PersistError>) -> Option<
    Result<Seq<(Seq<char>, Seq<char>)>, Seq<char>>,
> {
    match r {
        Ok(p) => Some(Ok(pairs_view(p@))),
        Err(PersistError::Derivation(m)) => Some(Err(m@)),
        Err(_) => None,
    }
}

/// Every outcome is the success of the node at the same place.
pub open spec fn all_stored(r: Seq<Result<Node, PersistError>>, nodes: Seq<Node>) -> bool {
    &&& r.len() == nodes.len()
    &&& forall|i: int| 0 <= i < r.len() ==> #[trigger] r[i] == Ok::<Node, PersistError>(nodes[i])
}

/// One outcome per node, each the connection failure.
pub open spec fn all_unreachable(r: Seq<Result<Node, PersistError>>, n: nat) -> bool {
    &&& r.len() == n
    &&& forall|i: int| 0 <= i < r.len() ==> #[trigger] r[i] == Err::<Node, PersistError>(PersistError::Connection)
}

/// A single outcome: the store's failure.
pub open spec fn batch_failed(r: Seq<Result<Node, PersistError>>) -> bool {
    r.len() == 1 && r[0] matches Err(PersistError::Store(_))
}

/// The persistence adapter: a derivation strategy and the batch size that it
/// advertises to the pipeline.
pub struct Redis<D> {
    pub derivation: D,
    pub batch_size: usize,
}

impl<D: Derivation> Redis<D> {
    pub fn new(derivation: D, batch_size: usize) -> (r: Redis<D>)
        ensures
            r.derivation == derivation,
            r.batch_size == batch_size,
    {
        Redis { derivation, batch_size }
    }

    /// Nothing to provision before the first write.
    pub fn setup(&self) -> (r: Result<(), PersistError>)
        ensures
            r is Ok,
    {
        Ok(())
    }

    /// The preferred number of nodes per batch.
    pub fn batch_size(&self) -> (r: Option<usize>)
        ensures
            r == Some(self.batch_size),
    {
        Some(self.batch_size)
    }

    pub fn persist_key_for_node(&self, node: &Node) -> (r: Result<String, PersistError>)
        ensures
            match self.derivation.key_of(node@) {
                Ok(k) => r matches Ok(s) && s@ == k,
                Err(e) => r matches Err(PersistError::Derivation(m)) && m@ == e,
            },
    {
        match self.derivation.derive_key(node) {
            Ok(k) => Ok(k),
            Err(e) => Err(PersistError::Derivation(e)),
        }
    }

    pub fn persist_value_for_node(&self, node: &Node) -> (r: Result<String, PersistError>)
        ensures
            match self.derivation.value_of(node@) {
                Ok(v) => r matches Ok(s) && s@ == v,
                Err(e) => r matches Err(PersistError::Derivation(m)) && m@ == e,
            },
    {
        match self.derivation.derive_value(node) {
            Ok(v) => Ok(v),
            Err(e) => Err(PersistError::Derivation(e)),
        }
    }

    /// The first half of a store: without a connection, the connection
    /// failure; else the key and value to set, or the derivation failure.
    pub fn prepare_store(&self, connected: bool, node: &Node) -> (r: Result<
        (String, String),
        PersistError,
    >)
        ensures
            !connected ==> r == Err::<(String, String), PersistError>(PersistError::Connection),
            connected ==> prepared_pair(r) == Some(pair_of(self.derivation, node@)),
    {
        if !connected {
            return Err(PersistError::Connection);
        }
        let key = match self.persist_key_for_node(node) {
            Ok(k) => k,
            Err(e) => return Err(e),
        };
        let value = match self.persist_value_for_node(node) {
            Ok(v) => v,
            Err(e) => return Err(e),
        };
        Ok((key, value))
    }

    /// The second half of a store: the node back when the set command
    /// succeeded, else the store's failure.
    pub fn complete_store(node: Node, written: Result<(), String>) -> (r: Result<Node, PersistError>)
        ensures
            written is Ok ==> r == Ok::<Node, PersistError>(node),
            written matches Err(e) ==> r matches Err(PersistError::Store(m)) && m@ == e@,
    {
        match written {
            Ok(()) => Ok(node),
            Err(e) => Err(PersistError::Store(e)),
        }
    }

    /// Stores one node with a single set command and hands it back.
    pub fn store<S: KeyValueStore>(&self, kv: &mut S, node: Node) -> (r: Result<Node, PersistError>)
        ensures
            !old(kv).reachable() ==> r == Err::<Node, PersistError>(PersistError::Connection)
                && final(kv).contents() == old(kv).contents(),
            old(kv).reachable() ==> match pair_of(self.derivation, node@) {
                Err(e) => r matches Err(PersistError::Derivation(m)) && m@ == e
                    && final(kv).contents() == old(kv).contents(),
                Ok((k, v)) => ((r == Ok::<Node, PersistError>(node)
                    && final(kv).contents() == old(kv).contents().insert(k, v))
                    || r matches Err(PersistError::Store(_)))
                    && (old(kv).accepts_writes() ==> r is Ok),
            },
    {
        let connected = kv.acquire();
        match self.prepare_store(connected, &node) {
            Err(e) => Err(e),
            Ok((key, value)) => {
                let written = kv.set(key, value);
                Self::complete_store(node, written)
            },
        }
    }

    /// The key and value of every node in order, or the connection failure,
    /// or the first derivation failure.
    pub fn prepare_batch(&self, connected: bool, nodes: &Vec<Node>) -> (r: Result<
        Vec<(String, String)>,
        PersistError,
    >)
        ensures
            !connected ==> r == Err::<Vec<(String, String)>, PersistError>(PersistError::Connection),
            connected ==> prepared_pairs(r) == Some(pairs_of(self.derivation, node_views(nodes@))),
    {
        if !connected {
            return Err(PersistError::Connection);
        }
        let ghost views = node_views(nodes@);
        let mut pairs: Vec<(String, String)> = Vec::new();
        let mut i: usize = 0;
        assert(views.take(0) =~= Seq::<NodeView>::empty());
        assert(pairs_view(pairs@) =~= Seq::<(Seq<char>, Seq<char>)>::empty());
        while i < nodes.len()
            invariant
                connected,
                i <= nodes@.len(),
                views == node_views(nodes@),
                pairs_of(self.derivation, views.take(i as int)) == Ok::<
                    Seq<(Seq<char>, Seq<char>)>,
                    Seq<char>,
                >(pairs_view(pairs@)),
            decreases nodes@.len() - i,
        {
            let ghost before = pairs@;
            assert(views.take(i + 1).drop_last() =~= views.take(i as int));
            assert(views.take(i + 1).last() == nodes@[i as int]@);
            match self.prepare_store(true, &nodes[i]) {
                Err(e) => {
                    proof { lemma_pairs_of_err(self.derivation, views, i + 1); }
                    return Err(e);
                },
                Ok(kv) => {
                    pairs.push(kv);
                    assert(pairs_view(pairs@) =~= pairs_view(before).push((kv.0@, kv.1@)));
                },
            }
            i = i + 1;
        }
        assert(views.take(i as int) =~= views);
        Ok(pairs)
    }

    /// One outcome per node, each the connection failure.
    pub fn unreachable_outcomes(count: usize) -> (r: Vec<Result<Node, PersistError>>)
        ensures
            all_unreachable(r@, count as nat),
    {
        let mut out: Vec<Result<Node, PersistError>> = Vec::new();
        let mut i: usize = 0;
        while i < count
            invariant
                i <= count,
                all_unreachable(out@, i as nat),
            decreases count - i,
        {
            out.push(Err(PersistError::Connection));
            i = i + 1;
        }
        out
    }

    /// The outcomes of a batch whose multi-set command returned `written`:
    /// every node in order, or the store's failure alone.
    pub fn complete_batch(nodes: Vec<Node>, written: Result<(), String>) -> (r: Vec<
        Result<Node, PersistError>,
    >)
        ensures
            written is Ok ==> all_stored(r@, nodes@),
            written matches Err(e) ==> r@.len() == 1 && (r@[0] matches Err(PersistError::Store(m))
                && m@ == e@),
    {
        match written {
            Err(e) => {
                let mut out: Vec<Result<Node, PersistError>> = Vec::new();
                out.push(Err(PersistError::Store(e)));
                out
            },
            Ok(()) => {
                let ghost all = nodes@;
                let mut rest = nodes;
                let mut out: Vec<Result<Node, PersistError>> = Vec::new();
                while rest.len() > 0
                    invariant
                        out@.len() + rest@.len() == all.len(),
                        rest@ == all.skip(out@.len() as int),
                        forall|i: int|
                            0 <= i < out@.len() ==> #[trigger] out@[i] == Ok::<Node, PersistError>(
                                all[i],
                            ),
                    decreases rest@.len(),
                {
                    let ghost k = out@.len();
                    let n = rest.remove(0);
                    assert(n == all[k as int]);
                    out.push(Ok(n));
                    assert(rest@ =~= all.skip(out@.len() as int));
                }
                out
            },
        }
    }

    /// Stores a batch with one multi-set command. Without a connection every
    /// node reports the connection failure; a derivation failure or a failed
    /// command is reported once, for the whole batch.
    pub fn batch_store<S: KeyValueStore>(&self, kv: &mut S, nodes: Vec<Node>) -> (r: Vec<
        Result<Node, PersistError>,
    >)
        ensures
            !old(kv).reachable() ==> all_unreachable(r@, nodes@.len())
                && final(kv).contents() == old(kv).contents(),
            old(kv).reachable() ==> match pairs_of(self.derivation, node_views(nodes@)) {
                Err(e) => r@.len() == 1 && final(kv).contents() == old(kv).contents() && (
                r@[0] matches Err(PersistError::Derivation(m)) && m@ == e),
                Ok(p) => ((all_stored(r@, nodes@) && final(kv).contents() == set_all(
                    old(kv).contents(),
                    p,
                )) || batch_failed(r@)) && (old(kv).accepts_writes() ==> all_stored(r@, nodes@)),
            },
    {
        let connected = kv.acquire();
        if !connected {
            return Self::unreachable_outcomes(nodes.len());
        }
        match self.prepare_batch(true, &nodes) {
            Err(e) => {
                let mut out: Vec<Result<Node, PersistError>> = Vec::new();
                out.push(Err(e));
                out
            },
            Ok(pairs) => {
                let written = kv.set_many(pairs);
                Self::complete_batch(nodes, written)
            },
        }
    }
}

} // verus!
