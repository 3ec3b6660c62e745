use vstd::prelude::*;

verus! {

/// What a node is, as plain mathematical values.
pub struct NodeView {
    pub id: Option<u64>,
    pub path: Seq<char>,
    pub chunk: Seq<char>,
    pub vector: Option<Seq<u32>>,
    pub metadata: Seq<(Seq<char>, Seq<char>)>,
}

/// A unit of ingested content. Embedding components are held as the
/// IEEE-754 bit patterns of their `f32` values.
#[derive(Debug, Clone, PartialEq)]
pub struct Node {
    pub id: Option<u64>,
    pub path: String,
    pub chunk: String,
    pub vector: Option<Vec<u32>>,
    pub metadata: Vec<(String, String)>,
}

pub open spec fn metadata_view(m: Seq<(String, String)>) -> Seq<(Seq<char>, Seq<char>)> {
    m.map_values(|e: (String, String)| (e.0@, e.1@))
}

impl View for Node {
    type V = NodeView;

    open spec fn view(&self) -> NodeView {
        NodeView {
            id: self.id,
            path: self.path@,
            chunk: self.chunk@,
            vector: match self.vector {
                Some(v) => Some(v@),
                None => None,
            },
            metadata: metadata_view(self.metadata@),
        }
    }
}

impl Default for Node {
    /// No id, empty path and chunk, no vector, no metadata.
    fn default() -> (r: Node)
        ensures
            r@ == (NodeView {
                id: None,
                path: Seq::empty(),
                chunk: Seq::empty(),
                vector: None,
                metadata: Seq::empty(),
            }),
    {
        let r = Node {
            id: None,
            path: String::new(),
            chunk: String::new(),
            vector: None,
            metadata: Vec::new(),
        };
        assert(metadata_view(r.metadata@) =~= Seq::<(Seq<char>, Seq<char>)>::empty());
        r
    }
}

} // verus!
