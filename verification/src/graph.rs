//! The related-documents graph: documents and entities as nodes, relations
//! and entity roles as links.

use vstd::prelude::*;
use vstd::string::StringSliceAdditionalSpecFns;
use vstd::utf8::{decode_utf8, encode_utf8, is_char_boundary};
use crate::text::views;
use crate::json::opt_chars;

verus! {

/// Query of the related-documents request.
#[derive(Debug)]
pub struct RelatedParams {
    pub depth: Option<u32>,
}

/// Query of the entity list.
#[derive(Debug)]
pub struct ListParams {
    pub limit: Option<i64>,
    pub offset: Option<i64>,
}

/// Traversal depth asked for: 2 unless given.
pub fn requested_depth(params: &RelatedParams) -> (r: u32)
    ensures
        r == match params.depth {
            Some(d) => d,
            None => 2,
        },
{
    match params.depth {
        Some(d) => d,
        None => 2,
    }
}

/// Traversal depth used: at most 3 hops, to keep the query cheap.
pub fn traversal_depth(max_depth: u32) -> (r: i32)
    ensures
        r == if max_depth < 3 { max_depth as i32 } else { 3 },
        0 <= r <= 3,
{
    if max_depth < 3 { max_depth as i32 } else { 3 }
}

/// Page of the entity list: at most 100 (50 unless given), from offset 0
/// unless given.
pub fn entity_page(params: &ListParams) -> (r: (i64, i64))
    ensures
        r.0 == {
            let l = match params.limit {
                Some(l) => l,
                None => 50,
            };
            if l < 100 { l } else { 100 }
        },
        r.1 == match params.offset {
            Some(o) => o,
            None => 0,
        },
{
    let l = match params.limit {
        Some(l) => l,
        None => 50,
    };
    let limit = if l < 100 { l } else { 100 };
    let offset = match params.offset {
        Some(o) => o,
        None => 0,
    };
    (limit, offset)
}

/// A document reached from the focus document, with the relation it was
/// reached by and its distance in hops; `D` is the stored document record.
#[derive(Debug)]
pub struct RelatedDocument<D> {
    pub document: D,
    pub relation_type: String,
    pub depth: i32,
}

/// A node of the graph: a document or an entity.
#[derive(Debug)]
pub struct GraphNode {
    pub id: String,
    pub label: String,
    pub node_type: String,
}

/// A link of the graph.
#[derive(Debug)]
pub struct GraphLink {
    pub source: String,
    pub target: String,
    pub relation_type: String,
}

/// The ids of nodes.
pub open spec fn node_ids(nodes: Seq<GraphNode>) -> Seq<Seq<char>> {
    nodes.map_values(|n: GraphNode| n.id@)
}

/// Node ids are unique and every link joins two nodes.
pub open spec fn graph_wf(nodes: Seq<GraphNode>, links: Seq<GraphLink>) -> bool {
    &&& forall|i: int, j: int| 0 <= i < j < nodes.len() ==> nodes[i].id@ != nodes[j].id@
    &&& forall|k: int|
        0 <= k < links.len() ==> node_ids(nodes).contains(#[trigger] links[k].source@)
            && node_ids(nodes).contains(links[k].target@)
}

/// Label of a document node: its sender, else the first 8 bytes of its id.
pub open spec fn document_label(id: Seq<char>, sender: Option<Seq<char>>) -> Seq<char> {
    match sender {
        Some(s) => s,
        None => {
            let n = encode_utf8(id).len();
            decode_utf8(encode_utf8(id).subrange(0, if n < 8 { n as int } else { 8 }))
        },
    }
}

/// The ids of the document nodes among `nodes`, in order.
pub open spec fn document_node_ids(nodes: Seq<GraphNode>) -> Seq<Seq<char>>
    decreases nodes.len(),
{
    if nodes.len() == 0 {
        seq![]
    } else {
        let rest = document_node_ids(nodes.drop_last());
        if nodes.last().node_type@ == "document"@ {
            rest.push(nodes.last().id@)
        } else {
            rest
        }
    }
}

/// The graph around a focus document, built node by node.
#[derive(Debug)]
pub struct GraphBuilder {
    nodes: Vec<GraphNode>,
    links: Vec<GraphLink>,
}

impl GraphBuilder {
    #[verifier::type_invariant]
    spec fn inv(self) -> bool {
        graph_wf(self.nodes@, self.links@)
    }

    /// The node ids so far.
    pub closed spec fn ids(self) -> Seq<Seq<char>> {
        node_ids(self.nodes@)
    }

    /// The nodes so far.
    pub closed spec fn node_list(self) -> Seq<GraphNode> {
        self.nodes@
    }

    /// The links so far.
    pub closed spec fn link_list(self) -> Seq<GraphLink> {
        self.links@
    }

    /// An empty graph.
    pub fn new() -> (g: Self)
        ensures
            g.node_list().len() == 0,
            g.link_list().len() == 0,
    {
        GraphBuilder { nodes: Vec::new(), links: Vec::new() }
    }

    fn index_of(&self, id: &str) -> (r: Option<usize>)
        ensures
            r matches Some(k) ==> k < self.nodes@.len() && self.nodes@[k as int].id@ == id@,
            r is None ==> !node_ids(self.nodes@).contains(id@),
    {
        let mut k: usize = 0;
        while k < self.nodes.len()
            invariant
                k <= self.nodes@.len(),
                forall|j: int| 0 <= j < k ==> self.nodes@[j].id@ != id@,
            decreases self.nodes@.len() - k,
        {
            if crate::json::same_text(self.nodes[k].id.as_str(), id) {
                return Some(k);
            }
            k = k + 1;
        }
        proof {
            if node_ids(self.nodes@).contains(id@) {
                let j = choose|j: int| 0 <= j < node_ids(self.nodes@).len() && node_ids(self.nodes@)[j] == id@;
                assert(self.nodes@[j].id@ == id@);
            }
        }
        None
    }

    /// Whether the graph has a node with this id.
    pub fn has_node(&self, id: &str) -> (r: bool)
        ensures
            r == self.ids().contains(id@),
    {
        match self.index_of(id) {
            Some(k) => {
                assert(node_ids(self.nodes@)[k as int] == id@);
                true
            },
            None => false,
        }
    }

    fn push_node(&mut self, node: GraphNode)
        requires
            !node_ids(old(self).nodes@).contains(node.id@),
        ensures
            final(self).nodes@ == old(self).nodes@.push(node),
            final(self).links@ == old(self).links@,
    {
        proof {
            use_type_invariant(&*self);
        }
        let ghost old_nodes = self.nodes@;
        let ghost nid = node.id@;
        let mut links: Vec<GraphLink> = Vec::new();
        std::mem::swap(&mut links, &mut self.links);
        let mut nodes: Vec<GraphNode> = Vec::new();
        std::mem::swap(&mut nodes, &mut self.nodes);
        nodes.push(node);
        proof {
            assert(node_ids(nodes@) =~= node_ids(old_nodes).push(nid));
            assert forall|i: int, j: int| 0 <= i < j < nodes@.len() implies nodes@[i].id@ != nodes@[j].id@ by {
                if j == old_nodes.len() {
                    assert(node_ids(old_nodes)[i] == old_nodes[i].id@);
                }
            }
            assert forall|k: int| 0 <= k < links@.len() implies node_ids(nodes@).contains(#[trigger] links@[k].source@)
                && node_ids(nodes@).contains(links@[k].target@) by {
                let s = links@[k].source@;
                let t = links@[k].target@;
                let a = choose|a: int| 0 <= a < node_ids(old_nodes).len() && node_ids(old_nodes)[a] == s;
                let b = choose|b: int| 0 <= b < node_ids(old_nodes).len() && node_ids(old_nodes)[b] == t;
                assert(node_ids(nodes@)[a] == s);
                assert(node_ids(nodes@)[b] == t);
            }
        }
        self.nodes = nodes;
        self.links = links;
    }

    fn push_link(&mut self, link: GraphLink)
        requires
            node_ids(old(self).nodes@).contains(link.source@),
            node_ids(old(self).nodes@).contains(link.target@),
        ensures
            final(self).links@ == old(self).links@.push(link),
            final(self).nodes@ == old(self).nodes@,
    {
        proof {
            use_type_invariant(&*self);
        }
        let mut links: Vec<GraphLink> = Vec::new();
        std::mem::swap(&mut links, &mut self.links);
        links.push(link);
        self.links = links;
    }

    /// Adds a document node unless the graph has it; labelled by its sender,
    /// else by the start of its id.
    pub fn add_document(&mut self, id: &str, sender: Option<&str>)
        requires
            sender is Some || id.spec_bytes().len() <= 8 || is_char_boundary(id.spec_bytes(), 8),
        ensures
            old(self).ids().contains(id@) ==> final(self).node_list() == old(self).node_list(),
            !old(self).ids().contains(id@) ==> final(self).node_list() == old(self).node_list().push(
                final(self).node_list().last(),
            ) && final(self).node_list().last().id@ == id@ && final(self).node_list().last().label@
                == document_label(
                id@,
                match sender {
                    Some(s) => Some(s@),
                    None => None,
                },
            ) && final(self).node_list().last().node_type@ == "document"@,
            final(self).link_list() == old(self).link_list(),
            final(self).ids().contains(id@),
    {
        match self.index_of(id) {
            Some(k) => {
                assert(node_ids(self.nodes@)[k as int] == id@);
                return;
            },
            None => {},
        }
        let label = match sender {
            Some(s) => s.to_string(),
            None => {
                let n = id.as_bytes().len();
                proof {
                    vstd::utf8::encode_utf8_valid_utf8(id@);
                    vstd::utf8::is_char_boundary_start_end_of_seq(id.spec_bytes());
                }
                let cut = if n < 8 { n } else { 8 };
                let (head, _) = id.split_at(cut);
                proof {
                    vstd::utf8::encode_utf8_decode_utf8(head@);
                }
                head.to_string()
            },
        };
        let node = GraphNode { id: id.to_string(), label, node_type: "document".to_string() };
        self.push_node(node);
        assert(node_ids(self.nodes@).last() == id@);
    }

    /// Links the focus document to a related document.
    pub fn add_relation(&mut self, focus_id: &str, related_id: &str, relation_type: &str)
        requires
            old(self).ids().contains(focus_id@),
            old(self).ids().contains(related_id@),
        ensures
            final(self).node_list() == old(self).node_list(),
            final(self).link_list().len() == old(self).link_list().len() + 1,
            final(self).link_list().drop_last() == old(self).link_list(),
            final(self).link_list().last().source@ == focus_id@,
            final(self).link_list().last().target@ == related_id@,
            final(self).link_list().last().relation_type@ == relation_type@,
    {
        self.push_link(
            GraphLink {
                source: focus_id.to_string(),
                target: related_id.to_string(),
                relation_type: relation_type.to_string(),
            },
        );
        assert(self.links@.drop_last() =~= old(self).links@);
    }

    /// Adds an entity of a document: its node (labelled by its display name,
    /// else its value) unless the graph has it, and a link from the document
    /// named by the entity's role.
    pub fn add_entity(
        &mut self,
        doc_id: &str,
        entity_id: &str,
        display_name: Option<&str>,
        value: &str,
        role: &str,
    )
        requires
            old(self).ids().contains(doc_id@),
        ensures
            old(self).ids().contains(entity_id@) ==> final(self).node_list() == old(self).node_list(),
            !old(self).ids().contains(entity_id@) ==> final(self).node_list().drop_last()
                == old(self).node_list() && final(self).node_list().last().id@ == entity_id@
                && final(self).node_list().last().label@ == match display_name {
                Some(d) => d@,
                None => value@,
            } && final(self).node_list().last().node_type@ == "entity"@,
            final(self).node_list().len() >= old(self).node_list().len(),
            final(self).link_list().drop_last() == old(self).link_list(),
            final(self).link_list().len() == old(self).link_list().len() + 1,
            final(self).link_list().last().source@ == doc_id@,
            final(self).link_list().last().target@ == entity_id@,
            final(self).link_list().last().relation_type@ == role@,
    {
        let found = self.index_of(entity_id);
        proof {
            if let Some(k) = found {
                assert(node_ids(self.nodes@)[k as int] == entity_id@);
            }
        }
        if found.is_none() {
            let label = match display_name {
                Some(d) => d.to_string(),
                None => value.to_string(),
            };
            self.push_node(GraphNode { id: entity_id.to_string(), label, node_type: "entity".to_string() });
            assert(self.nodes@.drop_last() =~= old(self).nodes@);
            assert(node_ids(self.nodes@).last() == entity_id@);
        }
        proof {
            let a = choose|a: int| 0 <= a < node_ids(old(self).nodes@).len() && node_ids(old(self).nodes@)[a] == doc_id@;
            assert(node_ids(self.nodes@)[a] == doc_id@);
            if found.is_none() {
                assert(node_ids(self.nodes@)[self.nodes@.len() - 1] == entity_id@);
            }
        }
        let ghost before = self.links@;
        self.push_link(
            GraphLink {
                source: doc_id.to_string(),
                target: entity_id.to_string(),
                relation_type: role.to_string(),
            },
        );
        assert(self.links@.drop_last() =~= before);
    }

    /// The ids of the document nodes, in the order they were added.
    pub fn document_ids(&self) -> (r: Vec<String>)
        ensures
            views(r@) == document_node_ids(self.node_list()),
            forall|t: Seq<char>| #[trigger] views(r@).contains(t) <==> exists|k: int|
                0 <= k < self.node_list().len() && self.node_list()[k].id@ == t
                    && self.node_list()[k].node_type@ == "document"@,
    {
        let mut out: Vec<String> = Vec::new();
        let mut k: usize = 0;
        while k < self.nodes.len()
            invariant
                k <= self.nodes@.len(),
                views(out@) == document_node_ids(self.nodes@.take(k as int)),
                forall|t: Seq<char>| #[trigger] views(out@).contains(t) <==> exists|j: int|
                    0 <= j < k && self.nodes@[j].id@ == t && self.nodes@[j].node_type@ == "document"@,
            decreases self.nodes@.len() - k,
        {
            let ghost prev = views(out@);
            assert(self.nodes@.take(k as int + 1).drop_last() =~= self.nodes@.take(k as int));
            if crate::json::same_text(self.nodes[k].node_type.as_str(), "document") {
                out.push(self.nodes[k].id.clone());
                assert(views(out@) =~= prev.push(self.nodes@[k as int].id@));
            }
            proof {
                assert forall|t: Seq<char>| #[trigger] views(out@).contains(t) <==> exists|j: int|
                    0 <= j < k + 1 && self.nodes@[j].id@ == t && self.nodes@[j].node_type@ == "document"@ by {
                    if views(out@).contains(t) && !prev.contains(t) {
                        assert(views(out@) =~= prev.push(self.nodes@[k as int].id@));
                        assert(t == self.nodes@[k as int].id@);
                    }
                    if prev.contains(t) {
                        let m = choose|m: int| 0 <= m < prev.len() && prev[m] == t;
                        assert(views(out@)[m] == t);
                    }
                    if exists|j: int| 0 <= j < k + 1 && self.nodes@[j].id@ == t && self.nodes@[j].node_type@ == "document"@ {
                        let j = choose|j: int| 0 <= j < k + 1 && self.nodes@[j].id@ == t && self.nodes@[j].node_type@ == "document"@;
                        if j == k {
                            assert(views(out@)[views(out@).len() - 1] == t);
                        }
                    }
                }
            }
            k = k + 1;
        }
        assert(self.nodes@.take(self.nodes@.len() as int) =~= self.nodes@);
        assert forall|t: Seq<char>| #[trigger] views(out@).contains(t) <==> exists|k: int|
            0 <= k < self.node_list().len() && self.node_list()[k].id@ == t
                && self.node_list()[k].node_type@ == "document"@ by {
            if views(out@).contains(t) {
                let j = choose|j: int| 0 <= j < self.nodes@.len() && self.nodes@[j].id@ == t && self.nodes@[j].node_type@ == "document"@;
                assert(self.node_list()[j].id@ == t);
            }
        }
        out
    }

    /// The finished graph: nodes and links.
    pub fn into_parts(self) -> (r: (Vec<GraphNode>, Vec<GraphLink>))
        ensures
            r.0@ == self.node_list(),
            r.1@ == self.link_list(),
            graph_wf(r.0@, r.1@),
    {
        proof {
            use_type_invariant(&self);
        }
        (self.nodes, self.links)
    }
}


/// What the graph needs of a stored document: its id and its sender.
#[derive(Debug)]
pub struct DocumentRef {
    pub id: String,
    pub sender: Option<String>,
}

/// A node label is taken from the sender, or else from the first 8 bytes of
/// the id, which must then end on a character boundary.
pub open spec fn labelable(id: Seq<char>, sender: Option<String>) -> bool {
    sender is Some || encode_utf8(id).len() <= 8 || is_char_boundary(encode_utf8(id), 8)
}

fn sender_str(o: &Option<String>) -> (r: Option<&str>)
    ensures
        match r {
            Some(s) => Some(s@),
            None => None,
        } == opt_chars(*o),
        r is Some <==> o is Some,
{
    match o {
        Some(s) => Some(s.as_str()),
        None => None,
    }
}

/// The graph of a focus document and the documents related to it: the focus
/// document is the first node, each related document gets a node unless it
/// has one, and there is one link per related document, from the focus
/// document, named by the relation it was reached by, in order.
pub fn related_graph(focus: &DocumentRef, related: &Vec<RelatedDocument<DocumentRef>>) -> (g: GraphBuilder)
    requires
        labelable(focus.id@, focus.sender),
        forall|k: int| 0 <= k < related@.len() ==> labelable(
            (#[trigger] related@[k]).document.id@,
            related@[k].document.sender,
        ),
    ensures
        g.node_list().len() >= 1,
        g.node_list()[0].id@ == focus.id@,
        g.node_list()[0].node_type@ == "document"@,
        g.node_list()[0].label@ == document_label(focus.id@, opt_chars(focus.sender)),
        g.ids().contains(focus.id@),
        forall|k: int| 0 <= k < related@.len() ==> g.ids().contains((#[trigger] related@[k]).document.id@),
        g.link_list().len() == related@.len(),
        forall|k: int| 0 <= k < related@.len() ==> {
            &&& (#[trigger] g.link_list()[k]).source@ == focus.id@
            &&& g.link_list()[k].target@ == related@[k].document.id@
            &&& g.link_list()[k].relation_type@ == related@[k].relation_type@
        },
{
    let mut g = GraphBuilder::new();
    g.add_document(focus.id.as_str(), sender_str(&focus.sender));
    let ghost first = g.node_list()[0];
    let mut k: usize = 0;
    while k < related.len()
        invariant
            k <= related@.len(),
            forall|j: int| 0 <= j < related@.len() ==> labelable(
                (#[trigger] related@[j]).document.id@,
                related@[j].document.sender,
            ),
            g.node_list().len() >= 1,
            g.node_list()[0] == first,
            first.id@ == focus.id@,
            first.node_type@ == "document"@,
            first.label@ == document_label(focus.id@, opt_chars(focus.sender)),
            g.ids().contains(focus.id@),
            forall|j: int| 0 <= j < k ==> g.ids().contains((#[trigger] related@[j]).document.id@),
            g.link_list().len() == k,
            forall|j: int| 0 <= j < k ==> {
                &&& (#[trigger] g.link_list()[j]).source@ == focus.id@
                &&& g.link_list()[j].target@ == related@[j].document.id@
                &&& g.link_list()[j].relation_type@ == related@[j].relation_type@
            },
        decreases related@.len() - k,
    {
        let r = &related[k];
        let ghost before = g.node_list();
        let ghost links_before = g.link_list();
        assert(labelable(r.document.id@, r.document.sender));
        g.add_document(r.document.id.as_str(), sender_str(&r.document.sender));
        proof {
            if g.node_list() != before {
                assert(g.node_list() == before.push(g.node_list().last()));
                assert(node_ids(g.node_list()) =~= node_ids(before).push(g.node_list().last().id@));
                assert forall|t: Seq<char>| node_ids(before).contains(t) implies node_ids(g.node_list()).contains(t) by {
                    let i = choose|i: int| 0 <= i < node_ids(before).len() && node_ids(before)[i] == t;
                    assert(node_ids(g.node_list())[i] == t);
                }
                assert(g.node_list()[0] == before[0]);
            }
        }
        g.add_relation(focus.id.as_str(), r.document.id.as_str(), r.relation_type.as_str());
        proof {
            assert forall|j: int| 0 <= j < k + 1 implies {
                &&& (#[trigger] g.link_list()[j]).source@ == focus.id@
                &&& g.link_list()[j].target@ == related@[j].document.id@
                &&& g.link_list()[j].relation_type@ == related@[j].relation_type@
            } by {
                if j < k {
                    assert(g.link_list()[j] == links_before[j]);
                }
            }
        }
        k = k + 1;
    }
    g
}

} // verus!
