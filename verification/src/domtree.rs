//! The document tree: an arena of nodes, each holding a parent handle, an
//! ordered child list and a tagged payload, plus the three named handles the
//! tree parser fills in — root, doctype and head.

use vstd::prelude::*;

use crate::arena::{Arena, ArenaRef};
use crate::html::HTMLError;

verus! {

/// A document-type declaration's fields, each possibly empty.
#[derive(Debug, PartialEq, Eq)]
pub struct DocumentType {
    pub name: Vec<u8>,
    pub public_id: Vec<u8>,
    pub system_id: Vec<u8>,
}

impl DocumentType {
    /// A declaration with the given name; an absent identifier is stored
    /// empty.
    pub fn new(name: Vec<u8>, public_id: Option<Vec<u8>>, system_id: Option<Vec<u8>>) -> (r: Self)
        ensures
            r.name == name,
            match public_id {
                Some(p) => r.public_id == p,
                None => r.public_id@.len() == 0,
            },
            match system_id {
                Some(p) => r.system_id == p,
                None => r.system_id@.len() == 0,
            },
    {
        Self {
            name,
            public_id: match public_id {
                Some(p) => p,
                None => Vec::new(),
            },
            system_id: match system_id {
                Some(p) => p,
                None => Vec::new(),
            },
        }
    }
}

/// A node's payload: the closed set of document object kinds this tree can
/// hold.
#[derive(Debug, PartialEq, Eq)]
pub enum DomObject {
    Document,
    DocumentType(DocumentType),
    Element(Vec<u8>),
    Head,
    Text(Vec<u8>),
}

/// One tree node: an optional parent handle, the ordered child handles, and
/// the payload.
#[derive(Debug, PartialEq, Eq)]
pub struct DomNode {
    pub parent: Option<ArenaRef>,
    pub children: Vec<ArenaRef>,
    pub dom_obj: DomObject,
}

impl DomNode {
    /// A fresh node holding `obj`, not yet attached anywhere.
    pub fn new(obj: DomObject) -> (r: Self)
        ensures
            r.parent is None,
            r.children@.len() == 0,
            r.dom_obj == obj,
    {
        Self { parent: None, children: Vec::new(), dom_obj: obj }
    }
}

/// The tree: the arena owning every node, the root handle, and the doctype
/// and head handles once the parser sets them.
pub struct DomTree {
    pub root: Option<ArenaRef>,
    pub doctype: Option<ArenaRef>,
    pub head: Option<ArenaRef>,
    pub arena: Arena<DomNode>,
}

impl DomTree {
    /// Whether handle `i` resolves to a live node.
    pub open spec fn live(&self, i: ArenaRef) -> bool {
        self.arena.spec_get(i) is Some
    }

    /// The live node behind handle `i`.
    pub open spec fn node(&self, i: ArenaRef) -> DomNode {
        self.arena.spec_get(i)->Some_0
    }

    /// The root handle.
    pub open spec fn root_ref(&self) -> ArenaRef {
        self.root->Some_0
    }

    /// Node `i`'s child list holds only live, pairwise distinct nodes, and
    /// each lists `i` as its parent.
    pub open spec fn children_ok(&self, i: ArenaRef) -> bool {
        let n = self.node(i);
        &&& forall|k: int|
            0 <= k < n.children@.len() ==> self.live(#[trigger] n.children@[k]) && self.node(
                n.children@[k],
            ).parent == Some(i)
        &&& n.children@.no_duplicates()
    }

    /// Node `i`'s parent handle resolves to a live node that lists `i` among
    /// its children; only the root has no parent.
    pub open spec fn parent_ok(&self, i: ArenaRef) -> bool {
        match self.node(i).parent {
            Some(p) => self.live(p) && self.node(p).children@.contains(i),
            None => i == self.root_ref(),
        }
    }

    /// The tree is single-rooted and parent and child handles agree in both
    /// directions.
    pub open spec fn wf(&self) -> bool {
        &&& self.arena.wf()
        &&& self.root is Some
        &&& self.live(self.root_ref())
        &&& self.node(self.root_ref()).parent is None
        &&& forall|i: ArenaRef| self.live(i) ==> #[trigger] self.children_ok(i)
        &&& forall|i: ArenaRef| self.live(i) ==> #[trigger] self.parent_ok(i)
    }

    /// How an insertion reshapes the arena: a fresh handle `nr` became live
    /// under `parent`, whose child list grew by exactly that handle, and no
    /// other handle changed what it resolves to. The new node's payload is
    /// stated separately by each caller.
    pub open spec fn inserted_shape(pre: Self, post: Self, parent: ArenaRef, nr: ArenaRef) -> bool {
        &&& nr == pre.arena.next_handle()
        &&& !pre.live(nr)
        &&& post.live(nr)
        &&& post.live(parent)
        &&& post.node(nr).parent == Some(parent)
        &&& post.node(nr).children@.len() == 0
        &&& post.node(parent).children@ == pre.node(parent).children@.push(nr)
        &&& post.node(parent).parent == pre.node(parent).parent
        &&& post.node(parent).dom_obj == pre.node(parent).dom_obj
        &&& forall|j: ArenaRef|
            j != nr && j != parent ==> #[trigger] post.arena.spec_get(j) == pre.arena.spec_get(j)
        &&& post.root == pre.root
        &&& if pre.arena.free_list().len() > 0 {
            post.arena.free_list() == pre.arena.free_list().drop_last()
                && post.arena.slots().len() == pre.arena.slots().len()
        } else {
            post.arena.free_list() == pre.arena.free_list() && post.arena.slots().len()
                == pre.arena.slots().len() + 1
        }
    }

    /// A tree holding one root node with payload `root`, and no doctype or
    /// head yet.
    pub fn new(root: DomObject) -> (r: Self)
        ensures
            r.wf(),
            r.root == Some(0usize),
            r.doctype is None,
            r.head is None,
            r.arena.slots().len() == 1,
            r.arena.free_list().len() == 0,
            r.live(0),
            r.node(0).parent is None,
            r.node(0).dom_obj == root,
            r.node(0).children@.len() == 0,
    {
        let mut arena = Arena::new();
        let root_ref = arena.add(DomNode::new(root));
        Self { root: Some(root_ref), doctype: None, head: None, arena }
    }

    /// Attaches a fresh node holding `obj` as the last child of
    /// `parent_ref`, returning its handle. A handle that resolves to no live
    /// node is refused with the tree unchanged.
    pub fn insert(&mut self, obj: DomObject, parent_ref: ArenaRef) -> (r: Result<
        ArenaRef,
        HTMLError,
    >)
        requires
            old(self).wf(),
        ensures
            final(self).wf(),
            !old(self).live(parent_ref) ==> r == Err::<ArenaRef, HTMLError>(
                HTMLError::InaccessibleDomTreeNode,
            ) && *final(self) == *old(self),
            old(self).live(parent_ref) ==> match r {
                Ok(new_ref) => {
                    &&& Self::inserted_shape(*old(self), *final(self), parent_ref, new_ref)
                    &&& final(self).node(new_ref).dom_obj == obj
                    &&& final(self).doctype == old(self).doctype
                    &&& final(self).head == old(self).head
                },
                Err(_) => false,
            },
    {
        match self.arena.get(parent_ref) {
            None => {
                return Err(HTMLError::InaccessibleDomTreeNode);
            },
            Some(_) => {},
        }
        let mut node = DomNode::new(obj);
        node.parent = Some(parent_ref);
        let child_ref: ArenaRef = self.arena.add(node);
        let ghost mid = *self;
        let pushed: bool = match self.arena.get_mut(parent_ref) {
            Some(parent) => {
                parent.children.push(child_ref);
                true
            },
            None => false,
        };
        if !pushed {
            proof {
                assert(false);
            }
            return Err(HTMLError::InaccessibleDomTreeNode);
        }
        proof {
            let pre = *old(self);
            let post = *self;
            assert(post.node(parent_ref).children@ == pre.node(parent_ref).children@.push(
                child_ref,
            ));
            assert(!pre.node(parent_ref).children@.contains(child_ref)) by {
                if pre.node(parent_ref).children@.contains(child_ref) {
                    assert(pre.children_ok(parent_ref));
                    let k = choose|k: int|
                        0 <= k < pre.node(parent_ref).children@.len() && pre.node(
                            parent_ref,
                        ).children@[k] == child_ref;
                    assert(pre.live(pre.node(parent_ref).children@[k]));
                }
            }
            assert forall|i: ArenaRef| post.live(i) implies #[trigger] post.children_ok(i) by {
                if i == child_ref {
                    assert(post.node(i).children@.len() == 0);
                } else if i == parent_ref {
                    assert(pre.children_ok(i));
                    let cs = post.node(i).children@;
                    let old_cs = pre.node(i).children@;
                    assert forall|k: int|
                        0 <= k < cs.len() implies post.live(#[trigger] cs[k]) && post.node(
                            cs[k],
                        ).parent == Some(i) by {
                        if k < old_cs.len() {
                            assert(pre.live(old_cs[k]) && pre.node(old_cs[k]).parent == Some(i));
                            assert(cs[k] == old_cs[k]);
                            assert(old_cs[k] != child_ref);
                        } else {
                            assert(cs[k] == child_ref);
                        }
                    }
                    assert(cs.no_duplicates()) by {
                        assert forall|a: int, b: int|
                            0 <= a < b < cs.len() implies cs[a] != cs[b] by {
                            if b < old_cs.len() {
                                assert(old_cs.no_duplicates());
                            } else {
                                assert(cs[b] == child_ref);
                                assert(pre.live(old_cs[a]));
                            }
                        }
                    }
                } else {
                    assert(pre.live(i));
                    assert(pre.children_ok(i));
                    assert(post.node(i) == pre.node(i));
                    let cs = post.node(i).children@;
                    assert forall|k: int|
                        0 <= k < cs.len() implies post.live(#[trigger] cs[k]) && post.node(
                            cs[k],
                        ).parent == Some(i) by {
                        assert(pre.live(cs[k]) && pre.node(cs[k]).parent == Some(i));
                        assert(cs[k] != child_ref);
                        if cs[k] == parent_ref {
                            assert(post.node(parent_ref).parent == pre.node(parent_ref).parent);
                        }
                    }
                }
            }
            assert forall|i: ArenaRef| post.live(i) implies #[trigger] post.parent_ok(i) by {
                if i == child_ref {
                    assert(post.node(i).parent == Some(parent_ref));
                    assert(post.node(parent_ref).children@.last() == child_ref);
                    assert(post.node(parent_ref).children@.contains(child_ref));
                } else {
                    assert(pre.live(i));
                    assert(pre.parent_ok(i));
                    match post.node(i).parent {
                        Some(p) => {
                            assert(post.node(i).parent == pre.node(i).parent);
                            assert(pre.live(p) && pre.node(p).children@.contains(i));
                            assert(p != child_ref);
                            if p == parent_ref {
                                let k = choose|k: int|
                                    0 <= k < pre.node(p).children@.len() && pre.node(
                                        p,
                                    ).children@[k] == i;
                                assert(post.node(p).children@[k] == i);
                                assert(post.node(p).children@.contains(i));
                            }
                        },
                        None => {
                            assert(i == pre.root_ref());
                        },
                    }
                }
            }
            assert(post.live(post.root_ref()));
            assert(post.node(post.root_ref()).parent is None) by {
                if post.root_ref() == parent_ref {
                    assert(post.node(parent_ref).parent == pre.node(parent_ref).parent);
                }
            }
        }
        Ok(child_ref)
    }

    /// Records the doctype handle; nothing else changes.
    pub fn set_doctype(&mut self, doctype: ArenaRef)
        ensures
            final(self).doctype == Some(doctype),
            final(self).root == old(self).root,
            final(self).head == old(self).head,
            final(self).arena == old(self).arena,
    {
        self.doctype = Some(doctype);
    }

    /// Records the head handle; nothing else changes.
    pub fn set_head(&mut self, head: ArenaRef)
        ensures
            final(self).head == Some(head),
            final(self).root == old(self).root,
            final(self).doctype == old(self).doctype,
            final(self).arena == old(self).arena,
    {
        self.head = Some(head);
    }

    /// Mutable access to the payload of the last child of `node_ref`. The
    /// caller may leave any payload behind the reference; the tree's shape
    /// is untouched.
    pub fn get_last_child_of(&mut self, node_ref: ArenaRef) -> (r: &mut DomObject)
        requires
            old(self).wf(),
            old(self).live(node_ref),
            old(self).node(node_ref).children@.len() > 0,
        ensures
            *r == old(self).node(old(self).node(node_ref).children@.last()).dom_obj,
            ({
                let child = old(self).node(node_ref).children@.last();
                let old_child = old(self).node(child);
                &&& final(self).arena.slots() == old(self).arena.slots().update(
                    child as int,
                    Some(
                        (DomNode {
                            parent: old_child.parent,
                            children: old_child.children,
                            dom_obj: *final(r),
                        }),
                    ),
                )
                &&& final(self).arena.free_list() == old(self).arena.free_list()
                &&& final(self).root == old(self).root
                &&& final(self).doctype == old(self).doctype
                &&& final(self).head == old(self).head
            }),
    {
        let child_ref: ArenaRef;
        match self.arena.get(node_ref) {
            Some(n) => {
                child_ref = n.children[n.children.len() - 1];
            },
            None => {
                proof {
                    assert(false);
                }
                child_ref = 0;
            },
        }
        proof {
            assert(old(self).children_ok(node_ref));
            assert(old(self).live(child_ref));
        }
        match self.arena.get_mut(child_ref) {
            Some(child_node) => &mut child_node.dom_obj,
            None => {
                proof {
                    assert(false);
                }
                vstd::pervasive::unreached()
            },
        }
    }
}

/// The two payloads read the same: the same kind, with equal field views.
pub open spec fn obj_equiv(a: DomObject, b: DomObject) -> bool {
    match (a, b) {
        (DomObject::Document, DomObject::Document) => true,
        (DomObject::DocumentType(x), DomObject::DocumentType(y)) => {
            &&& x.name@ == y.name@
            &&& x.public_id@ == y.public_id@
            &&& x.system_id@ == y.system_id@
        },
        (DomObject::Element(x), DomObject::Element(y)) => x@ == y@,
        (DomObject::Head, DomObject::Head) => true,
        (DomObject::Text(x), DomObject::Text(y)) => x@ == y@,
        _ => false,
    }
}

/// The two nodes read the same: equal handles, and payloads that read the
/// same.
pub open spec fn node_equiv(a: DomNode, b: DomNode) -> bool {
    &&& a.parent == b.parent
    &&& a.children@ == b.children@
    &&& obj_equiv(a.dom_obj, b.dom_obj)
}

/// The two trees read the same: the same named handles, the same storage
/// shape, and slot for slot the same liveness with nodes that read the
/// same.
pub open spec fn tree_equiv(a: DomTree, b: DomTree) -> bool {
    &&& a.root == b.root
    &&& a.doctype == b.doctype
    &&& a.head == b.head
    &&& a.arena.slots().len() == b.arena.slots().len()
    &&& a.arena.free_list() == b.arena.free_list()
    &&& forall|i: ArenaRef|
        #![all_triggers]
        (a.live(i) <==> b.live(i)) && (a.live(i) ==> node_equiv(a.node(i), b.node(i)))
}

/// Reading the same is symmetric.
pub proof fn lemma_tree_equiv_sym(a: DomTree, b: DomTree)
    requires
        tree_equiv(a, b),
    ensures
        tree_equiv(b, a),
{
}

/// A tree that reads the same as a well-formed tree is well formed itself:
/// every invariant speaks only of what the reading shows.
pub proof fn lemma_tree_equiv_wf(a: DomTree, b: DomTree)
    requires
        tree_equiv(a, b),
        a.wf(),
    ensures
        b.wf(),
{
    assert forall|k: int|
        0 <= k < b.arena.free_list().len() implies ((
    #[trigger] b.arena.free_list()[k]) as int) < b.arena.slots().len()
        && b.arena.slots()[b.arena.free_list()[k] as int] is None by {
        let f = b.arena.free_list()[k];
        assert(a.arena.free_list()[k] == f);
        assert((f as int) < a.arena.slots().len() && a.arena.slots()[f as int] is None);
        assert(!a.live(f));
        assert(!b.live(f));
    }
    assert forall|i: ArenaRef| b.live(i) implies #[trigger] b.children_ok(i) by {
        assert(a.live(i));
        assert(a.children_ok(i));
        assert(node_equiv(a.node(i), b.node(i)));
        let cs = b.node(i).children@;
        assert(cs == a.node(i).children@);
        assert forall|k: int|
            0 <= k < cs.len() implies b.live(#[trigger] cs[k]) && b.node(cs[k]).parent == Some(i) by {
            assert(a.live(cs[k]) && a.node(cs[k]).parent == Some(i));
            assert(node_equiv(a.node(cs[k]), b.node(cs[k])));
        }
    }
    assert forall|i: ArenaRef| b.live(i) implies #[trigger] b.parent_ok(i) by {
        assert(a.live(i));
        assert(a.parent_ok(i));
        assert(node_equiv(a.node(i), b.node(i)));
        match b.node(i).parent {
            Some(q) => {
                assert(a.node(i).parent == Some(q));
                assert(a.live(q) && a.node(q).children@.contains(i));
                assert(node_equiv(a.node(q), b.node(q)));
                assert(b.node(q).children@.contains(i));
            },
            None => {
            },
        }
    }
    assert(b.live(b.root_ref()));
    assert(node_equiv(a.node(a.root_ref()), b.node(b.root_ref())));
}

/// Two insertions of payloads that read the same, at the same handle under
/// the same parent, into trees that read the same, leave trees whose arenas
/// read the same; the named handles are pinned by each caller.
pub proof fn lemma_inserted_shape_equiv(
    p1: DomTree,
    q1: DomTree,
    p2: DomTree,
    q2: DomTree,
    parent: ArenaRef,
    nr: ArenaRef,
)
    requires
        tree_equiv(p1, p2),
        p1.live(parent),
        p2.live(parent),
        DomTree::inserted_shape(p1, q1, parent, nr),
        DomTree::inserted_shape(p2, q2, parent, nr),
        obj_equiv(q1.node(nr).dom_obj, q2.node(nr).dom_obj),
        q1.doctype == q2.doctype,
        q1.head == q2.head,
    ensures
        tree_equiv(q1, q2),
{
    assert(q1.node(nr).children@ =~= q2.node(nr).children@);
    assert forall|i: ArenaRef|
        #![all_triggers]
        (q1.live(i) <==> q2.live(i)) && (q1.live(i) ==> node_equiv(q1.node(i), q2.node(i))) by {
        if i == nr {
            assert(q1.live(i) && q2.live(i));
            assert(q1.node(nr).parent == Some(parent) && q2.node(nr).parent == Some(parent));
            assert(node_equiv(q1.node(nr), q2.node(nr)));
        } else if i == parent {
            assert(node_equiv(p1.node(parent), p2.node(parent)));
            assert(q1.node(parent).children@ == p1.node(parent).children@.push(nr));
            assert(q2.node(parent).children@ == p2.node(parent).children@.push(nr));
            assert(q1.node(parent).children@ == q2.node(parent).children@);
            assert(q1.node(parent).parent == p1.node(parent).parent);
            assert(q2.node(parent).parent == p2.node(parent).parent);
            assert(q1.node(parent).dom_obj == p1.node(parent).dom_obj);
            assert(q2.node(parent).dom_obj == p2.node(parent).dom_obj);
            assert(obj_equiv(q1.node(parent).dom_obj, q2.node(parent).dom_obj));
            assert(q1.live(i) && q2.live(i));
            assert(node_equiv(q1.node(parent), q2.node(parent)));
        } else {
            assert(q1.arena.spec_get(i) == p1.arena.spec_get(i));
            assert(q2.arena.spec_get(i) == p2.arena.spec_get(i));
            assert(p1.live(i) <==> p2.live(i));
            assert(q1.live(i) <==> q2.live(i));
            if q1.live(i) {
                assert(node_equiv(p1.node(i), p2.node(i)));
                assert(node_equiv(q1.node(i), q2.node(i)));
            }
        }
    }
}

/// A tree whose arena and root are unchanged keeps its invariants, whatever
/// happened to the doctype and head handles.
pub proof fn lemma_same_arena_wf(pre: DomTree, post: DomTree)
    requires
        pre.wf(),
        post.arena == pre.arena,
        post.root == pre.root,
    ensures
        post.wf(),
{
    assert forall|i: ArenaRef| post.live(i) implies #[trigger] post.children_ok(i) by {
        assert(pre.live(i));
        assert(pre.children_ok(i));
        let cs = post.node(i).children@;
        assert(post.node(i) == pre.node(i));
        assert forall|k: int|
            0 <= k < cs.len() implies post.live(#[trigger] cs[k]) && post.node(cs[k]).parent
            == Some(i) by {
            assert(pre.live(cs[k]) && pre.node(cs[k]).parent == Some(i));
        }
    }
    assert forall|i: ArenaRef| post.live(i) implies #[trigger] post.parent_ok(i) by {
        assert(pre.live(i));
        assert(pre.parent_ok(i));
    }
}

/// A handle live before an insertion is still live after it: the insertion
/// only fills one previously dead slot and grows the parent's child list.
pub proof fn lemma_inserted_keeps_live(
    pre: DomTree,
    post: DomTree,
    parent: ArenaRef,
    nr: ArenaRef,
    h: ArenaRef,
)
    requires
        DomTree::inserted_shape(pre, post, parent, nr),
        pre.live(h),
    ensures
        post.live(h),
{
    if h == nr {
        assert(false);
    } else if h == parent {
    } else {
        assert(post.arena.spec_get(h) == pre.arena.spec_get(h));
    }
}

/// Rewriting one live node's payload, and nothing else, leaves the tree
/// invariants intact: they speak of handles, never of payloads.
pub proof fn lemma_payload_update_wf(pre: DomTree, post: DomTree, i: ArenaRef)
    requires
        pre.wf(),
        pre.live(i),
        post.live(i),
        post.node(i).parent == pre.node(i).parent,
        post.node(i).children == pre.node(i).children,
        forall|j: ArenaRef| j != i ==> #[trigger] post.arena.spec_get(j) == pre.arena.spec_get(j),
        post.arena.slots().len() == pre.arena.slots().len(),
        post.arena.free_list() == pre.arena.free_list(),
        post.root == pre.root,
    ensures
        post.wf(),
{
    assert forall|k: int|
        0 <= k < post.arena.free_list().len() implies ((
    #[trigger] post.arena.free_list()[k]) as int) < post.arena.slots().len()
        && post.arena.slots()[post.arena.free_list()[k] as int] is None by {
        let f = post.arena.free_list()[k];
        assert(f == pre.arena.free_list()[k]);
        assert((f as int) < pre.arena.slots().len() && pre.arena.slots()[f as int] is None);
        if f == i {
            assert(pre.arena.spec_get(i) is None);
            assert(false);
        }
        assert(post.arena.spec_get(f) == pre.arena.spec_get(f));
    }
    assert forall|n: ArenaRef| post.live(n) implies #[trigger] post.children_ok(n) by {
        assert(pre.live(n));
        assert(pre.children_ok(n));
        let cs = post.node(n).children@;
        assert(cs == pre.node(n).children@);
        assert forall|k: int|
            0 <= k < cs.len() implies post.live(#[trigger] cs[k]) && post.node(cs[k]).parent
            == Some(n) by {
            assert(pre.live(cs[k]) && pre.node(cs[k]).parent == Some(n));
        }
    }
    assert forall|n: ArenaRef| post.live(n) implies #[trigger] post.parent_ok(n) by {
        assert(pre.live(n));
        assert(pre.parent_ok(n));
        match post.node(n).parent {
            Some(p) => {
                assert(post.node(n).parent == pre.node(n).parent);
                assert(pre.live(p) && pre.node(p).children@.contains(n));
                let k = choose|k: int|
                    0 <= k < pre.node(p).children@.len() && pre.node(p).children@[k] == n;
                assert(post.node(p).children@[k] == n);
            },
            None => {
            },
        }
    }
    assert(post.live(post.root_ref()));
    assert(post.node(post.root_ref()).parent is None);
}

} // verus!
