//! The conversation tree: messages with roles, branching replies, and
//! the walks that rebuild a chat context from any node up to the root.
//! Nodes live in an arena and point at their parent by index, so every
//! upward walk terminates by construction.

use vstd::prelude::*;
use vstd::string::StringExecFns;
use crate::text::chars_to_owned;

verus! {

/// A message as a chat transport expects it: a role tag and the text.
#[derive(Clone, Debug)]
pub struct MessageFormat {
    pub role: String,
    pub content: String,
}

/// Who said a message.
#[derive(Clone, Copy, Debug, PartialEq, Eq, Structural)]
pub enum Role {
    User,
    System,
    Assistant,
}

/// The display name of a role.
pub open spec fn role_name(r: Role) -> Seq<char> {
    match r {
        Role::User => "User"@,
        Role::System => "System"@,
        Role::Assistant => "Assistant"@,
    }
}

/// The lowercase tag a transport uses for a role.
pub open spec fn role_tag(r: Role) -> Seq<char> {
    match r {
        Role::User => "user"@,
        Role::System => "system"@,
        Role::Assistant => "assistant"@,
    }
}

impl Role {
    /// The display name of this role.
    pub fn to_string(&self) -> (r: String)
        ensures
            r@ == role_name(*self),
    {
        match self {
            Role::User => chars_to_owned("User"),
            Role::System => chars_to_owned("System"),
            Role::Assistant => chars_to_owned("Assistant"),
        }
    }
}

/// One message of the conversation.
#[derive(Clone, Debug)]
pub struct Message {
    pub role: Role,
    pub content: String,
}

impl Message {
    /// A message from its role and text.
    pub fn new(role: Role, content: &str) -> (r: Message)
        ensures
            r.role == role,
            r.content@ == content@,
    {
        Message { role, content: chars_to_owned(content) }
    }

    /// The role of the message.
    pub fn get_role(&self) -> (r: Role)
        ensures
            r == self.role,
    {
        self.role
    }

    /// A copy of the message text.
    pub fn get_content(&self) -> (r: String)
        ensures
            r@ == self.content@,
    {
        chars_to_owned(self.content.as_str())
    }

    /// Appends streamed text to the message.
    pub fn append_message_content(&mut self, content: &str)
        ensures
            final(self).role == old(self).role,
            final(self).content@ == old(self).content@ + content@,
    {
        self.content.append(content);
    }
}

/// One node of the conversation tree: its message, its parent, and the
/// replies branching off it, all by arena index.
#[derive(Debug)]
pub struct ConversationNode {
    pub message: Message,
    pub parent: Option<usize>,
    pub children: Vec<usize>,
}

impl ConversationNode {
    /// A fresh root-shaped node holding one message.
    pub fn new(value: Message) -> (r: ConversationNode)
        ensures
            r.message == value,
            r.parent is None,
            r.children@ =~= Seq::<usize>::empty(),
    {
        let r = ConversationNode { message: value, parent: None, children: Vec::new() };
        proof {
            assert(r.children@ =~= Seq::<usize>::empty());
        }
        r
    }

    /// The node's message.
    pub fn borrow_message(&self) -> (r: &Message)
        ensures
            *r == self.message,
    {
        &self.message
    }

    /// The node's parent index, if it has one.
    pub fn get_parent_ref(&self) -> (r: Option<usize>)
        ensures
            r == self.parent,
    {
        self.parent
    }

    /// The node's reply indices.
    pub fn get_children_ref(&self) -> (r: &Vec<usize>)
        ensures
            r@ == self.children@,
    {
        &self.children
    }
}

/// Parents come strictly before their children, and every recorded
/// reply link points back at its parent.
pub open spec fn tree_wf(ns: Seq<ConversationNode>) -> bool {
    &&& forall|i: int|
        0 <= i < ns.len() ==> ((#[trigger] ns[i]).parent matches Some(p) ==> (p as int) < i)
    &&& forall|i: int, k: int|
        0 <= i < ns.len() && 0 <= k < ns[i].children@.len() ==> i < ((#[trigger] ns[i].children@[
            k]) as int) && (ns[i].children@[k] as int) < ns.len()
}

/// The depth of a node: how many steps its parent chain takes.
pub open spec fn depth_of(ns: Seq<ConversationNode>, i: int) -> int
    decreases i,
{
    if 0 <= i < ns.len() {
        match ns[i].parent {
            Some(p) => {
                if (p as int) < i {
                    1 + depth_of(ns, p as int)
                } else {
                    0
                }
            },
            None => 0,
        }
    } else {
        0
    }
}

/// The root a node's parent chain ends at.
pub open spec fn root_of(ns: Seq<ConversationNode>, i: int) -> int
    decreases i,
{
    if 0 <= i < ns.len() {
        match ns[i].parent {
            Some(p) => {
                if (p as int) < i {
                    root_of(ns, p as int)
                } else {
                    i
                }
            },
            None => i,
        }
    } else {
        i
    }
}

/// The indices from the root down to a node, in chronological order.
pub open spec fn path_of(ns: Seq<ConversationNode>, i: int) -> Seq<int>
    decreases i,
{
    if 0 <= i < ns.len() {
        match ns[i].parent {
            Some(p) => {
                if (p as int) < i {
                    path_of(ns, p as int).push(i)
                } else {
                    seq![i]
                }
            },
            None => seq![i],
        }
    } else {
        seq![i]
    }
}

/// The conversation: an append-only arena of nodes.
pub struct ConversationTree {
    nodes: Vec<ConversationNode>,
}

impl ConversationTree {
    /// The nodes, as mathematics.
    pub closed spec fn view_nodes(&self) -> Seq<ConversationNode> {
        self.nodes@
    }

    /// The tree is well formed.
    pub open spec fn wf(&self) -> bool {
        tree_wf(self.view_nodes())
    }

    /// A tree holding one root message.
    pub fn new(root: Message) -> (r: ConversationTree)
        ensures
            r.wf(),
            r.view_nodes().len() == 1,
            r.view_nodes()[0].message == root,
            r.view_nodes()[0].parent is None,
    {
        let mut nodes: Vec<ConversationNode> = Vec::new();
        nodes.push(ConversationNode::new(root));
        ConversationTree { nodes }
    }

    /// Number of nodes.
    pub fn len(&self) -> (r: usize)
        ensures
            r == self.view_nodes().len(),
    {
        self.nodes.len()
    }

    /// The node at an index.
    pub fn node(&self, i: usize) -> (r: &ConversationNode)
        requires
            i < self.view_nodes().len(),
        ensures
            *r == self.view_nodes()[i as int],
    {
        &self.nodes[i]
    }

    /// Appends a reply under a parent and returns its index.
    pub fn add_child(&mut self, parent: usize, value: Message) -> (r: usize)
        requires
            old(self).wf(),
            parent < old(self).view_nodes().len(),
            old(self).view_nodes().len() < 1000000,
        ensures
            final(self).wf(),
            r == old(self).view_nodes().len(),
            final(self).view_nodes().len() == old(self).view_nodes().len() + 1,
            final(self).view_nodes()[r as int].message == value,
            final(self).view_nodes()[r as int].parent == Some(parent),
            final(self).view_nodes()[r as int].children@ =~= Seq::<usize>::empty(),
            final(self).view_nodes()[parent as int].children@ == old(self).view_nodes()[
                parent as int].children@.push(r),
            final(self).view_nodes()[parent as int].message == old(self).view_nodes()[
                parent as int].message,
            final(self).view_nodes()[parent as int].parent == old(self).view_nodes()[
                parent as int].parent,
            forall|i: int|
                0 <= i < old(self).view_nodes().len() && i != parent
                    ==> final(self).view_nodes()[i] == #[trigger] old(self).view_nodes()[i],
    {
        let ghost oldns = self.nodes@;
        let idx = self.nodes.len();
        let child = ConversationNode { message: value, parent: Some(parent), children: Vec::new() };
        self.nodes.push(child);
        let mut kids: Vec<usize> = Vec::new();
        let mut k: usize = 0;
        while k < self.nodes[parent].children.len()
            invariant
                parent < self.nodes@.len(),
                k <= self.nodes@[parent as int].children@.len(),
                kids@ == self.nodes@[parent as int].children@.take(k as int),
            decreases self.nodes@[parent as int].children@.len() - k,
        {
            kids.push(self.nodes[parent].children[k]);
            proof {
                assert(kids@ =~= self.nodes@[parent as int].children@.take(k + 1));
            }
            k = k + 1;
        }
        proof {
            assert(self.nodes@[parent as int].children@.take(
                self.nodes@[parent as int].children@.len() as int,
            ) =~= self.nodes@[parent as int].children@);
        }
        kids.push(idx);
        let role = self.nodes[parent].message.role;
        let content = self.nodes[parent].message.content.clone();
        let parent_opt = self.nodes[parent].parent;
        let replacement = ConversationNode {
            message: Message { role, content },
            parent: parent_opt,
            children: kids,
        };
        self.nodes.set(parent, replacement);
        proof {
            let ns = self.nodes@;
            assert(ns[parent as int].message == oldns[parent as int].message);
            assert(ns[idx as int].children@ =~= Seq::<usize>::empty());
            assert forall|i: int|
                0 <= i < ns.len() implies ((#[trigger] ns[i]).parent matches Some(p) ==> (
            p as int) < i) by {
                if i < oldns.len() && i != parent {
                    assert(ns[i] == oldns[i]);
                }
            }
            assert forall|i: int, k2: int|
                0 <= i < ns.len() && 0 <= k2 < ns[i].children@.len() implies i < ((
            #[trigger] ns[i].children@[k2]) as int) && (ns[i].children@[k2] as int) < ns.len() by {
                if i < oldns.len() && i != parent {
                    assert(ns[i] == oldns[i]);
                } else if i == parent {
                    if k2 < oldns[parent as int].children@.len() {
                        assert(ns[i].children@[k2] == oldns[parent as int].children@[k2]);
                    } else {
                        assert(ns[i].children@[k2] == idx);
                    }
                }
            }
        }
        idx
    }

    /// Replaces the message a node holds.
    pub fn set_value(&mut self, node: usize, new_value: Message)
        requires
            old(self).wf(),
            node < old(self).view_nodes().len(),
        ensures
            final(self).wf(),
            final(self).view_nodes().len() == old(self).view_nodes().len(),
            final(self).view_nodes()[node as int].message == new_value,
            final(self).view_nodes()[node as int].parent == old(self).view_nodes()[
                node as int].parent,
            final(self).view_nodes()[node as int].children@ == old(self).view_nodes()[
                node as int].children@,
            forall|i: int|
                0 <= i < old(self).view_nodes().len() && i != node ==> final(self).view_nodes()[i]
                    == #[trigger] old(self).view_nodes()[i],
    {
        let ghost oldns = self.nodes@;
        let mut kids: Vec<usize> = Vec::new();
        let mut k: usize = 0;
        while k < self.nodes[node].children.len()
            invariant
                node < self.nodes@.len(),
                k <= self.nodes@[node as int].children@.len(),
                kids@ == self.nodes@[node as int].children@.take(k as int),
            decreases self.nodes@[node as int].children@.len() - k,
        {
            kids.push(self.nodes[node].children[k]);
            proof {
                assert(kids@ =~= self.nodes@[node as int].children@.take(k + 1));
            }
            k = k + 1;
        }
        proof {
            assert(self.nodes@[node as int].children@.take(
                self.nodes@[node as int].children@.len() as int,
            ) =~= self.nodes@[node as int].children@);
        }
        let parent_opt = self.nodes[node].parent;
        let replacement = ConversationNode { message: new_value, parent: parent_opt, children: kids };
        self.nodes.set(node, replacement);
        proof {
            let ns = self.nodes@;
            assert forall|i: int|
                0 <= i < ns.len() implies ((#[trigger] ns[i]).parent matches Some(p) ==> (
            p as int) < i) by {
                if i != node {
                    assert(ns[i] == oldns[i]);
                }
            }
            assert forall|i: int, k2: int|
                0 <= i < ns.len() && 0 <= k2 < ns[i].children@.len() implies i < ((
            #[trigger] ns[i].children@[k2]) as int) && (ns[i].children@[k2] as int) < ns.len() by {
                if i != node {
                    assert(ns[i] == oldns[i]);
                } else {
                    assert(ns[i].children@[k2] == oldns[node as int].children@[k2]);
                }
            }
        }
    }

    /// How deep a node sits under the root.
    pub fn get_depth(&self, node: usize) -> (r: usize)
        requires
            self.wf(),
            node < self.view_nodes().len(),
        ensures
            r as int == depth_of(self.view_nodes(), node as int),
    {
        let ghost ns = self.view_nodes();
        let mut cur = node;
        let mut d: usize = 0;
        proof {
            lemma_depth_bounded(ns, node as int);
        }
        while self.nodes[cur].parent.is_some()
            invariant
                self.wf(),
                ns == self.view_nodes(),
                cur < ns.len(),
                node < ns.len(),
                d + depth_of(ns, cur as int) == depth_of(ns, node as int),
                depth_of(ns, cur as int) <= cur,
                depth_of(ns, node as int) <= node,
                d <= node,
            decreases cur,
        {
            let p = match self.nodes[cur].parent {
                Some(p) => p,
                None => 0,
            };
            proof {
                assert((#[trigger] ns[cur as int]).parent matches Some(pp) ==> (pp as int)
                    < cur as int);
                assert((p as int) < cur as int);
                assert(depth_of(ns, cur as int) == 1 + depth_of(ns, p as int));
                lemma_depth_bounded(ns, p as int);
                assert(depth_of(ns, p as int) >= 0);
            }
            cur = p;
            d = d + 1;
        }
        d
    }

    /// The root above a node.
    pub fn get_root_node(&self, node: usize) -> (r: usize)
        requires
            self.wf(),
            node < self.view_nodes().len(),
        ensures
            r as int == root_of(self.view_nodes(), node as int),
            r < self.view_nodes().len(),
    {
        let ghost ns = self.view_nodes();
        let mut cur = node;
        while self.nodes[cur].parent.is_some()
            invariant
                self.wf(),
                ns == self.view_nodes(),
                cur < ns.len(),
                root_of(ns, cur as int) == root_of(ns, node as int),
            decreases cur,
        {
            let p = match self.nodes[cur].parent {
                Some(p) => p,
                None => 0,
            };
            proof {
                assert((#[trigger] ns[cur as int]).parent matches Some(pp) ==> (pp as int)
                    < cur as int);
                assert(root_of(ns, cur as int) == root_of(ns, p as int));
            }
            cur = p;
        }
        cur
    }

    /// The indices from the root down to a node, oldest first.
    pub fn get_parent_nodes(&self, node: usize) -> (r: Vec<usize>)
        requires
            self.wf(),
            node < self.view_nodes().len(),
        ensures
            r@.map_values(|u: usize| u as int) == path_of(self.view_nodes(), node as int),
            forall|k: int| 0 <= k < r@.len() ==> (#[trigger] r@[k]) < self.view_nodes().len(),
    {
        let ghost ns = self.view_nodes();
        let mut v: Vec<usize> = Vec::new();
        let mut cur = node;
        loop
            invariant_except_break
                self.wf(),
                ns == self.view_nodes(),
                cur < ns.len(),
                path_of(ns, node as int) == path_of(ns, cur as int) + v@.map_values(
                    |u: usize| u as int,
                ),
                forall|k: int| 0 <= k < v@.len() ==> (#[trigger] v@[k]) < ns.len(),
            ensures
                v@.map_values(|u: usize| u as int) == path_of(ns, node as int),
                forall|k: int| 0 <= k < v@.len() ==> (#[trigger] v@[k]) < ns.len(),
            decreases cur,
        {
            let ghost old_v = v@;
            v.insert(0, cur);
            proof {
                assert(v@.map_values(|u: usize| u as int) =~= seq![cur as int] + old_v.map_values(
                    |u: usize| u as int,
                ));
            }
            match self.nodes[cur].parent {
                Some(p) => {
                    proof {
                        assert((#[trigger] ns[cur as int]).parent matches Some(pp) ==> (
                        pp as int) < cur as int);
                        assert(path_of(ns, cur as int) == path_of(ns, p as int).push(cur as int));
                        assert(path_of(ns, p as int).push(cur as int) + old_v.map_values(
                            |u: usize| u as int,
                        ) =~= path_of(ns, p as int) + (seq![cur as int] + old_v.map_values(
                            |u: usize| u as int,
                        )));
                    }
                    cur = p;
                },
                None => {
                    proof {
                        assert(path_of(ns, cur as int) == seq![cur as int]);
                        assert(path_of(ns, node as int) =~= v@.map_values(|u: usize| u as int));
                    }
                    break;
                },
            }
        }
        v
    }

    /// The chat context from the root down to a node: each message with
    /// its transport role tag, oldest first.
    pub fn get_conversation_context(&self, node: usize) -> (r: Vec<MessageFormat>)
        requires
            self.wf(),
            node < self.view_nodes().len(),
        ensures
            ({
                let path = path_of(self.view_nodes(), node as int);
                &&& r@.len() == path.len()
                &&& forall|k: int|
                    0 <= k < path.len() ==> (#[trigger] r@[k]).role@ == role_tag(
                        self.view_nodes()[path[k]].message.role,
                    ) && r@[k].content@ == self.view_nodes()[path[k]].message.content@
            }),
    {
        let ghost ns = self.view_nodes();
        let ghost path = path_of(ns, node as int);
        let idxs = self.get_parent_nodes(node);
        let mut out: Vec<MessageFormat> = Vec::new();
        let mut i: usize = 0;
        while i < idxs.len()
            invariant
                self.wf(),
                ns == self.view_nodes(),
                path == path_of(ns, node as int),
                idxs@.map_values(|u: usize| u as int) == path,
                forall|k: int| 0 <= k < idxs@.len() ==> (#[trigger] idxs@[k]) < ns.len(),
                i <= idxs@.len(),
                out@.len() == i,
                forall|k: int|
                    0 <= k < i ==> (#[trigger] out@[k]).role@ == role_tag(
                        ns[path[k]].message.role,
                    ) && out@[k].content@ == ns[path[k]].message.content@,
            decreases idxs@.len() - i,
        {
            let idx = idxs[i];
            proof {
                assert(path[i as int] == idxs@.map_values(|u: usize| u as int)[i as int]);
            }
            let role_str = match self.nodes[idx].message.role {
                Role::User => chars_to_owned("user"),
                Role::System => chars_to_owned("system"),
                Role::Assistant => chars_to_owned("assistant"),
            };
            let content = chars_to_owned(self.nodes[idx].message.content.as_str());
            out.push(MessageFormat { role: role_str, content });
            i = i + 1;
        }
        out
    }

    /// The nodes where the conversation branches: two or more replies.
    pub fn get_branching_points(&self) -> (r: Vec<usize>)
        requires
            self.wf(),
        ensures
            forall|k: int|
                0 <= k < r@.len() ==> (#[trigger] r@[k]) < self.view_nodes().len()
                    && self.view_nodes()[r@[k] as int].children@.len() >= 2,
            forall|i: int|
                0 <= i < self.view_nodes().len() && (#[trigger] self.view_nodes()[
                i]).children@.len() >= 2 ==> exists|k: int| 0 <= k < r@.len() && r@[k] as int == i,
            forall|k: int, l: int| 0 <= k < l < r@.len() ==> (#[trigger] r@[k]) < (#[trigger] r@[l]),
    {
        let mut out: Vec<usize> = Vec::new();
        let mut i: usize = 0;
        while i < self.nodes.len()
            invariant
                self.wf(),
                i <= self.view_nodes().len(),
                forall|k: int|
                    0 <= k < out@.len() ==> (#[trigger] out@[k]) < self.view_nodes().len()
                        && self.view_nodes()[out@[k] as int].children@.len() >= 2,
                forall|j: int|
                    0 <= j < i && (#[trigger] self.view_nodes()[j]).children@.len() >= 2
                        ==> exists|k: int| 0 <= k < out@.len() && out@[k] as int == j,
                forall|k: int| 0 <= k < out@.len() ==> (#[trigger] out@[k]) < i,
                forall|k: int, l: int|
                    0 <= k < l < out@.len() ==> (#[trigger] out@[k]) < (#[trigger] out@[l]),
            decreases self.view_nodes().len() - i,
        {
            if self.nodes[i].children.len() >= 2 {
                let ghost old_out = out@;
                out.push(i);
                proof {
                    assert(forall|k: int| 0 <= k < old_out.len() ==> out@[k] == old_out[k]);
                    assert(out@[old_out.len() as int] == i);
                    assert forall|j: int|
                        0 <= j < i + 1 && (#[trigger] self.view_nodes()[j]).children@.len() >= 2
                            implies exists|k: int| 0 <= k < out@.len() && out@[k] as int == j by {
                        if j < i {
                            let k0 = choose|k0: int|
                                0 <= k0 < old_out.len() && old_out[k0] as int == j;
                            assert(out@[k0] as int == j);
                        } else {
                            assert(out@[old_out.len() as int] as int == j);
                        }
                    }
                }
            }
            i = i + 1;
        }
        out
    }
}

/// A node's depth never exceeds its index.
proof fn lemma_depth_bounded(ns: Seq<ConversationNode>, i: int)
    ensures
        depth_of(ns, i) <= if i >= 0 {
            i
        } else {
            0
        },
        depth_of(ns, i) >= 0,
    decreases i,
{
    if 0 <= i < ns.len() {
        match ns[i].parent {
            Some(p) => {
                if (p as int) < i {
                    lemma_depth_bounded(ns, p as int);
                }
            },
            None => {},
        }
    }
}

} // verus!
