use crowbar::conversation::{ConversationTree, ConversationNode, Message, Role};

#[test]
fn roles_have_their_names() {
    assert_eq!(Role::User.to_string(), "User");
    assert_eq!(Role::System.to_string(), "System");
    assert_eq!(Role::Assistant.to_string(), "Assistant");
}

#[test]
fn messages_carry_and_append_content() {
    let mut m = Message::new(Role::User, "hello");
    assert_eq!(m.get_role(), Role::User);
    assert_eq!(m.get_content(), "hello");
    m.append_message_content(" there");
    assert_eq!(m.get_content(), "hello there");
}

#[test]
fn fresh_nodes_are_roots() {
    let n = ConversationNode::new(Message::new(Role::System, "prompt"));
    assert!(n.get_parent_ref().is_none());
    assert!(n.get_children_ref().is_empty());
    assert_eq!(n.borrow_message().get_content(), "prompt");
}

#[test]
fn tree_walks_rebuild_the_context() {
    let mut tree = ConversationTree::new(Message::new(Role::System, "You are terse."));
    let q = tree.add_child(0, Message::new(Role::User, "hi"));
    let a = tree.add_child(q, Message::new(Role::Assistant, "hello"));
    let q2 = tree.add_child(a, Message::new(Role::User, "bye"));
    assert_eq!(tree.len(), 4);
    assert_eq!(tree.get_depth(0), 0);
    assert_eq!(tree.get_depth(q2), 3);
    assert_eq!(tree.get_root_node(q2), 0);
    assert_eq!(tree.get_parent_nodes(q2), vec![0, q, a, q2]);
    let ctx = tree.get_conversation_context(q2);
    assert_eq!(ctx.len(), 4);
    assert_eq!(ctx[0].role, "system");
    assert_eq!(ctx[1].role, "user");
    assert_eq!(ctx[2].role, "assistant");
    assert_eq!(ctx[3].content, "bye");
}

#[test]
fn branching_points_are_the_forks() {
    let mut tree = ConversationTree::new(Message::new(Role::System, "root"));
    let q = tree.add_child(0, Message::new(Role::User, "q"));
    tree.add_child(q, Message::new(Role::Assistant, "draft one"));
    tree.add_child(q, Message::new(Role::Assistant, "draft two"));
    let forks = tree.get_branching_points();
    assert_eq!(forks, vec![q]);
}

#[test]
fn set_value_replaces_one_message() {
    let mut tree = ConversationTree::new(Message::new(Role::System, "root"));
    let q = tree.add_child(0, Message::new(Role::User, "first"));
    tree.set_value(q, Message::new(Role::User, "edited"));
    assert_eq!(tree.node(q).borrow_message().get_content(), "edited");
    assert_eq!(tree.node(0).borrow_message().get_content(), "root");
}
