use reactive_ui::dom::{
    hd, ordered_children, t, DomChildren, DomFactories, InsertBefore, VDom, VDomElement, VDomNode,
};
use reactive_ui::dom::v_dom_node::index_key;
use reactive_ui::renderer::FactoryId;
use reactive_ui::v_node::VNode;

/// The children of one DOM parent, as the document holds them.
struct Document {
    children: Vec<usize>,
}

impl Document {
    fn apply(&mut self, command: &InsertBefore) {
        self.children.retain(|node| *node != command.node);
        let at = match command.reference {
            Some(reference) => self.children.iter().position(|node| *node == reference).unwrap(),
            None => self.children.len(),
        };
        self.children.insert(at, command.node);
    }

    fn apply_all(&mut self, commands: &[InsertBefore]) {
        for command in commands {
            self.apply(command);
        }
    }
}

const HOST: FactoryId = FactoryId::Host(0);

#[test]
fn numerals_key_the_children_by_position() {
    assert_eq!(index_key(0), "0");
    assert_eq!(index_key(7), "7");
    assert_eq!(index_key(10), "10");
    assert_eq!(index_key(409), "409");
    assert_eq!(index_key(18446744073709551615), "18446744073709551615");
    let children: Vec<VDomNode<()>> = vec![t("a"), t("b"), t("c")];
    match *ordered_children(children) {
        VNode::Fragment(keyed) => {
            let keys: Vec<&str> = keyed.iter().map(|(key, _)| key.as_str()).collect();
            assert_eq!(keys, vec!["0", "1", "2"]);
            let texts: Vec<String> = keyed
                .into_iter()
                .map(|(_, node)| match node {
                    VNode::Native(VDom::Text(text)) => text,
                    _ => unreachable!(),
                })
                .collect();
            assert_eq!(texts, vec!["a", "b", "c"]);
        }
        _ => panic!("ordered children are a fragment"),
    }
    assert!(matches!(*ordered_children(Vec::<VDomNode<()>>::new()), VNode::Fragment(keyed) if keyed.is_empty()));
}

#[test]
fn an_element_node_holds_the_element() {
    let element: VDomElement<()> = VDomElement {
        tag_name: String::from("div"),
        listeners: vec![],
        attributes: vec![(String::from("class"), String::from("root"))],
        style: vec![],
        children: ordered_children(vec![t("x")]),
        ref_object: None,
    };
    match hd(element) {
        VNode::Native(VDom::Element(element)) => {
            assert_eq!(element.tag_name, "div");
            assert_eq!(element.attributes.len(), 1);
        }
        _ => panic!("an element node is native"),
    }
}

#[test]
fn new_nodes_go_where_the_cursor_stands() {
    let mut lists = DomFactories::new();
    let mut document = Document { children: vec![] };
    let root = lists.add_root(HOST);
    assert_eq!(root, 0);
    for node in [10, 11, 12] {
        let command = lists.make_native_mount(root, node).unwrap();
        assert_eq!(command, InsertBefore { parent: HOST, node, reference: None });
        document.apply(&command);
    }
    assert_eq!(document.children, vec![10, 11, 12]);
    assert_eq!(lists.collect_dom(root), vec![10, 11, 12]);
    assert_eq!(lists.cursor(root), 3);

    lists.reset_scanner(root);
    assert_eq!(lists.cursor(root), 0);
    let command = lists.make_native_mount(root, 13).unwrap();
    assert_eq!(command, InsertBefore { parent: HOST, node: 13, reference: Some(10) });
    document.apply(&command);
    assert_eq!(document.children, vec![13, 10, 11, 12]);
    assert_eq!(lists.collect_dom(root), document.children);
    assert_eq!(lists.cursor(root), 1);
}

#[test]
fn a_scan_that_finds_every_node_in_place_moves_nothing() {
    let mut lists = DomFactories::new();
    let root = lists.add_root(HOST);
    for node in [10, 11, 12] {
        let _ = lists.make_native_mount(root, node);
    }
    lists.reset_scanner(root);
    for node in [10, 11, 12] {
        assert!(!lists.is_out_of_place(root, DomChildren::Dom(node)));
        assert_eq!(lists.maybe_update_native_mount_sequence(root, node), None);
    }
    assert_eq!(lists.collect_dom(root), vec![10, 11, 12]);
    assert_eq!(lists.cursor(root), 3);
}

#[test]
fn a_scan_in_another_order_moves_nodes_forward() {
    let mut lists = DomFactories::new();
    let mut document = Document { children: vec![] };
    let root = lists.add_root(HOST);
    for node in [10, 11, 12] {
        document.apply(&lists.make_native_mount(root, node).unwrap());
    }
    lists.reset_scanner(root);
    let first = lists.maybe_update_native_mount_sequence(root, 12).unwrap();
    assert_eq!(first, InsertBefore { parent: HOST, node: 12, reference: Some(10) });
    document.apply(&first);
    assert_eq!(lists.maybe_update_native_mount_sequence(root, 10), None);
    assert_eq!(lists.maybe_update_native_mount_sequence(root, 11), None);
    assert_eq!(document.children, vec![12, 10, 11]);
    assert_eq!(lists.collect_dom(root), document.children);
}

#[test]
fn the_nodes_of_a_component_stand_where_its_list_stands() {
    let mut lists = DomFactories::new();
    let mut document = Document { children: vec![] };
    let root = lists.add_root(HOST);
    document.apply(&lists.make_native_mount(root, 10).unwrap());
    let first = lists.component_native_mount_factory(root);
    let second = lists.component_native_mount_factory(root);
    document.apply(&lists.make_native_mount(root, 11).unwrap());
    assert_eq!((first, second), (1, 2));
    assert_eq!(
        lists.factories[root].dom_children,
        vec![
            DomChildren::Dom(10),
            DomChildren::Component(first),
            DomChildren::Component(second),
            DomChildren::Dom(11),
        ]
    );

    // the second component renders first: its nodes go before node 11
    let command = lists.make_native_mount(second, 20).unwrap();
    assert_eq!(command, InsertBefore { parent: HOST, node: 20, reference: Some(11) });
    document.apply(&command);
    let command = lists.make_native_mount(second, 21).unwrap();
    assert_eq!(command, InsertBefore { parent: HOST, node: 21, reference: Some(11) });
    document.apply(&command);
    // the first component's nodes go before those of the second
    let command = lists.make_native_mount(first, 30).unwrap();
    assert_eq!(command, InsertBefore { parent: HOST, node: 30, reference: Some(20) });
    document.apply(&command);
    // a list inside the first component, after node 30
    let inner = lists.component_native_mount_factory(first);
    let command = lists.make_native_mount(inner, 40).unwrap();
    assert_eq!(command, InsertBefore { parent: HOST, node: 40, reference: Some(20) });
    document.apply(&command);

    assert_eq!(document.children, vec![10, 30, 40, 20, 21, 11]);
    assert_eq!(lists.collect_dom(root), document.children);
    assert_eq!(lists.collect_dom(first), vec![30, 40]);
    assert_eq!(lists.get_first_dom(first), Some(30));
    assert_eq!(lists.get_first_dom(inner), Some(40));
    assert_eq!(lists.get_first_dom(root), Some(10));
    assert_eq!(lists.get_first_dom_from(root, 1), Some(30));
    assert_eq!(lists.get_dom_at(inner, 1), Some(20));
    assert_eq!(lists.get_dom_at(second, 2), Some(11));
    assert_eq!(lists.get_dom_at(root, 4), None);
    assert_eq!(lists.get_first_dom_after(root, second), Some(11));
    assert_eq!(lists.get_first_dom_after(root, first), Some(20));
    assert_eq!(lists.get_first_dom_after(first, inner), Some(20));
    assert!(lists.can_remove(root, DomChildren::Component(second)));
    assert!(!lists.can_remove(root, DomChildren::Component(77)));
}

#[test]
fn an_empty_list_is_passed_over() {
    let mut lists = DomFactories::new();
    let root = lists.add_root(HOST);
    let empty = lists.component_native_mount_factory(root);
    let _ = lists.make_native_mount(root, 10);
    assert_eq!(lists.get_first_dom(empty), None);
    assert_eq!(lists.get_first_dom(root), Some(10));
    assert_eq!(lists.get_dom_at(empty, 0), Some(10));
    assert_eq!(lists.get_first_dom(9), None);
    assert_eq!(lists.get_dom_at(9, 0), None);
    assert_eq!(lists.collect_dom(9), Vec::<usize>::new());
}

#[test]
fn moving_a_list_moves_all_its_nodes_in_order() {
    let mut lists = DomFactories::new();
    let mut document = Document { children: vec![] };
    let root = lists.add_root(HOST);
    let first = lists.component_native_mount_factory(root);
    let second = lists.component_native_mount_factory(root);
    for (list, node) in [(first, 10), (first, 11), (second, 20), (second, 21)] {
        document.apply(&lists.make_native_mount(list, node).unwrap());
    }
    assert_eq!(document.children, vec![10, 11, 20, 21]);

    lists.reset_scanner(root);
    let commands = lists.maybe_update_component_mount_sequence(root, second);
    assert_eq!(
        commands,
        vec![
            InsertBefore { parent: HOST, node: 20, reference: Some(10) },
            InsertBefore { parent: HOST, node: 21, reference: Some(10) },
        ]
    );
    document.apply_all(&commands);
    assert!(lists.maybe_update_component_mount_sequence(root, first).is_empty());
    assert_eq!(document.children, vec![20, 21, 10, 11]);
    assert_eq!(lists.collect_dom(root), document.children);
    assert_eq!(
        lists.factories[root].dom_children,
        vec![DomChildren::Component(second), DomChildren::Component(first)]
    );
}

#[test]
fn an_entry_is_placed_only_before_where_it_stands() {
    let mut lists = DomFactories::new();
    let root = lists.add_root(HOST);
    for node in [10, 11, 12] {
        assert!(lists.can_place(root, lists.cursor(root), DomChildren::Dom(node)));
        let _ = lists.make_native_mount(root, node);
    }
    // an entry that stands at or before the place
    assert!(!lists.can_place(root, 2, DomChildren::Dom(10)));
    assert!(!lists.can_place(root, 1, DomChildren::Dom(11)));
    assert!(!lists.can_place(root, 2, DomChildren::Dom(12)));
    assert!(lists.can_place(root, 1, DomChildren::Dom(12)));
    // a place beyond the end
    assert!(!lists.can_place(root, 4, DomChildren::Dom(13)));
    assert!(!lists.can_place(root, 3, DomChildren::Dom(12)));
    assert!(lists.can_place(root, 3, DomChildren::Dom(13)));
    // a list that does not exist: nothing happens
    assert!(lists.can_place(9, 0, DomChildren::Component(1)));
    assert!(lists.insert_dom_factory_at(9, 0, 1).is_empty());
    assert_eq!(lists.insert_at(9, 0, 13), None);
    assert_eq!(lists.collect_dom(root), vec![10, 11, 12]);

    assert_eq!(
        lists.insert_at(root, 3, 13),
        Some(InsertBefore { parent: HOST, node: 13, reference: None })
    );
    assert_eq!(lists.collect_dom(root), vec![10, 11, 12, 13]);
    assert!(lists.can_place(root, 1, DomChildren::Dom(13)));
    assert_eq!(
        lists.insert_at(root, 1, 13),
        Some(InsertBefore { parent: HOST, node: 13, reference: Some(11) })
    );
    assert_eq!(lists.collect_dom(root), vec![10, 13, 11, 12]);
}

#[test]
fn an_entry_that_the_scan_has_passed_cannot_be_seen_to_again() {
    let mut lists = DomFactories::new();
    let root = lists.add_root(HOST);
    let child = lists.component_native_mount_factory(root);
    for node in [10, 11] {
        let _ = lists.make_native_mount(root, node);
    }
    lists.reset_scanner(root);
    assert!(lists.can_sequence(root, DomChildren::Dom(11)));
    assert!(lists.maybe_update_native_mount_sequence(root, 11).is_some());
    assert_eq!(lists.cursor(root), 1);
    // the node 11 stands before the cursor now
    assert!(!lists.can_sequence(root, DomChildren::Dom(11)));
    // the list stands at the cursor, the node 10 behind it, a new node nowhere
    assert!(lists.can_sequence(root, DomChildren::Component(child)));
    assert!(lists.can_sequence(root, DomChildren::Dom(10)));
    assert!(lists.can_sequence(root, DomChildren::Dom(12)));
    assert!(lists.can_sequence(9, DomChildren::Dom(12)));
    assert!(lists.maybe_update_component_mount_sequence(root, child).is_empty());
    assert!(!lists.can_sequence(root, DomChildren::Component(child)));
    assert_eq!(lists.maybe_update_native_mount_sequence(root, 10), None);
    assert_eq!(lists.cursor(root), 3);
    assert_eq!(
        lists.factories[root].dom_children,
        vec![DomChildren::Dom(11), DomChildren::Component(child), DomChildren::Dom(10)]
    );
}

#[test]
fn removing_an_entry_before_the_cursor_keeps_the_cursor_on_its_entry() {
    let mut lists = DomFactories::new();
    let root = lists.add_root(HOST);
    let child = lists.component_native_mount_factory(root);
    for node in [10, 11, 12] {
        let _ = lists.make_native_mount(root, node);
    }
    lists.reset_scanner(root);
    let _ = lists.maybe_update_component_mount_sequence(root, child);
    let _ = lists.maybe_update_native_mount_sequence(root, 10);
    assert_eq!(lists.cursor(root), 2);
    lists.remove_dom_child(root, 10);
    assert_eq!(lists.cursor(root), 1);
    lists.remove_dom_child(root, 12);
    assert_eq!(lists.cursor(root), 1);
    assert!(!lists.can_remove(root, DomChildren::Dom(99)));
    assert!(lists.can_remove(root, DomChildren::Dom(11)));
    assert!(lists.can_remove(9, DomChildren::Dom(11)));
    lists.remove_dom_child(9, 11);
    assert_eq!(lists.collect_dom(root), vec![11]);
    assert!(lists.can_unmount(child));
    lists.on_unmount(child);
    assert_eq!(lists.cursor(root), 0);
    assert_eq!(lists.factories[root].dom_children, vec![DomChildren::Dom(11)]);
    assert!(!lists.can_unmount(child));
    assert!(!lists.can_remove(root, DomChildren::Component(child)));
    assert!(lists.can_unmount(root));
    assert!(lists.can_unmount(9));
    lists.on_unmount(root);
    lists.on_unmount(9);
    assert_eq!(lists.factories[root].dom_children, vec![DomChildren::Dom(11)]);
    assert_eq!(lists.position(root, DomChildren::Dom(11)), 0);
    assert_eq!(lists.position(root, DomChildren::Dom(12)), 1);
    assert_eq!(lists.len(), 2);
}
