use reactive_ui::dom::{DomChildren, DomFactories, InsertBefore};
use reactive_ui::renderer::FactoryId;

/// The children of one DOM parent, as the document holds them.
struct Document {
    children: Vec<usize>,
}

impl Document {
    fn apply(&mut self, command: &InsertBefore) {
        self.children.retain(|node| *node != command.node);
        let at = match command.reference {
            Some(reference) => self
                .children
                .iter()
                .position(|node| *node == reference)
                .expect("the reference is in the document"),
            None => self.children.len(),
        };
        self.children.insert(at, command.node);
    }

    fn remove(&mut self, node: usize) {
        self.children.retain(|child| *child != node);
    }
}

/// A source of numbers that is the same on every run.
struct Dice {
    state: u64,
}

impl Dice {
    fn roll(&mut self, sides: usize) -> usize {
        self.state = self.state.wrapping_mul(6364136223846793005).wrapping_add(1442695040888963407);
        ((self.state >> 33) as usize) % sides
    }
}

/// Drives the sibling lists the way re-renders do and holds the document
/// against the flattened lists after every re-render.
struct Stage {
    lists: DomFactories,
    document: Document,
    next_node: usize,
    dice: Dice,
    root: usize,
}

impl Stage {
    fn tear_down(&mut self, list: usize, entry: DomChildren) {
        match entry {
            DomChildren::Dom(node) => {
                self.document.remove(node);
                assert!(self.lists.can_remove(list, DomChildren::Dom(node)));
                self.lists.remove_dom_child(list, node);
            }
            DomChildren::Component(inner) => {
                let entries = self.lists.factories[inner].dom_children.clone();
                for entry in entries {
                    self.tear_down(inner, entry);
                }
                assert!(self.lists.can_unmount(inner));
                self.lists.on_unmount(inner);
            }
        }
    }

    /// Re-renders `list`: some of its entries stay, in a new order, some
    /// leave, and new ones come.
    fn render(&mut self, list: usize, depth: usize) {
        let mut old = self.lists.factories[list].dom_children.clone();
        let mut declared = Vec::new();
        while !old.is_empty() {
            let entry = old.remove(self.dice.roll(old.len()));
            if self.dice.roll(4) != 0 {
                declared.push(Some(entry));
            } else {
                self.tear_down(list, entry);
            }
        }
        for _ in 0..self.dice.roll(3) {
            declared.insert(self.dice.roll(declared.len() + 1), None);
        }
        self.lists.reset_scanner(list);
        for entry in declared {
            match entry {
                Some(DomChildren::Dom(node)) => {
                    assert!(self.lists.can_sequence(list, DomChildren::Dom(node)));
                    if let Some(command) = self.lists.maybe_update_native_mount_sequence(list, node) {
                        self.document.apply(&command);
                    }
                }
                Some(DomChildren::Component(inner)) => {
                    assert!(self.lists.can_sequence(list, DomChildren::Component(inner)));
                    for command in self.lists.maybe_update_component_mount_sequence(list, inner) {
                        self.document.apply(&command);
                    }
                    if self.dice.roll(2) == 0 {
                        self.render(inner, depth + 1);
                    }
                }
                None => {
                    if depth < 3 && self.dice.roll(3) == 0 {
                        let cursor = self.lists.cursor(list);
                        let next = DomChildren::Component(self.lists.len());
                        assert!(self.lists.can_place(list, cursor, next));
                        let inner = self.lists.component_native_mount_factory(list);
                        self.render(inner, depth + 1);
                    } else {
                        let node = self.next_node;
                        self.next_node += 1;
                        let cursor = self.lists.cursor(list);
                        assert!(self.lists.can_place(list, cursor, DomChildren::Dom(node)));
                        let command = self.lists.make_native_mount(list, node).unwrap();
                        self.document.apply(&command);
                    }
                }
            }
            assert_eq!(self.lists.collect_dom(self.root), self.document.children);
        }
        assert_eq!(
            self.lists.cursor(list),
            self.lists.factories[list].dom_children.len()
        );
    }
}

#[test]
fn the_document_follows_the_lists_through_any_sequence_of_renders() {
    for seed in 0..40 {
        let mut lists = DomFactories::new();
        let root = lists.add_root(FactoryId::Host(0));
        let mut stage = Stage {
            lists,
            document: Document { children: vec![] },
            next_node: 0,
            dice: Dice { state: seed },
            root,
        };
        for _ in 0..60 {
            stage.render(root, 0);
            assert_eq!(stage.lists.collect_dom(root), stage.document.children);
            let mut seen = stage.document.children.clone();
            seen.sort();
            seen.dedup();
            assert_eq!(seen.len(), stage.document.children.len());
        }
    }
}
