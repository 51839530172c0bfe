use reactive_ui::renderer::{ComponentMount, FactoryId, Mount, Runtime};
use reactive_ui::scope::{update, ComponentScope, ContextArena, NilRef, Scope};
use reactive_ui::v_node::{ct, h, ComponentModel, VNode};
use reactive_ui::value::Value;
use std::collections::{HashMap, HashSet};

const NUMBER: u64 = 10;
const PROVIDED: [u64; 2] = [20, 21];

/// A source of numbers that is the same on every run.
#[derive(Clone)]
struct Dice {
    state: u64,
}

impl Dice {
    fn new(seed: u64) -> Dice {
        Dice { state: seed.wrapping_mul(0x9E3779B97F4A7C15) ^ 0xD1B54A32D192ED03 }
    }

    fn roll(&mut self, sides: u64) -> u64 {
        self.state = self.state.wrapping_mul(6364136223846793005).wrapping_add(1442695040888963407);
        (self.state >> 33) % sides
    }
}

/// A component that renders a tree which its kind, its props and its state
/// decide. `provided` says which context types stand above it.
#[derive(Clone)]
struct Widget {
    kind: u64,
    props: u8,
    depth: u8,
    provided: [bool; 2],
}

type Node = VNode<String, Widget>;

impl Widget {
    fn tree(&self, dice: &mut Dice, depth: u8, provided: [bool; 2]) -> Node {
        let choice = if depth >= 4 { dice.roll(2) } else { dice.roll(6) };
        match choice {
            0 => VNode::Native(format!("n{}", dice.roll(3))),
            1 => h(
                Widget {
                    kind: 100 + dice.roll(3),
                    props: dice.roll(3) as u8,
                    depth: depth + 1,
                    provided,
                },
                None,
            ),
            2 | 3 => {
                let mut keys: Vec<u64> = (0..5).collect();
                let mut children = Vec::new();
                for _ in 0..dice.roll(5) {
                    let key = keys.remove(dice.roll(keys.len() as u64) as usize);
                    children.push((format!("k{}", key), self.tree(dice, depth + 1, provided)));
                }
                VNode::Fragment(children)
            }
            4 => {
                let which = dice.roll(2) as usize;
                let mut below = provided;
                below[which] = true;
                ct(
                    Value::new(PROVIDED[which], vec![dice.roll(2) as u8]),
                    self.tree(dice, depth + 1, below),
                )
            }
            _ => {
                let which = dice.roll(2) as usize;
                if provided[which] {
                    h(
                        Widget { kind: 200 + which as u64, props: 0, depth: depth + 1, provided },
                        None,
                    )
                } else {
                    VNode::Native(String::from("nobody provides"))
                }
            }
        }
    }
}

impl ComponentModel<String> for Widget {
    fn type_token(&self) -> u64 {
        self.kind
    }

    fn same(&self, other: &Self) -> bool {
        self.props == other.props
    }

    fn render(
        &self,
        scope: &mut ComponentScope,
        contexts: &mut ContextArena,
        _self_ref: &NilRef,
    ) -> Node {
        assert!(scope.state_ready(NUMBER));
        let (state, _) = scope.use_state(Value::new(NUMBER, vec![0]));
        assert!(scope.effect_ready(NUMBER));
        scope.use_effect(u64::from(self.props), Value::new(NUMBER, vec![state.bytes[0] % 2]));
        if self.kind >= 200 {
            let token = PROVIDED[(self.kind - 200) as usize];
            assert!(scope.context_ready(contexts, token));
            let value = scope.use_context(contexts, token).expect("a provider stands above");
            return VNode::Native(format!("reads {:?}", value.bytes));
        }
        let mut dice = Dice::new(
            self.kind * 1000 + u64::from(self.props) * 100 + u64::from(state.bytes[0]),
        );
        self.tree(&mut dice, self.depth, self.provided)
    }
}

/// Everything that a mount names: the components, the natives and the
/// providers.
fn named(mount: &Mount, components: &mut Vec<usize>, natives: &mut Vec<usize>, nodes: &mut Vec<usize>) {
    match mount {
        Mount::Component(id) => components.push(*id),
        Mount::Native(id) => natives.push(*id),
        Mount::Fragment(fragment) => {
            let mut keys = HashSet::new();
            for (key, child) in fragment.content.iter() {
                assert!(keys.insert(key.clone()), "a key stands once in a fragment");
                named(child, components, natives, nodes);
            }
        }
        Mount::Context(context) => {
            nodes.push(context.context_link);
            named(&context.children_mount, components, natives, nodes);
        }
    }
}

fn check(rt: &Runtime<String, Widget>, root: usize) {
    assert!(rt.is_settled());
    assert!(rt.is_live(root));
    let mut components = vec![root];
    let mut natives = Vec::new();
    let mut nodes = Vec::new();
    let mut next = 0;
    while next < components.len() {
        let id = components[next];
        next += 1;
        assert!(rt.is_live(id), "what is named is mounted");
        let component = rt.components[id].as_ref().unwrap();
        assert!(!component.scope.has_update(), "nothing is left dirty");
        assert!(component.scope.component_scope.has_init);
        assert_eq!(component.scope.component_scope.renderer, id);
        let before = components.len();
        named(component.content.as_ref().unwrap(), &mut components, &mut natives, &mut nodes);
        for child in &components[before..] {
            assert!(*child > id, "what a component mounts is younger than itself");
        }
        for effect in component.scope.effects_iter() {
            assert!(!effect.is_pending(), "every pending effect was handed out");
        }
    }
    let reached: HashSet<usize> = components.iter().cloned().collect();
    assert_eq!(reached.len(), components.len(), "a component stands at one place");
    for id in 0..rt.components.len() {
        assert_eq!(rt.is_live(id), reached.contains(&id), "what is mounted is named");
    }
    let live_natives: HashSet<usize> = natives.iter().cloned().collect();
    assert_eq!(live_natives.len(), natives.len());
    for id in 0..rt.natives.len() {
        assert_eq!(rt.natives[id].is_some(), live_natives.contains(&id));
    }
    let live_nodes: HashSet<usize> = nodes.iter().cloned().collect();
    assert_eq!(live_nodes.len(), nodes.len());
    let mut subscriptions: HashMap<usize, Vec<usize>> = HashMap::new();
    for id in components.iter() {
        let scope = &rt.components[*id].as_ref().unwrap().scope.component_scope;
        for hook in scope.context_hooks.hooks.iter() {
            assert!(live_nodes.contains(&hook.context_node), "a subscription is to a live provider");
            assert_eq!(rt.contexts.value(hook.context_node).type_token, hook.type_token);
            subscriptions.entry(hook.context_node).or_default().push(*id);
        }
    }
    for node in 0..rt.contexts.len() {
        let mut expected = subscriptions.remove(&node).unwrap_or_default();
        let mut found = rt.contexts.subscribers(node).clone();
        expected.sort();
        found.sort();
        assert_eq!(found, expected, "the subscribers are those that subscribed");
        if let Some(parent) = rt.contexts.parent(node) {
            assert!(parent < node);
        }
    }
}

#[test]
fn the_runtime_stays_consistent_through_any_sequence_of_updates() {
    for seed in 0..30 {
        let mut dice = Dice::new(seed);
        let mut rt: Runtime<String, Widget> = Runtime::new();
        let model = Widget { kind: 100, props: seed as u8, depth: 0, provided: [false, false] };
        let root = match h(model, None) {
            VNode::Component(element) => {
                ComponentMount::new(element, None, FactoryId::Host(0), &mut rt)
            }
            _ => unreachable!(),
        };
        assert!(rt.flush());
        check(&rt, root);
        for _ in 0..40 {
            let live: Vec<usize> = (0..rt.components.len()).filter(|id| rt.is_live(*id)).collect();
            let target = live[dice.roll(live.len() as u64) as usize];
            let handle =
                rt.components[target].as_ref().unwrap().scope.component_scope.state_hooks.hooks[0]
                    .handle;
            let value = Value::new(NUMBER, vec![dice.roll(4) as u8]);
            update(&mut rt, target, move |scope: &mut Scope| handle.update(scope, value));
            for command in rt.take_commands() {
                if let reactive_ui::renderer::EffectCommand::Run { renderer, index, effect } = command {
                    rt.keep_cleanup(renderer, index, Some(effect + 1000));
                }
            }
            let _ = rt.take_ops();
            check(&rt, root);
        }
        ComponentMount::unmount(root, &mut rt);
        for id in 0..rt.components.len() {
            assert!(!rt.is_live(id));
        }
        assert!(rt.natives.iter().all(|native| native.is_none()));
        for node in 0..rt.contexts.len() {
            assert!(rt.contexts.subscribers(node).is_empty());
        }
    }
}
