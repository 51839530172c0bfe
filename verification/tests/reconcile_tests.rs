use reactive_ui::renderer::{
    ComponentMount, EffectCommand, FactoryId, Mount, NativeOp, Runtime,
};
use reactive_ui::scope::{
    queue_update, update, CallbackHandle, ComponentScope, ContextArena, NilRef, Scope, StateHandle,
};
use reactive_ui::v_node::{ct, h, ComponentModel, VComponentElement, VNode};
use reactive_ui::value::Value;
use std::cell::RefCell;
use std::rc::Rc;

const NUMBER: u64 = 10;
const TEXT: u64 = 11;

fn number(n: u8) -> Value {
    Value::new(NUMBER, vec![n])
}

fn text(s: &str) -> Value {
    Value::new(TEXT, s.as_bytes().to_vec())
}

type Node = VNode<String, Widget>;
type Render = Rc<dyn Fn(&Widget, &mut ComponentScope, &mut ContextArena) -> Node>;
type Log = Rc<RefCell<Vec<String>>>;

/// A component whose type, props and render function a test chooses.
#[derive(Clone)]
struct Widget {
    kind: u64,
    props: Vec<u8>,
    render: Render,
}

impl ComponentModel<String> for Widget {
    fn type_token(&self) -> u64 {
        self.kind
    }

    fn same(&self, other: &Self) -> bool {
        self.props == other.props
    }

    fn render(
        &self,
        scope: &mut ComponentScope,
        contexts: &mut ContextArena,
        _self_ref: &NilRef,
    ) -> Node {
        (self.render)(self, scope, contexts)
    }
}

fn widget(kind: u64, props: Vec<u8>, render: Render) -> Node {
    h(Widget { kind, props, render }, None)
}

fn native(s: &str) -> Node {
    VNode::Native(String::from(s))
}

fn keyed(children: Vec<(&str, Node)>) -> Node {
    VNode::Fragment(children.into_iter().map(|(key, node)| (String::from(key), node)).collect())
}

fn new_log() -> Log {
    Rc::new(RefCell::new(Vec::new()))
}

fn take(log: &Log) -> Vec<String> {
    std::mem::take(&mut *log.borrow_mut())
}

fn strings(items: &[&str]) -> Vec<String> {
    items.iter().map(|s| String::from(*s)).collect()
}

const LEAF: u64 = 100;
const OTHER_LEAF: u64 = 101;

/// A component with one state cell and one effect keyed on its first prop.
/// It shows its name, its prop and its state.
fn leaf_of_kind(kind: u64, name: &'static str, prop: u8, log: &Log) -> Node {
    let log = log.clone();
    widget(
        kind,
        vec![prop],
        Rc::new(move |model, scope, _| {
            log.borrow_mut().push(format!("render {}", name));
            let (count, _) = scope.use_state(number(0));
            scope.use_effect(u64::from(model.props[0]), number(model.props[0]));
            native(&format!("{}:{}:{}", name, model.props[0], count.bytes[0]))
        }),
    )
}

fn leaf(name: &'static str, prop: u8, log: &Log) -> Node {
    leaf_of_kind(LEAF, name, prop, log)
}

/// A component with one state cell that shows what `view` makes of it.
fn root(log: &Log, view: Rc<dyn Fn(u8) -> Node>) -> Node {
    let log = log.clone();
    widget(
        1,
        vec![],
        Rc::new(move |_, scope, _| {
            log.borrow_mut().push(String::from("render root"));
            let (state, _) = scope.use_state(number(0));
            view(state.bytes[0])
        }),
    )
}

fn mount_root(rt: &mut Runtime<String, Widget>, node: Node) -> usize {
    match node {
        VNode::Component(element) => {
            let id = ComponentMount::new(element, None, FactoryId::Host(0), rt);
            assert!(rt.flush());
            id
        }
        _ => unreachable!(),
    }
}

fn state_handle(rt: &Runtime<String, Widget>, id: usize) -> StateHandle {
    rt.components[id].as_ref().unwrap().scope.component_scope.state_hooks.hooks[0].handle
}

fn state_of(rt: &Runtime<String, Widget>, id: usize) -> u8 {
    rt.components[id].as_ref().unwrap().scope.component_scope.state_hooks.hooks[0].value.bytes[0]
}

fn set_state(rt: &mut Runtime<String, Widget>, id: usize, value: u8) {
    let handle = state_handle(rt, id);
    update(rt, id, move |scope: &mut Scope| handle.update(scope, number(value)));
}

fn show(op: &NativeOp<String>) -> String {
    fn f(factory: &FactoryId) -> String {
        match factory {
            FactoryId::Host(n) => format!("host{}", n),
            FactoryId::Component(n) => format!("c{}", n),
            FactoryId::Context(n) => format!("x{}", n),
            FactoryId::Native(n) => format!("n{}", n),
        }
    }
    match op {
        NativeOp::MakeFactory { parent, factory } => format!("open {} in {}", f(factory), f(parent)),
        NativeOp::MakeNative { factory, mount, node, .. } => {
            format!("make n{} '{}' in {}", mount, node, f(factory))
        }
        NativeOp::UpdateNative { factory, mount, node } => {
            format!("update n{} '{}' in {}", mount, node, f(factory))
        }
        NativeOp::SequenceNative { factory, mount } => format!("place n{} in {}", mount, f(factory)),
        NativeOp::SequenceFactory { parent, factory } => {
            format!("place {} in {}", f(factory), f(parent))
        }
        NativeOp::ResetScanner { factory } => format!("reset {}", f(factory)),
        NativeOp::UnmountNative { mount } => format!("remove n{}", mount),
        NativeOp::UnmountFactory { factory } => format!("close {}", f(factory)),
    }
}

fn take_ops(rt: &mut Runtime<String, Widget>) -> Vec<String> {
    rt.ops.drain(..).map(|op| show(&op)).collect()
}

fn take_commands(rt: &mut Runtime<String, Widget>) -> Vec<EffectCommand> {
    rt.commands.drain(..).collect()
}

#[test]
fn the_first_flush_renders_from_the_root_down() {
    let log = new_log();
    let inner = log.clone();
    let mut rt = Runtime::new();
    let id = mount_root(
        &mut rt,
        root(&log, Rc::new(move |_| keyed(vec![("a", leaf("a", 1, &inner)), ("b", native("text"))]))),
    );
    assert_eq!(id, 0);
    assert_eq!(take(&log), strings(&["render root", "render a"]));
    assert_eq!(
        take_ops(&mut rt),
        strings(&[
            "open c0 in host0",
            "reset c0",
            "open c1 in c0",
            "make n0 'text' in c0",
            "reset c1",
            "make n1 'a:1:0' in c1",
        ])
    );
    assert_eq!(
        take_commands(&mut rt),
        vec![EffectCommand::Run { renderer: 1, index: 0, effect: 1 }]
    );
    assert!(rt.is_settled());
    assert!(rt.is_live(0) && rt.is_live(1) && !rt.is_live(2));
    assert_eq!(rt.natives, vec![Some(None), Some(None)]);
}

#[test]
fn an_equal_model_is_not_rendered_again_and_keeps_everything() {
    let log = new_log();
    let inner = log.clone();
    let mut rt = Runtime::new();
    let id = mount_root(
        &mut rt,
        root(&log, Rc::new(move |_| keyed(vec![("a", leaf("a", 1, &inner))]))),
    );
    set_state(&mut rt, 1, 7);
    let _ = (take(&log), take_ops(&mut rt), take_commands(&mut rt));

    set_state(&mut rt, id, 1);
    assert_eq!(take(&log), strings(&["render root"]));
    assert_eq!(take_ops(&mut rt), strings(&["reset c0", "place c1 in c0"]));
    assert_eq!(take_commands(&mut rt), vec![]);
    assert_eq!(state_of(&rt, 1), 7);
    let child = rt.components[1].as_ref().unwrap();
    assert!(!child.scope.has_update());
    assert_eq!(child.scope.component_scope.state_hooks.hooks.len(), 1);
    assert_eq!(child.scope.component_scope.effect_hooks.hooks.len(), 1);
    assert!(!child.scope.component_scope.effect_hooks.hooks[0].is_pending());
    assert!(matches!(child.content, Some(Mount::Native(0))));
    assert_eq!(rt.components.len(), 2);
}

#[test]
fn another_model_of_the_same_type_is_rendered_with_its_hooks_kept() {
    let log = new_log();
    let inner = log.clone();
    let mut rt = Runtime::new();
    let id = mount_root(
        &mut rt,
        root(&log, Rc::new(move |state| keyed(vec![("a", leaf("a", state, &inner))]))),
    );
    set_state(&mut rt, 1, 7);
    let _ = (take(&log), take_ops(&mut rt), take_commands(&mut rt));

    set_state(&mut rt, id, 3);
    assert_eq!(take(&log), strings(&["render root", "render a"]));
    assert_eq!(
        take_ops(&mut rt),
        strings(&[
            "reset c0",
            "place c1 in c0",
            "reset c1",
            "update n0 'a:3:7' in c1",
            "place n0 in c1",
        ])
    );
    assert_eq!(
        take_commands(&mut rt),
        vec![EffectCommand::Run { renderer: 1, index: 0, effect: 3 }]
    );
    assert_eq!(state_of(&rt, 1), 7);
    assert_eq!(rt.components.len(), 2);
}

#[test]
fn another_type_at_the_same_place_clears_the_component() {
    let log = new_log();
    let inner = log.clone();
    let mut rt = Runtime::new();
    let id = mount_root(
        &mut rt,
        root(
            &log,
            Rc::new(move |state| {
                let kind = if state == 0 { LEAF } else { OTHER_LEAF };
                keyed(vec![("a", leaf_of_kind(kind, "a", 1, &inner))])
            }),
        ),
    );
    set_state(&mut rt, 1, 7);
    rt.keep_cleanup(1, 0, Some(900));
    let _ = (take(&log), take_ops(&mut rt), take_commands(&mut rt));

    set_state(&mut rt, id, 1);
    assert_eq!(take(&log), strings(&["render root", "render a"]));
    assert_eq!(
        take_ops(&mut rt),
        strings(&[
            "reset c0",
            "place c1 in c0",
            "remove n0",
            "reset c1",
            "make n1 'a:1:0' in c1",
        ])
    );
    assert_eq!(
        take_commands(&mut rt),
        vec![
            EffectCommand::Cleanup { cleanup: 900 },
            EffectCommand::Run { renderer: 1, index: 0, effect: 1 },
        ]
    );
    assert_eq!(state_of(&rt, 1), 0);
    assert_eq!(rt.components[1].as_ref().unwrap().element.component_model.kind, OTHER_LEAF);
    assert_eq!(rt.natives, vec![None, Some(None)]);
    assert_eq!(rt.components.len(), 2);
}

#[test]
fn reordered_keys_keep_their_mounts_and_their_state() {
    let log = new_log();
    let inner = log.clone();
    let mut rt = Runtime::new();
    let id = mount_root(
        &mut rt,
        root(
            &log,
            Rc::new(move |state| {
                let a = ("a", leaf("a", 1, &inner));
                let b = ("b", leaf("b", 2, &inner));
                keyed(if state == 0 { vec![a, b] } else { vec![b, a] })
            }),
        ),
    );
    set_state(&mut rt, 1, 5);
    set_state(&mut rt, 2, 6);
    let _ = (take(&log), take_ops(&mut rt), take_commands(&mut rt));

    set_state(&mut rt, id, 1);
    assert_eq!(take(&log), strings(&["render root"]));
    assert_eq!(take_ops(&mut rt), strings(&["reset c0", "place c2 in c0", "place c1 in c0"]));
    assert_eq!(take_commands(&mut rt), vec![]);
    assert_eq!(state_of(&rt, 1), 5);
    assert_eq!(state_of(&rt, 2), 6);
    assert_eq!(rt.components.len(), 3);
    match rt.components[id].as_ref().unwrap().content.as_ref().unwrap() {
        Mount::Fragment(fragment) => {
            assert_eq!(fragment.content.len(), 2);
            assert_eq!(fragment.content[0].0, "b");
            assert!(matches!(fragment.content[0].1, Mount::Component(2)));
            assert_eq!(fragment.content[1].0, "a");
            assert!(matches!(fragment.content[1].1, Mount::Component(1)));
        }
        _ => panic!("the root renders a fragment"),
    }
}

#[test]
fn a_key_that_left_is_torn_down_and_a_new_key_is_mounted() {
    let log = new_log();
    let inner = log.clone();
    let mut rt = Runtime::new();
    let id = mount_root(
        &mut rt,
        root(
            &log,
            Rc::new(move |state| {
                if state == 0 {
                    keyed(vec![("a", leaf("a", 1, &inner)), ("b", leaf("b", 2, &inner))])
                } else {
                    keyed(vec![("b", leaf("b", 2, &inner)), ("c", leaf("c", 3, &inner))])
                }
            }),
        ),
    );
    rt.keep_cleanup(1, 0, Some(901));
    rt.keep_cleanup(2, 0, Some(902));
    let _ = (take(&log), take_ops(&mut rt), take_commands(&mut rt));

    set_state(&mut rt, id, 1);
    assert_eq!(take(&log), strings(&["render root", "render c"]));
    assert_eq!(
        take_ops(&mut rt),
        strings(&[
            "reset c0",
            "place c2 in c0",
            "open c3 in c0",
            "remove n0",
            "close c1",
            "reset c3",
            "make n2 'c:3:0' in c3",
        ])
    );
    assert_eq!(
        take_commands(&mut rt),
        vec![
            EffectCommand::Cleanup { cleanup: 901 },
            EffectCommand::Run { renderer: 3, index: 0, effect: 3 },
        ]
    );
    assert!(!rt.is_live(1));
    assert!(rt.is_live(2) && rt.is_live(3));
    assert_eq!(rt.natives, vec![None, Some(None), Some(None)]);
}

const CONSUMER: u64 = 200;

/// A component that shows the context of type `token`.
fn consumer(name: &'static str, token: u64, log: &Log) -> Node {
    let log = log.clone();
    widget(
        CONSUMER + token,
        vec![],
        Rc::new(move |_, scope, contexts| {
            log.borrow_mut().push(format!("render {}", name));
            assert!(scope.context_ready(contexts, token));
            let value = scope.use_context(contexts, token).unwrap();
            native(&format!("{}:{:?}", name, value.bytes))
        }),
    )
}

#[test]
fn a_changed_context_value_reaches_its_subscribers_and_nobody_else() {
    let log = new_log();
    let inner = log.clone();
    let mut rt = Runtime::new();
    let id = mount_root(
        &mut rt,
        root(
            &log,
            Rc::new(move |state| {
                keyed(vec![
                    (
                        "inside",
                        ct(
                            number(state / 2),
                            keyed(vec![
                                ("reader", consumer("reader", NUMBER, &inner)),
                                ("plain", leaf("plain", 1, &inner)),
                            ]),
                        ),
                    ),
                    ("outside", leaf("outside", 2, &inner)),
                ])
            }),
        ),
    );
    assert_eq!(
        take(&log),
        strings(&["render root", "render reader", "render plain", "render outside"])
    );
    assert_eq!(rt.contexts.subscribers(0), &vec![1]);
    let _ = (take_ops(&mut rt), take_commands(&mut rt));

    // the provided value stays 0: nothing below is rendered again
    set_state(&mut rt, id, 1);
    assert_eq!(take(&log), strings(&["render root"]));
    assert_eq!(
        take_ops(&mut rt),
        strings(&[
            "reset c0",
            "place x0 in c0",
            "reset x0",
            "place c1 in x0",
            "place c2 in x0",
            "place c3 in c0",
        ])
    );

    // the provided value becomes 1: the reader alone is rendered again
    set_state(&mut rt, id, 2);
    assert_eq!(take(&log), strings(&["render root", "render reader"]));
    assert!(rt.contexts.value(0).same(&number(1)));
    assert_eq!(rt.contexts.subscribers(0), &vec![1]);
    assert_eq!(rt.contexts.len(), 1);
    assert_eq!(
        take_ops(&mut rt),
        strings(&[
            "reset c0",
            "place x0 in c0",
            "reset x0",
            "place c1 in x0",
            "place c2 in x0",
            "place c3 in c0",
            "reset c1",
            "update n0 'reader:[1]' in c1",
            "place n0 in c1",
        ])
    );
    assert!(rt.is_settled());
}

#[test]
fn a_context_of_another_type_replaces_the_provider_and_what_is_below() {
    let log = new_log();
    let inner = log.clone();
    let mut rt = Runtime::new();
    let id = mount_root(
        &mut rt,
        root(
            &log,
            Rc::new(move |state| {
                if state == 0 {
                    ct(number(4), keyed(vec![("reader", consumer("reader", NUMBER, &inner))]))
                } else {
                    ct(text("x"), keyed(vec![("reader", consumer("writer", TEXT, &inner))]))
                }
            }),
        ),
    );
    assert_eq!(rt.contexts.subscribers(0), &vec![1]);
    let _ = (take(&log), take_ops(&mut rt), take_commands(&mut rt));

    set_state(&mut rt, id, 1);
    assert_eq!(take(&log), strings(&["render root", "render writer"]));
    assert_eq!(rt.contexts.len(), 2);
    assert!(rt.contexts.subscribers(0).is_empty());
    assert_eq!(rt.contexts.subscribers(1), &vec![2]);
    assert_eq!(rt.contexts.parent(1), None);
    assert!(rt.contexts.value(1).same(&text("x")));
    assert!(!rt.is_live(1));
    assert!(rt.is_live(2));
    assert_eq!(
        take_ops(&mut rt),
        strings(&[
            "reset c0",
            "place x0 in c0",
            "close x0",
            "remove n0",
            "close c1",
            "open x1 in c0",
            "open c2 in x1",
            "reset c2",
            "make n1 'writer:[120]' in c2",
        ])
    );
    match rt.components[id].as_ref().unwrap().content.as_ref().unwrap() {
        Mount::Context(context) => {
            assert_eq!(context.context_link, 1);
            assert_eq!(context.native_mount_factory, FactoryId::Context(1));
        }
        _ => panic!("the root renders a context"),
    }
}

#[test]
fn a_node_of_another_kind_replaces_the_mount_under_the_same_context_link() {
    let log = new_log();
    let inner = log.clone();
    let mut rt = Runtime::new();
    let id = mount_root(
        &mut rt,
        root(
            &log,
            Rc::new(move |state| {
                ct(
                    number(1),
                    match state {
                        0 => native("plain"),
                        1 => keyed(vec![("a", native("in a fragment"))]),
                        2 => consumer("reader", NUMBER, &inner),
                        _ => native("plain again"),
                    },
                )
            }),
        ),
    );
    let _ = (take(&log), take_ops(&mut rt), take_commands(&mut rt));

    set_state(&mut rt, id, 1);
    assert_eq!(
        take_ops(&mut rt),
        strings(&[
            "reset c0",
            "place x0 in c0",
            "reset x0",
            "remove n0",
            "make n1 'in a fragment' in x0",
        ])
    );
    assert_eq!(rt.natives, vec![None, Some(Some(0))]);

    set_state(&mut rt, id, 2);
    assert_eq!(take(&log), strings(&["render root", "render root", "render reader"]));
    assert_eq!(
        take_ops(&mut rt),
        strings(&[
            "reset c0",
            "place x0 in c0",
            "reset x0",
            "remove n1",
            "open c1 in x0",
            "reset c1",
            "make n2 'reader:[1]' in c1",
        ])
    );
    assert_eq!(rt.components[1].as_ref().unwrap().scope.clone_context_link(), Some(0));

    set_state(&mut rt, id, 3);
    assert_eq!(
        take_ops(&mut rt),
        strings(&[
            "reset c0",
            "place x0 in c0",
            "reset x0",
            "remove n2",
            "close c1",
            "make n3 'plain again' in x0",
        ])
    );
    assert!(!rt.is_live(1));
    assert!(rt.contexts.subscribers(0).is_empty());
}

#[test]
fn three_setters_in_one_callback_make_one_render_and_effects_run_once_after_it() {
    let log = new_log();
    let shown = log.clone();
    let mut rt = Runtime::new();
    let id = mount_root(
        &mut rt,
        widget(
            1,
            vec![],
            Rc::new(move |_, scope, _| {
                let (a, _) = scope.use_state(number(0));
                let (b, _) = scope.use_state(number(0));
                let (c, _) = scope.use_state(number(0));
                scope.use_effect(70, number(a.bytes[0] + b.bytes[0] + c.bytes[0]));
                shown.borrow_mut().push(format!("render {}{}{}", a.bytes[0], b.bytes[0], c.bytes[0]));
                native("x")
            }),
        ),
    );
    let handles: Vec<StateHandle> = rt.components[id]
        .as_ref()
        .unwrap()
        .scope
        .component_scope
        .state_hooks
        .hooks
        .iter()
        .map(|store| store.handle)
        .collect();
    rt.keep_cleanup(id, 0, Some(71));
    assert_eq!(take(&log), strings(&["render 000"]));
    assert_eq!(
        take_commands(&mut rt),
        vec![EffectCommand::Run { renderer: id, index: 0, effect: 70 }]
    );

    update(&mut rt, id, move |scope: &mut Scope| {
        handles[0].update(scope, number(1));
        handles[1].update(scope, number(2));
        handles[2].update(scope, number(3));
    });
    assert_eq!(take(&log), strings(&["render 123"]));
    assert_eq!(
        take_commands(&mut rt),
        vec![
            EffectCommand::Cleanup { cleanup: 71 },
            EffectCommand::Run { renderer: id, index: 0, effect: 70 },
        ]
    );
    assert!(rt.flush());
    assert_eq!(take(&log), Vec::<String>::new());
    assert_eq!(take_commands(&mut rt), vec![]);
}

#[test]
fn a_setter_with_the_stored_value_renders_nothing() {
    let log = new_log();
    let inner = log.clone();
    let mut rt = Runtime::new();
    let id = mount_root(&mut rt, root(&log, Rc::new(move |_| leaf("a", 1, &inner))));
    let _ = (take(&log), take_ops(&mut rt), take_commands(&mut rt));
    set_state(&mut rt, id, 0);
    set_state(&mut rt, 1, 0);
    assert_eq!(take(&log), Vec::<String>::new());
    assert_eq!(take_ops(&mut rt), Vec::<String>::new());
    assert_eq!(take_commands(&mut rt), vec![]);
    assert!(rt.is_settled());
}

#[test]
fn a_trigger_that_finds_renderers_queued_only_queues() {
    let log = new_log();
    let inner = log.clone();
    let mut rt = Runtime::new();
    let id = mount_root(&mut rt, root(&log, Rc::new(move |_| leaf("a", 1, &inner))));
    let _ = (take(&log), take_ops(&mut rt), take_commands(&mut rt));
    rt.mark_dirty(1);
    assert!(!rt.is_settled());

    set_state(&mut rt, id, 9);
    assert_eq!(take(&log), Vec::<String>::new());
    assert_eq!(rt.updater.dirty_renderer, vec![1, id]);
    assert_eq!(state_of(&rt, id), 9);
    assert!(rt.components[id].as_ref().unwrap().scope.has_update());
    assert_eq!(take_ops(&mut rt), Vec::<String>::new());

    assert!(rt.flush());
    assert_eq!(take(&log), strings(&["render a", "render root"]));
}

#[test]
fn a_flush_stops_at_the_round_limit_and_goes_on_when_asked_again() {
    let log = new_log();
    let inner = log.clone();
    let mut rt = Runtime::with_round_limit(1);
    let element = match root(&log, Rc::new(move |state| leaf("a", state, &inner))) {
        VNode::Component(element) => element,
        _ => unreachable!(),
    };
    let id = ComponentMount::new(element, None, FactoryId::Host(0), &mut rt);
    assert_eq!(take(&log), strings(&["render root"]));
    assert_eq!(rt.updater.dirty_renderer, vec![1]);
    assert!(rt.flush());
    assert_eq!(take(&log), strings(&["render a"]));
    let _ = take_commands(&mut rt);

    let handle = state_handle(&rt, id);
    assert!(!update(&mut rt, id, move |scope: &mut Scope| handle.update(scope, number(1))));
    assert_eq!(take(&log), strings(&["render root"]));
    assert_eq!(rt.updater.dirty_renderer, vec![1]);
    assert_eq!(take_commands(&mut rt), vec![]);
    assert!(rt.flush());
    assert_eq!(take(&log), strings(&["render a"]));
    assert_eq!(
        take_commands(&mut rt),
        vec![EffectCommand::Run { renderer: 1, index: 0, effect: 1 }]
    );
}

#[test]
fn a_renderer_that_is_gone_is_queued_and_skipped() {
    let log = new_log();
    let inner = log.clone();
    let mut rt = Runtime::new();
    let id = mount_root(
        &mut rt,
        root(
            &log,
            Rc::new(move |state| {
                if state == 0 {
                    leaf("a", 1, &inner)
                } else {
                    native("gone")
                }
            }),
        ),
    );
    set_state(&mut rt, id, 1);
    assert!(!rt.is_live(1));
    let _ = (take(&log), take_ops(&mut rt), take_commands(&mut rt));

    let called = Rc::new(RefCell::new(false));
    let flag = called.clone();
    update(&mut rt, 1, move |_: &mut Scope| *flag.borrow_mut() = true);
    update(&mut rt, 55, |_: &mut Scope| {});
    assert!(!*called.borrow());
    assert!(rt.is_settled());
    assert_eq!(take(&log), Vec::<String>::new());
    assert!(!ComponentMount::consume_update(1, &mut rt));
    assert!(!ComponentMount::rerender(44, &mut rt));
    rt.keep_cleanup(1, 0, Some(3));
    rt.run_effects(1);
    assert_eq!(take_commands(&mut rt), vec![]);
}

#[test]
fn unmounting_tears_down_children_before_parents() {
    let log = new_log();
    let inner = log.clone();
    let mut rt = Runtime::new();
    let id = mount_root(
        &mut rt,
        root(
            &log,
            Rc::new(move |_| {
                ct(
                    number(1),
                    keyed(vec![
                        ("a", leaf("a", 1, &inner)),
                        ("reader", consumer("reader", NUMBER, &inner)),
                        ("text", native("t")),
                    ]),
                )
            }),
        ),
    );
    rt.keep_cleanup(1, 0, Some(901));
    assert_eq!(rt.contexts.subscribers(0), &vec![2]);
    let _ = (take(&log), take_ops(&mut rt), take_commands(&mut rt));

    ComponentMount::unmount(id, &mut rt);
    assert_eq!(
        take_ops(&mut rt),
        strings(&[
            "close x0",
            "remove n1",
            "close c1",
            "remove n2",
            "close c2",
            "remove n0",
            "close c0",
        ])
    );
    assert_eq!(take_commands(&mut rt), vec![EffectCommand::Cleanup { cleanup: 901 }]);
    assert!(!rt.is_live(0) && !rt.is_live(1) && !rt.is_live(2));
    assert_eq!(rt.components.len(), 3);
    assert_eq!(rt.natives, vec![None, None, None]);
    assert!(rt.contexts.subscribers(0).is_empty());
    assert!(rt.is_settled());
}

#[test]
fn every_mount_knows_the_context_link_it_stands_under() {
    let mut rt: Runtime<String, Widget> = Runtime::new();
    let outer = rt.contexts.insert(number(1), None);
    let under = Some(outer);
    let host = FactoryId::Host(0);
    let plain = Mount::new(native("x"), under, host, &mut rt);
    let fragment = Mount::new(keyed(vec![("a", native("y"))]), under, host, &mut rt);
    let provider = Mount::new(ct(text("t"), native("z")), under, host, &mut rt);
    let log = new_log();
    let component = Mount::new(leaf("a", 1, &log), under, host, &mut rt);
    assert_eq!(plain.get_context_link(&rt), under);
    assert_eq!(fragment.get_context_link(&rt), under);
    assert_eq!(provider.get_context_link(&rt), under);
    assert_eq!(component.get_context_link(&rt), under);
    assert_eq!(rt.natives, vec![Some(under), Some(under), Some(Some(1))]);
    assert_eq!(rt.updater.dirty_renderer, vec![0]);
    assert!(rt.components[0].as_ref().unwrap().scope.has_update());

    plain.unmount(&mut rt);
    assert_eq!(Mount::Native(0).get_context_link(&rt), None);
    assert_eq!(Mount::Native(9).get_context_link(&rt), None);
    assert_eq!(Mount::Component(9).get_context_link(&rt), None);
}

#[test]
fn a_component_node_holds_its_model_and_its_ref() {
    let log = new_log();
    let element = match leaf("a", 4, &log) {
        VNode::Component(element) => element,
        _ => unreachable!(),
    };
    assert_eq!(element.component_model.props, vec![4]);
    assert!(element.ref_object.is_none());
    assert_eq!(element.name(), "component");
    let other = VComponentElement::new(element.component_model.clone(), None);
    assert!(matches!(VNode::component(other), VNode::Component(_)));
}

#[test]
fn queued_triggers_make_their_changes_at_once_and_one_flush_renders_them() {
    let log = new_log();
    let inner = log.clone();
    let mut rt = Runtime::new();
    let id = mount_root(&mut rt, root(&log, Rc::new(move |_| leaf("a", 1, &inner))));
    let _ = (take(&log), take_ops(&mut rt), take_commands(&mut rt));
    let own = state_handle(&rt, id);
    let below = state_handle(&rt, 1);

    let first = queue_update(&mut rt, id, move |scope: &mut Scope| own.update(scope, number(4)));
    let second = queue_update(&mut rt, 1, move |scope: &mut Scope| below.update(scope, number(5)));
    let third = queue_update(&mut rt, id, move |scope: &mut Scope| own.update(scope, number(6)));
    assert_eq!((first, second, third), (1, 2, 3));
    assert_eq!(state_of(&rt, id), 6);
    assert_eq!(state_of(&rt, 1), 5);
    assert_eq!(rt.updater.dirty_renderer, vec![id, 1, id]);
    assert_eq!(take(&log), Vec::<String>::new());
    assert_eq!(take_ops(&mut rt), Vec::<String>::new());
    assert_eq!(take_commands(&mut rt), vec![]);

    assert!(rt.flush());
    assert_eq!(take(&log), strings(&["render root", "render a"]));
    assert!(rt.flush());
    assert_eq!(take(&log), Vec::<String>::new());
}

#[test]
fn a_queued_trigger_on_a_renderer_that_is_gone_only_queues() {
    let mut rt: Runtime<String, Widget> = Runtime::new();
    let called = Rc::new(RefCell::new(false));
    let flag = called.clone();
    let token = queue_update(&mut rt, 3, move |_: &mut Scope| *flag.borrow_mut() = true);
    assert_eq!(token, 1);
    assert!(!*called.borrow());
    assert_eq!(rt.updater.dirty_renderer, vec![3]);
    assert!(rt.flush());
    assert!(rt.updater.dirty_renderer.is_empty());
}

#[test]
fn a_trigger_says_whether_the_queue_is_empty_afterwards() {
    let log = new_log();
    let inner = log.clone();
    let mut rt = Runtime::with_round_limit(1);
    let element = match root(&log, Rc::new(move |state| leaf("a", state, &inner))) {
        VNode::Component(element) => element,
        _ => unreachable!(),
    };
    let id = ComponentMount::new(element, None, FactoryId::Host(0), &mut rt);
    assert!(rt.flush());
    let _ = (take(&log), take_ops(&mut rt), take_commands(&mut rt));
    let handle = state_handle(&rt, id);

    // the stored value: nothing to render, one round is enough
    assert!(update(&mut rt, id, move |scope: &mut Scope| handle.update(scope, number(0))));
    assert_eq!(take(&log), Vec::<String>::new());

    // the render of the root queues the leaf, and the one round is used up
    assert!(!update(&mut rt, id, move |scope: &mut Scope| handle.update(scope, number(2))));
    assert_eq!(take(&log), strings(&["render root"]));
    assert_eq!(rt.updater.dirty_renderer, vec![1]);

    // a trigger that finds the leaf queued only queues
    assert!(!update(&mut rt, id, move |scope: &mut Scope| handle.update(scope, number(3))));
    assert_eq!(take(&log), Vec::<String>::new());
    assert_eq!(rt.updater.dirty_renderer, vec![1, id]);

    assert!(!rt.flush());
    assert_eq!(take(&log), strings(&["render a", "render root"]));
    assert!(rt.flush());
    assert_eq!(take(&log), strings(&["render a"]));
    assert!(rt.is_settled());
}

#[test]
fn a_callback_runs_its_body_once_on_the_scope_of_its_renderer() {
    let log = new_log();
    let inner = log.clone();
    let mut rt = Runtime::new();
    let id = mount_root(&mut rt, root(&log, Rc::new(move |_| leaf("a", 1, &inner))));
    let _ = (take(&log), take_ops(&mut rt), take_commands(&mut rt));
    let below = state_handle(&rt, 1);
    let callback = CallbackHandle { func: 7, renderer: 1, bound: None };
    let runs = Rc::new(RefCell::new(0));
    let counted = runs.clone();
    let settled = callback.trigger(&mut rt, move |scope: &mut Scope| {
        *counted.borrow_mut() += 1;
        below.update(scope, number(8));
    });
    assert!(settled);
    assert_eq!(*runs.borrow(), 1);
    assert_eq!(state_of(&rt, 1), 8);
    assert_eq!(state_of(&rt, id), 0);
    assert_eq!(take(&log), strings(&["render a"]));
    assert!(!rt.components[1].as_ref().unwrap().scope.has_update());
}

#[test]
fn rearranged_children_of_any_kind_keep_their_mounts_and_are_only_reported() {
    let log = new_log();
    let inner = log.clone();
    let mut rt = Runtime::new();
    let id = mount_root(
        &mut rt,
        root(
            &log,
            Rc::new(move |state| {
                let a = ("a", leaf("a", state, &inner));
                let t = ("t", native(&format!("text {}", state)));
                let b = ("b", leaf("b", 2, &inner));
                keyed(if state == 0 { vec![a, t, b] } else { vec![b, t, a] })
            }),
        ),
    );
    set_state(&mut rt, 1, 5);
    set_state(&mut rt, 2, 6);
    let _ = (take(&log), take_ops(&mut rt), take_commands(&mut rt));

    set_state(&mut rt, id, 1);
    // the model of `a` is another one, so that `a` renders again with its
    // state; `b` does not
    assert_eq!(take(&log), strings(&["render root", "render a"]));
    assert_eq!(
        take_ops(&mut rt),
        strings(&[
            "reset c0",
            "place c2 in c0",
            "update n0 'text 1' in c0",
            "place n0 in c0",
            "place c1 in c0",
            "reset c1",
            "update n1 'a:1:5' in c1",
            "place n1 in c1",
        ])
    );
    assert_eq!(
        take_commands(&mut rt),
        vec![EffectCommand::Run { renderer: 1, index: 0, effect: 1 }]
    );
    assert_eq!(state_of(&rt, 1), 5);
    assert_eq!(state_of(&rt, 2), 6);
    assert_eq!(rt.components.len(), 3);
    assert_eq!(rt.natives.len(), 3);
    match rt.components[id].as_ref().unwrap().content.as_ref().unwrap() {
        Mount::Fragment(fragment) => {
            assert_eq!(fragment.content.len(), 3);
            assert_eq!(fragment.content[0].0, "b");
            assert!(matches!(fragment.content[0].1, Mount::Component(2)));
            assert_eq!(fragment.content[1].0, "t");
            assert!(matches!(fragment.content[1].1, Mount::Native(0)));
            assert_eq!(fragment.content[2].0, "a");
            assert!(matches!(fragment.content[2].1, Mount::Component(1)));
        }
        _ => panic!("the root renders a fragment"),
    }
}

fn leaf_element(kind: u64, name: &'static str, prop: u8, log: &Log) -> VComponentElement<String, Widget> {
    match leaf_of_kind(kind, name, prop, log) {
        VNode::Component(element) => element,
        _ => unreachable!(),
    }
}

#[test]
fn a_component_renders_when_it_is_mounted() {
    let log = new_log();
    let inner = log.clone();
    let mut rt = Runtime::new();
    let element = match root(&log, Rc::new(move |_| leaf("a", 1, &inner))) {
        VNode::Component(element) => element,
        _ => unreachable!(),
    };
    let id = ComponentMount::new(element, None, FactoryId::Host(0), &mut rt);
    assert_eq!(id, 0);
    assert_eq!(take(&log), strings(&["render root"]));
    let component = rt.components[id].as_ref().unwrap();
    assert!(!component.scope.has_update());
    assert!(component.scope.component_scope.has_init);
    assert!(matches!(component.content, Some(Mount::Component(1))));
    assert_eq!(component.scope.component_scope.state_hooks.hooks.len(), 1);
    // what the render mounted is set up and queued
    assert_eq!(rt.updater.dirty_renderer, vec![1]);
    assert!(rt.components[1].as_ref().unwrap().scope.has_update());
    assert!(rt.components[1].as_ref().unwrap().content.is_none());
    assert_eq!(
        take_ops(&mut rt),
        strings(&["open c0 in host0", "reset c0", "open c1 in c0"])
    );
    assert!(rt.flush());
    assert_eq!(take(&log), strings(&["render a"]));
    assert_eq!(take_ops(&mut rt), strings(&["reset c1", "make n0 'a:1:0' in c1"]));
}

#[test]
fn a_component_that_is_given_a_model_renders_at_once() {
    let log = new_log();
    let mut rt = Runtime::new();
    let id = ComponentMount::new(leaf_element(LEAF, "a", 1, &log), None, FactoryId::Host(0), &mut rt);
    assert_eq!(take(&log), strings(&["render a"]));
    assert!(rt.is_settled());
    assert_eq!(
        take_ops(&mut rt),
        strings(&["open c0 in host0", "reset c0", "make n0 'a:1:0' in c0"])
    );
    assert_eq!(
        take_commands(&mut rt),
        vec![EffectCommand::Run { renderer: id, index: 0, effect: 1 }]
    );
    rt.keep_cleanup(id, 0, Some(9));
    set_state(&mut rt, id, 5);
    let _ = (take(&log), take_ops(&mut rt), take_commands(&mut rt));

    // an equal model: nothing happens
    ComponentMount::update(id, leaf_element(LEAF, "a", 1, &log), &mut rt);
    assert_eq!(take(&log), Vec::<String>::new());
    assert_eq!(take_ops(&mut rt), Vec::<String>::new());
    assert_eq!(take_commands(&mut rt), vec![]);

    // another model of the same type: one render on the hooks as they stand
    ComponentMount::update(id, leaf_element(LEAF, "a", 2, &log), &mut rt);
    assert_eq!(take(&log), strings(&["render a"]));
    assert_eq!(state_of(&rt, id), 5);
    assert_eq!(rt.components[id].as_ref().unwrap().element.component_model.props, vec![2]);
    assert!(!rt.components[id].as_ref().unwrap().scope.has_update());
    assert!(rt.is_settled());
    assert_eq!(
        take_ops(&mut rt),
        strings(&["reset c0", "update n0 'a:2:5' in c0", "place n0 in c0"])
    );
    assert_eq!(
        take_commands(&mut rt),
        vec![
            EffectCommand::Cleanup { cleanup: 9 },
            EffectCommand::Run { renderer: id, index: 0, effect: 2 },
        ]
    );

    // another type: the component starts over and renders as the new type
    rt.keep_cleanup(id, 0, Some(10));
    ComponentMount::update(id, leaf_element(OTHER_LEAF, "b", 3, &log), &mut rt);
    assert_eq!(take(&log), strings(&["render b"]));
    assert_eq!(state_of(&rt, id), 0);
    let component = rt.components[id].as_ref().unwrap();
    assert!(component.scope.component_scope.has_init);
    assert!(!component.scope.has_update());
    assert_eq!(component.scope.component_scope.state_hooks.hooks.len(), 1);
    assert_eq!(component.scope.component_scope.effect_hooks.hooks.len(), 1);
    assert!(matches!(component.content, Some(Mount::Native(1))));
    assert!(rt.is_settled());
    assert_eq!(
        take_ops(&mut rt),
        strings(&["remove n0", "reset c0", "make n1 'b:3:0' in c0"])
    );
    assert_eq!(
        take_commands(&mut rt),
        vec![
            EffectCommand::Cleanup { cleanup: 10 },
            EffectCommand::Run { renderer: id, index: 0, effect: 3 },
        ]
    );

    // a component that is gone: nothing happens
    ComponentMount::update(7, leaf_element(LEAF, "a", 1, &log), &mut rt);
    assert_eq!(take(&log), Vec::<String>::new());
    assert_eq!(take_ops(&mut rt), Vec::<String>::new());
}

#[test]
fn a_rearrangement_at_every_depth_mounts_nothing_and_tears_nothing_down() {
    let log = new_log();
    let inner = log.clone();
    let mut rt = Runtime::new();
    let id = mount_root(
        &mut rt,
        root(
            &log,
            Rc::new(move |state| {
                let a = ("a", leaf("a", 1, &inner));
                let b = ("b", native("x"));
                let below = keyed(if state == 0 { vec![a, b] } else { vec![b, a] });
                let p = ("p", ct(text("v"), below));
                let t = ("t", native(&format!("t{}", state)));
                keyed(if state == 0 { vec![p, t] } else { vec![t, p] })
            }),
        ),
    );
    set_state(&mut rt, 1, 5);
    let _ = (take(&log), take_ops(&mut rt), take_commands(&mut rt));
    let components = rt.components.len();
    let natives = rt.natives.len();
    let providers = rt.contexts.nodes.len();

    set_state(&mut rt, id, 1);
    assert_eq!(take(&log), strings(&["render root"]));
    assert_eq!(
        take_ops(&mut rt),
        strings(&[
            "reset c0",
            "update n1 't1' in c0",
            "place n1 in c0",
            "place x0 in c0",
            "reset x0",
            "update n0 'x' in x0",
            "place n0 in x0",
            "place c1 in x0",
        ])
    );
    assert_eq!(take_commands(&mut rt), vec![]);
    assert_eq!(state_of(&rt, 1), 5);
    assert_eq!(rt.components.len(), components);
    assert_eq!(rt.natives.len(), natives);
    assert_eq!(rt.contexts.nodes.len(), providers);
    assert!(rt.is_settled());
}
