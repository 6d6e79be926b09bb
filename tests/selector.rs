use formation::context::PlatformContext;
use formation::graph::{Formula, GraphError, Value};

fn chars(s: &str) -> Vec<char> {
    s.chars().collect()
}

fn add_to_atom(ctx: &mut PlatformContext<(), ()>, atom: &formation::graph::Atom, by: u64, notify: bool) {
    let value = ctx.lease_atom(atom);
    let next = match value {
        Value::Int(n) => Value::Int(n + by),
        other => other,
    };
    ctx.end_atom_lease(atom, next, notify);
}

#[test]
fn test_computer_creation_and_compute() {
    let mut ctx: PlatformContext<(), ()> = PlatformContext::new();
    let atom_a = ctx.create_atom(Value::Int(0));

    ctx.begin_update();
    add_to_atom(&mut ctx, &atom_a, 10, false);
    ctx.end_update();

    let selector_a = ctx.create_selector(Formula::Template {
        prefix: chars("Hello, "),
        source: atom_a.key(),
        suffix: chars("!"),
    });

    let selector_a_result = selector_a.read(&ctx);
    assert_eq!(selector_a_result, Value::Text(chars("Hello, 10!")));

    ctx.begin_update();
    add_to_atom(&mut ctx, &atom_a, 10, true);
    ctx.end_update();

    let selector_a_result = selector_a.read(&ctx);
    assert_eq!(selector_a_result, Value::Text(chars("Hello, 20!")));
}

#[test]
fn greeting_selector_follows_atom() {
    let mut ctx: PlatformContext<(), ()> = PlatformContext::new();
    let a = ctx.create_atom(Value::Int(10));
    let s = ctx.create_selector(Formula::Template {
        prefix: chars("Hello, "),
        source: a.key(),
        suffix: chars("!"),
    });
    assert_eq!(s.try_read(&ctx), Some(Value::Text(chars("Hello, 10!"))));
    ctx.begin_update();
    ctx.write_atom(&a, Value::Int(20), true);
    assert_eq!(ctx.queued(), 1);
    ctx.end_update();
    assert_eq!(s.try_read(&ctx), Some(Value::Text(chars("Hello, 20!"))));
}

#[test]
fn silent_write_queues_nothing() {
    let mut ctx: PlatformContext<(), ()> = PlatformContext::new();
    let a = ctx.create_atom(Value::Int(1));
    ctx.begin_update();
    ctx.write_atom(&a, Value::Int(2), false);
    assert_eq!(ctx.queued(), 0);
    ctx.end_update();
    assert_eq!(ctx.read_atom(&a), Value::Int(2));
}

#[test]
fn copy_selector_recomputes_on_every_read() {
    let mut ctx: PlatformContext<(), ()> = PlatformContext::new();
    let a = ctx.create_atom(Value::Text(chars("x")));
    let s = ctx.create_selector(Formula::Copy { source: a.key() });
    assert_eq!(s.try_read(&ctx), Some(Value::Text(chars("x"))));
    ctx.write_atom(&a, Value::Text(chars("yz")), false);
    assert_eq!(s.try_read(&ctx), Some(Value::Text(chars("yz"))));
}

#[test]
fn template_renders_integers_in_decimal() {
    let mut ctx: PlatformContext<(), ()> = PlatformContext::new();
    let a = ctx.create_atom(Value::Int(0));
    let s = ctx.create_selector(Formula::Template { prefix: chars("<"), source: a.key(), suffix: chars(">") });
    assert_eq!(s.try_read(&ctx), Some(Value::Text(chars("<0>"))));
    ctx.write_atom(&a, Value::Int(u64::MAX), false);
    assert_eq!(s.try_read(&ctx), Some(Value::Text(chars("<18446744073709551615>"))));
    ctx.write_atom(&a, Value::Int(1070), false);
    assert_eq!(s.try_read(&ctx), Some(Value::Text(chars("<1070>"))));
}

#[test]
fn reading_a_leased_atom_is_reentrant() {
    let mut ctx: PlatformContext<(), ()> = PlatformContext::new();
    let a = ctx.create_atom(Value::Int(5));
    let s = ctx.create_selector(Formula::Copy { source: a.key() });
    let held = ctx.lease_atom(&a);
    assert_eq!(held, Value::Int(5));
    assert_eq!(ctx.try_lease_atom(&a), Err(GraphError::Reentrant));
    assert_eq!(ctx.try_lease_atom(&a), Err(GraphError::Reentrant));
    assert_eq!(s.try_read(&ctx), None);
    assert_eq!(ctx.queued(), 0);
    ctx.end_atom_lease(&a, held, false);
    assert_eq!(s.read(&ctx), Value::Int(5));
}

#[test]
fn node_removal_after_last_reference() {
    let mut ctx: PlatformContext<(), ()> = PlatformContext::new();
    let a = ctx.create_atom(Value::Int(5));
    let s = ctx.create_selector(Formula::Copy { source: a.key() });
    assert_eq!(ctx.graph_map().ref_count(a.key()), 1);
    ctx.release_node(a.key());
    assert_eq!(ctx.graph_map().ref_count(a.key()), 0);
    ctx.remove_node(a.key());
    assert!(!ctx.graph_map().lookup(a.key()));
    assert!(ctx.graph_map().lookup(s.key()));
    assert_eq!(s.try_read(&ctx), None);
    assert_eq!(ctx.graph_map().try_read(a.key()), None);
    assert_eq!(ctx.try_lease_atom(&a), Err(GraphError::Missing));
}

#[test]
fn selectors_read_several_nodes_and_other_selectors() {
    let mut ctx: PlatformContext<(), ()> = PlatformContext::new();
    let a = ctx.create_atom(Value::Int(7));
    let b = ctx.create_atom(Value::Text(chars("-")));
    let greet = ctx.create_selector(Formula::Template { prefix: chars("n="), source: a.key(), suffix: vec![] });
    let all = ctx.create_selector(Formula::Concat { sources: vec![greet.key(), b.key(), a.key()] });
    assert_eq!(all.read(&ctx), Value::Text(chars("n=7-7")));
    ctx.write_atom(&a, Value::Int(12), false);
    assert_eq!(all.read(&ctx), Value::Text(chars("n=12-12")));
    let empty = ctx.create_selector(Formula::Concat { sources: vec![] });
    assert_eq!(empty.read(&ctx), Value::Text(vec![]));
    let forward = ctx.create_selector(Formula::Copy { source: 99 });
    assert_eq!(forward.try_read(&ctx), None);
}

#[test]
fn selector_map_two_phase_creation() {
    let mut map = formation::graph::SelectorImMap::new();
    let key = map.reserve();
    assert!(!map.lookup(key));
    assert_eq!(map.try_read(key), None);
    map.insert(key, formation::graph::Node::Atom { value: Value::Int(3) });
    assert!(map.lookup(key));
    assert_eq!(map.read(key), Value::Int(3));
    assert_eq!(map.compute(key), Value::Int(3));
    assert_eq!(map.retain(key), Ok(()));
    assert_eq!(map.ref_count(key), 2);
}
