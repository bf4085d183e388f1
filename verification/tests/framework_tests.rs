use vastc::ast::{Ast, AstKind, AstNode};
use vastc::framework::registry::{Arena, Id, Ids, Named, Registry};

#[derive(Debug, PartialEq)]
struct Item {
    name: Option<String>,
    value: u32,
}

impl Named<String> for Item {
    // the model of `name` that the trait asks of every implementor
    fn spec_name(&self) -> Option<String> {
        self.name.clone()
    }

    fn name(&self) -> Option<&String> {
        self.name.as_ref()
    }
}

#[test]
fn arena_ids_follow_insertion_order() {
    let mut arena: Arena<String> = Arena::new();
    let (a, _) = arena.push("first".to_string());
    let (b, slot) = arena.push("second".to_string());
    slot.push('!');
    assert_eq!(a, Id::from(0usize));
    assert_eq!(b, Id::from(1usize));
    assert_eq!(arena.get(a), "first");
    assert_eq!(arena.get(b), "second!");
    arena.get_mut(a).push('?');
    assert_eq!(arena.get(a), "first?");
}

#[test]
fn arena_create_runs_constructor() {
    let mut arena: Arena<String> = Arena::new();
    let (id, v) = arena.create(|| "made".to_string());
    assert_eq!(v, "made");
    assert_eq!(id, Id::from(0usize));
    assert_eq!(arena.get(id), "made");
}

#[test]
fn id_copies_are_equal() {
    let a: Id<String> = Id::from(7usize);
    let b = a;
    assert_eq!(a.clone(), b);
    assert_ne!(a, Id::from(8usize));
}

#[test]
fn registry_push_and_get() {
    let mut reg: Registry<Item, String> = Registry::new();
    let (a, _) = reg.push(Item { name: Some("x".to_string()), value: 1 });
    let (b, _) = reg.create_anonymous(|| Item { name: None, value: 2 });
    let (c, item) = reg.create_named("y".to_string(), |n| Item { name: Some(n), value: 3 });
    item.value = 30;
    assert_eq!(a, Id::from(0usize));
    assert_eq!(b, Id::from(1usize));
    assert_eq!(c, Id::from(2usize));
    assert_eq!(reg.get(a).value, 1);
    assert_eq!(reg.get(b).name, None);
    assert_eq!(reg.get(c), &Item { name: Some("y".to_string()), value: 30 });
    reg.get_mut(b).value = 20;
    assert_eq!(reg.get(b).value, 20);
}

#[test]
fn ast_make_then_get() {
    let mut ast = Ast::empty();
    let r = ast.make(AstKind::Error(3), 1..4);
    assert!(r.is_valid());
    assert_eq!(ast.get(r).reference(), r);
    let r2 = ast.make(AstKind::Invalid, 0..0);
    assert_ne!(r, r2);
    assert_eq!(r2.deref(&ast).reference(), r2);
    assert_eq!(ast.get(r).reference(), r);
}

#[test]
fn ast_partial_node_is_inserted_with_its_reference() {
    let mut ast = Ast::empty();
    let node = AstNode::partial(AstKind::Error(0), 2..5);
    assert!(!node.reference().is_valid());
    let r = node.insert(&mut ast);
    assert!(r.is_valid());
    assert_eq!(ast.get(r).reference(), r);
    let copy = ast.get(r).clone();
    assert_eq!(copy.reference(), r);
    let r2 = ast.insert(AstNode::partial(AstKind::Invalid, 0..1));
    assert_eq!(r2.deref_mut(&mut ast).reference(), r2);
    assert_eq!(ast.get_mut(r).reference(), r);
    assert_eq!(ast.resolved_root(r), r);
}
