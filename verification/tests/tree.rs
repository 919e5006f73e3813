use cfgtree::node::{ConfigError, Field, Leaf, LeafKind, Node};

fn field(name: &str, child: Node) -> Field {
    Field { name: name.to_string(), child }
}

fn segs(path: &[&str]) -> Vec<String> {
    path.iter().map(|s| s.to_string()).collect()
}

fn leaf_at<'a>(node: &'a Node, path: &[&str]) -> &'a Leaf {
    match node {
        Node::Leaf(l) => {
            assert!(path.is_empty());
            l
        }
        Node::Composite(fields) => {
            let f = fields.iter().find(|f| f.name == path[0]).unwrap();
            leaf_at(&f.child, &path[1..])
        }
    }
}

fn sample_tree() -> Node {
    Node::Composite(vec![
        field("entry", Node::Leaf(Leaf::Num((0.0f64).to_bits()))),
        field(
            "kek",
            Node::Composite(vec![field("nice", Node::Leaf(Leaf::Int(0)))]),
        ),
    ])
}

#[test]
fn empty_config() {
    let _empty = Node::Composite(vec![]);
}

#[test]
fn single_entry_allows_assignment_and_creation() {
    let mut x = Node::Composite(vec![field("entry", Node::Leaf(Leaf::Num((0.0f64).to_bits())))]);
    match &mut x {
        Node::Composite(fields) => {
            fields[0].child = Node::Leaf(Leaf::Num((1.0f64).to_bits()));
        }
        Node::Leaf(_) => unreachable!(),
    }
    match leaf_at(&x, &["entry"]) {
        Leaf::Num(bits) => assert_eq!((1.0f64).to_bits(), *bits),
        _ => unreachable!(),
    }
}

#[test]
fn single_entry_in_nested_structure() {
    let mut x = Node::Composite(vec![field(
        "entry",
        Node::Composite(vec![field(
            "entry",
            Node::Composite(vec![field(
                "real_entry",
                Node::Leaf(Leaf::Num((0.0f64).to_bits())),
            )]),
        )]),
    )]);
    match &mut x {
        Node::Composite(f1) => match &mut f1[0].child {
            Node::Composite(f2) => match &mut f2[0].child {
                Node::Composite(f3) => {
                    f3[0].child = Node::Leaf(Leaf::Num((1.0f64).to_bits()));
                }
                Node::Leaf(_) => unreachable!(),
            },
            Node::Leaf(_) => unreachable!(),
        },
        Node::Leaf(_) => unreachable!(),
    }
    match leaf_at(&x, &["entry", "entry", "real_entry"]) {
        Leaf::Num(bits) => assert_eq!((1.0f64).to_bits(), *bits),
        _ => unreachable!(),
    }
}

#[test]
fn single_entry_get_paths() {
    let mut x = sample_tree();
    let kek_nice: Vec<String> = "kek.nice".split('.').map(|s| s.to_string()).collect();

    assert!(x.validate(&segs(&["entry"]), "0.3").is_ok());
    assert!(x.validate(&segs(&["entry"]), "string").is_err());
    assert!(x.validate(&kek_nice, "3").is_ok());
    assert!(x.validate(&segs(&["kek"]), "123").is_err());
    assert!(x.validate(&kek_nice, "0.3").is_err());

    let _ = x.apply(&segs(&["entry"]), "0.3");
    match leaf_at(&x, &["entry"]) {
        Leaf::Num(bits) => assert_eq!((0.3f64).to_bits(), *bits),
        _ => unreachable!(),
    }

    let _ = x.apply(&kek_nice, "1234");
    match leaf_at(&x, &["kek", "nice"]) {
        Leaf::Int(v) => assert_eq!(1234, *v),
        _ => unreachable!(),
    }
}

#[test]
fn simple_split() {
    println!("{:?}", "lorem.ipsum.dolor".split('.').collect::<Vec<_>>());
}

#[test]
fn error_kinds_by_path_shape() {
    let mut x = sample_tree();
    assert_eq!(Err(ConfigError::PathTooShort), x.validate(&segs(&[]), "1"));
    assert_eq!(Err(ConfigError::PathTooShort), x.validate(&segs(&["kek"]), "1"));
    assert_eq!(
        Err(ConfigError::PathTooLong),
        x.validate(&segs(&["entry", "deep"]), "1")
    );
    assert_eq!(Err(ConfigError::PathNotFound), x.validate(&segs(&["nope"]), "1"));
    match x.validate(&segs(&["entry"]), "string") {
        Err(ConfigError::ValueParseError { kind, payload }) => {
            assert_eq!(LeafKind::Num, kind);
            assert_eq!("string", payload);
        }
        _ => panic!("expected a parse failure"),
    }
    assert_eq!(Err(ConfigError::PathTooShort), x.apply(&segs(&["kek"]), "1"));
    assert_eq!(
        Err(ConfigError::PathTooLong),
        x.apply(&segs(&["entry", "deep"]), "1")
    );
    assert_eq!(Err(ConfigError::PathNotFound), x.apply(&segs(&["nope"]), "1"));
}

#[test]
fn leaf_types_parse_and_store() {
    let mut x = Node::Composite(vec![
        field("flag", Node::Leaf(Leaf::Bool(false))),
        field("count", Node::Leaf(Leaf::Int(0))),
        field("ratio", Node::Leaf(Leaf::Num(0))),
        field("title", Node::Leaf(Leaf::Str(String::new()))),
        field("range", Node::Leaf(Leaf::Pair(0, 0))),
    ]);
    x.apply(&segs(&["flag"]), "true").unwrap();
    x.apply(&segs(&["count"]), "42").unwrap();
    x.apply(&segs(&["ratio"]), "2.5").unwrap();
    x.apply(&segs(&["title"]), "hello world").unwrap();
    x.apply(&segs(&["range"]), "(1, 2)").unwrap();
    assert!(matches!(leaf_at(&x, &["flag"]), Leaf::Bool(true)));
    assert!(matches!(leaf_at(&x, &["count"]), Leaf::Int(42)));
    match leaf_at(&x, &["ratio"]) {
        Leaf::Num(bits) => assert_eq!((2.5f64).to_bits(), *bits),
        _ => unreachable!(),
    }
    match leaf_at(&x, &["title"]) {
        Leaf::Str(s) => assert_eq!("hello world", s),
        _ => unreachable!(),
    }
    assert!(matches!(leaf_at(&x, &["range"]), Leaf::Pair(1, 2)));
}

#[test]
fn tuple_leaf_is_atomic() {
    let mut x = Node::Composite(vec![field("range", Node::Leaf(Leaf::Pair(0, 0)))]);
    assert_eq!(
        Err(ConfigError::PathTooLong),
        x.validate(&segs(&["range", "0"]), "1")
    );
    match x.validate(&segs(&["range"]), "1") {
        Err(ConfigError::ValueParseError { kind, .. }) => assert_eq!(LeafKind::Pair, kind),
        _ => panic!("expected a parse failure"),
    }
    assert!(matches!(leaf_at(&x, &["range"]), Leaf::Pair(0, 0)));
}

#[test]
fn string_leaf_accepts_anything() {
    let mut x = Node::Composite(vec![field("title", Node::Leaf(Leaf::Str(String::new())))]);
    assert!(x.validate(&segs(&["title"]), "no quotes, just text").is_ok());
    x.apply(&segs(&["title"]), "no quotes, just text").unwrap();
    match leaf_at(&x, &["title"]) {
        Leaf::Str(s) => assert_eq!("no quotes, just text", s),
        _ => unreachable!(),
    }
}

#[test]
fn validate_reports_without_mutating() {
    let mut x = sample_tree();
    x.apply(&segs(&["entry"]), "0.5").unwrap();
    assert!(x.validate(&segs(&["entry"]), "1.5").is_ok());
    assert!(x.validate(&segs(&["entry"]), "string").is_err());
    match leaf_at(&x, &["entry"]) {
        Leaf::Num(bits) => assert_eq!((0.5f64).to_bits(), *bits),
        _ => unreachable!(),
    }
}

#[test]
fn failed_apply_leaves_previous_value() {
    let mut x = sample_tree();
    let kek_nice = segs(&["kek", "nice"]);
    x.apply(&kek_nice, "5").unwrap();
    assert!(x.apply(&kek_nice, "0.3").is_err());
    assert!(matches!(leaf_at(&x, &["kek", "nice"]), Leaf::Int(5)));
}

#[test]
fn list_children_shallow() {
    let x = sample_tree();
    assert_eq!(vec!["entry".to_string(), "kek".to_string()], x.list_children());
    match &x {
        Node::Composite(fields) => {
            assert_eq!(vec!["nice".to_string()], fields[1].child.list_children());
            assert!(fields[0].child.list_children().is_empty());
        }
        Node::Leaf(_) => unreachable!(),
    }
}
