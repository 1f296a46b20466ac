use dynamic_diagram::compact::{compile, Compact, LinkIn, NodeIn, PacketIn, TextIn};
use dynamic_diagram::timeline::{El, Tl};

fn num(t: &Tl<f64>) -> f64 {
    match t {
        Tl::Const(x) => *x,
        Tl::Keyed(_) => panic!("expected a constant"),
    }
}

fn text(t: &Option<Tl<String>>) -> Option<String> {
    match t {
        Some(Tl::Const(s)) => Some(s.clone()),
        Some(Tl::Keyed(_)) => panic!("expected a constant"),
        None => None,
    }
}

fn node(id: Option<&str>, x: f64, y: f64) -> NodeIn<f64> {
    NodeIn { id: id.map(String::from), label: Some(format!("n{x}")), icon: None, x, y, status: None, lifeline: false }
}

fn link(from: &str, to: &str, arrow: &str) -> LinkIn {
    LinkIn { from: from.into(), to: to.into(), arrow: arrow.into() }
}

fn packet(from: &str, to: &str) -> PacketIn<f64> {
    PacketIn { label: "GET".into(), from: from.into(), to: to.into(), progress: Tl::Keyed(vec![(0, 0.0), (100, 1.0)]), faded: true }
}

fn doc(nodes: Vec<NodeIn<f64>>, links: Vec<LinkIn>, packets: Vec<PacketIn<f64>>) -> Compact<f64> {
    Compact {
        duration: Some(1000),
        header: Some("H".into()),
        badge: None,
        note: Some("caption".into()),
        nodes,
        links,
        packets,
        texts: vec![TextIn { text: "dmz".into(), x: 43.0, y: 68.0, dim: true, left: false }],
    }
}

#[test]
fn nodes_without_ids_are_known_by_position() {
    let d = compile(doc(vec![node(Some("a"), 10.0, 50.0), node(None, 20.0, 60.0)], vec![link("a", "1", "end")], vec![]))
        .unwrap();
    assert_eq!(d.els.len(), 4);
    match &d.els[1] {
        El::Node(n) => {
            assert_eq!(n.id.as_deref(), Some("1"));
            assert_eq!(text(&n.label), Some("n20".to_string()));
            assert_eq!((num(&n.x), num(&n.y)), (20.0, 60.0));
        }
        _ => panic!("node expected"),
    }
    match &d.els[2] {
        El::Line(l) => {
            assert_eq!((l.from.as_deref(), l.to.as_deref(), l.arrow_end), (Some("a"), Some("1"), true));
            assert!(l.x1.is_none() && l.y2.is_none());
        }
        _ => panic!("line expected"),
    }
    assert_eq!(text(&d.header), Some("H".to_string()));
    assert_eq!(text(&d.badge), None);
    assert_eq!(d.duration, Some(1000));
}

#[test]
fn both_arrows_become_two_lines_and_other_arrows_none() {
    let d = compile(doc(vec![node(Some("a"), 10.0, 50.0), node(Some("b"), 90.0, 50.0)],
        vec![link("a", "b", "both"), link("b", "a", "")], vec![]))
        .unwrap();
    let lines: Vec<(String, String, bool)> = d
        .els
        .iter()
        .filter_map(|e| match e {
            El::Line(l) => Some((l.from.clone().unwrap(), l.to.clone().unwrap(), l.arrow_end)),
            _ => None,
        })
        .collect();
    assert_eq!(
        lines,
        vec![
            ("a".to_string(), "b".to_string(), true),
            ("b".to_string(), "a".to_string(), true),
            ("b".to_string(), "a".to_string(), false),
        ]
    );
}

#[test]
fn packets_travel_between_the_named_nodes() {
    let d = compile(doc(vec![node(Some("a"), 10.0, 50.0), node(Some("b"), 90.0, 30.0)], vec![], vec![packet("b", "a")]))
        .unwrap();
    match &d.els[2] {
        El::Packet(p) => {
            assert_eq!((num(&p.x1), num(&p.y1), num(&p.x2), num(&p.y2)), (90.0, 30.0, 10.0, 50.0));
            assert_eq!((p.from.as_deref(), p.to.as_deref()), (Some("b"), Some("a")));
            assert!(matches!(&p.landed, Tl::Const(true)));
            assert!(matches!(&p.p, Tl::Keyed(k) if k.len() == 2));
            assert_eq!(p.label, "GET");
        }
        _ => panic!("packet expected"),
    }
    match &d.els[3] {
        El::Text(t) => {
            assert_eq!((num(&t.x), num(&t.y)), (43.0, 68.0));
            assert!(matches!(&t.dim, Tl::Const(true)));
        }
        _ => panic!("text expected"),
    }
}

#[test]
fn a_later_node_with_the_same_id_wins() {
    let d = compile(doc(vec![node(Some("a"), 10.0, 50.0), node(Some("a"), 70.0, 20.0), node(Some("b"), 90.0, 90.0)],
        vec![], vec![packet("a", "b")]))
        .unwrap();
    match &d.els[3] {
        El::Packet(p) => assert_eq!((num(&p.x1), num(&p.y1)), (70.0, 20.0)),
        _ => panic!("packet expected"),
    }
}

#[test]
fn the_first_unknown_reference_is_reported() {
    let nodes = || vec![node(Some("a"), 10.0, 50.0)];
    let err = compile(doc(nodes(), vec![link("a", "zz", "end")], vec![packet("yy", "a")])).err();
    assert_eq!(err, Some("unknown node \"zz\"".to_string()));
    let err = compile(doc(nodes(), vec![], vec![packet("a", "q\"x")])).err();
    assert_eq!(err, Some("unknown node \"q\\\"x\"".to_string()));
    let err = compile(doc(nodes(), vec![link("0", "a", "")], vec![])).err();
    assert_eq!(err, Some("unknown node \"0\"".to_string()));
}
