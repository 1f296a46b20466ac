use dynamic_diagram::timeline::{Doc, El, EndRef, LineEl, NodeEl, Num, PacketEl, PathEl, PolyEl, TextEl, Tl};

fn n(x: f64) -> Num {
    Num { finite: x.is_finite(), coordinate: x.is_finite() && (0.0..=100.0).contains(&x) }
}

fn node(id: Option<&str>, x: Tl<Num>, y: Tl<Num>) -> El<Num> {
    El::Node(NodeEl {
        id: id.map(String::from),
        label: None,
        icon: None,
        x,
        y,
        status: None,
        lifeline: false,
        show: None,
    })
}

fn doc(els: Vec<El<Num>>) -> Doc<Num> {
    Doc { duration: None, header: None, badge: None, note: None, els }
}

#[test]
fn step_holds_the_last_key_at_or_before_t() {
    let tl = Tl::Keyed(vec![(100u64, "a".to_string()), (200, "b".to_string()), (300, "c".to_string())]);
    assert_eq!(tl.step(0), "a");
    assert_eq!(tl.step(100), "a");
    assert_eq!(tl.step(199), "a");
    assert_eq!(tl.step(200), "b");
    assert_eq!(tl.step(250), "b");
    assert_eq!(tl.step(10_000), "c");
    assert_eq!(Tl::Const(true).step(5), true);
}

#[test]
fn tl_validate_checks_shape_and_values() {
    let ok: Tl<u64> = Tl::Keyed(vec![(0, 1), (5, 2), (5, 3)]);
    assert!(ok.validate("number", |v| *v < 10).is_ok());
    let empty: Tl<u64> = Tl::Keyed(vec![]);
    assert_eq!(
        empty.validate("number", |_| true),
        Err("number: expected a valid constant or nonempty, ordered keyframes".to_string())
    );
    let unordered: Tl<u64> = Tl::Keyed(vec![(10, 1), (0, 1)]);
    assert!(unordered.validate("x", |_| true).is_err());
    assert!(Tl::Const(20u64).validate("x", |v| *v < 10).is_err());
}

#[test]
fn invalid_timelines_are_rejected_before_sampling() {
    let bad_x = doc(vec![node(None, Tl::Keyed(vec![]), Tl::Const(n(50.0)))]);
    let header = Doc { header: Some(Tl::Keyed(vec![])), ..doc(vec![]) };
    let nul = Doc { note: Some(Tl::Const("\u{0}".to_string())), ..doc(vec![]) };
    let nonchar = Doc { note: Some(Tl::Const("\u{ffff}".to_string())), ..doc(vec![]) };
    let far = doc(vec![El::Text(TextEl {
        text: Tl::Const("bad".to_string()),
        x: Tl::Const(n(1e300)),
        y: Tl::Const(n(50.0)),
        dim: Tl::Const(false),
        left: false,
        show: None,
    })]);
    let ragged = doc(vec![El::Polyline(PolyEl {
        points: Tl::Keyed(vec![(0, vec![n(0.0), n(0.0)]), (10, vec![n(0.0), n(0.0), n(10.0), n(10.0)])]),
        slice: None,
        dim: false,
        show: None,
    })]);
    let backwards = doc(vec![node(None, Tl::Keyed(vec![(10, n(20.0)), (0, n(40.0))]), Tl::Const(n(50.0)))]);
    for d in [bad_x, header, nul, nonchar, far, ragged, backwards] {
        assert!(d.validate().is_err());
    }
}

#[test]
fn validation_reports_the_first_problem() {
    assert_eq!(
        doc(vec![node(None, Tl::Const(n(101.0)), Tl::Const(n(0.0)))]).validate(),
        Err("coordinate: expected a valid constant or nonempty, ordered keyframes".to_string())
    );
    let dup = doc(vec![
        node(Some("a"), Tl::Const(n(1.0)), Tl::Const(n(1.0))),
        node(Some("a"), Tl::Const(n(2.0)), Tl::Const(n(2.0))),
    ]);
    assert_eq!(dup.validate(), Err("duplicate node id \"a\"".to_string()));
    let unknown = doc(vec![El::Line(LineEl {
        from: Some("x".to_string()),
        to: None,
        x1: None,
        y1: None,
        x2: None,
        y2: None,
        arrow_end: false,
        show: None,
    })]);
    assert_eq!(unknown.validate(), Err("unknown node Some(\"x\")".to_string()));
    let ragged = doc(vec![El::Polyline(PolyEl {
        points: Tl::Keyed(vec![(0, vec![n(0.0), n(0.0)]), (10, vec![n(0.0), n(0.0), n(1.0), n(1.0)])]),
        slice: None,
        dim: false,
        show: None,
    })]);
    assert_eq!(ragged.validate(), Err("keyed point arrays must have equal lengths".to_string()));
    let odd = doc(vec![El::Polyline(PolyEl { points: Tl::Const(vec![n(1.0)]), slice: None, dim: false, show: None })]);
    assert_eq!(odd.validate(), Err("points: expected a valid constant or nonempty, ordered keyframes".to_string()));
    let packet = doc(vec![El::Packet(PacketEl {
        from: None,
        to: None,
        label: "ok".to_string(),
        x1: Tl::Const(n(1.0)),
        y1: Tl::Const(n(1.0)),
        x2: Tl::Const(n(2.0)),
        y2: Tl::Const(n(2.0)),
        p: Tl::Const(n(f64::NAN)),
        landed: Tl::Const(false),
        show: None,
    })]);
    assert_eq!(packet.validate(), Err("number: expected a valid constant or nonempty, ordered keyframes".to_string()));
    let path = doc(vec![El::Path(PathEl { d: "M0 0\u{1}".to_string(), show: Some(Tl::Keyed(vec![(0, true)])) })]);
    assert_eq!(path.validate(), Err("text: expected a valid constant or nonempty, ordered keyframes".to_string()));
}

#[test]
fn valid_document_passes() {
    let d = Doc {
        duration: Some(1000),
        header: Some(Tl::Const("header".to_string())),
        badge: None,
        note: Some(Tl::Keyed(vec![(0, "one".to_string()), (500, "two".to_string())])),
        els: vec![
            node(Some("a"), Tl::Const(n(10.0)), Tl::Const(n(10.0))),
            node(Some("b"), Tl::Keyed(vec![(0, n(20.0)), (500, n(80.0))]), Tl::Const(n(50.0))),
            El::Line(LineEl {
                from: Some("a".to_string()),
                to: Some("b".to_string()),
                x1: None,
                y1: None,
                x2: None,
                y2: None,
                arrow_end: true,
                show: None,
            }),
        ],
    };
    assert!(d.validate().is_ok());
}

#[test]
fn plan_resolves_texts_visibility_and_line_ends() {
    let d = Doc {
        duration: Some(1000),
        header: Some(Tl::Const("H".to_string())),
        badge: Some(Tl::Keyed(vec![(0, String::new()), (600, "live".to_string())])),
        note: None,
        els: vec![
            El::Node(NodeEl {
                id: Some("a".to_string()),
                label: Some(Tl::Const("first".to_string())),
                icon: None,
                x: Tl::Const(1u8),
                y: Tl::Const(1u8),
                status: Some(Tl::Keyed(vec![(0, String::new()), (300, "up".to_string())])),
                lifeline: false,
                show: None,
            }),
            El::Node(NodeEl {
                id: Some("b".to_string()),
                label: None,
                icon: None,
                x: Tl::Const(2u8),
                y: Tl::Const(2u8),
                status: None,
                lifeline: false,
                show: Some(Tl::Keyed(vec![(0, false), (400, true)])),
            }),
            El::Line(LineEl {
                from: Some("a".to_string()),
                to: Some("b".to_string()),
                x1: None,
                y1: None,
                x2: Some(Tl::Const(3u8)),
                y2: None,
                arrow_end: false,
                show: None,
            }),
        ],
    };
    let p = d.plan(1200);
    assert_eq!(p.t, 200);
    assert_eq!(p.shown, vec![true, false, true]);
    assert_eq!(p.text[0], "first");
    assert_eq!(p.status[0], None);
    assert_eq!(p.ends[2], (EndRef::Node(0), EndRef::Raw));
    assert_eq!(p.header, Some("H".to_string()));
    assert_eq!(p.badge, None);
    assert_eq!(p.note, "");
    let q = d.plan(700);
    assert_eq!(q.shown, vec![true, true, true]);
    assert_eq!(q.status[0], Some("up".to_string()));
    assert_eq!(q.ends[2], (EndRef::Node(0), EndRef::Node(1)));
    assert_eq!(q.badge, Some("live".to_string()));
}

#[test]
fn plans_repeat_one_loop_later() {
    let d = Doc {
        duration: Some(1000),
        header: None,
        badge: Some(Tl::Keyed(vec![(0, "a".to_string()), (500, "b".to_string())])),
        note: Some(Tl::Keyed(vec![(0, String::new()), (250, "go".to_string())])),
        els: vec![node(Some("n"), Tl::Const(n(10.0)), Tl::Const(n(10.0)))],
    };
    for t in [0u64, 249, 250, 499, 500, 999] {
        let a = d.plan(t);
        let b = d.plan(t + 1000);
        assert_eq!(a.t, b.t);
        assert_eq!(a.badge, b.badge);
        assert_eq!(a.note, b.note);
        assert_eq!(a.shown, b.shown);
    }
    assert_eq!(d.plan(1600).badge, Some("b".to_string()));
    assert_eq!(d.plan(1100).note, "");
}

#[test]
fn a_validated_document_can_be_planned() {
    let d = Doc {
        duration: None,
        header: Some(Tl::Keyed(vec![(0, "x".to_string())])),
        badge: None,
        note: None,
        els: vec![node(Some("n"), Tl::Const(n(10.0)), Tl::Const(n(10.0)))],
    };
    assert!(d.validate().is_ok());
    assert_eq!(d.plan(5).header, Some("x".to_string()));
}
