//! The compact authoring format: nodes with ids, links between ids, packets
//! sent from one node to another, and free texts, compiled into a timeline
//! document. Numbers (positions, travel progress) pass through unchanged;
//! the caller computes a packet's progress timeline.
use vstd::prelude::*;
use crate::text::{dec, decimal, push_str, same_text};
use crate::timeline::{copy, debug_text, str_debug, Doc, El, LineEl, NodeEl, PacketEl, TextEl, Tl};

verus! {

/// A node: optional id (its position in the list otherwise), label, icon,
/// position, status and lifeline.
pub struct NodeIn<N> {
    pub id: Option<String>,
    pub label: Option<String>,
    pub icon: Option<String>,
    pub x: N,
    pub y: N,
    pub status: Option<String>,
    pub lifeline: bool,
}

/// A link between two node ids; `arrow` is `end`, `both` or anything else.
pub struct LinkIn {
    pub from: String,
    pub to: String,
    pub arrow: String,
}

/// A packet from one node id to another, with its travel progress.
pub struct PacketIn<N> {
    pub label: String,
    pub from: String,
    pub to: String,
    pub progress: Tl<N>,
    pub faded: bool,
}

/// A free text at a position.
pub struct TextIn<N> {
    pub text: String,
    pub x: N,
    pub y: N,
    pub dim: bool,
    pub left: bool,
}

/// A whole compact document.
pub struct Compact<N> {
    pub duration: Option<u64>,
    pub header: Option<String>,
    pub badge: Option<String>,
    pub note: Option<String>,
    pub nodes: Vec<NodeIn<N>>,
    pub links: Vec<LinkIn>,
    pub packets: Vec<PacketIn<N>>,
    pub texts: Vec<TextIn<N>>,
}

/// An optional string as an optional character sequence.
pub open spec fn opt_str(o: Option<String>) -> Option<Seq<char>> {
    match o {
        Some(s) => Some(s@),
        None => None,
    }
}

/// The id node `i` is known by: its own, or its position in decimal.
pub open spec fn node_key<N>(nodes: Seq<NodeIn<N>>, i: int) -> Seq<char> {
    match nodes[i].id {
        Some(s) => s@,
        None => dec(i as nat),
    }
}

/// The last node among the first `n` known by `k`: later nodes shadow
/// earlier ones with the same id.
pub open spec fn last_node<N>(nodes: Seq<NodeIn<N>>, k: Seq<char>, n: int) -> Option<int>
    decreases n,
{
    if n <= 0 {
        None
    } else if node_key(nodes, n - 1) == k {
        Some(n - 1)
    } else {
        last_node(nodes, k, n - 1)
    }
}

/// Every id a document refers to, in the order they are checked: each
/// link's two ends, then each packet's two ends.
pub open spec fn link_refs(links: Seq<LinkIn>) -> Seq<Seq<char>>
    decreases links.len(),
{
    if links.len() == 0 {
        seq![]
    } else {
        link_refs(links.drop_last()) + seq![links.last().from@, links.last().to@]
    }
}

/// Each packet's two ends, in order.
pub open spec fn packet_refs<N>(packets: Seq<PacketIn<N>>) -> Seq<Seq<char>>
    decreases packets.len(),
{
    if packets.len() == 0 {
        seq![]
    } else {
        packet_refs(packets.drop_last()) + seq![packets.last().from@, packets.last().to@]
    }
}

/// The links' ends, then the packets' ends.
pub open spec fn all_refs<N>(c: Compact<N>) -> Seq<Seq<char>> {
    link_refs(c.links@) + packet_refs(c.packets@)
}

/// The first of the first `n` references that names no node.
pub open spec fn first_unknown<N>(nodes: Seq<NodeIn<N>>, refs: Seq<Seq<char>>, n: int) -> Option<Seq<char>>
    decreases n,
{
    if n <= 0 {
        None
    } else {
        match first_unknown(nodes, refs, n - 1) {
            Some(k) => Some(k),
            None => if last_node(nodes, refs[n - 1], nodes.len() as int) is None { Some(refs[n - 1]) } else { None },
        }
    }
}

/// A link draws an arrowhead at its end for `end` and `both`.
pub open spec fn arrow_at_end(a: Seq<char>) -> bool {
    a == "end"@ || a == "both"@
}

/// The lines the links become, each as (from, to, arrowhead): one per
/// link, and for `both` a second one back with an arrowhead.
pub open spec fn line_specs(links: Seq<LinkIn>) -> Seq<(Seq<char>, Seq<char>, bool)>
    decreases links.len(),
{
    if links.len() == 0 {
        seq![]
    } else {
        let l = links.last();
        let once = line_specs(links.drop_last()).push((l.from@, l.to@, arrow_at_end(l.arrow@)));
        if l.arrow@ == "both"@ { once.push((l.to@, l.from@, true)) } else { once }
    }
}

/// A constant text timeline holding `s`, or nothing for nothing.
pub open spec fn const_text(o: Option<Tl<String>>, s: Option<String>) -> bool {
    match o {
        None => s is None,
        Some(t) => match t {
            Tl::Const(v) => s matches Some(w) && v@ == w@,
            Tl::Keyed(_) => false,
        },
    }
}

/// `el` is the node element for `n`, known by `key`.
pub open spec fn node_el_is<N>(el: El<N>, n: NodeIn<N>, key: Seq<char>) -> bool {
    match el {
        El::Node(e) => {
            &&& opt_str(e.id) == Some(key)
            &&& const_text(e.label, n.label)
            &&& opt_str(e.icon) == opt_str(n.icon)
            &&& e.x == Tl::Const(n.x)
            &&& e.y == Tl::Const(n.y)
            &&& const_text(e.status, n.status)
            &&& e.lifeline == n.lifeline
            &&& e.show is None
        },
        _ => false,
    }
}

/// `el` is the line element for (from, to, arrowhead).
pub open spec fn line_el_is<N>(el: El<N>, l: (Seq<char>, Seq<char>, bool)) -> bool {
    match el {
        El::Line(e) => {
            &&& opt_str(e.from) == Some(l.0)
            &&& opt_str(e.to) == Some(l.1)
            &&& e.x1 is None && e.y1 is None && e.x2 is None && e.y2 is None
            &&& e.arrow_end == l.2
            &&& e.show is None
        },
        _ => false,
    }
}

/// `el` is the packet element for `p`, from node `a` to node `b`.
pub open spec fn packet_el_is<N>(el: El<N>, p: PacketIn<N>, a: NodeIn<N>, b: NodeIn<N>) -> bool {
    match el {
        El::Packet(e) => {
            &&& opt_str(e.from) == Some(p.from@)
            &&& opt_str(e.to) == Some(p.to@)
            &&& e.label@ == p.label@
            &&& e.x1 == Tl::Const(a.x) && e.y1 == Tl::Const(a.y)
            &&& e.x2 == Tl::Const(b.x) && e.y2 == Tl::Const(b.y)
            &&& e.p == p.progress
            &&& e.landed == Tl::Const(p.faded)
            &&& e.show is None
        },
        _ => false,
    }
}

/// `el` is the text element for `t`.
pub open spec fn text_el_is<N>(el: El<N>, t: TextIn<N>) -> bool {
    match el {
        El::Text(e) => {
            &&& const_text(Some(e.text), Some(t.text))
            &&& e.x == Tl::Const(t.x) && e.y == Tl::Const(t.y)
            &&& e.dim == Tl::Const(t.dim)
            &&& e.left == t.left
            &&& e.show is None
        },
        _ => false,
    }
}

/// `d` is the document `c` compiles to: its nodes in order under their
/// ids, then the links' lines, then the packets between the positions of
/// the nodes they name, then the texts; every property constant but a
/// packet's progress.
pub open spec fn compiled<N>(c: Compact<N>, d: Doc<N>) -> bool {
    let nodes = c.nodes@;
    let lines = line_specs(c.links@);
    let base_p = nodes.len() + lines.len();
    let base_t = base_p + c.packets@.len();
    &&& d.duration == c.duration
    &&& const_text(d.header, c.header)
    &&& const_text(d.badge, c.badge)
    &&& const_text(d.note, c.note)
    &&& d.els@.len() == base_t + c.texts@.len()
    &&& forall|i: int| 0 <= i < nodes.len() ==> #[trigger] node_el_is(d.els@[i], nodes[i], node_key(nodes, i))
    &&& forall|j: int| 0 <= j < lines.len() ==> #[trigger] line_el_is(d.els@[nodes.len() + j], lines[j])
    &&& forall|k: int| 0 <= k < c.packets@.len() ==> {
        let p = #[trigger] c.packets@[k];
        let a = last_node(nodes, p.from@, nodes.len() as int);
        let b = last_node(nodes, p.to@, nodes.len() as int);
        a is Some && b is Some && packet_el_is(d.els@[base_p + k], p, nodes[a->0], nodes[b->0])
    }
    &&& forall|m: int| 0 <= m < c.texts@.len() ==> #[trigger] text_el_is(d.els@[base_t + m], c.texts@[m])
}

/// Views of a list of strings.
pub open spec fn views(v: Seq<String>) -> Seq<Seq<char>> {
    v.map_values(|s: String| s@)
}

proof fn lemma_link_refs_len(links: Seq<LinkIn>)
    ensures
        link_refs(links).len() == 2 * links.len(),
    decreases links.len(),
{
    if links.len() > 0 {
        lemma_link_refs_len(links.drop_last());
    }
}

proof fn lemma_packet_refs_at<N>(ps: Seq<PacketIn<N>>, k: int)
    requires
        0 <= k < ps.len(),
    ensures
        packet_refs(ps).len() == 2 * ps.len(),
        packet_refs(ps)[2 * k] == ps[k].from@,
        packet_refs(ps)[2 * k + 1] == ps[k].to@,
    decreases ps.len(),
{
    if k < ps.len() - 1 {
        lemma_packet_refs_at(ps.drop_last(), k);
    } else {
        lemma_packet_refs_len(ps.drop_last());
    }
}

proof fn lemma_packet_refs_len<N>(ps: Seq<PacketIn<N>>)
    ensures
        packet_refs(ps).len() == 2 * ps.len(),
    decreases ps.len(),
{
    if ps.len() > 0 {
        lemma_packet_refs_len(ps.drop_last());
    }
}

proof fn lemma_all_known<N>(nodes: Seq<NodeIn<N>>, refs: Seq<Seq<char>>, n: int, j: int)
    requires
        0 <= j < n,
        first_unknown(nodes, refs, n) is None,
    ensures
        last_node(nodes, refs[j], nodes.len() as int) is Some,
    decreases n,
{
    if j < n - 1 {
        lemma_all_known(nodes, refs, n - 1, j);
    }
}

proof fn lemma_unknown_stays<N>(nodes: Seq<NodeIn<N>>, refs: Seq<Seq<char>>, n: int, m: int)
    requires
        n <= m,
        first_unknown(nodes, refs, n) is Some,
    ensures
        first_unknown(nodes, refs, m) == first_unknown(nodes, refs, n),
    decreases m - n,
{
    if n < m {
        lemma_unknown_stays(nodes, refs, n, m - 1);
    }
}

fn copy_opt(o: &Option<String>) -> (r: Option<String>)
    ensures
        opt_str(r) == opt_str(*o),
{
    match o {
        Some(s) => Some(copy(s.as_str())),
        None => None,
    }
}

fn const_opt(o: &Option<String>) -> (r: Option<Tl<String>>)
    ensures
        const_text(r, *o),
{
    match o {
        Some(s) => Some(Tl::Const(copy(s.as_str()))),
        None => None,
    }
}

fn keys_of<N>(nodes: &Vec<NodeIn<N>>) -> (k: Vec<String>)
    ensures
        k@.len() == nodes@.len(),
        forall|i: int| 0 <= i < nodes@.len() ==> (#[trigger] k@[i])@ == node_key(nodes@, i),
{
    let mut k: Vec<String> = Vec::new();
    let mut i: usize = 0;
    while i < nodes.len()
        invariant
            i <= nodes@.len(),
            k@.len() == i,
            forall|j: int| 0 <= j < i ==> (#[trigger] k@[j])@ == node_key(nodes@, j),
        decreases nodes@.len() - i,
    {
        let key = match &nodes[i].id {
            Some(s) => copy(s.as_str()),
            None => decimal(i as u64),
        };
        k.push(key);
        i = i + 1;
    }
    k
}

fn find_node<N>(nodes: &Vec<NodeIn<N>>, keys: &Vec<String>, name: &str) -> (r: Option<usize>)
    requires
        keys@.len() == nodes@.len(),
        forall|i: int| 0 <= i < nodes@.len() ==> (#[trigger] keys@[i])@ == node_key(nodes@, i),
    ensures
        match last_node(nodes@, name@, nodes@.len() as int) {
            Some(i) => r matches Some(j) && j as int == i,
            None => r is None,
        },
        r matches Some(j) ==> j < nodes@.len(),
{
    let mut n = keys.len();
    while n > 0
        invariant
            n <= keys@.len(),
            keys@.len() == nodes@.len(),
            forall|i: int| 0 <= i < nodes@.len() ==> (#[trigger] keys@[i])@ == node_key(nodes@, i),
            last_node(nodes@, name@, nodes@.len() as int) == last_node(nodes@, name@, n as int),
        decreases n,
    {
        if same_text(keys[n - 1].as_str(), name) {
            return Some(n - 1);
        }
        n = n - 1;
    }
    None
}

fn gather_refs<N>(c: &Compact<N>) -> (v: Vec<String>)
    ensures
        views(v@) == all_refs(*c),
{
    let mut v: Vec<String> = Vec::new();
    let mut i: usize = 0;
    assert(views(v@) =~= link_refs(c.links@.take(0)));
    while i < c.links.len()
        invariant
            i <= c.links@.len(),
            views(v@) == link_refs(c.links@.take(i as int)),
        decreases c.links@.len() - i,
    {
        let ghost before = v@;
        v.push(copy(c.links[i].from.as_str()));
        v.push(copy(c.links[i].to.as_str()));
        proof {
            let t = c.links@.take(i + 1);
            assert(t.drop_last() =~= c.links@.take(i as int));
            assert(views(v@) =~= views(before) + seq![c.links@[i as int].from@, c.links@[i as int].to@]);
        }
        i = i + 1;
    }
    assert(c.links@.take(i as int) =~= c.links@);
    let mut k: usize = 0;
    assert(packet_refs(c.packets@.take(0)) =~= Seq::<Seq<char>>::empty());
    while k < c.packets.len()
        invariant
            k <= c.packets@.len(),
            views(v@) == link_refs(c.links@) + packet_refs(c.packets@.take(k as int)),
        decreases c.packets@.len() - k,
    {
        let ghost before = v@;
        v.push(copy(c.packets[k].from.as_str()));
        v.push(copy(c.packets[k].to.as_str()));
        proof {
            let t = c.packets@.take(k + 1);
            assert(t.drop_last() =~= c.packets@.take(k as int));
            assert(views(v@) =~= views(before) + seq![c.packets@[k as int].from@, c.packets@[k as int].to@]);
        }
        k = k + 1;
    }
    assert(c.packets@.take(k as int) =~= c.packets@);
    v
}

/// The message for a reference to no node: `unknown node "<id>"`.
pub open spec fn unknown_msg(k: Seq<char>) -> Seq<char> {
    "unknown node "@ + str_debug(k)
}

fn check_refs<N>(c: &Compact<N>, keys: &Vec<String>) -> (r: Option<String>)
    requires
        keys@.len() == c.nodes@.len(),
        forall|i: int| 0 <= i < c.nodes@.len() ==> (#[trigger] keys@[i])@ == node_key(c.nodes@, i),
    ensures
        match first_unknown(c.nodes@, all_refs(*c), all_refs(*c).len() as int) {
            Some(k) => r matches Some(e) && e@ == unknown_msg(k),
            None => r is None,
        },
{
    let refs = gather_refs(c);
    let ghost rv = views(refs@);
    let mut j: usize = 0;
    while j < refs.len()
        invariant
            j <= refs@.len(),
            rv == views(refs@),
            rv == all_refs(*c),
            keys@.len() == c.nodes@.len(),
            forall|i: int| 0 <= i < c.nodes@.len() ==> (#[trigger] keys@[i])@ == node_key(c.nodes@, i),
            first_unknown(c.nodes@, rv, j as int) is None,
        decreases refs@.len() - j,
    {
        assert(rv[j as int] == refs@[j as int]@);
        if find_node(&c.nodes, keys, refs[j].as_str()).is_none() {
            let mut e = String::new();
            push_str(&mut e, "unknown node ");
            let d = debug_text(refs[j].as_str());
            push_str(&mut e, d.as_str());
            proof {
                assert(first_unknown(c.nodes@, rv, j + 1) == Some(rv[j as int]));
                lemma_unknown_stays(c.nodes@, rv, j + 1, rv.len() as int);
            }
            return Some(e);
        }
        j = j + 1;
    }
    None
}

fn line_el<N>(from: &str, to: &str, arrow_end: bool) -> (el: El<N>)
    ensures
        line_el_is(el, (from@, to@, arrow_end)),
{
    El::Line(LineEl {
        from: Some(copy(from)),
        to: Some(copy(to)),
        x1: None,
        y1: None,
        x2: None,
        y2: None,
        arrow_end,
        show: None,
    })
}

/// Compiles a compact document into a timeline document. Links and
/// packets must name existing nodes (an id, or the position of a node
/// without one); the first reference to no node, links before packets and
/// each from before to, is the error.
pub fn compile<N: Copy>(c: Compact<N>) -> (r: Result<Doc<N>, String>)
    ensures
        match first_unknown(c.nodes@, all_refs(c), all_refs(c).len() as int) {
            Some(k) => r matches Err(e) && e@ == unknown_msg(k),
            None => r matches Ok(d) && compiled(c, d),
        },
{
    let ghost c0 = c;
    let keys = keys_of(&c.nodes);
    match check_refs(&c, &keys) {
        Some(e) => {
            return Err(e);
        },
        None => {},
    }
    let ghost refs = all_refs(c0);
    let ghost nodes = c0.nodes@;
    let n = c.nodes.len();
    let mut els: Vec<El<N>> = Vec::new();
    let mut i: usize = 0;
    while i < n
        invariant
            n == nodes.len(),
            nodes == c.nodes@,
            keys@.len() == n,
            forall|j: int| 0 <= j < n ==> (#[trigger] keys@[j])@ == node_key(nodes, j),
            i <= n,
            els@.len() == i,
            forall|j: int| 0 <= j < i ==> #[trigger] node_el_is(els@[j], nodes[j], node_key(nodes, j)),
        decreases n - i,
    {
        let nd = &c.nodes[i];
        let el = El::Node(NodeEl {
            id: Some(copy(keys[i].as_str())),
            label: const_opt(&nd.label),
            icon: copy_opt(&nd.icon),
            x: Tl::Const(nd.x),
            y: Tl::Const(nd.y),
            status: const_opt(&nd.status),
            lifeline: nd.lifeline,
            show: None,
        });
        els.push(el);
        i = i + 1;
    }
    let ghost links = c0.links@;
    let mut j: usize = 0;
    assert(line_specs(links.take(0)) =~= Seq::<(Seq<char>, Seq<char>, bool)>::empty());
    while j < c.links.len()
        invariant
            links == c.links@,
            n == nodes.len(),
            j <= links.len(),
            els@.len() == n + line_specs(links.take(j as int)).len(),
            forall|q: int| 0 <= q < n ==> #[trigger] node_el_is(els@[q], nodes[q], node_key(nodes, q)),
            forall|q: int| 0 <= q < line_specs(links.take(j as int)).len() ==>
                #[trigger] line_el_is(els@[n + q], line_specs(links.take(j as int))[q]),
        decreases links.len() - j,
    {
        let l = &c.links[j];
        let ghost prev = line_specs(links.take(j as int));
        let ghost before = els@;
        proof {
            assert(links.take(j + 1).drop_last() =~= links.take(j as int));
            assert(links.take(j + 1).last() == links[j as int]);
        }
        let both = same_text(l.arrow.as_str(), "both");
        let end = both || same_text(l.arrow.as_str(), "end");
        els.push(line_el(l.from.as_str(), l.to.as_str(), end));
        if both {
            els.push(line_el(l.to.as_str(), l.from.as_str(), true));
        }
        proof {
            let now = line_specs(links.take(j + 1));
            assert(arrow_at_end(l.arrow@) == end);
            assert forall|q: int| 0 <= q < n implies #[trigger] node_el_is(els@[q], nodes[q], node_key(nodes, q)) by {
                assert(els@[q] == before[q]);
            }
            assert forall|q: int| 0 <= q < now.len() implies #[trigger] line_el_is(els@[n + q], now[q]) by {
                if q < prev.len() {
                    assert(els@[n + q] == before[n + q]);
                    assert(now[q] == prev[q]);
                }
            }
        }
        j = j + 1;
    }
    assert(links.take(j as int) =~= links);
    let ghost lines = line_specs(links);
    let ghost base_p = n + lines.len();
    let ghost all_packets = c0.packets@;
    let total = c.packets.len();
    let mut packets = c.packets;
    let mut k: usize = 0;
    proof {
        lemma_link_refs_len(links);
        lemma_packet_refs_len(all_packets);
    }
    while packets.len() > 0
        invariant
            n == nodes.len(),
            nodes == c.nodes@,
            keys@.len() == n,
            forall|q: int| 0 <= q < n ==> (#[trigger] keys@[q])@ == node_key(nodes, q),
            refs == link_refs(links) + packet_refs(all_packets),
            refs.len() == 2 * links.len() + 2 * all_packets.len(),
            first_unknown(nodes, refs, refs.len() as int) is None,
            k <= all_packets.len(),
            total == all_packets.len(),
            packets@ == all_packets.skip(k as int),
            els@.len() == base_p + k,
            base_p == n + lines.len(),
            forall|q: int| 0 <= q < n ==> #[trigger] node_el_is(els@[q], nodes[q], node_key(nodes, q)),
            forall|q: int| 0 <= q < lines.len() ==> #[trigger] line_el_is(els@[n + q], lines[q]),
            forall|q: int| 0 <= q < k ==> {
                let p = #[trigger] all_packets[q];
                let a = last_node(nodes, p.from@, nodes.len() as int);
                let b = last_node(nodes, p.to@, nodes.len() as int);
                a is Some && b is Some && packet_el_is(els@[base_p + q], p, nodes[a->0], nodes[b->0])
            },
        decreases packets@.len(),
    {
        let ghost before = els@;
        let pk = packets.remove(0);
        assert(pk == all_packets[k as int]);
        proof {
            lemma_packet_refs_at(all_packets, k as int);
            lemma_all_known(nodes, refs, refs.len() as int, 2 * links.len() + 2 * k);
            lemma_all_known(nodes, refs, refs.len() as int, 2 * links.len() + 2 * k + 1);
            assert(refs[2 * links.len() + 2 * k] == pk.from@);
            assert(refs[2 * links.len() + 2 * k + 1] == pk.to@);
        }
        let a = find_node(&c.nodes, &keys, pk.from.as_str()).unwrap();
        let b = find_node(&c.nodes, &keys, pk.to.as_str()).unwrap();
        let na = &c.nodes[a];
        let nb = &c.nodes[b];
        let el = El::Packet(PacketEl {
            from: Some(copy(pk.from.as_str())),
            to: Some(copy(pk.to.as_str())),
            label: copy(pk.label.as_str()),
            x1: Tl::Const(na.x),
            y1: Tl::Const(na.y),
            x2: Tl::Const(nb.x),
            y2: Tl::Const(nb.y),
            p: pk.progress,
            landed: Tl::Const(pk.faded),
            show: None,
        });
        els.push(el);
        proof {
            assert(packets@ =~= all_packets.skip(k + 1));
            assert forall|q: int| 0 <= q < n implies #[trigger] node_el_is(els@[q], nodes[q], node_key(nodes, q)) by {
                assert(els@[q] == before[q]);
            }
            assert forall|q: int| 0 <= q < lines.len() implies #[trigger] line_el_is(els@[n + q], lines[q]) by {
                assert(els@[n + q] == before[n + q]);
            }
            assert forall|q: int| 0 <= q < k + 1 implies {
                let p = #[trigger] all_packets[q];
                let a = last_node(nodes, p.from@, nodes.len() as int);
                let b = last_node(nodes, p.to@, nodes.len() as int);
                a is Some && b is Some && packet_el_is(els@[base_p + q], p, nodes[a->0], nodes[b->0])
            } by {
                if q < k {
                    assert(els@[base_p + q] == before[base_p + q]);
                }
            }
        }
        k = k + 1;
    }
    assert(k == all_packets.len());
    let ghost base_t = base_p + all_packets.len();
    let mut m: usize = 0;
    while m < c.texts.len()
        invariant
            n == nodes.len(),
            nodes == c.nodes@,
            m <= c.texts@.len(),
            c.texts@ == c0.texts@,
            els@.len() == base_t + m,
            base_t == base_p + all_packets.len(),
            base_p == n + lines.len(),
            forall|q: int| 0 <= q < n ==> #[trigger] node_el_is(els@[q], nodes[q], node_key(nodes, q)),
            forall|q: int| 0 <= q < lines.len() ==> #[trigger] line_el_is(els@[n + q], lines[q]),
            forall|q: int| 0 <= q < all_packets.len() ==> {
                let p = #[trigger] all_packets[q];
                let a = last_node(nodes, p.from@, nodes.len() as int);
                let b = last_node(nodes, p.to@, nodes.len() as int);
                a is Some && b is Some && packet_el_is(els@[base_p + q], p, nodes[a->0], nodes[b->0])
            },
            forall|q: int| 0 <= q < m ==> #[trigger] text_el_is(els@[base_t + q], c0.texts@[q]),
        decreases c.texts@.len() - m,
    {
        let ghost before = els@;
        let t = &c.texts[m];
        let el = El::Text(TextEl {
            text: Tl::Const(copy(t.text.as_str())),
            x: Tl::Const(t.x),
            y: Tl::Const(t.y),
            dim: Tl::Const(t.dim),
            left: t.left,
            show: None,
        });
        els.push(el);
        proof {
            assert forall|q: int| 0 <= q < n implies #[trigger] node_el_is(els@[q], nodes[q], node_key(nodes, q)) by {
                assert(els@[q] == before[q]);
            }
            assert forall|q: int| 0 <= q < lines.len() implies #[trigger] line_el_is(els@[n + q], lines[q]) by {
                assert(els@[n + q] == before[n + q]);
            }
            assert forall|q: int| 0 <= q < all_packets.len() implies {
                let p = #[trigger] all_packets[q];
                let a = last_node(nodes, p.from@, nodes.len() as int);
                let b = last_node(nodes, p.to@, nodes.len() as int);
                a is Some && b is Some && packet_el_is(els@[base_p + q], p, nodes[a->0], nodes[b->0])
            } by {
                assert(els@[base_p + q] == before[base_p + q]);
            }
            assert forall|q: int| 0 <= q < m + 1 implies #[trigger] text_el_is(els@[base_t + q], c0.texts@[q]) by {
                if q < m {
                    assert(els@[base_t + q] == before[base_t + q]);
                }
            }
        }
        m = m + 1;
    }
    let d = Doc {
        duration: c.duration,
        header: const_opt(&c.header),
        badge: const_opt(&c.badge),
        note: const_opt(&c.note),
        els,
    };
    Ok(d)
}

} // verus!
