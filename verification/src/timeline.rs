//! Timeline values: a property is either a constant or a list of keyframes
//! `(t, value)`; stepped values hold the last key at or before `t`.
use vstd::prelude::*;
use crate::text::{byte_len, lemma_utf8_len_bounds, push_str, same_text};
use crate::typography::{forbidden_char, valid_text};

verus! {

/// A timeline value: a constant, or `(t, value)` keyframes.
#[derive(Debug)]
pub enum Tl<T> {
    Const(T),
    Keyed(Vec<(u64, T)>),
}

/// Value of keyframes at `t`: the last key at or before `t`, or the first
/// key when every key is later.
pub open spec fn step_keys<T>(k: Seq<(u64, T)>, t: u64) -> T
    decreases k.len(),
{
    if k.len() <= 1 {
        k[0].1
    } else if k.last().0 <= t {
        k.last().1
    } else {
        step_keys(k.drop_last(), t)
    }
}

/// Keyframe times never decrease.
pub open spec fn keys_ordered<T>(k: Seq<(u64, T)>) -> bool {
    forall|i: int, j: int| 0 <= i <= j < k.len() ==> k[i].0 <= k[j].0
}

/// Between two keys a stepped value holds the earlier key's value, and from
/// the last key on it holds the last value.
pub proof fn lemma_step_holds<T>(k: Seq<(u64, T)>, i: int, t: u64)
    requires
        keys_ordered(k),
        0 <= i < k.len(),
        k[i].0 <= t,
        i + 1 == k.len() || t < k[i + 1].0,
    ensures
        step_keys(k, t) == k[i].1,
    decreases k.len(),
{
    if k.len() > 1 && i < k.len() - 1 {
        assert(k.last().0 > t) by {
            assert(k[i + 1].0 <= k[k.len() - 1].0);
        }
        let d = k.drop_last();
        assert(keys_ordered(d));
        assert(d[i] == k[i]);
        if i + 1 < d.len() {
            assert(d[i + 1] == k[i + 1]);
        }
        lemma_step_holds(d, i, t);
    }
}

/// Before the first key a stepped value holds the first value.
pub proof fn lemma_step_before_first<T>(k: Seq<(u64, T)>, t: u64)
    requires
        keys_ordered(k),
        k.len() > 0,
        t < k[0].0,
    ensures
        step_keys(k, t) == k[0].1,
    decreases k.len(),
{
    if k.len() > 1 {
        assert(k[0].0 <= k.last().0);
        let d = k.drop_last();
        assert(keys_ordered(d));
        assert(d[0] == k[0]);
        lemma_step_before_first(d, t);
    }
}

/// Index of the key a stepped value takes at `t`: the key with the largest
/// index whose time is at or before `t`, or the first key when there is none.
pub open spec fn step_index<T>(k: Seq<(u64, T)>, t: u64, j: int) -> bool {
    &&& 0 <= j < k.len()
    &&& if k[j].0 <= t {
        forall|i: int| j < i < k.len() ==> #[trigger] k[i].0 > t
    } else {
        j == 0 && forall|i: int| 0 <= i < k.len() ==> #[trigger] k[i].0 > t
    }
}

/// Whatever the order of the keys, a stepped value is the value of the last
/// key (by position) at or before `t`, and the first value when every key
/// is later.
pub proof fn lemma_step_is_last_key_at_or_before<T>(k: Seq<(u64, T)>, t: u64, j: int)
    requires
        step_index(k, t, j),
    ensures
        step_keys(k, t) == k[j].1,
    decreases k.len(),
{
    if k.len() > 1 {
        if j == k.len() - 1 {
            if k.last().0 > t {
                assert(j == 0);
            }
        } else {
            assert(k.last().0 > t);
            let d = k.drop_last();
            assert(d[j] == k[j]);
            assert forall|i: int| j < i < d.len() implies #[trigger] d[i].0 > t by {
                assert(d[i] == k[i]);
            }
            if k[j].0 > t {
                assert forall|i: int| 0 <= i < d.len() implies #[trigger] d[i].0 > t by {
                    assert(d[i] == k[i]);
                }
            }
            lemma_step_is_last_key_at_or_before(d, t, j);
        }
    }
}

impl<T> Tl<T> {
    /// The stepped value at `t`.
    pub open spec fn step_spec(&self, t: u64) -> T {
        match self {
            Tl::Const(v) => *v,
            Tl::Keyed(k) => step_keys(k@, t),
        }
    }

    /// Can be resolved: keyframe lists are not empty.
    pub open spec fn resolvable(&self) -> bool {
        match self {
            Tl::Const(_) => true,
            Tl::Keyed(k) => k@.len() > 0,
        }
    }

    /// The values this timeline can take.
    pub open spec fn values(&self) -> Seq<T> {
        match self {
            Tl::Const(v) => seq![*v],
            Tl::Keyed(k) => k@.map_values(|p: (u64, T)| p.1),
        }
    }
}

impl<T: Clone> Tl<T> {
    /// Step resolution: the value of the last key at or before `t` (for
    /// strings and flags); before the first key, the first key's value.
    pub fn step(&self, t: u64) -> (r: T)
        requires
            self.resolvable(),
        ensures
            cloned(self.step_spec(t), r),
    {
        match self {
            Tl::Const(v) => v.clone(),
            Tl::Keyed(k) => {
                let mut i = k.len();
                assert(k@.take(i as int) =~= k@);
                while i > 1
                    invariant
                        1 <= i <= k@.len(),
                        self.step_spec(t) == step_keys(k@, t),
                        step_keys(k@, t) == step_keys(k@.take(i as int), t),
                    decreases i,
                {
                    let ghost pre = k@.take(i as int);
                    assert(pre.last() == k@[i - 1]);
                    if k[i - 1].0 <= t {
                        assert(step_keys(pre, t) == k@[i - 1].1);
                        let r = k[i - 1].1.clone();
                        assert(cloned(k@[i - 1].1, r));
                        return r;
                    }
                    assert(pre.drop_last() =~= k@.take(i - 1));
                    i = i - 1;
                }
                assert(k@.take(1)[0] == k@[0]);
                assert(step_keys(k@.take(1), t) == k@[0].1);
                let r = k[0].1.clone();
                assert(cloned(k@[0].1, r));
                r
            },
        }
    }

    /// Checks the shape and every value: a constant must pass `check`;
    /// keyframes must be non-empty, ordered by time, and every value must
    /// pass `check`. The error names the property.
    pub fn validate<F: Fn(&T) -> bool>(&self, name: &str, check: F) -> (r: Result<(), String>)
        requires
            forall|x: &T| call_requires(check, (x,)),
        ensures
            r is Ok ==> passes(*self, check),
            r is Err ==> fails(*self, check),
            r matches Err(e) ==> e@ == name@ + ": expected a valid constant or nonempty, ordered keyframes"@,
    {
        let ok = match self {
            Tl::Const(v) => check(v),
            Tl::Keyed(keys) => {
                if keys.len() == 0 {
                    false
                } else {
                    // 0: fine so far, 1: keys out of order, 2: a value fails the check
                    let mut state: u8 = 0;
                    let mut i: usize = 0;
                    while i < keys.len() && state == 0
                        invariant
                            i <= keys@.len(),
                            keys@.len() > 0,
                            forall|x: &T| call_requires(check, (x,)),
                            state == 0 ==> forall|a: int, b: int| 0 <= a <= b < i ==> keys@[a].0 <= keys@[b].0,
                            state == 0 ==> forall|a: int| 0 <= a < i ==> call_ensures(check, (&(#[trigger] keys@[a]).1,), true),
                            state == 1 ==> !keys_ordered(keys@),
                            state == 2 ==> exists|a: int| 0 <= a < keys@.len() && call_ensures(check, (&(#[trigger] keys@[a]).1,), false),
                            state <= 2,
                        decreases keys@.len() - i + (if state == 0 { 1int } else { 0int }),
                    {
                        if i > 0 && keys[i - 1].0 > keys[i].0 {
                            state = 1;
                        } else {
                            let b = check(&keys[i].1);
                            if !b {
                                state = 2;
                            } else {
                                assert forall|a: int, c: int| 0 <= a <= c < i + 1 implies keys@[a].0 <= keys@[c].0 by {
                                    if c == i && a < c {
                                        assert(keys@[a].0 <= keys@[i - 1].0);
                                    }
                                }
                                i = i + 1;
                            }
                        }
                    }
                    state == 0
                }
            },
        };
        if ok {
            Ok(())
        } else {
            let mut e = String::new();
            push_str(&mut e, name);
            push_str(&mut e, ": expected a valid constant or nonempty, ordered keyframes");
            Err(e)
        }
    }
}

/// What a successful check of `tl` saw: the constant passed `check`, or
/// the keyframes are nonempty, ordered, and each value passed.
pub open spec fn passes<T, F: Fn(&T) -> bool>(tl: Tl<T>, check: F) -> bool {
    match tl {
        Tl::Const(v) => call_ensures(check, (&v,), true),
        Tl::Keyed(k) => k@.len() > 0 && keys_ordered(k@)
            && forall|i: int| 0 <= i < k@.len() ==> call_ensures(check, (&(#[trigger] k@[i]).1,), true),
    }
}

/// What a failed check of `tl` saw: the constant failed `check`, or the
/// keyframes are empty, out of order, or hold a value that failed.
pub open spec fn fails<T, F: Fn(&T) -> bool>(tl: Tl<T>, check: F) -> bool {
    match tl {
        Tl::Const(v) => call_ensures(check, (&v,), false),
        Tl::Keyed(k) => k@.len() == 0 || !keys_ordered(k@)
            || exists|i: int| 0 <= i < k@.len() && call_ensures(check, (&(#[trigger] k@[i]).1,), false),
    }
}

/// With a check that decides a predicate `ok`, validation succeeds exactly
/// on timelines that are a passing constant or nonempty, ordered keyframes
/// whose values all pass (`tl_ok`).
pub proof fn lemma_validate_decides<T, F: Fn(&T) -> bool>(tl: Tl<T>, check: F, ok: spec_fn(T) -> bool)
    requires
        forall|x: &T, b: bool| call_ensures(check, (x,), b) ==> b == ok(*x),
    ensures
        passes(tl, check) ==> tl_ok(tl, ok),
        fails(tl, check) ==> !tl_ok(tl, ok),
{
    match tl {
        Tl::Const(v) => {},
        Tl::Keyed(k) => {
            if passes(tl, check) {
                assert forall|i: int| 0 <= i < k@.len() implies #[trigger] ok(k@[i].1) by {
                    assert(call_ensures(check, (&k@[i].1,), true));
                }
            }
            if fails(tl, check) && k@.len() > 0 && keys_ordered(k@) {
                let i = choose|i: int| 0 <= i < k@.len() && call_ensures(check, (&(#[trigger] k@[i]).1,), false);
                assert(!ok(k@[i].1));
            }
        },
    }
}

/// A raw SVG path element with optional visibility.
pub struct PathEl {
    pub d: String,
    pub show: Option<Tl<bool>>,
}

/// A node: optional id, label, icon and status, its position, whether it
/// draws a lifeline, and its visibility. `N` is the number type.
pub struct NodeEl<N> {
    pub id: Option<String>,
    pub label: Option<Tl<String>>,
    pub icon: Option<String>,
    pub x: Tl<N>,
    pub y: Tl<N>,
    pub status: Option<Tl<String>>,
    pub lifeline: bool,
    pub show: Option<Tl<bool>>,
}

/// A line between two nodes (by id) or raw coordinates.
pub struct LineEl<N> {
    pub from: Option<String>,
    pub to: Option<String>,
    pub x1: Option<Tl<N>>,
    pub y1: Option<Tl<N>>,
    pub x2: Option<Tl<N>>,
    pub y2: Option<Tl<N>>,
    pub arrow_end: bool,
    pub show: Option<Tl<bool>>,
}

/// A labelled packet travelling between two points, `p` its progress.
pub struct PacketEl<N> {
    pub from: Option<String>,
    pub to: Option<String>,
    pub label: String,
    pub x1: Tl<N>,
    pub y1: Tl<N>,
    pub x2: Tl<N>,
    pub y2: Tl<N>,
    pub p: Tl<N>,
    pub landed: Tl<bool>,
    pub show: Option<Tl<bool>>,
}

/// A free text.
pub struct TextEl<N> {
    pub text: Tl<String>,
    pub x: Tl<N>,
    pub y: Tl<N>,
    pub dim: Tl<bool>,
    pub left: bool,
    pub show: Option<Tl<bool>>,
}

/// A polyline given as flat `[x0, y0, x1, y1, ...]`, with an optional
/// visible slice of point indices.
pub struct PolyEl<N> {
    pub points: Tl<Vec<N>>,
    pub slice: Option<(Tl<N>, Tl<N>)>,
    pub dim: bool,
    pub show: Option<Tl<bool>>,
}

/// One element of a document.
pub enum El<N> {
    Node(NodeEl<N>),
    Line(LineEl<N>),
    Packet(PacketEl<N>),
    Text(TextEl<N>),
    Polyline(PolyEl<N>),
    Path(PathEl),
}

/// A timeline document: loop length (none for a still), header, badge and
/// caption, and its elements.
pub struct Doc<N> {
    pub duration: Option<u64>,
    pub header: Option<Tl<String>>,
    pub badge: Option<Tl<String>>,
    pub note: Option<Tl<String>>,
    pub els: Vec<El<N>>,
}

/// What validation needs to know of a number: whether it is finite, and
/// whether it is a coordinate (finite and within 0..=100).
#[derive(Clone, Copy, PartialEq, Eq, Structural, Debug)]
pub struct Num {
    pub finite: bool,
    pub coordinate: bool,
}

/// Text that SVG can carry.
pub open spec fn text_ok(s: Seq<char>) -> bool {
    forall|i: int| 0 <= i < s.len() ==> !forbidden_char(#[trigger] s[i])
}

/// A timeline passes when its constant passes, or its keyframes are
/// nonempty, ordered, and each value passes.
pub open spec fn tl_ok<T>(tl: Tl<T>, ok: spec_fn(T) -> bool) -> bool {
    match tl {
        Tl::Const(v) => ok(v),
        Tl::Keyed(k) => k@.len() > 0 && keys_ordered(k@) && forall|i: int| 0 <= i < k@.len() ==> #[trigger] ok(k@[i].1),
    }
}

/// The message naming a property whose timeline fails.
pub open spec fn tl_msg(name: Seq<char>) -> Seq<char> {
    name + ": expected a valid constant or nonempty, ordered keyframes"@
}

pub open spec fn tl_err<T>(tl: Tl<T>, ok: spec_fn(T) -> bool, name: Seq<char>) -> Option<Seq<char>> {
    if tl_ok(tl, ok) { None } else { Some(tl_msg(name)) }
}

/// The first of two outcomes that is an error.
pub open spec fn first(a: Option<Seq<char>>, b: Option<Seq<char>>) -> Option<Seq<char>> {
    if a is Some { a } else { b }
}

pub open spec fn coord_pred() -> spec_fn(Num) -> bool {
    |n: Num| n.coordinate
}

pub open spec fn finite_pred() -> spec_fn(Num) -> bool {
    |n: Num| n.finite
}

pub open spec fn text_pred() -> spec_fn(String) -> bool {
    |s: String| text_ok(s@)
}

pub open spec fn any_pred() -> spec_fn(bool) -> bool {
    |b: bool| true
}

pub open spec fn points_pred() -> spec_fn(Vec<Num>) -> bool {
    |v: Vec<Num>| points_ok(v)
}

pub open spec fn coord_err(tl: Tl<Num>) -> Option<Seq<char>> {
    tl_err(tl, coord_pred(), "coordinate"@)
}

pub open spec fn number_err(tl: Tl<Num>) -> Option<Seq<char>> {
    tl_err(tl, finite_pred(), "number"@)
}

pub open spec fn text_err(tl: Tl<String>) -> Option<Seq<char>> {
    tl_err(tl, text_pred(), "text"@)
}

pub open spec fn shape_err(tl: Tl<bool>, name: Seq<char>) -> Option<Seq<char>> {
    tl_err(tl, any_pred(), name)
}

pub open spec fn opt_text_err(o: Option<Tl<String>>) -> Option<Seq<char>> {
    match o { Some(t) => text_err(t), None => None }
}

pub open spec fn opt_coord_err(o: Option<Tl<Num>>) -> Option<Seq<char>> {
    match o { Some(t) => coord_err(t), None => None }
}

pub open spec fn visible_err(o: Option<Tl<bool>>) -> Option<Seq<char>> {
    match o { Some(t) => shape_err(t, "visibility"@), None => None }
}

/// How `format!("{:?}", s)` renders a string: quoted, with escapes.
pub uninterp spec fn str_debug(s: Seq<char>) -> Seq<char>;

/// Trusted: `format!("{s:?}")`, std's `Debug` rendering of a string slice.
/// Its result is named `str_debug`; what the quoting and escaping are is
/// left unsaid.
#[verifier::external_body]
pub(crate) fn debug_text(s: &str) -> (r: String)
    ensures
        r@ == str_debug(s@),
{
    format!("{s:?}")
}

/// A reference to a node id that no node carries.
pub open spec fn ref_err(id: Option<String>, ids: Seq<Seq<char>>) -> Option<Seq<char>> {
    match id {
        Some(i) => if ids.contains(i@) { None } else { Some("unknown node Some("@ + str_debug(i@) + ")"@) },
        None => None,
    }
}

/// Points pass when there is an even number of them, all finite.
pub open spec fn points_ok(v: Vec<Num>) -> bool {
    v@.len() % 2 == 0 && forall|i: int| 0 <= i < v@.len() ==> (#[trigger] v@[i]).finite
}

/// Keyed point arrays all have the same length.
pub open spec fn equal_lengths(k: Seq<(u64, Vec<Num>)>) -> bool {
    forall|i: int| 0 <= i < k.len() ==> (#[trigger] k[i]).1@.len() == k[0].1@.len()
}

/// The first problem with element `el`, checking its properties in order.
pub open spec fn el_err(el: El<Num>, ids: Seq<Seq<char>>) -> Option<Seq<char>> {
    match el {
        El::Node(n) => first(coord_err(n.x), first(coord_err(n.y), first(visible_err(n.show),
            first(opt_text_err(n.label), opt_text_err(n.status))))),
        El::Line(l) => first(opt_coord_err(l.x1), first(opt_coord_err(l.y1), first(opt_coord_err(l.x2),
            first(opt_coord_err(l.y2), first(ref_err(l.from, ids), first(ref_err(l.to, ids), visible_err(l.show))))))),
        El::Packet(p) => first(coord_err(p.x1), first(coord_err(p.y1), first(coord_err(p.x2), first(coord_err(p.y2),
            first(number_err(p.p), first(visible_err(p.show), first(shape_err(p.landed, "landed"@),
            first(ref_err(p.from, ids), first(ref_err(p.to, ids), if text_ok(p.label@) { None } else { Some(tl_msg("text"@)) }))))))))),
        El::Text(t) => first(coord_err(t.x), first(coord_err(t.y), first(text_err(t.text), first(visible_err(t.show),
            shape_err(t.dim, "dim"@))))),
        El::Polyline(pl) => first(tl_err(pl.points, points_pred(), "points"@),
            first(match pl.points {
                Tl::Keyed(k) => if equal_lengths(k@) { None } else { Some("keyed point arrays must have equal lengths"@) },
                Tl::Const(_) => None,
            }, first(match pl.slice {
                Some((a, b)) => first(number_err(a), number_err(b)),
                None => None,
            }, visible_err(pl.show)))),
        El::Path(p) => first(visible_err(p.show), if text_ok(p.d@) { None } else { Some(tl_msg("text"@)) }),
    }
}

/// Ids of the nodes among the first `n` elements, in order.
pub open spec fn node_ids(els: Seq<El<Num>>, n: int) -> Seq<Seq<char>>
    decreases n,
{
    if n <= 0 {
        seq![]
    } else {
        match els[n - 1] {
            El::Node(nd) => match nd.id {
                Some(i) => node_ids(els, n - 1).push(i@),
                None => node_ids(els, n - 1),
            },
            _ => node_ids(els, n - 1),
        }
    }
}

/// The first id among the first `n` that repeats an earlier one.
pub open spec fn first_dup(ids: Seq<Seq<char>>, n: int) -> Option<Seq<char>>
    decreases n,
{
    if n <= 0 {
        None
    } else if first_dup(ids, n - 1) is Some {
        first_dup(ids, n - 1)
    } else if ids.take(n - 1).contains(ids[n - 1]) {
        Some(ids[n - 1])
    } else {
        None
    }
}

/// The first problem among the first `n` elements.
pub open spec fn els_err(els: Seq<El<Num>>, ids: Seq<Seq<char>>, n: int) -> Option<Seq<char>>
    decreases n,
{
    if n <= 0 { None } else { first(els_err(els, ids, n - 1), el_err(els[n - 1], ids)) }
}

/// The first problem with a document: its header, badge and caption texts,
/// then a repeated node id, then each element in order.
pub open spec fn doc_err(d: Doc<Num>) -> Option<Seq<char>> {
    let ids = node_ids(d.els@, d.els@.len() as int);
    first(opt_text_err(d.header), first(opt_text_err(d.badge), first(opt_text_err(d.note),
        first(match first_dup(ids, ids.len() as int) { Some(i) => Some("duplicate node id "@ + str_debug(i)), None => None },
        els_err(d.els@, ids, d.els@.len() as int)))))
}

pub open spec fn opt_view(o: Option<String>) -> Option<Seq<char>> {
    match o { Some(s) => Some(s@), None => None }
}

fn tl_error(name: &str) -> (e: String)
    ensures
        e@ == tl_msg(name@),
{
    let mut e = String::new();
    push_str(&mut e, name);
    push_str(&mut e, ": expected a valid constant or nonempty, ordered keyframes");
    e
}

/// Whether keyframe times never decrease.
fn ordered_exec<T>(k: &Vec<(u64, T)>) -> (b: bool)
    ensures
        b == keys_ordered(k@),
{
    let mut i: usize = 1;
    if k.len() == 0 {
        return true;
    }
    while i < k.len()
        invariant
            1 <= i <= k@.len(),
            forall|a: int, c: int| 0 <= a <= c < i ==> k@[a].0 <= k@[c].0,
        decreases k@.len() - i,
    {
        if k[i - 1].0 > k[i].0 {
            return false;
        }
        assert forall|a: int, c: int| 0 <= a <= c < i + 1 implies k@[a].0 <= k@[c].0 by {
            if c == i && a < c {
                assert(k@[a].0 <= k@[i - 1].0);
            }
        }
        i = i + 1;
    }
    true
}

/// Checks a numeric timeline: coordinates when `coord`, else finite numbers.
fn check_num(tl: &Tl<Num>, coord: bool, name: &str) -> (r: Option<String>)
    ensures
        opt_view(r) == tl_err(*tl, if coord { coord_pred() } else { finite_pred() }, name@),
{
    let ok = match tl {
        Tl::Const(v) => if coord { v.coordinate } else { v.finite },
        Tl::Keyed(k) => {
            if k.len() == 0 || !ordered_exec(k) {
                false
            } else {
                let ghost pred = if coord { coord_pred() } else { finite_pred() };
                let mut i: usize = 0;
                let mut good = true;
                while i < k.len()
                    invariant
                        i <= k@.len(),
                        pred == (if coord { coord_pred() } else { finite_pred() }),
                        good == forall|q: int| 0 <= q < i ==> #[trigger] pred(k@[q].1),
                    decreases k@.len() - i,
                {
                    let v = k[i].1;
                    let b = if coord { v.coordinate } else { v.finite };
                    assert(pred(k@[i as int].1) == b);
                    good = good && b;
                    i = i + 1;
                }
                good
            }
        },
    };
    if ok { None } else { Some(tl_error(name)) }
}

/// Checks a text timeline.
fn check_text(tl: &Tl<String>) -> (r: Option<String>)
    ensures
        opt_view(r) == text_err(*tl),
{
    let ok = match tl {
        Tl::Const(v) => valid_text(v.as_str()),
        Tl::Keyed(k) => {
            if k.len() == 0 || !ordered_exec(k) {
                false
            } else {
                let mut i: usize = 0;
                let mut good = true;
                while i < k.len()
                    invariant
                        i <= k@.len(),
                        good == forall|q: int| 0 <= q < i ==> #[trigger] text_pred()(k@[q].1),
                    decreases k@.len() - i,
                {
                    let b = valid_text(k[i].1.as_str());
                    assert(text_pred()(k@[i as int].1) == b);
                    good = good && b;
                    i = i + 1;
                }
                good
            }
        },
    };
    if ok { None } else { Some(tl_error("text")) }
}

fn check_opt_text(o: &Option<Tl<String>>) -> (r: Option<String>)
    ensures
        opt_view(r) == opt_text_err(*o),
{
    match o { Some(t) => check_text(t), None => None }
}

fn check_opt_coord(o: &Option<Tl<Num>>) -> (r: Option<String>)
    ensures
        opt_view(r) == opt_coord_err(*o),
{
    match o { Some(t) => check_num(t, true, "coordinate"), None => None }
}

/// Checks the shape of a flag timeline (every flag value passes).
fn check_shape(tl: &Tl<bool>, name: &str) -> (r: Option<String>)
    ensures
        opt_view(r) == shape_err(*tl, name@),
{
    let ok = match tl {
        Tl::Const(_) => true,
        Tl::Keyed(k) => k.len() > 0 && ordered_exec(k),
    };
    if ok { None } else { Some(tl_error(name)) }
}

fn check_visible(o: &Option<Tl<bool>>) -> (r: Option<String>)
    ensures
        opt_view(r) == visible_err(*o),
{
    match o { Some(t) => check_shape(t, "visibility"), None => None }
}

fn points_exec(v: &Vec<Num>) -> (b: bool)
    ensures
        b == points_ok(*v),
{
    if v.len() % 2 != 0 {
        return false;
    }
    let mut i: usize = 0;
    while i < v.len()
        invariant
            i <= v@.len(),
            forall|q: int| 0 <= q < i ==> (#[trigger] v@[q]).finite,
        decreases v@.len() - i,
    {
        if !v[i].finite {
            return false;
        }
        i = i + 1;
    }
    true
}

fn check_points(tl: &Tl<Vec<Num>>) -> (r: Option<String>)
    ensures
        opt_view(r) == tl_err(*tl, points_pred(), "points"@),
{
    let ok = match tl {
        Tl::Const(v) => points_exec(v),
        Tl::Keyed(k) => {
            if k.len() == 0 || !ordered_exec(k) {
                false
            } else {
                let mut i: usize = 0;
                let mut good = true;
                while i < k.len()
                    invariant
                        i <= k@.len(),
                        good == forall|q: int| 0 <= q < i ==> #[trigger] points_pred()(k@[q].1),
                    decreases k@.len() - i,
                {
                    let b = points_exec(&k[i].1);
                    assert(points_pred()(k@[i as int].1) == b);
                    good = good && b;
                    i = i + 1;
                }
                good
            }
        },
    };
    if ok { None } else { Some(tl_error("points")) }
}

fn contains_id(ids: &Vec<String>, id: &str) -> (b: bool)
    ensures
        b == ids@.map_values(|s: String| s@).contains(id@),
{
    let ghost view = ids@.map_values(|s: String| s@);
    let mut i: usize = 0;
    while i < ids.len()
        invariant
            i <= ids@.len(),
            view == ids@.map_values(|s: String| s@),
            forall|q: int| 0 <= q < i ==> view[q] != id@,
        decreases ids@.len() - i,
    {
        if same_text(ids[i].as_str(), id) {
            assert(view[i as int] == id@);
            return true;
        }
        i = i + 1;
    }
    false
}

fn check_ref(id: &Option<String>, ids: &Vec<String>) -> (r: Option<String>)
    ensures
        opt_view(r) == ref_err(*id, ids@.map_values(|s: String| s@)),
{
    match id {
        Some(i) => {
            if contains_id(ids, i.as_str()) {
                None
            } else {
                let mut e = String::new();
                push_str(&mut e, "unknown node Some(");
                let d = debug_text(i.as_str());
                push_str(&mut e, d.as_str());
                push_str(&mut e, ")");
                Some(e)
            }
        },
        None => None,
    }
}

fn check_el(el: &El<Num>, ids: &Vec<String>) -> (r: Option<String>)
    ensures
        opt_view(r) == el_err(*el, ids@.map_values(|s: String| s@)),
{
    match el {
        El::Node(n) => {
            let r = check_num(&n.x, true, "coordinate");
            if r.is_some() { return r; }
            let r = check_num(&n.y, true, "coordinate");
            if r.is_some() { return r; }
            let r = check_visible(&n.show);
            if r.is_some() { return r; }
            let r = check_opt_text(&n.label);
            if r.is_some() { return r; }
            check_opt_text(&n.status)
        },
        El::Line(l) => {
            let r = check_opt_coord(&l.x1);
            if r.is_some() { return r; }
            let r = check_opt_coord(&l.y1);
            if r.is_some() { return r; }
            let r = check_opt_coord(&l.x2);
            if r.is_some() { return r; }
            let r = check_opt_coord(&l.y2);
            if r.is_some() { return r; }
            let r = check_ref(&l.from, ids);
            if r.is_some() { return r; }
            let r = check_ref(&l.to, ids);
            if r.is_some() { return r; }
            check_visible(&l.show)
        },
        El::Packet(p) => {
            let r = check_num(&p.x1, true, "coordinate");
            if r.is_some() { return r; }
            let r = check_num(&p.y1, true, "coordinate");
            if r.is_some() { return r; }
            let r = check_num(&p.x2, true, "coordinate");
            if r.is_some() { return r; }
            let r = check_num(&p.y2, true, "coordinate");
            if r.is_some() { return r; }
            let r = check_num(&p.p, false, "number");
            if r.is_some() { return r; }
            let r = check_visible(&p.show);
            if r.is_some() { return r; }
            let r = check_shape(&p.landed, "landed");
            if r.is_some() { return r; }
            let r = check_ref(&p.from, ids);
            if r.is_some() { return r; }
            let r = check_ref(&p.to, ids);
            if r.is_some() { return r; }
            if valid_text(p.label.as_str()) { None } else { Some(tl_error("text")) }
        },
        El::Text(t) => {
            let r = check_num(&t.x, true, "coordinate");
            if r.is_some() { return r; }
            let r = check_num(&t.y, true, "coordinate");
            if r.is_some() { return r; }
            let r = check_text(&t.text);
            if r.is_some() { return r; }
            let r = check_visible(&t.show);
            if r.is_some() { return r; }
            check_shape(&t.dim, "dim")
        },
        El::Polyline(pl) => {
            let r = check_points(&pl.points);
            if r.is_some() { return r; }
            match &pl.points {
                Tl::Keyed(k) => {
                    let mut i: usize = 0;
                    while i < k.len()
                        invariant
                            i <= k@.len(),
                            tl_err(pl.points, points_pred(), "points"@) is None,
                            pl.points == Tl::Keyed(*k),
                            *el == El::Polyline(*pl),
                            forall|q: int| 0 <= q < i ==> (#[trigger] k@[q]).1@.len() == k@[0].1@.len(),
                        decreases k@.len() - i,
                    {
                        if k[i].1.len() != k[0].1.len() {
                            assert(!equal_lengths(k@));
                            let mut e = String::new();
                            push_str(&mut e, "keyed point arrays must have equal lengths");
                            assert(e@ =~= "keyed point arrays must have equal lengths"@);

                            return Some(e);
                        }
                        i = i + 1;
                    }
                },
                Tl::Const(_) => {},
            }
            match &pl.slice {
                Some((a, b)) => {
                    let r = check_num(a, false, "number");
                    if r.is_some() { return r; }
                    let r = check_num(b, false, "number");
                    if r.is_some() { return r; }
                },
                None => {},
            }
            check_visible(&pl.show)
        },
        El::Path(p) => {
            let r = check_visible(&p.show);
            if r.is_some() { return r; }
            if valid_text(p.d.as_str()) { None } else { Some(tl_error("text")) }
        },
    }
}

impl Doc<Num> {
    /// Checks a document before any frame is drawn: header, badge and
    /// caption texts, then that no two nodes share an id, then every
    /// element's properties in order. The error describes the first problem.
    pub fn validate(&self) -> (r: Result<(), String>)
        ensures
            match doc_err(*self) {
                None => r is Ok,
                Some(e) => r matches Err(m) && m@ == e,
            },
    {
        let r = check_opt_text(&self.header);
        if let Some(e) = r { return Err(e); }
        let r = check_opt_text(&self.badge);
        if let Some(e) = r { return Err(e); }
        let r = check_opt_text(&self.note);
        if let Some(e) = r { return Err(e); }
        let ghost all = node_ids(self.els@, self.els@.len() as int);
        let mut ids: Vec<String> = Vec::new();
        let mut k: usize = 0;
        assert(ids@.map_values(|s: String| s@) =~= node_ids(self.els@, 0));
        while k < self.els.len()
            invariant
                k <= self.els@.len(),
                all == node_ids(self.els@, self.els@.len() as int),
                ids@.map_values(|s: String| s@) == node_ids(self.els@, k as int),
                first_dup(node_ids(self.els@, k as int), node_ids(self.els@, k as int).len() as int) is None,
                doc_err(*self) == first(match first_dup(all, all.len() as int) {
                    Some(i) => Some("duplicate node id "@ + str_debug(i)),
                    None => None,
                }, els_err(self.els@, all, self.els@.len() as int)),
            decreases self.els@.len() - k,
        {
            let ghost before = node_ids(self.els@, k as int);
            if let El::Node(n) = &self.els[k] {
                if let Some(id) = &n.id {
                    if contains_id(&ids, id.as_str()) {
                        proof {
                            let now = node_ids(self.els@, k + 1);
                            assert(now == before.push(id@));
                            assert(now.take(now.len() - 1) =~= before);
                            assert(before.take(before.len() as int) =~= before);
                            lemma_first_dup_take(now, before, now.len() - 1);
                            assert(first_dup(now, now.len() as int) == Some(id@));
                            lemma_node_ids_prefix(self.els@, k + 1, self.els@.len() as int);
                            assert(now.take(now.len() as int) =~= now);
                            lemma_first_dup_take(now, all, now.len() as int);
                            lemma_first_dup_prefix(all, now.len() as int, all.len() as int);
                        }
                        let mut e = String::new();
                        push_str(&mut e, "duplicate node id ");
                        let d = debug_text(id.as_str());
                        push_str(&mut e, d.as_str());
                        return Err(e);
                    }
                    let mut c = String::new();
                    push_str(&mut c, id.as_str());
                    ids.push(c);
                    proof {
                        let now = node_ids(self.els@, k + 1);
                        assert(ids@.map_values(|s: String| s@) =~= now);
                        assert(now.take(now.len() - 1) =~= before);
                        assert(before.take(before.len() as int) =~= before);
                        lemma_first_dup_take(now, before, now.len() - 1);
                    }
                }
            }
            k = k + 1;
        }
        assert(all == ids@.map_values(|s: String| s@));
        let mut k: usize = 0;
        while k < self.els.len()
            invariant
                k <= self.els@.len(),
                all == ids@.map_values(|s: String| s@),
                doc_err(*self) == els_err(self.els@, all, self.els@.len() as int),
                els_err(self.els@, all, k as int) is None,
            decreases self.els@.len() - k,
        {
            let r = check_el(&self.els[k], &ids);
            if let Some(e) = r {
                proof {
                    lemma_els_err_prefix(self.els@, all, k + 1, self.els@.len() as int);
                }
                return Err(e);
            }
            k = k + 1;
        }
        Ok(())
    }
}

/// The ids of a prefix of the elements are a prefix of all their ids.
proof fn lemma_node_ids_prefix(els: Seq<El<Num>>, m: int, n: int)
    requires
        0 <= m <= n,
    ensures
        node_ids(els, m).len() <= node_ids(els, n).len(),
        node_ids(els, n).take(node_ids(els, m).len() as int) == node_ids(els, m),
    decreases n,
{
    if n > m {
        lemma_node_ids_prefix(els, m, n - 1);
        let a = node_ids(els, m);
        let b = node_ids(els, n - 1);
        let c = node_ids(els, n);
        assert(c.take(b.len() as int) =~= b);
        assert(c.take(a.len() as int) =~= b.take(a.len() as int));
    } else {
        assert(node_ids(els, n).take(node_ids(els, n).len() as int) =~= node_ids(els, n));
    }
}

/// Repeats among the first `n` ids depend on those ids only.
proof fn lemma_first_dup_take(a: Seq<Seq<char>>, b: Seq<Seq<char>>, n: int)
    requires
        0 <= n <= a.len(),
        n <= b.len(),
        a.take(n) == b.take(n),
    ensures
        first_dup(a, n) == first_dup(b, n),
    decreases n,
{
    if n > 0 {
        assert(a.take(n - 1) =~= a.take(n).take(n - 1));
        assert(b.take(n - 1) =~= b.take(n).take(n - 1));
        lemma_first_dup_take(a, b, n - 1);
        assert(a[n - 1] == a.take(n)[n - 1]);
        assert(b[n - 1] == b.take(n)[n - 1]);
    }
}

/// A repeat found among the first `m` ids is the first repeat of any longer prefix.
proof fn lemma_first_dup_prefix(ids: Seq<Seq<char>>, m: int, n: int)
    requires
        0 <= m <= n,
        first_dup(ids, m) is Some,
    ensures
        first_dup(ids, n) == first_dup(ids, m),
    decreases n,
{
    if n > m {
        lemma_first_dup_prefix(ids, m, n - 1);
    }
}

/// A problem among the first `m` elements is the first problem of any longer prefix.
proof fn lemma_els_err_prefix(els: Seq<El<Num>>, ids: Seq<Seq<char>>, m: int, n: int)
    requires
        0 <= m <= n,
        els_err(els, ids, m) is Some,
    ensures
        els_err(els, ids, n) == els_err(els, ids, m),
    decreases n,
{
    if n > m {
        lemma_els_err_prefix(els, ids, m, n - 1);
    }
}

/// Where a line's end is drawn: at a shown node (by element index), at its
/// own coordinates, or at the default point.
#[derive(Clone, Copy, PartialEq, Eq, Structural, Debug)]
pub enum EndRef {
    Node(usize),
    Raw,
    Default,
}

/// Everything a frame at one moment decides apart from numbers: the local
/// time, which elements are shown, and, per element, its text, its flag,
/// a node's status, and a line's ends; and the header, badge and caption.
pub struct FramePlan {
    pub t: u64,
    pub shown: Vec<bool>,
    /// Node label (empty without one), text content, or packet label.
    pub text: Vec<String>,
    /// A text's dimming or a packet's landing.
    pub flag: Vec<bool>,
    /// A node's status, when it has a nonempty one.
    pub status: Vec<Option<String>>,
    /// A line's two ends.
    pub ends: Vec<(EndRef, EndRef)>,
    pub header: Option<String>,
    pub badge: Option<String>,
    pub note: String,
}

/// Every text and flag timeline of an element can be stepped.
pub open spec fn el_steppable<N>(el: El<N>) -> bool {
    match el {
        El::Node(n) => (n.show matches Some(s) ==> s.resolvable()) && (n.label matches Some(l) ==> l.resolvable())
            && (n.status matches Some(st) ==> st.resolvable()),
        El::Line(l) => l.show matches Some(s) ==> s.resolvable(),
        El::Packet(p) => (p.show matches Some(s) ==> s.resolvable()) && p.landed.resolvable(),
        El::Text(x) => (x.show matches Some(s) ==> s.resolvable()) && x.text.resolvable() && x.dim.resolvable(),
        El::Polyline(pl) => pl.show matches Some(s) ==> s.resolvable(),
        El::Path(p) => p.show matches Some(s) ==> s.resolvable(),
    }
}

pub open spec fn doc_steppable<N>(d: Doc<N>) -> bool {
    &&& (d.header matches Some(h) ==> h.resolvable())
    &&& (d.badge matches Some(b) ==> b.resolvable())
    &&& (d.note matches Some(n) ==> n.resolvable())
    &&& forall|i: int| 0 <= i < d.els@.len() ==> #[trigger] el_steppable(d.els@[i])
}

/// Local time: looped when the document has a positive length.
pub open spec fn local_time(duration: Option<u64>, t: u64) -> u64 {
    match duration { Some(d) => if d > 0 { t % d } else { t }, None => t }
}

pub open spec fn show_of<N>(el: El<N>) -> Option<Tl<bool>> {
    match el {
        El::Node(n) => n.show,
        El::Line(l) => l.show,
        El::Packet(p) => p.show,
        El::Text(x) => x.show,
        El::Polyline(pl) => pl.show,
        El::Path(p) => p.show,
    }
}

/// An element is shown unless its visibility is off at `t`.
pub open spec fn shown_at<N>(el: El<N>, t: u64) -> bool {
    match show_of(el) { Some(s) => s.step_spec(t), None => true }
}

/// Text of an element at `t`: a node's label (empty without one), a text's
/// content, a packet's label.
pub open spec fn text_at<N>(el: El<N>, t: u64) -> Seq<char> {
    match el {
        El::Node(n) => match n.label { Some(l) => l.step_spec(t)@, None => seq![] },
        El::Text(x) => x.text.step_spec(t)@,
        El::Packet(p) => p.label@,
        _ => seq![],
    }
}

/// A text's dimming or a packet's landing at `t`.
pub open spec fn flag_at<N>(el: El<N>, t: u64) -> bool {
    match el {
        El::Text(x) => x.dim.step_spec(t),
        El::Packet(p) => p.landed.step_spec(t),
        _ => false,
    }
}

/// A node's status at `t`, dropped when empty.
pub open spec fn status_at<N>(el: El<N>, t: u64) -> Option<Seq<char>> {
    match el {
        El::Node(n) => match n.status {
            Some(st) => if st.step_spec(t)@.len() == 0 { None } else { Some(st.step_spec(t)@) },
            None => None,
        },
        _ => None,
    }
}

/// The last shown node among the first `n` elements carrying id `id`.
pub open spec fn node_with_id<N>(els: Seq<El<N>>, t: u64, id: Seq<char>, n: int) -> Option<int>
    decreases n,
{
    if n <= 0 {
        None
    } else {
        match els[n - 1] {
            El::Node(nd) => if shown_at(els[n - 1], t) && (match nd.id { Some(i) => i@ == id, None => false }) { Some(n - 1) }
                else { node_with_id(els, t, id, n - 1) },
            _ => node_with_id(els, t, id, n - 1),
        }
    }
}

/// A line end: the shown node with its id, else its own coordinates, else
/// the default point.
pub open spec fn end_ref<N>(els: Seq<El<N>>, t: u64, id: Option<String>, raw: bool) -> EndRef {
    match id {
        Some(i) => match node_with_id(els, t, i@, els.len() as int) {
            Some(j) => EndRef::Node(j as usize),
            None => if raw { EndRef::Raw } else { EndRef::Default },
        },
        None => if raw { EndRef::Raw } else { EndRef::Default },
    }
}

/// A line's ends (x by the first coordinate's presence, as the frame draws
/// x from `x1`/`x2`); other elements have default ends.
pub open spec fn ends_at<N>(els: Seq<El<N>>, el: El<N>, t: u64) -> (EndRef, EndRef) {
    match el {
        El::Line(l) => (end_ref(els, t, l.from, l.x1 is Some), end_ref(els, t, l.to, l.x2 is Some)),
        _ => (EndRef::Default, EndRef::Default),
    }
}

/// A caption line at `t`, dropped when empty.
pub open spec fn nonempty_at(o: Option<Tl<String>>, t: u64) -> Option<Seq<char>> {
    match o {
        Some(x) => if x.step_spec(t)@.len() == 0 { None } else { Some(x.step_spec(t)@) },
        None => None,
    }
}

pub(crate) fn copy(s: &str) -> (r: String)
    ensures
        r@ == s@,
{
    let mut r = String::new();
    push_str(&mut r, s);
    r
}

fn step_text(tl: &Tl<String>, t: u64) -> (r: String)
    requires
        tl.resolvable(),
    ensures
        r@ == tl.step_spec(t)@,
{
    let v = tl.step(t);
    let r = copy(v.as_str());
    proof {
        assert(cloned(tl.step_spec(t), v));
    }
    r
}

fn step_flag(tl: &Tl<bool>, t: u64) -> (r: bool)
    requires
        tl.resolvable(),
    ensures
        r == tl.step_spec(t),
{
    tl.step(t)
}

fn shown_exec<N>(el: &El<N>, t: u64) -> (b: bool)
    requires
        el_steppable(*el),
    ensures
        b == shown_at(*el, t),
{
    let s = match el {
        El::Node(n) => &n.show,
        El::Line(l) => &l.show,
        El::Packet(p) => &p.show,
        El::Text(x) => &x.show,
        El::Polyline(pl) => &pl.show,
        El::Path(p) => &p.show,
    };
    match s { Some(v) => step_flag(v, t), None => true }
}

fn node_with_id_exec<N>(els: &Vec<El<N>>, shown: &Vec<bool>, t: u64, id: &str) -> (r: Option<usize>)
    requires
        shown@.len() == els@.len(),
        forall|i: int| 0 <= i < els@.len() ==> #[trigger] shown@[i] == shown_at(els@[i], t),
    ensures
        match node_with_id(els@, t, id@, els@.len() as int) {
            Some(j) => r == Some(j as usize),
            None => r is None,
        },
{
    let mut n = els.len();
    while n > 0
        invariant
            n <= els@.len(),
            shown@.len() == els@.len(),
            forall|i: int| 0 <= i < els@.len() ==> #[trigger] shown@[i] == shown_at(els@[i], t),
            node_with_id(els@, t, id@, els@.len() as int) == node_with_id(els@, t, id@, n as int),
        decreases n,
    {
        if let El::Node(nd) = &els[n - 1] {
            if shown[n - 1] {
                if let Some(i) = &nd.id {
                    if same_text(i.as_str(), id) {
                        return Some(n - 1);
                    }
                }
            }
        }
        n = n - 1;
    }
    None
}

fn end_exec<N>(els: &Vec<El<N>>, shown: &Vec<bool>, t: u64, id: &Option<String>, raw: bool) -> (r: EndRef)
    requires
        shown@.len() == els@.len(),
        forall|i: int| 0 <= i < els@.len() ==> #[trigger] shown@[i] == shown_at(els@[i], t),
    ensures
        r == end_ref(els@, t, *id, raw),
{
    let fallback = if raw { EndRef::Raw } else { EndRef::Default };
    match id {
        Some(i) => match node_with_id_exec(els, shown, t, i.as_str()) {
            Some(j) => EndRef::Node(j),
            None => fallback,
        },
        None => fallback,
    }
}

fn nonempty_exec(o: &Option<Tl<String>>, t: u64) -> (r: Option<String>)
    requires
        o matches Some(x) ==> x.resolvable(),
    ensures
        opt_view(r) == nonempty_at(*o, t),
{
    match o {
        Some(x) => {
            let s = step_text(x, t);
            proof {
                lemma_utf8_len_bounds(s@);
            }
            if byte_len(s.as_str()) == 0 { None } else { Some(s) }
        },
        None => None,
    }
}

fn plan_el<N>(els: &Vec<El<N>>, shown: &Vec<bool>, i: usize, lt: u64) -> (r: (String, bool, Option<String>, (EndRef, EndRef)))
    requires
        i < els@.len(),
        el_steppable(els@[i as int]),
        shown@.len() == els@.len(),
        forall|k: int| 0 <= k < els@.len() ==> #[trigger] shown@[k] == shown_at(els@[k], lt),
    ensures
        r.0@ == text_at(els@[i as int], lt),
        r.1 == flag_at(els@[i as int], lt),
        opt_view(r.2) == status_at(els@[i as int], lt),
        r.3 == ends_at(els@, els@[i as int], lt),
{
    match &els[i] {
        El::Node(n) => {
            let tx = match &n.label { Some(l) => step_text(l, lt), None => String::new() };
            let st = match &n.status {
                Some(x) => {
                    let s = step_text(x, lt);
                    proof {
                        lemma_utf8_len_bounds(s@);
                    }
                    if byte_len(s.as_str()) == 0 { None } else { Some(s) }
                },
                None => None,
            };
            (tx, false, st, (EndRef::Default, EndRef::Default))
        },
        El::Line(l) => {
            let a = end_exec(els, shown, lt, &l.from, l.x1.is_some());
            let b = end_exec(els, shown, lt, &l.to, l.x2.is_some());
            (String::new(), false, None, (a, b))
        },
        El::Packet(p) => (copy(p.label.as_str()), step_flag(&p.landed, lt), None, (EndRef::Default, EndRef::Default)),
        El::Text(x) => (step_text(&x.text, lt), step_flag(&x.dim, lt), None, (EndRef::Default, EndRef::Default)),
        _ => (String::new(), false, None, (EndRef::Default, EndRef::Default)),
    }
}

/// A flag timeline's value at `t`, by its keyframes: a constant is itself;
/// keyframes take the value of the last key (by position) at or before `t`,
/// or the first value when every key is later.
pub open spec fn flag_value_at(tl: Tl<bool>, t: u64, v: bool) -> bool {
    match tl {
        Tl::Const(c) => v == c,
        Tl::Keyed(k) => forall|j: int| #[trigger] step_index(k@, t, j) ==> v == k@[j].1,
    }
}

/// A text timeline's value at `t`, by its keyframes (as `flag_value_at`).
pub open spec fn text_value_at(tl: Tl<String>, t: u64, v: Seq<char>) -> bool {
    match tl {
        Tl::Const(c) => v == c@,
        Tl::Keyed(k) => forall|j: int| #[trigger] step_index(k@, t, j) ==> v == k@[j].1@,
    }
}

/// Nonempty keyframes always name exactly one key for `t`.
pub proof fn lemma_step_index_exists<T>(k: Seq<(u64, T)>, t: u64)
    requires
        k.len() > 0,
    ensures
        exists|j: int| #[trigger] step_index(k, t, j),
        forall|a: int, b: int| step_index(k, t, a) && step_index(k, t, b) ==> a == b,
    decreases k.len(),
{
    if k.last().0 <= t {
        assert(step_index(k, t, k.len() - 1));
    } else if k.len() == 1 {
        assert(step_index(k, t, 0));
    } else {
        let d = k.drop_last();
        lemma_step_index_exists(d, t);
        let j = choose|j: int| step_index(d, t, j);
        assert(d[j] == k[j]);
        if d[j].0 <= t {
            assert forall|i: int| j < i < k.len() implies #[trigger] k[i].0 > t by {
                if i < d.len() {
                    assert(d[i] == k[i]);
                }
            }
        } else {
            assert forall|i: int| 0 <= i < k.len() implies #[trigger] k[i].0 > t by {
                if i < d.len() {
                    assert(d[i] == k[i]);
                }
            }
        }
        assert(step_index(k, t, j));
    }
    assert forall|a: int, b: int| step_index(k, t, a) && step_index(k, t, b) implies a == b by {
        if a < b {
            if k[a].0 <= t {
                assert(k[b].0 > t);
            }
        } else if b < a {
            if k[b].0 <= t {
                assert(k[a].0 > t);
            }
        }
    }
}

proof fn lemma_flag_value(tl: Tl<bool>, t: u64)
    requires
        tl.resolvable(),
    ensures
        flag_value_at(tl, t, tl.step_spec(t)),
{
    if let Tl::Keyed(k) = tl {
        assert forall|j: int| #[trigger] step_index(k@, t, j) implies tl.step_spec(t) == k@[j].1 by {
            lemma_step_is_last_key_at_or_before(k@, t, j);
        }
    }
}

proof fn lemma_text_value(tl: Tl<String>, t: u64)
    requires
        tl.resolvable(),
    ensures
        text_value_at(tl, t, tl.step_spec(t)@),
{
    if let Tl::Keyed(k) = tl {
        assert forall|j: int| #[trigger] step_index(k@, t, j) implies tl.step_spec(t)@ == k@[j].1@ by {
            lemma_step_is_last_key_at_or_before(k@, t, j);
        }
    }
}

/// What `Doc::plan` gives each element, read off its own keyframes at the
/// local time: it is shown by its visibility's value there (always, without
/// one); a packet carries its label and is landed by its landing
/// timeline's value there; a text carries its text's value there and is
/// dimmed by its dimming timeline's value there; a node shows its label's
/// value there.
pub proof fn lemma_plan_reads_keyframes<N>(el: El<N>, lt: u64)
    requires
        el_steppable(el),
    ensures
        show_of(el) is None ==> shown_at(el, lt),
        show_of(el) matches Some(s) ==> flag_value_at(s, lt, shown_at(el, lt)),
        el matches El::Packet(p) ==> flag_value_at(p.landed, lt, flag_at(el, lt)) && text_at(el, lt) == p.label@,
        el matches El::Text(x) ==> flag_value_at(x.dim, lt, flag_at(el, lt)) && text_value_at(x.text, lt, text_at(el, lt)),
        el matches El::Node(n) ==> (n.label matches Some(l) ==> text_value_at(l, lt, text_at(el, lt))),
{
    if let Some(s) = show_of(el) {
        assert(s.resolvable());
        lemma_flag_value(s, lt);
    }
    match el {
        El::Packet(p) => { lemma_flag_value(p.landed, lt); },
        El::Text(x) => { lemma_flag_value(x.dim, lt); lemma_text_value(x.text, lt); },
        El::Node(n) => { if let Some(l) = n.label { lemma_text_value(l, lt); } },
        _ => {},
    }
}

impl<N> Doc<N> {
    /// What the frame at `t` shows, apart from positions: the local time
    /// (looped when the document has a length), the elements shown, their
    /// texts and flags, the nodes' statuses, the lines' ends, and the
    /// header, badge (when nonempty) and caption (empty when absent).
    pub fn plan(&self, t: u64) -> (p: FramePlan)
        requires
            doc_steppable(*self),
        ensures
            ({
                let lt = local_time(self.duration, t);
                let els = self.els@;
                &&& p.t == lt
                &&& p.shown@.len() == els.len()
                &&& p.text@.len() == els.len()
                &&& p.flag@.len() == els.len()
                &&& p.status@.len() == els.len()
                &&& p.ends@.len() == els.len()
                &&& forall|i: int| 0 <= i < els.len() ==> {
                    &&& #[trigger] p.shown@[i] == shown_at(els[i], lt)
                    &&& p.text@[i]@ == text_at(els[i], lt)
                    &&& p.flag@[i] == flag_at(els[i], lt)
                    &&& opt_view(p.status@[i]) == status_at(els[i], lt)
                    &&& p.ends@[i] == ends_at(els, els[i], lt)
                }
                &&& opt_view(p.header) == (match self.header { Some(h) => Some(h.step_spec(lt)@), None => None })
                &&& opt_view(p.badge) == nonempty_at(self.badge, lt)
                &&& p.note@ == (match nonempty_at(self.note, lt) { Some(n) => n, None => seq![] })
            }),
    {
        let lt = match self.duration { Some(d) => if d > 0 { t % d } else { t }, None => t };
        let els = &self.els;
        let mut shown: Vec<bool> = Vec::new();
        let mut i: usize = 0;
        while i < els.len()
            invariant
                i <= els@.len(),
                els@ == self.els@,
                doc_steppable(*self),
                shown@.len() == i,
                forall|k: int| 0 <= k < i ==> #[trigger] shown@[k] == shown_at(els@[k], lt),
            decreases els@.len() - i,
        {
            assert(el_steppable(els@[i as int]));
            shown.push(shown_exec(&els[i], lt));
            i = i + 1;
        }
        let mut text: Vec<String> = Vec::new();
        let mut flag: Vec<bool> = Vec::new();
        let mut status: Vec<Option<String>> = Vec::new();
        let mut ends: Vec<(EndRef, EndRef)> = Vec::new();
        let mut i: usize = 0;
        while i < els.len()
            invariant
                i <= els@.len(),
                els@ == self.els@,
                doc_steppable(*self),
                shown@.len() == els@.len(),
                forall|k: int| 0 <= k < els@.len() ==> #[trigger] shown@[k] == shown_at(els@[k], lt),
                text@.len() == i,
                flag@.len() == i,
                status@.len() == i,
                ends@.len() == i,
                forall|k: int| 0 <= k < i ==> {
                    &&& (#[trigger] text@[k])@ == text_at(els@[k], lt)
                    &&& flag@[k] == flag_at(els@[k], lt)
                    &&& opt_view(status@[k]) == status_at(els@[k], lt)
                    &&& ends@[k] == ends_at(els@, els@[k], lt)
                },
            decreases els@.len() - i,
        {
            assert(el_steppable(els@[i as int]));
            let (tx, fl, st, en) = plan_el(els, &shown, i, lt);
            text.push(tx);
            flag.push(fl);
            status.push(st);
            ends.push(en);
            assert(text@[i as int]@ == text_at(els@[i as int], lt));
            assert(flag@[i as int] == flag_at(els@[i as int], lt));
            assert(opt_view(status@[i as int]) == status_at(els@[i as int], lt));
            assert(ends@[i as int] == ends_at(els@, els@[i as int], lt));
            i = i + 1;
        }
        let header = match &self.header { Some(h) => Some(step_text(h, lt)), None => None };
        let badge = nonempty_exec(&self.badge, lt);
        let note = match nonempty_exec(&self.note, lt) { Some(n) => n, None => String::new() };
        FramePlan { t: lt, shown, text, flag, status, ends, header, badge, note }
    }
}

proof fn lemma_els_err_none(els: Seq<El<Num>>, ids: Seq<Seq<char>>, n: int, i: int)
    requires
        0 <= i < n <= els.len(),
        els_err(els, ids, n) is None,
    ensures
        el_err(els[i], ids) is None,
    decreases n,
{
    if i < n - 1 {
        lemma_els_err_none(els, ids, n - 1, i);
    }
}

/// A document that passes validation can be sampled at any time: every
/// stepped timeline in it has a value.
pub proof fn lemma_valid_doc_steppable(d: Doc<Num>)
    requires
        doc_err(d) is None,
    ensures
        doc_steppable(d),
{
    let ids = node_ids(d.els@, d.els@.len() as int);
    assert forall|i: int| 0 <= i < d.els@.len() implies #[trigger] el_steppable(d.els@[i]) by {
        lemma_els_err_none(d.els@, ids, d.els@.len() as int, i);
    }
}

/// A looping document is planned the same one loop later: a plan depends on
/// time only through the time within the loop, which repeats.
pub proof fn lemma_loops_cleanly(len: u64, t: u64)
    requires
        len > 0,
        t + len <= u64::MAX,
    ensures
        local_time(Some(len), t) == local_time(Some(len), (t + len) as u64),
{
    vstd::arithmetic::div_mod::lemma_mod_add_multiples_vanish(t as int, len as int);
}

/// What an element that passed validation holds: every timeline has a
/// valid shape and values (coordinates finite within 0..=100, numbers
/// finite, texts free of characters SVG cannot carry, point arrays even,
/// finite and of one length), and every node reference names a node id.
pub open spec fn el_sound(el: El<Num>, ids: Seq<Seq<char>>) -> bool {
    let opt_coord = |o: Option<Tl<Num>>| match o { Some(t) => tl_ok(t, coord_pred()), None => true };
    let opt_text = |o: Option<Tl<String>>| match o { Some(t) => tl_ok(t, text_pred()), None => true };
    let opt_show = |o: Option<Tl<bool>>| match o { Some(t) => tl_ok(t, any_pred()), None => true };
    let known = |o: Option<String>| match o { Some(i) => ids.contains(i@), None => true };
    match el {
        El::Node(n) => tl_ok(n.x, coord_pred()) && tl_ok(n.y, coord_pred()) && opt_show(n.show)
            && opt_text(n.label) && opt_text(n.status),
        El::Line(l) => opt_coord(l.x1) && opt_coord(l.y1) && opt_coord(l.x2) && opt_coord(l.y2)
            && known(l.from) && known(l.to) && opt_show(l.show),
        El::Packet(p) => tl_ok(p.x1, coord_pred()) && tl_ok(p.y1, coord_pred()) && tl_ok(p.x2, coord_pred())
            && tl_ok(p.y2, coord_pred()) && tl_ok(p.p, finite_pred()) && opt_show(p.show)
            && tl_ok(p.landed, any_pred()) && known(p.from) && known(p.to) && text_ok(p.label@),
        El::Text(t) => tl_ok(t.x, coord_pred()) && tl_ok(t.y, coord_pred()) && tl_ok(t.text, text_pred())
            && opt_show(t.show) && tl_ok(t.dim, any_pred()),
        El::Polyline(pl) => tl_ok(pl.points, points_pred())
            && (match pl.points { Tl::Keyed(k) => equal_lengths(k@), Tl::Const(_) => true })
            && (match pl.slice { Some((a, b)) => tl_ok(a, finite_pred()) && tl_ok(b, finite_pred()), None => true })
            && opt_show(pl.show),
        El::Path(p) => opt_show(p.show) && text_ok(p.d@),
    }
}

proof fn lemma_el_sound(el: El<Num>, ids: Seq<Seq<char>>)
    requires
        el_err(el, ids) is None,
    ensures
        el_sound(el, ids),
{
}

proof fn lemma_no_dup(ids: Seq<Seq<char>>, n: int)
    requires
        0 <= n <= ids.len(),
        first_dup(ids, n) is None,
    ensures
        forall|i: int, j: int| 0 <= i < j < n ==> ids[i] != ids[j],
    decreases n,
{
    if n > 0 {
        lemma_no_dup(ids, n - 1);
        assert forall|i: int, j: int| 0 <= i < j < n implies ids[i] != ids[j] by {
            if j == n - 1 {
                assert(ids.take(n - 1)[i] == ids[i]);
            }
        }
    }
}

/// What validation guarantees of a document: header, badge and caption
/// are valid texts, no two nodes share an id, and every element is sound.
pub proof fn lemma_validated_doc(d: Doc<Num>)
    requires
        doc_err(d) is None,
    ensures
        opt_text_err(d.header) is None && opt_text_err(d.badge) is None && opt_text_err(d.note) is None,
        ({
            let ids = node_ids(d.els@, d.els@.len() as int);
            &&& forall|i: int, j: int| 0 <= i < j < ids.len() ==> ids[i] != ids[j]
            &&& forall|k: int| 0 <= k < d.els@.len() ==> #[trigger] el_sound(d.els@[k], ids)
        }),
{
    let ids = node_ids(d.els@, d.els@.len() as int);
    lemma_no_dup(ids, ids.len() as int);
    assert forall|k: int| 0 <= k < d.els@.len() implies #[trigger] el_sound(d.els@[k], ids) by {
        lemma_els_err_none(d.els@, ids, d.els@.len() as int, k);
        lemma_el_sound(d.els@[k], ids);
    }
}

} // verus!
