//! Replaying a scripted packet story: a time-ordered list of events that move
//! the packet to a hop, change what the packet carries, or change the caption.
use vstd::prelude::*;
use crate::text::push_str;

verus! {

/// One scripted event.
pub enum Ev {
    /// The packet sets off toward hop `i` from where it was heading.
    Move(usize),
    /// The packet now carries this header stack.
    Stack(String),
    /// A new caption.
    Note(&'static str),
}

/// An event as a value.
pub enum EvV {
    Move(usize),
    Stack(Seq<char>),
    Note(Seq<char>),
}

pub open spec fn ev_view(e: Ev) -> EvV {
    match e {
        Ev::Move(i) => EvV::Move(i),
        Ev::Stack(s) => EvV::Stack(s@),
        Ev::Note(s) => EvV::Note(s@),
    }
}

pub open spec fn events_view(v: Seq<(u64, Ev)>) -> Seq<(u64, EvV)> {
    v.map_values(|p: (u64, Ev)| (p.0, ev_view(p.1)))
}

/// The story so far: header stack, caption, the hop the packet left and the
/// one it is heading to, and when it set off.
pub struct Replay {
    pub stack: Seq<char>,
    pub note: Seq<char>,
    pub from: int,
    pub to: int,
    pub mstart: nat,
}

pub open spec fn apply(r: Replay, at: u64, ev: EvV) -> Replay {
    match ev {
        EvV::Move(i) => Replay { stack: r.stack, note: r.note, from: r.to, to: i as int, mstart: at as nat },
        EvV::Stack(s) => Replay { stack: s, note: r.note, from: r.from, to: r.to, mstart: r.mstart },
        EvV::Note(s) => Replay { stack: r.stack, note: s, from: r.from, to: r.to, mstart: r.mstart },
    }
}

/// Applies events from `k` on, in order, stopping at the first one later
/// than `tt`.
pub open spec fn replay_from(events: Seq<(u64, EvV)>, tt: nat, k: int, r: Replay) -> Replay
    decreases events.len() - k,
{
    if k < 0 || k >= events.len() || events[k].0 > tt {
        r
    } else {
        replay_from(events, tt, k + 1, apply(r, events[k].0, events[k].1))
    }
}

/// The story's starting point: the packet parked at the first hop.
pub open spec fn start(stack: Seq<char>) -> Replay {
    Replay { stack, note: seq![], from: 0, to: 0, mstart: 0 }
}

/// Event times never decrease.
pub open spec fn time_ordered(events: Seq<(u64, EvV)>) -> bool {
    forall|i: int, j: int| 0 <= i <= j < events.len() ==> events[i].0 <= events[j].0
}

/// The story's state at `tt`.
pub struct Scene {
    pub stack: String,
    pub note: &'static str,
    pub from: usize,
    pub to: usize,
    /// Time since the packet set off (zero before).
    pub elapsed: u64,
}

/// Replays the events at or before `tt` onto a packet carrying `stack`.
pub fn replay(events: &Vec<(u64, Ev)>, tt: u64, stack: &str) -> (sc: Scene)
    ensures
        ({
            let r = replay_from(events_view(events@), tt as nat, 0, start(stack@));
            &&& sc.stack@ == r.stack
            &&& sc.note@ == r.note
            &&& sc.from == r.from
            &&& sc.to == r.to
            &&& sc.elapsed == (if tt >= r.mstart { tt - r.mstart } else { 0 })
        }),
{
    let mut cur = String::new();
    push_str(&mut cur, stack);
    let mut note: &'static str = "";
    let mut from: usize = 0;
    let mut to: usize = 0;
    let mut mstart: u64 = 0;
    proof {
        reveal_strlit("");
        assert(events_view(events@).len() == events@.len());
        assert(note@ =~= Seq::<char>::empty());
        assert(cur@ =~= stack@);
    }
    let mut k: usize = 0;
    while k < events.len() && events[k].0 <= tt
        invariant
            k <= events@.len(),
            replay_from(events_view(events@), tt as nat, 0, start(stack@)) == replay_from(events_view(events@), tt as nat, k as int,
                Replay { stack: cur@, note: note@, from: from as int, to: to as int, mstart: mstart as nat }),
        decreases events@.len() - k,
    {
        assert(events_view(events@)[k as int] == (events@[k as int].0, ev_view(events@[k as int].1)));
        match &events[k].1 {
            Ev::Move(i) => {
                from = to;
                to = *i;
                mstart = events[k].0;
            },
            Ev::Stack(s) => {
                cur = String::new();
                push_str(&mut cur, s.as_str());
            },
            Ev::Note(s) => {
                note = *s;
            },
        }
        k = k + 1;
    }
    Scene { stack: cur, note, from, to, elapsed: if tt >= mstart { tt - mstart } else { 0 } }
}

} // verus!
