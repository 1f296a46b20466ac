//! Telegraph sim: the Morse message "WHAT HATH GOD WROUGHT" travels from
//! Washington through two relay stations to Baltimore. In the first cycle the
//! relays regenerate clean pulses; in the second they amplify noise with the
//! signal, and Baltimore misreads three letters.
use vstd::prelude::*;
use crate::text::{chars_of, push_char, push_str};

verus! {

pub const MESSAGE: &'static str = "WHAT HATH GOD WROUGHT";
/// Pixels per Morse unit.
pub const PX_PER_UNIT: u64 = 55;
/// Units of silence after the message before the wave repeats.
pub const TAIL_UNITS: u64 = 16;

pub const CAP_REGEN: &'static str = "An electromechanical relay along the line didn't need to pass the wave itself; it only needed to detect whether a pulse was present, and then recreate a brand new, clean copy of that pulse to send down the next segment of wire.";
pub const CAP_AMP: &'static str = "Now the relays merely boost what arrives (like an analog amplifier). It cannot distinguish a pulse from noise, so it boosts the noise along with the signal, until Baltimore misreads the message.";

/// Morse code of the letters the message uses.
pub open spec fn morse(c: char) -> Seq<char> {
    if c == 'W' { ".--"@ } else if c == 'H' { "...."@ } else if c == 'A' { ".-"@ } else if c == 'T' { "-"@ }
    else if c == 'G' { "--."@ } else if c == 'O' { "---"@ } else if c == 'D' { "-.."@ } else if c == 'R' { ".-."@ }
    else if c == 'U' { "..-"@ } else { seq![] }
}

fn morse_exec(c: char) -> (s: Vec<char>)
    ensures
        s@ == morse(c),
{
    let code = if c == 'W' { ".--" } else if c == 'H' { "...." } else if c == 'A' { ".-" } else if c == 'T' { "-" }
        else if c == 'G' { "--." } else if c == 'O' { "---" } else if c == 'D' { "-.." } else if c == 'R' { ".-." }
        else if c == 'U' { "..-" } else { "" };
    proof {
        reveal_strlit("");
    }
    chars_of(code)
}

/// Units of one symbol: a dot 1, a dash 3.
pub open spec fn sym_len(s: char) -> nat {
    if s == '.' { 1 } else { 3 }
}

/// Offset of symbol `j` in a letter's code: the symbols before it, each
/// followed by a one-unit gap.
pub open spec fn sym_start(code: Seq<char>, j: int) -> nat
    decreases j,
{
    if j <= 0 { 0 } else { sym_start(code, j - 1) + sym_len(code[j - 1]) + 1 }
}

/// Units a letter's code takes (no trailing gap).
pub open spec fn code_len(code: Seq<char>) -> nat {
    if code.len() == 0 { 0 } else { (sym_start(code, code.len() - 1) + sym_len(code.last())) as nat }
}

/// Unit time at which character `k` of `msg` starts: a space takes 4 units,
/// a letter its code and a 3-unit gap.
pub open spec fn char_start(msg: Seq<char>, k: int) -> nat
    decreases k,
{
    if k <= 0 { 0 }
    else if msg[k - 1] == ' ' { char_start(msg, k - 1) + 4 }
    else { char_start(msg, k - 1) + code_len(morse(msg[k - 1])) + 3 }
}

/// Pulses of the first `k` characters: (start, end) in units.
pub open spec fn pulses_upto(msg: Seq<char>, k: int) -> Seq<(u64, u64)>
    decreases k,
{
    if k <= 0 {
        seq![]
    } else if msg[k - 1] == ' ' {
        pulses_upto(msg, k - 1)
    } else {
        let code = morse(msg[k - 1]);
        let s = char_start(msg, k - 1);
        pulses_upto(msg, k - 1) + Seq::new(code.len(), |j: int|
            ((s + sym_start(code, j)) as u64, (s + sym_start(code, j) + sym_len(code[j])) as u64))
    }
}

/// Letters of the first `k` characters: (index, start, end) in units.
pub open spec fn letters_upto(msg: Seq<char>, k: int) -> Seq<(usize, u64, u64)>
    decreases k,
{
    if k <= 0 {
        seq![]
    } else if msg[k - 1] == ' ' {
        letters_upto(msg, k - 1)
    } else {
        let s = char_start(msg, k - 1);
        letters_upto(msg, k - 1).push(((k - 1) as usize, s as u64, (s + code_len(morse(msg[k - 1]))) as u64))
    }
}

proof fn lemma_sym_start_bound(code: Seq<char>, j: int)
    requires
        0 <= j <= code.len(),
    ensures
        sym_start(code, j) <= 4 * j,
    decreases j,
{
    if j > 0 {
        lemma_sym_start_bound(code, j - 1);
    }
}

proof fn lemma_char_start_bound(msg: Seq<char>, k: int)
    requires
        0 <= k <= msg.len(),
        forall|i: int| 0 <= i < msg.len() ==> morse(#[trigger] msg[i]).len() <= 4,
    ensures
        char_start(msg, k) <= 20 * k,
    decreases k,
{
    if k > 0 {
        lemma_char_start_bound(msg, k - 1);
        let code = morse(msg[k - 1]);
        if code.len() > 0 {
            lemma_sym_start_bound(code, code.len() - 1);
        }
    }
}

/// The pulses and letters of a message of letters with known codes and spaces.
pub fn timeline(msg: &Vec<char>) -> (r: (Vec<(u64, u64)>, Vec<(usize, u64, u64)>, u64))
    requires
        msg@.len() <= 1000,
        forall|i: int| 0 <= i < msg@.len() ==> morse(#[trigger] msg@[i]).len() <= 4,
    ensures
        r.0@ == pulses_upto(msg@, msg@.len() as int),
        r.1@ == letters_upto(msg@, msg@.len() as int),
        r.2 == char_start(msg@, msg@.len() as int),
{
    let mut pulses: Vec<(u64, u64)> = Vec::new();
    let mut letters: Vec<(usize, u64, u64)> = Vec::new();
    let mut e: u64 = 0;
    let mut k: usize = 0;
    while k < msg.len()
        invariant
            k <= msg@.len() <= 1000,
            forall|i: int| 0 <= i < msg@.len() ==> morse(#[trigger] msg@[i]).len() <= 4,
            e == char_start(msg@, k as int),
            e <= 20 * k,
            pulses@ == pulses_upto(msg@, k as int),
            letters@ == letters_upto(msg@, k as int),
        decreases msg@.len() - k,
    {
        let c = msg[k];
        proof {
            lemma_char_start_bound(msg@, k + 1);
        }
        if c == ' ' {
            e = e + 4;
        } else {
            let code = morse_exec(c);
            assert(morse(msg@[k as int]).len() <= 4);
            let start = e;
            let ghost p0 = pulses@;
            let mut i: usize = 0;
            while i < code.len()
                invariant
                    i <= code@.len() <= 4,
                    start <= 20000,
                    e == start + sym_start(code@, i as int) - (if i > 0 { 1int } else { 0int }),
                    pulses@ == p0 + Seq::new(i as nat, |j: int|
                        ((start + sym_start(code@, j)) as u64, (start + sym_start(code@, j) + sym_len(code@[j])) as u64)),
                decreases code@.len() - i,
            {
                proof {
                    lemma_sym_start_bound(code@, i as int);
                }
                if i > 0 {
                    e = e + 1;
                }
                let len: u64 = if code[i] == '.' { 1 } else { 3 };
                pulses.push((e, e + len));
                e = e + len;
                i = i + 1;
                assert(pulses@ =~= p0 + Seq::new(i as nat, |j: int|
                    ((start + sym_start(code@, j)) as u64, (start + sym_start(code@, j) + sym_len(code@[j])) as u64)));
            }
            letters.push((k, start, e));
            e = e + 3;
        }
        k = k + 1;
    }
    (pulses, letters, e)
}

/// Every code is at most four symbols long.
pub proof fn lemma_morse_short(c: char)
    ensures
        morse(c).len() <= 4,
{
    reveal_strlit(".--");
    reveal_strlit("....");
    reveal_strlit(".-");
    reveal_strlit("-");
    reveal_strlit("--.");
    reveal_strlit("---");
    reveal_strlit("-..");
    reveal_strlit(".-.");
    reveal_strlit("..-");
}

proof fn lemma_letters_index(msg: Seq<char>, k: int)
    requires
        0 <= k <= msg.len(),
    ensures
        forall|q: int| 0 <= q < letters_upto(msg, k).len() ==> (#[trigger] letters_upto(msg, k)[q]).0 < k,
    decreases k,
{
    if k > 0 {
        lemma_letters_index(msg, k - 1);
        let prev = letters_upto(msg, k - 1);
        assert forall|q: int| 0 <= q < letters_upto(msg, k).len() implies (#[trigger] letters_upto(msg, k)[q]).0 < k by {
            if q < prev.len() {
                assert(letters_upto(msg, k)[q] == prev[q]);
            }
        }
    }
}

proof fn lemma_keying_index(letters: Seq<(usize, u64, u64)>, i9: nat, n: int, bound: int)
    requires
        0 <= n <= letters.len(),
        forall|q: int| 0 <= q < letters.len() ==> (#[trigger] letters[q]).0 < bound,
    ensures
        keying_from(letters, i9, n) matches Some(x) ==> x < bound,
    decreases n,
{
    if n > 0 {
        lemma_keying_index(letters, i9, n - 1, bound);
    }
}

/// Misread letters in the amplified cycle: (character index, letter read).
pub open spec fn misread(i: int) -> Option<char> {
    if i == 5 { Some('S') } else if i == 10 { Some('M') } else if i == 17 { Some('I') } else { None }
}

/// One cycle, in ninths of a millisecond: the wave's length, `(units + 16)
/// * 55`, plus the scroll window, 640 px at 0.18 px per ms (32000 / 9 ms).
pub open spec fn cycle9(units: nat) -> nat {
    (495 * (units + TAIL_UNITS) + 32000) as nat
}

/// The characters received at Baltimore by time `i9` (in ninths) of a
/// cycle: every letter whose end has scrolled through the window; in the
/// amplified cycle the misread letters come out wrong.
pub open spec fn received(msg: Seq<char>, letters: Seq<(usize, u64, u64)>, i9: nat, regen: bool) -> Seq<char> {
    Seq::new(msg.len(), |i: int|
        if exists|q: int| 0 <= q < letters.len() && letters[q].0 == i && 495 * letters[q].2 + 32000 <= i9 {
            if !regen && misread(i) is Some { misread(i).unwrap() } else { msg[i] }
        } else {
            ' '
        })
}

/// The letter being keyed at `i9`: the last letter whose span covers it.
pub open spec fn keying_from(letters: Seq<(usize, u64, u64)>, i9: nat, n: int) -> Option<usize>
    decreases n,
{
    if n <= 0 {
        None
    } else if 495 * letters[n - 1].1 <= i9 < 495 * letters[n - 1].2 {
        Some(letters[n - 1].0)
    } else {
        keying_from(letters, i9, n - 1)
    }
}

/// What the telegraph sim shows at one moment.
pub struct TelegraphState {
    pub regen: bool,
    /// Position in the cycle, in ninths of a millisecond.
    pub i9: u64,
    pub note: &'static str,
    /// The relays' status.
    pub relay: &'static str,
    /// Washington's status while keying a letter.
    pub keying: Option<String>,
    pub sent: String,
    pub recv: String,
    /// Pulse spans in Morse units, for drawing the wave.
    pub pulses: Vec<(u64, u64)>,
}

/// The telegraph sim as a looping animation.
pub struct Telegraph;

pub open spec fn msg() -> Seq<char> {
    MESSAGE@
}

impl Telegraph {
    /// Two cycles, regenerated then amplified, in whole milliseconds.
    pub fn duration(&self) -> (d: u64)
        ensures
            d == 2 * cycle9(char_start(msg(), msg().len() as int)) / 9,
    {
        let m = chars_of(MESSAGE);
        proof {
            reveal_strlit("WHAT HATH GOD WROUGHT");
            assert forall|i: int| 0 <= i < m@.len() implies morse(#[trigger] m@[i]).len() <= 4 by {
                lemma_morse_short(m@[i]);
            }
            lemma_char_start_bound(m@, m@.len() as int);
        }
        let (_, _, units) = timeline(&m);
        assert(units <= 20 * 21);
        2 * (495 * (units + TAIL_UNITS) + 32000) / 9
    }

    /// State at `t` (looped).
    pub fn state_at(&self, t: u64) -> (st: TelegraphState)
        ensures
            ({
                let units = char_start(msg(), msg().len() as int);
                let c9 = cycle9(units);
                let tt9 = (9 * (t as nat)) % (2 * c9);
                let letters = letters_upto(msg(), msg().len() as int);
                &&& st.regen == (tt9 < c9)
                &&& st.i9 == (if st.regen { tt9 } else { (tt9 - c9) as nat })
                &&& st.note@ == (if st.regen { CAP_REGEN@ } else { CAP_AMP@ })
                &&& st.relay@ == (if st.regen { "regenerates"@ } else { "amplifies"@ })
                &&& st.sent@ == msg()
                &&& st.recv@ == received(msg(), letters, st.i9 as nat, st.regen)
                &&& (match keying_from(letters, st.i9 as nat, letters.len() as int) {
                    Some(i) => st.keying.is_some() && st.keying.unwrap()@ == "keying "@.push(msg()[i as int]),
                    None => st.keying.is_none(),
                })
                &&& st.pulses@ == pulses_upto(msg(), msg().len() as int)
            }),
    {
        let m = chars_of(MESSAGE);
        proof {
            reveal_strlit("WHAT HATH GOD WROUGHT");
            assert forall|i: int| 0 <= i < m@.len() implies morse(#[trigger] m@[i]).len() <= 4 by {
                lemma_morse_short(m@[i]);
            }
            lemma_char_start_bound(m@, m@.len() as int);
        }
        let (pulses, letters, units) = timeline(&m);
        assert(units <= 20 * 21);
        proof {
            lemma_letters_index(m@, m@.len() as int);
        }
        let c9 = 495 * (units + TAIL_UNITS) + 32000;
        let tt9 = ((9 * t as u128) % (2 * c9 as u128)) as u64;
        let regen = tt9 < c9;
        let i9 = if regen { tt9 } else { tt9 - c9 };
        let keying_idx = keying_exec(&letters, i9);
        proof {
            lemma_keying_index(letters@, i9 as nat, letters@.len() as int, m@.len() as int);
        }
        let keying = match keying_idx {
            Some(i) => {
                let mut k = String::new();
                push_str(&mut k, "keying ");
                push_char(&mut k, m[i]);
                Some(k)
            },
            None => None,
        };
        let mut sent = String::new();
        push_str(&mut sent, MESSAGE);
        let mut recv = String::new();
        let mut i: usize = 0;
        while i < m.len()
            invariant
                i <= m@.len(),
                m@ == msg(),
                letters@ == letters_upto(msg(), msg().len() as int),
                recv@ == received(msg(), letters@, i9 as nat, regen).take(i as int),
            decreases m@.len() - i,
        {
            let got = received_exec(&letters, i, i9);
            let c = if !got {
                ' '
            } else if !regen && i == 5 {
                'S'
            } else if !regen && i == 10 {
                'M'
            } else if !regen && i == 17 {
                'I'
            } else {
                m[i]
            };
            push_char(&mut recv, c);
            assert(received(msg(), letters@, i9 as nat, regen).take(i + 1)
                =~= received(msg(), letters@, i9 as nat, regen).take(i as int).push(c));
            i = i + 1;
        }
        assert(recv@ =~= received(msg(), letters@, i9 as nat, regen));
        TelegraphState {
            regen,
            i9,
            note: if regen { CAP_REGEN } else { CAP_AMP },
            relay: if regen { "regenerates" } else { "amplifies" },
            keying,
            sent,
            recv,
            pulses,
        }
    }
}

fn keying_exec(letters: &Vec<(usize, u64, u64)>, i9: u64) -> (k: Option<usize>)
    ensures
        k == keying_from(letters@, i9 as nat, letters@.len() as int),
{
    let mut n = letters.len();
    while n > 0
        invariant
            n <= letters@.len(),
            keying_from(letters@, i9 as nat, letters@.len() as int) == keying_from(letters@, i9 as nat, n as int),
        decreases n,
    {
        let (idx, s, e) = letters[n - 1];
        if 495 * (s as u128) <= i9 as u128 && (i9 as u128) < 495 * (e as u128) {
            return Some(idx);
        }
        n = n - 1;
    }
    None
}

fn received_exec(letters: &Vec<(usize, u64, u64)>, i: usize, i9: u64) -> (b: bool)
    ensures
        b == exists|q: int| 0 <= q < letters@.len() && letters@[q].0 == i && 495 * letters@[q].2 + 32000 <= i9,
{
    let mut q: usize = 0;
    while q < letters.len()
        invariant
            q <= letters@.len(),
            forall|r: int| 0 <= r < q ==> !(letters@[r].0 == i && 495 * letters@[r].2 + 32000 <= i9),
        decreases letters@.len() - q,
    {
        let (idx, _, e) = letters[q];
        if idx == i && 495 * (e as u128) + 32000 <= i9 as u128 {
            return true;
        }
        q = q + 1;
    }
    false
}

} // verus!
