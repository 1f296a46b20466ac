//! Checksum sim: the sender sums the bytes of "Hello" modulo 256 and ships
//! data plus checksum; in the clean run the receiver's recomputed sum matches,
//! in the second run one bit flips in transit and the frame is discarded.
use vstd::prelude::*;
use crate::schedule::{caption_ms, caption_time, max_nat};
use crate::text::{hex_byte, hex_char, push_char, push_hex_byte, push_str};

verus! {

/// The payload, the bytes of "Hello".
pub open spec fn data() -> Seq<u8> {
    seq![72u8, 101, 108, 108, 111]
}

/// Index of the byte whose bit flips in the corrupt run.
pub open spec fn flip_idx() -> int {
    2
}

/// The received bytes: bit 6 of byte 2 flipped when the run is corrupt.
pub open spec fn received(corrupt: bool) -> Seq<u8> {
    if corrupt {
        data().update(flip_idx(), data()[flip_idx()] ^ 64u8)
    } else {
        data()
    }
}

pub open spec fn sum_spec(b: Seq<u8>) -> nat
    decreases b.len(),
{
    if b.len() == 0 {
        0
    } else {
        sum_spec(b.drop_last()) + b.last() as nat
    }
}

pub open spec fn checksum_spec(b: Seq<u8>) -> nat {
    sum_spec(b) % 256
}

/// `0x` and two lower-case hexadecimal digits.
pub fn hex(b: u8) -> (s: String)
    ensures
        s@ == hex_byte(b),
{
    let mut s = String::new();
    push_hex_byte(&mut s, b);
    assert(s@ =~= hex_byte(b));
    s
}

/// Sum of the bytes.
pub fn sum(bytes: &[u8]) -> (s: u32)
    requires
        255 * bytes@.len() <= u32::MAX,
    ensures
        s == sum_spec(bytes@),
{
    let mut s: u32 = 0;
    let mut i: usize = 0;
    while i < bytes.len()
        invariant
            i <= bytes@.len(),
            255 * bytes@.len() <= u32::MAX,
            s == sum_spec(bytes@.take(i as int)),
            s <= 255 * i,
        decreases bytes@.len() - i,
    {
        assert(bytes@.take(i + 1).drop_last() =~= bytes@.take(i as int));
        s = s + bytes[i] as u32;
        i = i + 1;
    }
    assert(bytes@.take(i as int) =~= bytes@);
    s
}

/// Sum of the bytes modulo 256.
pub fn checksum(bytes: &[u8]) -> (c: u32)
    requires
        255 * bytes@.len() <= u32::MAX,
    ensures
        c == checksum_spec(bytes@),
        c < 256,
{
    sum(bytes) % 256
}

/// Lower-case hexadecimal digits of `n`, without leading zeros.
pub open spec fn hex_digits(n: nat) -> Seq<char>
    decreases n,
{
    if n < 16 {
        seq![hex_char(n)]
    } else {
        hex_digits(n / 16).push(hex_char(n % 16))
    }
}

/// `0x` and the hexadecimal digits of `n`, zero-padded to at least two digits.
pub open spec fn hex_wide(n: nat) -> Seq<char> {
    if n < 16 {
        seq!['0', 'x', '0'] + hex_digits(n)
    } else {
        seq!['0', 'x'] + hex_digits(n)
    }
}

fn push_hex_digits(out: &mut String, n: u32)
    ensures
        final(out)@ == old(out)@ + hex_digits(n as nat),
    decreases n,
{
    let d = (n % 16) as u8;
    let c = if d < 10 { ((48 + d) as u8) as char } else { ((87 + d) as u8) as char };
    assert(c == hex_char(d as nat)) by {
        if d >= 10 {
            assert(d == 10 || d == 11 || d == 12 || d == 13 || d == 14 || d == 15);
        } else {
            assert(d == 0 || d == 1 || d == 2 || d == 3 || d == 4 || d == 5 || d == 6 || d == 7 || d == 8 || d == 9);
        }
    }
    if n >= 16 {
        push_hex_digits(out, n / 16);
    }
    push_char(out, c);
    assert(final(out)@ =~= old(out)@ + hex_digits(n as nat));
}

fn push_hex_wide(out: &mut String, n: u32)
    ensures
        final(out)@ == old(out)@ + hex_wide(n as nat),
{
    push_char(out, '0');
    push_char(out, 'x');
    if n < 16 {
        push_char(out, '0');
    }
    push_hex_digits(out, n);
    assert(final(out)@ =~= old(out)@ + hex_wide(n as nat));
}

/// The bytes in `0x..` form, separated by `sep`.
pub open spec fn hex_join(b: Seq<u8>, sep: Seq<char>) -> Seq<char>
    decreases b.len(),
{
    if b.len() == 0 {
        seq![]
    } else if b.len() == 1 {
        hex_byte(b[0])
    } else {
        hex_join(b.drop_last(), sep) + sep + hex_byte(b.last())
    }
}

fn push_hex_join(out: &mut String, bytes: &[u8], sep: &str)
    ensures
        final(out)@ == old(out)@ + hex_join(bytes@, sep@),
{
    let mut i: usize = 0;
    assert(bytes@.take(0) =~= Seq::<u8>::empty());
    assert(out@ =~= old(out)@ + hex_join(bytes@.take(0), sep@));
    while i < bytes.len()
        invariant
            i <= bytes@.len(),
            out@ == old(out)@ + hex_join(bytes@.take(i as int), sep@),
        decreases bytes@.len() - i,
    {
        let ghost before = out@;
        if i > 0 {
            push_str(out, sep);
        }
        push_hex_byte(out, bytes[i]);
        assert(bytes@.take(i + 1).drop_last() =~= bytes@.take(i as int));
        assert(bytes@.take(i + 1).last() == bytes@[i as int]);
        if i == 0 {
            assert(out@ =~= old(out)@ + hex_join(bytes@.take(i + 1), sep@));
        } else {
            assert(out@ =~= old(out)@ + hex_join(bytes@.take(i + 1), sep@));
        }
        i = i + 1;
    }
    assert(bytes@.take(i as int) =~= bytes@);
}

/// The worked sum, e.g. `0x48 + 0x65 = 0x1f4 mod 256 = 0xf4`.
pub open spec fn calc_line_spec(b: Seq<u8>) -> Seq<char> {
    hex_join(b, " + "@) + " = "@ + hex_wide(sum_spec(b)) + " mod 256 = "@ + hex_wide(checksum_spec(b))
}

/// The worked sum shown beside sender and receiver.
pub fn calc_line(bytes: &[u8]) -> (s: String)
    requires
        255 * bytes@.len() <= u32::MAX,
    ensures
        s@ == calc_line_spec(bytes@),
{
    let mut s = String::new();
    push_hex_join(&mut s, bytes, " + ");
    push_str(&mut s, " = ");
    push_hex_wide(&mut s, sum(bytes));
    push_str(&mut s, " mod 256 = ");
    push_hex_wide(&mut s, checksum(bytes));
    assert(s@ =~= calc_line_spec(bytes@));
    s
}

/// Pause after the verdict before the next run (ms).
pub const PAUSE: u64 = 1500;

/// Caption timing of this sim: 28 ms per byte, clamped to 1100..4200 ms.
pub open spec fn cap(s: Seq<char>) -> nat {
    caption_time(s, 28, 1100, 4200)
}

fn cap_exec(s: &String) -> (r: u64)
    ensures
        r == cap(s@),
        r <= 4200,
{
    caption_ms(s.as_str(), 28, 1100, 4200)
}

pub open spec fn good() -> u8 {
    checksum_spec(data()) as u8
}

pub open spec fn data_hex() -> Seq<char> {
    hex_join(data(), " "@)
}

pub open spec fn cap_compute_spec() -> Seq<char> {
    "Sender adds up the bytes: "@ + calc_line_spec(data()) + ". That last value, "@ + hex_byte(good())
        + ", ships alongside the data as the checksum."@
}

pub open spec fn cap_send_spec(corrupt: bool) -> Seq<char> {
    if corrupt {
        "Sender ships the data "@ + data_hex() + " with checksum "@ + hex_byte(good())
            + ". Noise on the link flips a bit in transit."@
    } else {
        "Sender ships the data "@ + data_hex() + " with checksum "@ + hex_byte(good())
            + ", a clean run down the wire."@
    }
}

pub open spec fn cap_arrived_spec(corrupt: bool) -> Seq<char> {
    if corrupt {
        "Received: byte "@ + "2"@ + " arrived as "@ + hex_byte(received(true)[flip_idx()]) + " instead of "@
            + hex_byte(data()[flip_idx()]) + ". The receiver has no way to see that yet."@
    } else {
        "Received intact: "@ + data_hex() + ", checksum "@ + hex_byte(good()) + "."@
    }
}

pub open spec fn cap_recompute_spec(corrupt: bool) -> Seq<char> {
    "Receiver runs the identical sum over the bytes it got: "@ + calc_line_spec(received(corrupt)) + "."@
}

pub open spec fn cap_compare_spec(corrupt: bool) -> Seq<char> {
    let rsum = checksum_spec(received(corrupt));
    if rsum == checksum_spec(data()) {
        "Compares "@ + hex_byte(rsum as u8) + " to the checksum that arrived, "@ + hex_byte(good())
            + ", match. Frame accepted."@
    } else {
        "Compares "@ + hex_byte(rsum as u8) + " to the checksum that arrived, "@ + hex_byte(good())
            + ", mismatch. Frame silently discarded, corruption caught with no idea which bit or why."@
    }
}

/// One run of the sim: stage boundaries (ms from the run's start) and the
/// caption of each stage.
pub struct Run {
    pub corrupt: bool,
    pub t_send: u64,
    pub t_arrived: u64,
    pub t_recompute: u64,
    pub t_compare: u64,
    pub t_next: u64,
    pub cap_compute: String,
    pub cap_send: String,
    pub cap_arrived: String,
    pub cap_recompute: String,
    pub cap_compare: String,
}

/// The run as the schedule rules define it.
pub open spec fn run_ok(r: Run, corrupt: bool) -> bool {
    &&& r.corrupt == corrupt
    &&& r.cap_compute@ == cap_compute_spec()
    &&& r.cap_send@ == cap_send_spec(corrupt)
    &&& r.cap_arrived@ == cap_arrived_spec(corrupt)
    &&& r.cap_recompute@ == cap_recompute_spec(corrupt)
    &&& r.cap_compare@ == cap_compare_spec(corrupt)
    &&& r.t_send == cap(cap_compute_spec())
    &&& r.t_arrived == r.t_send + max_nat(cap(cap_send_spec(corrupt)), 850)
    &&& r.t_recompute == r.t_arrived + cap(cap_arrived_spec(corrupt))
    &&& r.t_compare == r.t_recompute + cap(cap_recompute_spec(corrupt))
    &&& r.t_next == r.t_compare + cap(cap_compare_spec(corrupt)) + PAUSE
}

fn payload() -> (d: Vec<u8>)
    ensures
        d@ == data(),
{
    let d = vec![72u8, 101, 108, 108, 111];
    assert(d@ =~= data());
    d
}

fn received_bytes(corrupt: bool) -> (d: Vec<u8>)
    ensures
        d@ == received(corrupt),
{
    let mut d = payload();
    if corrupt {
        let b = d[2] ^ 64;
        d.set(2, b);
    }
    d
}

fn build_compute() -> (s: String)
    ensures
        s@ == cap_compute_spec(),
{
    let d = payload();
    let good = checksum(d.as_slice()) as u8;
    let mut s = String::new();
    push_str(&mut s, "Sender adds up the bytes: ");
    let line = calc_line(d.as_slice());
    push_str(&mut s, line.as_str());
    push_str(&mut s, ". That last value, ");
    push_hex_byte(&mut s, good);
    push_str(&mut s, ", ships alongside the data as the checksum.");
    assert(s@ =~= cap_compute_spec());
    s
}

fn build_send(corrupt: bool) -> (s: String)
    ensures
        s@ == cap_send_spec(corrupt),
{
    let d = payload();
    let good = checksum(d.as_slice()) as u8;
    let mut s = String::new();
    push_str(&mut s, "Sender ships the data ");
    push_hex_join(&mut s, d.as_slice(), " ");
    push_str(&mut s, " with checksum ");
    push_hex_byte(&mut s, good);
    if corrupt {
        push_str(&mut s, ". Noise on the link flips a bit in transit.");
    } else {
        push_str(&mut s, ", a clean run down the wire.");
    }
    assert(s@ =~= cap_send_spec(corrupt));
    s
}

fn build_arrived(corrupt: bool) -> (s: String)
    ensures
        s@ == cap_arrived_spec(corrupt),
{
    let d = payload();
    let good = checksum(d.as_slice()) as u8;
    let r = received_bytes(corrupt);
    let mut s = String::new();
    if corrupt {
        push_str(&mut s, "Received: byte ");
        push_str(&mut s, "2");
        push_str(&mut s, " arrived as ");
        push_hex_byte(&mut s, r[2]);
        push_str(&mut s, " instead of ");
        push_hex_byte(&mut s, d[2]);
        push_str(&mut s, ". The receiver has no way to see that yet.");
    } else {
        push_str(&mut s, "Received intact: ");
        push_hex_join(&mut s, d.as_slice(), " ");
        push_str(&mut s, ", checksum ");
        push_hex_byte(&mut s, good);
        push_str(&mut s, ".");
    }
    assert(s@ =~= cap_arrived_spec(corrupt));
    s
}

fn build_recompute(corrupt: bool) -> (s: String)
    ensures
        s@ == cap_recompute_spec(corrupt),
{
    let r = received_bytes(corrupt);
    let mut s = String::new();
    push_str(&mut s, "Receiver runs the identical sum over the bytes it got: ");
    let line = calc_line(r.as_slice());
    push_str(&mut s, line.as_str());
    push_str(&mut s, ".");
    assert(s@ =~= cap_recompute_spec(corrupt));
    s
}

fn build_compare(corrupt: bool) -> (s: String)
    ensures
        s@ == cap_compare_spec(corrupt),
{
    let d = payload();
    let good = checksum(d.as_slice());
    let r = received_bytes(corrupt);
    let rsum = checksum(r.as_slice());
    let mut s = String::new();
    push_str(&mut s, "Compares ");
    push_hex_byte(&mut s, rsum as u8);
    push_str(&mut s, " to the checksum that arrived, ");
    push_hex_byte(&mut s, good as u8);
    if rsum == good {
        push_str(&mut s, ", match. Frame accepted.");
    } else {
        push_str(&mut s, ", mismatch. Frame silently discarded, corruption caught with no idea which bit or why.");
    }
    assert(s@ =~= cap_compare_spec(corrupt));
    s
}

fn make_run(corrupt: bool) -> (r: Run)
    ensures
        run_ok(r, corrupt),
{
    let cap_compute = build_compute();
    let cap_send = build_send(corrupt);
    let cap_arrived = build_arrived(corrupt);
    let cap_recompute = build_recompute(corrupt);
    let cap_compare = build_compare(corrupt);
    let t_send = cap_exec(&cap_compute);
    let send = cap_exec(&cap_send);
    let t_arrived = t_send + if send < 850 { 850 } else { send };
    let t_recompute = t_arrived + cap_exec(&cap_arrived);
    let t_compare = t_recompute + cap_exec(&cap_recompute);
    let t_next = t_compare + cap_exec(&cap_compare) + PAUSE;
    Run { corrupt, t_send, t_arrived, t_recompute, t_compare, t_next, cap_compute, cap_send, cap_arrived, cap_recompute, cap_compare }
}

/// The two runs: first clean, then with a bit flipped in transit.
pub fn runs() -> (v: Vec<Run>)
    ensures
        v@.len() == 2,
        run_ok(v@[0], false),
        run_ok(v@[1], true),
{
    vec![make_run(false), make_run(true)]
}

/// Length of one loop of the sim (ms): both runs back to back.
pub open spec fn duration_spec() -> nat {
    let a = cap(cap_compute_spec());
    a + max_nat(cap(cap_send_spec(false)), 850) + cap(cap_arrived_spec(false)) + cap(cap_recompute_spec(false))
        + cap(cap_compare_spec(false)) + PAUSE as nat
    + a + max_nat(cap(cap_send_spec(true)), 850) + cap(cap_arrived_spec(true)) + cap(cap_recompute_spec(true))
        + cap(cap_compare_spec(true)) + PAUSE as nat
}

/// Length of one loop of the sim (ms).
pub fn duration() -> (d: u64)
    ensures
        d == duration_spec(),
{
    let rs = runs();
    rs[0].t_next + rs[1].t_next
}

pub proof fn lemma_sum_update(b: Seq<u8>, i: int, v: u8)
    requires
        0 <= i < b.len(),
    ensures
        sum_spec(b.update(i, v)) + b[i] as nat == sum_spec(b) + v as nat,
    decreases b.len(),
{
    let u = b.update(i, v);
    if i == b.len() - 1 {
        assert(u.drop_last() =~= b.drop_last());
    } else {
        assert(u.drop_last() =~= b.drop_last().update(i, v));
        lemma_sum_update(b.drop_last(), i, v);
    }
}

/// Flipping any single bit of any one byte changes the sum modulo 256, so
/// the receiver's recomputed checksum always disagrees with the one sent.
pub proof fn lemma_single_bit_flip_detected(b: Seq<u8>, i: int, k: u8)
    requires
        0 <= i < b.len(),
        k < 8,
    ensures
        checksum_spec(b.update(i, b[i] ^ (1u8 << k))) != checksum_spec(b),
{
    let x = b[i];
    let y = x ^ (1u8 << k);
    assert((x & (1u8 << k) == 0 ==> y == x + (1u8 << k)) && (x & (1u8 << k) != 0 ==> y + (1u8 << k) == x)
        && 1 <= (1u8 << k) <= 128) by (bit_vector)
        requires y == x ^ (1u8 << k), k < 8;
    lemma_sum_update(b, i, y);
    let s0 = sum_spec(b);
    let s1 = sum_spec(b.update(i, y));
    let m = (1u8 << k) as int;
    assert(s1 == s0 + m || s1 + m == s0);
    assert(s1 % 256 != s0 % 256) by (nonlinear_arith)
        requires s1 == s0 + m || s1 + m == s0, 1 <= m <= 128, s0 >= 0, s1 >= 0;
}

/// The clean run is accepted and the corrupt run is discarded.
pub proof fn lemma_runs_verdicts()
    ensures
        checksum_spec(received(false)) == checksum_spec(data()),
        checksum_spec(received(true)) != checksum_spec(data()),
{
    assert((1u8 << 6u8) == 64u8) by (bit_vector);
    lemma_single_bit_flip_detected(data(), flip_idx(), 6);
}

/// `r` is run number `idx` of the loop (0 clean, 1 corrupt).
pub open spec fn is_run(r: Run, idx: usize) -> bool {
    run_ok(r, idx == 1)
}

/// Stage of a run in progress.
#[derive(PartialEq, Eq, Structural, Clone, Copy, Debug)]
pub enum Stage {
    Computing,
    Sending,
    Arrived,
    Recompute,
    Compare,
}

/// The stage of run `r` at `dt` ms into that run.
pub open spec fn stage_spec(r: Run, dt: nat) -> Stage {
    if dt < r.t_send {
        Stage::Computing
    } else if dt < r.t_arrived {
        Stage::Sending
    } else if dt < r.t_recompute {
        Stage::Arrived
    } else if dt < r.t_compare {
        Stage::Recompute
    } else {
        Stage::Compare
    }
}

/// The checksum sim as a looping animation.
pub struct Checksum;

impl Checksum {
    /// Loop length (ms).
    pub fn duration(&self) -> (d: u64)
        ensures
            d == duration_spec(),
    {
        duration()
    }

    /// Which run is playing at `t` (looped), which stage it is in, and the
    /// caption shown.
    pub fn stage_at(&self, t: u64) -> (res: (usize, Stage, String))
        ensures
            ({
                let tt = (t as nat) % duration_spec();
                let (run, stage, note) = res;
                let r0 = cap(cap_compute_spec()) + max_nat(cap(cap_send_spec(false)), 850)
                    + cap(cap_arrived_spec(false)) + cap(cap_recompute_spec(false))
                    + cap(cap_compare_spec(false)) + PAUSE;
                &&& run == (if tt < r0 { 0usize } else { 1usize })
                &&& forall|r: Run| #[trigger] is_run(r, run) ==> {
                    let dt = if run == 0 { tt } else { (tt - r0) as nat };
                    &&& stage == stage_spec(r, dt)
                    &&& note@ == match stage {
                        Stage::Computing => r.cap_compute@,
                        Stage::Sending => r.cap_send@,
                        Stage::Arrived => r.cap_arrived@,
                        Stage::Recompute => r.cap_recompute@,
                        Stage::Compare => r.cap_compare@,
                    }
                }
            }),
    {
        let rs = runs();
        let d = rs[0].t_next + rs[1].t_next;
        assert(d > 0);
        let tt = t % d;
        let (run, dt) = if tt < rs[0].t_next { (0usize, tt) } else { (1usize, tt - rs[0].t_next) };
        let r = &rs[run];
        let stage = if dt < r.t_send {
            Stage::Computing
        } else if dt < r.t_arrived {
            Stage::Sending
        } else if dt < r.t_recompute {
            Stage::Arrived
        } else if dt < r.t_compare {
            Stage::Recompute
        } else {
            Stage::Compare
        };
        let note = match stage {
            Stage::Computing => r.cap_compute.clone(),
            Stage::Sending => r.cap_send.clone(),
            Stage::Arrived => r.cap_arrived.clone(),
            Stage::Recompute => r.cap_recompute.clone(),
            Stage::Compare => r.cap_compare.clone(),
        };
        (run, stage, note)
    }
}

/// Texts of the checksum scene, in drawing order: the sender's worked sum;
/// "bit flip" while a corrupt frame travels or has just arrived; what the
/// receiver holds ("awaiting bytes" until the frame arrives); the
/// receiver's worked sum once it recomputes; and the verdict at the end.
pub open spec fn texts_spec(corrupt: bool, stage: Stage) -> Seq<Seq<char>> {
    let rcvd = received(corrupt);
    let flip: Seq<Seq<char>> = if corrupt && (stage == Stage::Sending || stage == Stage::Arrived) { seq!["bit flip"@] } else { seq![] };
    let held = if stage == Stage::Computing || stage == Stage::Sending { "awaiting bytes"@ } else { hex_join(rcvd, " "@) };
    let recomputed: Seq<Seq<char>> = if stage == Stage::Recompute || stage == Stage::Compare { seq![calc_line_spec(rcvd)] } else { seq![] };
    let verdict: Seq<Seq<char>> = if stage == Stage::Compare {
        if checksum_spec(rcvd) == checksum_spec(data()) { seq!["✓ accepted"@] } else { seq!["✕ discarded"@] }
    } else {
        seq![]
    };
    seq![calc_line_spec(data())] + flip + seq![held] + recomputed + verdict
}

/// The checksum packet's label, shown from the moment it is sent.
pub open spec fn packet_label_spec(stage: Stage) -> Option<Seq<char>> {
    if stage == Stage::Computing { None } else { Some("checksum "@ + hex_byte(good())) }
}

/// What the checksum scene shows in one stage of one run.
pub struct Scene {
    /// Status under the sender: the bytes it sends.
    pub sender: String,
    /// Label of the checksum packet, once it is sent.
    pub packet: Option<String>,
    pub texts: Vec<String>,
}

pub open spec fn views(v: Seq<String>) -> Seq<Seq<char>> {
    v.map_values(|s: String| s@)
}

impl Checksum {
    /// The labels and texts drawn in stage `stage` of run `run` (0 clean,
    /// 1 corrupt), as `stage_at` reports them.
    pub fn scene(&self, run: usize, stage: Stage) -> (sc: Scene)
        requires
            run < 2,
        ensures
            sc.sender@ == data_hex(),
            match sc.packet {
                Some(l) => packet_label_spec(stage) == Some(l@),
                None => packet_label_spec(stage) is None,
            },
            views(sc.texts@) == texts_spec(run == 1, stage),
    {
        let corrupt = run == 1;
        let d = payload();
        let rcvd = received_bytes(corrupt);
        let mut sender = String::new();
        push_hex_join(&mut sender, d.as_slice(), " ");
        let packet = if stage == Stage::Computing {
            None
        } else {
            let mut l = String::new();
            push_str(&mut l, "checksum ");
            let c = checksum(d.as_slice());
            push_hex_byte(&mut l, c as u8);
            Some(l)
        };
        let mut texts: Vec<String> = Vec::new();
        texts.push(calc_line(d.as_slice()));
        if corrupt && (stage == Stage::Sending || stage == Stage::Arrived) {
            let mut f = String::new();
            push_str(&mut f, "bit flip");
            texts.push(f);
        }
        let mut held = String::new();
        if stage == Stage::Computing || stage == Stage::Sending {
            push_str(&mut held, "awaiting bytes");
        } else {
            push_hex_join(&mut held, rcvd.as_slice(), " ");
        }
        texts.push(held);
        if stage == Stage::Recompute || stage == Stage::Compare {
            texts.push(calc_line(rcvd.as_slice()));
        }
        if stage == Stage::Compare {
            let mut v = String::new();
            if checksum(rcvd.as_slice()) == checksum(d.as_slice()) {
                push_str(&mut v, "✓ accepted");
            } else {
                push_str(&mut v, "✕ discarded");
            }
            texts.push(v);
        }
        proof {
            assert(views(texts@) =~= texts_spec(corrupt, stage));
        }
        Scene { sender, packet, texts }
    }
}

} // verus!
