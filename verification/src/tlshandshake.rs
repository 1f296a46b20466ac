//! TLS handshake sim: ClientHello with a key share, ServerHello with the
//! certificate and the other share, both sides derive the session key, then
//! encrypted Finished messages and application data.
use vstd::prelude::*;
use crate::schedule::{caption_ms, caption_time, max_nat};

verus! {

pub const FLY: u64 = 1200;
pub const ENC_STEP: u64 = 750;
pub const LOOP_PAUSE: u64 = 2600;

pub const CAP_HELLO: &'static str = "Browser picks a private number a = 6, keeps it, and sends ClientHello: the ciphers it supports plus share A = 5⁶ mod 23 = 8. Getting a back from 8 is the discrete logarithm problem, infeasible at real sizes.";
pub const CAP_SERVERHELLO: &'static str = "Server picks its own private number b = 15 and replies with its chosen cipher, share B = 5¹⁵ mod 23 = 19, and its certificate; the share is signed with the certificate's key, so a machine in the middle cannot swap in a share of its own.";
pub const CAP_KEYEXCHANGE: &'static str = "Each side raises the share it received to its own private number: 19⁶ mod 23 = 2 in the browser, 8¹⁵ mod 23 = 2 on the server. Same value, the session key, and the wire carried only 8 and 19.";
pub const CAP_FINISHED: &'static str = "Each side sends Finished, the first message protected by the new key. Watch the key work: encrypted at the sender, ciphertext on the wire, decrypted with the same key on arrival.";
pub const CAP_APPDATA: &'static str = "Every packet from here on gets the same treatment, encrypted with the session key before leaving, decrypted with it on arrival. This is HTTPS.";

/// Caption timing: 28 ms per byte, clamped to 1600..5200 ms.
pub open spec fn cap(s: Seq<char>) -> nat {
    caption_time(s, 28, 1600, 5200)
}

fn v_exec(s: &str, min: u64) -> (r: u64)
    ensures
        r == max_nat(cap(s@), min as nat),
        r <= if min > 5200 { min } else { 5200 },
{
    let c = caption_ms(s, 28, 1600, 5200);
    if c < min { min } else { c }
}

/// One message of the handshake: plain text, ciphertext shown on the wire
/// when it is encrypted, direction, lane, and the time its flight starts.
pub struct Msg {
    pub text: &'static str,
    pub cipher: Option<&'static str>,
    pub right: bool,
    pub row: usize,
    pub start: u64,
}

pub struct Sched {
    pub t_serverhello: u64,
    pub t_keyexchange: u64,
    pub t_key_shown: u64,
    pub t_finished: u64,
    pub t_appdata: u64,
    pub duration: u64,
    pub msgs: Vec<Msg>,
}

pub open spec fn sched_ok(s: Sched) -> bool {
    &&& s.t_serverhello == max_nat(cap(CAP_HELLO@), 1500)
    &&& s.t_keyexchange == s.t_serverhello + max_nat(cap(CAP_SERVERHELLO@), 1500)
    &&& s.t_key_shown == s.t_keyexchange + 1100
    &&& s.t_finished == s.t_keyexchange + max_nat(cap(CAP_KEYEXCHANGE@), 2400)
    &&& s.t_appdata == s.t_finished + max_nat(cap(CAP_FINISHED@), 6050)
    &&& s.duration == s.t_appdata + max_nat(cap(CAP_APPDATA@), 6050) + LOOP_PAUSE
    &&& s.msgs@.len() == 6
    // flight starts: plaintext at once, encrypted after the encrypt beat; the
    // second of each pair 3000 ms after the first (encrypt, fly, decrypt)
    &&& s.msgs@[0].start == 0 && s.msgs@[0].cipher is None && s.msgs@[0].right
    &&& s.msgs@[1].start == s.t_serverhello && s.msgs@[1].cipher is None && !s.msgs@[1].right
    &&& s.msgs@[2].start == s.t_finished + ENC_STEP && s.msgs@[2].cipher is Some && s.msgs@[2].right
    &&& s.msgs@[3].start == s.t_finished + 3000 + ENC_STEP && s.msgs@[3].cipher is Some && !s.msgs@[3].right
    &&& s.msgs@[4].start == s.t_appdata + ENC_STEP && s.msgs@[4].cipher is Some && s.msgs@[4].right
    &&& s.msgs@[5].start == s.t_appdata + 3000 + ENC_STEP && s.msgs@[5].cipher is Some && !s.msgs@[5].right
    &&& forall|i: int| 0 <= i < 6 ==> (#[trigger] s.msgs@[i]).row == i
}

/// The stage boundaries and the six messages.
pub fn sched() -> (s: Sched)
    ensures
        sched_ok(s),
{
    let t_serverhello = v_exec(CAP_HELLO, 1500);
    let t_keyexchange = t_serverhello + v_exec(CAP_SERVERHELLO, 1500);
    let t_key_shown = t_keyexchange + 1100;
    let t_finished = t_keyexchange + v_exec(CAP_KEYEXCHANGE, 2400);
    let t_finished2 = t_finished + 3000;
    let t_appdata = t_finished + v_exec(CAP_FINISHED, 6050);
    let t_appdata2 = t_appdata + 3000;
    let duration = t_appdata + v_exec(CAP_APPDATA, 6050) + LOOP_PAUSE;
    let msgs = vec![
        Msg { text: "ClientHello + share A = 8", cipher: None, right: true, row: 0, start: 0 },
        Msg { text: "ServerHello + cert + share B = 19", cipher: None, right: false, row: 1, start: t_serverhello },
        Msg { text: "Finished", cipher: Some("f0:8a:c1:9e"), right: true, row: 2, start: t_finished + ENC_STEP },
        Msg { text: "Finished", cipher: Some("2d:77:0b:e4"), right: false, row: 3, start: t_finished2 + ENC_STEP },
        Msg { text: "GET /page", cipher: Some("27:b3:9c:4e:d1"), right: true, row: 4, start: t_appdata + ENC_STEP },
        Msg { text: "200 OK + HTML", cipher: Some("6c:e2:41:9a:b7"), right: false, row: 5, start: t_appdata2 + ENC_STEP },
    ];
    Sched { t_serverhello, t_keyexchange, t_key_shown, t_finished, t_appdata, duration, msgs }
}

/// Where a message is at some moment.
#[derive(PartialEq, Eq, Structural, Clone, Copy, Debug)]
pub enum MsgState {
    /// Not yet sent, or being decrypted after landing.
    Hidden,
    /// On the wire (showing its ciphertext when encrypted).
    Flying,
    /// Delivered: parked faded at the destination.
    Landed,
}

pub open spec fn msg_state(m: Msg, tt: nat) -> MsgState {
    let fly_end = m.start + FLY;
    let full_end = fly_end + if m.cipher is Some { ENC_STEP as nat } else { 0 };
    if m.start <= tt && tt < fly_end {
        MsgState::Flying
    } else if tt >= full_end {
        MsgState::Landed
    } else {
        MsgState::Hidden
    }
}

/// What the sim shows at one moment.
pub struct TlsState {
    pub phase: &'static str,
    pub note: &'static str,
    pub key_shown: bool,
    pub server_shown: bool,
    pub msgs: Vec<MsgState>,
}

pub open spec fn phase_index(s: Sched, tt: nat) -> int {
    if tt >= s.t_appdata { 4 } else if tt >= s.t_finished { 3 } else if tt >= s.t_keyexchange { 2 }
    else if tt >= s.t_serverhello { 1 } else { 0 }
}

/// The TLS sim as a looping animation.
pub struct TlsHandshake;

impl TlsHandshake {
    pub fn duration(&self) -> (d: u64)
        ensures
            forall|s: Sched| #[trigger] sched_ok(s) ==> d == s.duration,
    {
        sched().duration
    }

    /// State at `t` (looped).
    pub fn state_at(&self, t: u64) -> (st: TlsState)
        ensures
            forall|s: Sched| #[trigger] sched_ok(s) ==> {
                let tt = (t as nat) % (s.duration as nat);
                let k = phase_index(s, tt);
                &&& st.note@ == (if k == 4 { CAP_APPDATA@ } else if k == 3 { CAP_FINISHED@ } else if k == 2 { CAP_KEYEXCHANGE@ }
                        else if k == 1 { CAP_SERVERHELLO@ } else { CAP_HELLO@ })
                &&& st.phase@ == (if k == 4 { "encrypted application data"@ } else if k == 3 { "Finished (encrypted)"@ }
                        else if k == 2 { "both sides derive the session key"@ } else if k == 1 { "ServerHello + certificate + key share"@ }
                        else { "ClientHello + key share"@ })
                &&& st.key_shown == (tt >= s.t_key_shown)
                &&& st.server_shown == (tt >= s.t_serverhello)
                &&& st.msgs@.len() == 6
                &&& forall|i: int| 0 <= i < 6 ==> #[trigger] st.msgs@[i] == msg_state(s.msgs@[i], tt)
            },
    {
        let s = sched();
        let tt = t % s.duration;
        let (phase, note) = if tt >= s.t_appdata {
            ("encrypted application data", CAP_APPDATA)
        } else if tt >= s.t_finished {
            ("Finished (encrypted)", CAP_FINISHED)
        } else if tt >= s.t_keyexchange {
            ("both sides derive the session key", CAP_KEYEXCHANGE)
        } else if tt >= s.t_serverhello {
            ("ServerHello + certificate + key share", CAP_SERVERHELLO)
        } else {
            ("ClientHello + key share", CAP_HELLO)
        };
        let mut msgs: Vec<MsgState> = Vec::new();
        let mut i: usize = 0;
        while i < 6
            invariant
                i <= 6,
                sched_ok(s),
                tt == t % s.duration,
                msgs@.len() == i,
                forall|j: int| 0 <= j < i ==> #[trigger] msgs@[j] == msg_state(s.msgs@[j], tt as nat),
            decreases 6 - i,
        {
            let m = &s.msgs[i];
            let fly_end = m.start + FLY;
            let full_end = fly_end + if m.cipher.is_some() { ENC_STEP } else { 0 };
            let st = if tt >= m.start && tt < fly_end {
                MsgState::Flying
            } else if tt >= full_end {
                MsgState::Landed
            } else {
                MsgState::Hidden
            };
            msgs.push(st);
            i = i + 1;
        }
        TlsState { phase, note, key_shown: tt >= s.t_key_shown, server_shown: tt >= s.t_serverhello, msgs }
    }
}

} // verus!
