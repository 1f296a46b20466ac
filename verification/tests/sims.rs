use dynamic_diagram::checksum::{Checksum, Stage};
use dynamic_diagram::dh::Dh;
use dynamic_diagram::anycast::Anycast;
use dynamic_diagram::bandwidth::Bandwidth;
use dynamic_diagram::bgp::{stages, Bgp};
use dynamic_diagram::certchain::CertChain;
use dynamic_diagram::dialup::{phase_at, Dialup};
use dynamic_diagram::dns::Dns;
use dynamic_diagram::encapsulation::Encapsulation;
use dynamic_diagram::igp::{shots, Igp};
use dynamic_diagram::linkclick::LinkClick;
use dynamic_diagram::modem::Modem;
use dynamic_diagram::msgjourney::MessageJourney;
use dynamic_diagram::mtu::{Mode, Mtu, MtuStage};
use dynamic_diagram::natsim::{along, Nat};
use dynamic_diagram::netsim::{flows, in_flight, tally, NetEvent, Rng};
use dynamic_diagram::quic::{flights, Quic};
use dynamic_diagram::tcpsim::TcpSim;
use dynamic_diagram::tcpvsudp::TcpVsUdp;
use dynamic_diagram::telegraph::Telegraph;
use dynamic_diagram::vpn::Vpn;
use dynamic_diagram::wdm::Wdm;

#[test]
fn bgp_stage_times_and_statuses() {
    let st = stages();
    let starts: Vec<u64> = st.iter().map(|s| s.start).collect();
    assert_eq!(starts, vec![0, 2296, 5696, 9000]);
    assert_eq!(Bgp.duration(), 14800);
    let s = Bgp.state_at(9000 + 1000);
    assert_eq!(s.statuses[4], "2 routes");
    assert_eq!(s.statuses[3], "announces [1, 2, 4]");
    assert!(s.decided);
    assert_eq!(s.label, "AS5 comparing AS-path length");
    let s0 = Bgp.state_at(0);
    assert_eq!(s0.statuses[1], "announces -");
    assert_eq!(s0.label, "AS1 originating route");
}

#[test]
fn anycast_routes_each_client_to_its_nearest_edge() {
    let sim = Anycast;
    let s = sim.state_at(0);
    assert_eq!((s.client, s.winner), (0, 1));
    assert_eq!(s.client_label, "client, Lisbon");
    assert!(s.note.contains("Lisbon sends a request to 203.0.113.5"));
    let d = sim.duration();
    let mut seen = vec![];
    let mut t = 0;
    while t < d {
        let s = sim.state_at(t);
        if s.routing && !seen.contains(&s.client) {
            seen.push(s.client);
            let expected = ["London (2), São Paulo (6), Tokyo (9)", "Tokyo (3), São Paulo (8), London (9)", "São Paulo (2), London (7), Tokyo (10)"];
            assert!(s.note.contains(expected[s.client]), "{}", s.note);
            assert_eq!(s.winner, [1, 2, 0][s.client]);
        }
        t += 50;
    }
    assert_eq!(seen, vec![0, 1, 2]);
}

#[test]
fn cert_chain_verdicts() {
    let sim = CertChain;
    let d = sim.duration();
    let mut verdicts = vec![];
    let mut t = 0;
    while t < d {
        let s = sim.state_at(t);
        if s.verdict_shown && !verdicts.contains(&s.badge) {
            verdicts.push(s.badge);
            assert_eq!(s.matched, if s.scenario == 0 { vec![true, false, false] } else { vec![false, false, false] });
        }
        t += 100;
    }
    assert_eq!(verdicts, vec![Some("✓ chain verified"), Some("✕ chain not trusted")]);
}

#[test]
fn mtu_fragments_then_drops() {
    let sim = Mtu;
    let s = sim.state_at(0);
    assert_eq!((s.mode, s.stage), (Mode::Fragment, MtuStage::Sending));
    assert_eq!(s.flights[0].label, "3000B");
    assert_eq!(s.outcome, "waiting");
    let d = sim.duration();
    let mut saw_split = false;
    let mut saw_drop = false;
    let mut t = 0;
    while t < d {
        let s = sim.state_at(t);
        if s.outcome == "split into 1500B + 1500B" {
            saw_split = true;
        }
        if s.outcome == "dropped, ICMP \"Fragmentation Needed, MTU 1500\"" {
            saw_drop = true;
            assert_eq!(s.mode, Mode::Pmtud);
        }
        t += 100;
    }
    assert!(saw_split && saw_drop);
}

#[test]
fn dns_walks_the_chain_then_counts_down() {
    let sim = Dns;
    let s = sim.state_at(0);
    assert_eq!(s.phase_text, "lookup 1, nothing cached");
    assert!(s.resolver_status.is_none() && s.device_status.is_none());
    let d = sim.duration();
    let end = sim.state_at(d - 1);
    assert_eq!(end.phase_text, "ttl countdown: 0");
    assert_eq!(end.resolver_status.as_deref(), Some("cache: en.wikipedia.org → 91.198.174.192"));
    let mut last_ttl = u64::MAX;
    let mut t = 0;
    while t < d {
        let s = sim.state_at(t);
        if let Some(rest) = s.phase_text.strip_prefix("ttl countdown: ") {
            let v: u64 = rest.parse().unwrap();
            assert!(v <= last_ttl);
            last_ttl = v;
        }
        t += 100;
    }
    assert_eq!(last_ttl, 0);
}

#[test]
fn igp_shots_are_in_time_order() {
    let v = shots();
    assert_eq!(v.len(), 28);
    assert!(v.windows(2).all(|w| w[0].t <= w[1].t));
    let s = Igp.state_at(0);
    assert_eq!(s.statuses, vec!["3 hops", "2 hops", "1 hop"]);
    assert_eq!(s.proto, "OSPF · LINK-STATE");
}

#[test]
fn quic_head_of_line_blocking() {
    let fs = flights();
    assert_eq!(fs.len(), 32);
    assert!(fs.windows(2).all(|w| w[0].t <= w[1].t));
    let s = Quic.state_at(17600 + 5000);
    assert_eq!(s.chapter, 2);
    assert_eq!(s.texts[1], "A1✓ B1× C1◦ A2… B2… C2…");
    assert_eq!(s.texts[3], "A1✓ B1× C1✓ A2… B2… C2…");
    let s = Quic.state_at(0);
    assert_eq!(s.texts[1], "round trips before first HTTP byte → 0");
    assert!(s.note.starts_with("TCP: TCP first"));
    assert_eq!(Quic.duration(), 42950);
}

#[test]
fn tcp_window_and_receiver_slots() {
    let sim = TcpSim;
    let s = sim.state_at(0);
    assert_eq!(s.window, "1→ 2□ 3□ 4□ 5· 6· 7· 8·");
    assert_eq!(s.slots, "1 2 3 4 5 6 7 8");
    let s = sim.state_at(7000);
    assert_eq!(s.slots, "1✓ 2✓ 3 4◦ 5◦ 6◦ 7 8");
    assert!(s.window.contains("3✕"));
    let s = sim.state_at(20800);
    assert_eq!(s.slots, "1✓ 2✓ 3✓ 4✓ 5✓ 6✓ 7✓ 8✓");
    assert!(s.note.starts_with("Whole message delivered in order"));
}

#[test]
fn tcp_delivers_in_order_udp_leaves_a_gap() {
    let s = TcpVsUdp.state_at(8000);
    assert_eq!(s.tcp_row, "1✓  2✓  3✓  4✓  5✓");
    assert_eq!(s.udp_row, "1✓  2✓  ×  4✓  5✓");
    let s = TcpVsUdp.state_at(5000);
    assert_eq!(s.tcp_row, "1✓  2✓  3  4◦  5◦");
    assert!(s.badge.starts_with("UDP: On time, but missing a piece"));
}

#[test]
fn telegraph_two_cycles() {
    let sim = Telegraph;
    let d = sim.duration();
    let s = sim.state_at(0);
    assert!(s.regen);
    assert_eq!(s.sent, "WHAT HATH GOD WROUGHT");
    assert_eq!(s.recv, " ".repeat(21));
    assert_eq!(s.keying.as_deref(), Some("keying W"));
    let half = sim.state_at(d / 2 - 1);
    assert!(half.regen);
    assert_eq!(half.recv, "WHAT HATH GOD WROUGHT");
    let end = sim.state_at(d - 1);
    assert!(!end.regen);
    assert_eq!(end.recv, "WHAT SATH MOD WROIGHT");
}

#[test]
fn link_click_stages() {
    let sim = LinkClick;
    assert_eq!(sim.duration(), 53400);
    let s = sim.state_at(3600 + 1000);
    assert_eq!(s.label, "step 1, DNS");
    let p = s.packet.unwrap();
    assert_eq!((p.label, p.from, p.to, p.num, p.den), ("en.wikipedia.org?", 0, 1, 2000, 6000));
    let b = sim.state_at(53400 - 1);
    assert_eq!(b.build_bar.as_deref(), Some("█░░░░░░░░░░░░░░░░░░░"));
}

#[test]
fn small_sims() {
    let m = Modem.state_at(650 * 2 + 10);
    assert_eq!(m.cur_bit, 2);
    assert_eq!(m.revealed, vec![true, true, false, false, false, false, false, false]);
    assert!(m.note.starts_with("Sending bit 0"));
    assert!(Modem.state_at(5300).note.contains("'A'"));
    assert_eq!(Bandwidth.state_at(0).note, "Idle.");
    assert_eq!(Bandwidth.state_at(500).note, "Transmitter is keying the bit sequence onto the link.");
    assert_eq!(Bandwidth.state_at(3000).note, "Message fully received and decoded.");
    assert_eq!(Wdm.duration(), 5762);
    assert!(Wdm.state_at(5000).done);
    assert!(Wdm.state_at(1500).in_fiber);
    assert_eq!(Dialup.duration(), 29595);
    assert_eq!(phase_at(4899), 0);
    assert_eq!(phase_at(4900), 1);
    assert_eq!(phase_at(28000), 5);
    assert_eq!(Dialup.state_at(29000).phase, 5);
    let j = MessageJourney.state_at(0);
    assert_eq!((j.chapter, j.leg), (0, None));
    assert_eq!(j.chapter_dots, "◉······");
    let j = MessageJourney.state_at(4200 + 10);
    assert_eq!((j.chapter, j.leg, j.medium), (1, Some(0), Some("radio")));
    assert_eq!(j.node_dots, "●○○○○○○○○○");
}

#[test]
fn scripted_packet_stories() {
    let e = Encapsulation.state_at(0);
    assert_eq!(e.stack, "GET /wiki/…");
    let e = Encapsulation.state_at(6100);
    assert_eq!(e.stack, "WIFI ▸ IP ▸ TCP:443 ▸ TLS ▸ ▚▞▚▞▚");
    assert_eq!((e.from, e.to, e.elapsed), (0, 1, 100));
    let v = Vpn.state_at(2300);
    assert_eq!(v.stack, "IP vpn ▸ [ IP site ▸ TCP:443 ▸ TLS ▸ ▚▞▚▞▚ ]");
}

#[test]
fn nat_rewrites_at_the_router() {
    let w = along(3, 1400, 1400 + 40 + 100, 1);
    assert_eq!((w.seg, w.moving, w.elapsed, w.public), (0, true, 100, false));
    let w = along(3, 1400, 1400 + 490 + 100, 1);
    assert_eq!((w.seg, w.moving, w.public), (1, false, true));
    let s = Nat.state_at(2000);
    assert_eq!(s.table_a, "192.168.1.5:54211→203.0.113.7:40001");
    assert_eq!(s.packets[0].label, "public source");
    assert!(Nat.state_at(11000).phase2);
}

#[test]
fn netsim_generator_and_tally() {
    let mut r = Rng::new(1337);
    assert_eq!(r.next_u32(), 342898616);
    assert_eq!(r.next_u32(), 148173979);
    assert_eq!(r.next_u32(), 2918529185);
    let mut r = Rng::new(9001);
    let fs = flows(&mut r);
    assert!(!fs.is_empty());
    assert_eq!(fs[0].t, 0);
    assert!(fs.iter().all(|f| (3..=4).contains(&f.count)));
    assert!(fs[0].caption.starts_with("Client "));
    let events = vec![
        (10u64, NetEvent::Delivered),
        (20, NetEvent::Dropped),
        (30, NetEvent::Caption("later".to_string())),
        (40, NetEvent::Delivered),
    ];
    let t = tally(&events, 35);
    assert_eq!((t.delivered, t.dropped, t.caption.as_str()), (1, 1, "later"));
    let t = tally(&events, 5);
    assert_eq!(t.caption, "Two clients, two servers, a dozen routers between them, every packet routed hop by hop.");
    assert_eq!(in_flight(&vec![(0, 10), (5, 10), (20, 5)], 12), vec![(1, 7)]);
}

#[test]
fn igp_stories_play_one_after_the_other() {
    let v = shots();
    let first_rip = v.iter().position(|s| !s.ospf).unwrap();
    assert_eq!(first_rip, 12);
    assert!(v[..first_rip].iter().all(|s| s.ospf));
    assert!(v[first_rip..].iter().all(|s| !s.ospf));
    assert!(v[first_rip - 1].t < v[first_rip].t);
    let rip = Igp.state_at(v[first_rip].t);
    assert_eq!(rip.proto, "RIP · DISTANCE-VECTOR");
    let ospf = Igp.state_at(v[first_rip].t - 1);
    assert_eq!(ospf.proto, "OSPF · LINK-STATE");
    assert!(ospf.note.starts_with("Converged"));
}

#[test]
fn checksum_scene_texts() {
    let s = Checksum.scene(0, Stage::Computing);
    assert_eq!(s.texts[0], "0x48 + 0x65 + 0x6c + 0x6c + 0x6f = 0x1f4 mod 256 = 0xf4");
    assert_eq!(s.texts[1], "awaiting bytes");
    assert_eq!(s.packet, None);
    assert_eq!(s.sender, "0x48 0x65 0x6c 0x6c 0x6f");
    let s = Checksum.scene(0, Stage::Compare);
    assert_eq!(s.packet.as_deref(), Some("checksum 0xf4"));
    assert_eq!(s.texts.last().map(String::as_str), Some("✓ accepted"));
    let s = Checksum.scene(1, Stage::Sending);
    assert_eq!(s.texts[1], "bit flip");
    let s = Checksum.scene(1, Stage::Compare);
    assert_eq!(s.texts[1], "0x48 0x65 0x2c 0x6c 0x6f");
    assert_eq!(s.texts.last().map(String::as_str), Some("✕ discarded"));
}

#[test]
fn tcp_scene_labels_and_texts() {
    let s = TcpSim.scene_at(7000);
    assert!(s.labels.iter().any(|l| l == "ack 2"));
    assert_eq!(s.texts[0], "sender window (4 in flight, sliding):");
    assert_eq!(s.texts[2], "receiver slots (✓ delivered, ◦ buffered):");
    assert_eq!(s.texts[3], "1✓ 2✓ 3 4◦ 5◦ 6◦ 7 8");
    let s = TcpSim.scene_at(20800);
    assert_eq!(s.texts[3], "1✓ 2✓ 3✓ 4✓ 5✓ 6✓ 7✓ 8✓");
    let s = TcpSim.scene_at(0);
    assert_eq!(s.labels, vec!["1".to_string()]);
}

#[test]
fn dh_scene_shares_and_attack() {
    let d = Dh.duration();
    let (mut a, mut b, mut key, mut crack) = (false, false, false, false);
    let mut t = 0;
    while t < d {
        let s = Dh.scene_at(t);
        a |= s.packets.iter().any(|p| p.0 == "A = 8" && p.2);
        b |= s.packets.iter().any(|p| p.0 == "B = 19" && !p.2);
        key |= s.texts.iter().any(|x| x.contains("mod 23 = 2 · key"));
        crack |= s.texts.iter().any(|x| x.contains("infeasible at real sizes"));
        t += 200;
    }
    assert!(a && b && key && crack);
    let s = Dh.scene_at(0);
    assert_eq!(s.texts, vec!["public constants", "g = 5, p = 23 · public",
        "eavesdropper · reads everything on the wire", "g = 5, p = 23"]);
    assert!(s.packets.is_empty());
}

#[test]
fn journey_scene_shapes() {
    let m = MessageJourney;
    assert_eq!(m.scene_at(0).polylines, 0);
    let s = m.scene_at(4500);
    assert!(s.polylines >= 1 && s.packet);
    assert_eq!(s.medium_text, Some("radio waves"));
    let s = m.scene_at(16800);
    assert_eq!(s.paths, 1);
    assert_eq!(s.polylines, 2);
    assert_eq!(s.cities, vec!["new york", "london", "frankfurt"]);
    assert_eq!(s.medium_text, Some("light in glass"));
    assert_eq!(m.scene_at(31250).chapter, 0);
}
