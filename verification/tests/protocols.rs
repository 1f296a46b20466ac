use dynamic_diagram::checksum::{calc_line, checksum, hex, sum, Checksum, Stage};
use dynamic_diagram::ipbits::{bit_string, first_mismatch, routes, IpBits};
use dynamic_diagram::rank::{first_min, order_by_key};
use dynamic_diagram::routerhop::{best_route, ip_text, longest_match, table};
use dynamic_diagram::tcp_handshake::{stage_starts, TcpHandshake};

#[test]
fn handshake_stage_times() {
    assert_eq!(stage_starts(), [0, 3164, 6832, 9604]);
    let sim = TcpHandshake;
    assert_eq!(sim.duration(), 9604 + 9000);
    let s0 = sim.state_at(0);
    assert_eq!((s0.stage, s0.server_status, s0.sent, s0.landed), (0, "sequence pending", 1, 0));
    let s = sim.state_at(3164 + 900);
    assert_eq!((s.stage, s.server_status), (1, "seq 9000"));
    let est = sim.state_at(9604 + 10);
    assert!(est.established && est.note.contains("byte count starts"));
    assert_eq!(est.landed, 3);
    let again = sim.state_at(sim.duration());
    assert_eq!((again.stage, again.sent), (0, 1));
}

#[test]
fn checksum_of_hello() {
    let hello = b"Hello";
    assert_eq!(sum(hello), 500);
    assert_eq!(checksum(hello), 0xf4);
    assert_eq!(hex(0x48), "0x48");
    assert_eq!(hex(7), "0x07");
    assert_eq!(calc_line(hello), "0x48 + 0x65 + 0x6c + 0x6c + 0x6f = 0x1f4 mod 256 = 0xf4");
}

#[test]
fn single_bit_flip_changes_the_checksum() {
    let good = b"Hello".to_vec();
    for i in 0..good.len() {
        for k in 0..8u8 {
            let mut bad = good.clone();
            bad[i] ^= 1 << k;
            assert_ne!(checksum(&bad), checksum(&good));
        }
    }
}

#[test]
fn checksum_sim_starts_computing_and_loops() {
    let sim = Checksum;
    let (run, stage, note) = sim.stage_at(0);
    assert_eq!((run, stage), (0, Stage::Computing));
    assert!(!note.is_empty());
    let (run2, stage2, _) = sim.stage_at(sim.duration());
    assert_eq!((run2, stage2), (0, Stage::Computing));
}

#[test]
fn route_bits_against_the_destination() {
    let rs = routes();
    let dest = [91, 198, 174, 192];
    assert_eq!(first_mismatch(&dest, &rs[0]), None);
    assert_eq!(first_mismatch(&dest, &rs[1]), None);
    assert_eq!(first_mismatch(&dest, &rs[2]), Some(1));
    assert_eq!(first_mismatch(&dest, &rs[3]), None);
    assert_eq!(bit_string(&rs[2], true), "0×001010");
    assert_eq!(bit_string(&rs[3], false), "0 bits fixed");
    assert_eq!(bit_string(&rs[1], false), "01011011 11000110");
}

#[test]
fn ip_lookup_notes() {
    let sim = IpBits;
    assert!(sim.note_at(0).contains("fixes the first 24 bits"));
    assert!(sim.note_at(2 * 2600).contains("bit 2 differs"));
    assert!(sim.note_at(3 * 2600).contains("fixes no bits at all"));
    assert_eq!(
        sim.note_at(4 * 2600),
        "3 routes match: 91.198.174.0/24, 91.198.0.0/16, 0.0.0.0/0. Longest prefix wins, 91.198.174.0/24 is the most specific, so that's the line the packet takes."
    );
}

#[test]
fn longest_prefix_wins() {
    assert_eq!(best_route(&[91, 198, 174, 192]), 2);
    assert_eq!(best_route(&[91, 198, 5, 10]), 1);
    assert_eq!(best_route(&[10, 1, 2, 3]), 3);
    assert_eq!(best_route(&[8, 8, 8, 8]), 0);
    let t = table();
    assert!(dynamic_diagram::routerhop::matches(&[1, 2, 3, 4], &t[0]));
    assert!(!dynamic_diagram::routerhop::matches(&[92, 198, 174, 1], &t[1]));
    assert_eq!(longest_match(&[91, 198, 174, 1], &t), Some(2));
    let rest: Vec<_> = table().into_iter().skip(1).collect();
    assert_eq!(longest_match(&[1, 1, 1, 1], &rest), None);
    assert_eq!(ip_text(&[10, 0, 0, 255]), "10.0.0.255");
}

#[test]
fn ranking_by_key() {
    let keys = vec![6u64, 2, 9, 2];
    assert_eq!(first_min(&keys), 1);
    assert_eq!(order_by_key(&keys), vec![1, 3, 0, 2]);
    assert_eq!(order_by_key(&vec![]), Vec::<usize>::new());
}

#[test]
fn checksum_handles_buffers_past_64_kib() {
    let data = vec![255u8; 70000];
    assert_eq!(sum(&data), 255 * 70000);
    assert_eq!(checksum(&data), (255u32 * 70000) % 256);
}
