use dora_pallets::dispatch::{DispatchError, Origin};
use dora_pallets::ping_pong::{Config, Event, Pallet};
use dora_pallets::xcm_message::{Destination, OriginKind, XcmError};

fn pallet() -> Pallet {
    Pallet::new(Config { pallet_index: 9 })
}

fn paras(p: &Pallet) -> Vec<u32> {
    p.targets.iter().map(|t| t.0).collect()
}

#[test]
fn start_and_stop_are_root_only() {
    let mut p = pallet();
    assert_eq!(p.start(Origin::Signed(1), 100, vec![1]), Err(DispatchError::BadOrigin));
    assert_eq!(p.start_many(Origin::SiblingParachain(2), 100, 2, vec![1]), Err(DispatchError::BadOrigin));
    assert_eq!(p.stop(Origin::Unsigned, 100), Err(DispatchError::BadOrigin));
    assert_eq!(p.stop_all(Origin::Relay, None), Err(DispatchError::BadOrigin));
    assert!(p.targets.is_empty());
}

#[test]
fn start_many_appends_copies() {
    let mut p = pallet();
    p.start(Origin::Root, 100, vec![1]).unwrap();
    p.start_many(Origin::Root, 200, 3, vec![2, 2]).unwrap();
    assert_eq!(paras(&p), vec![100, 200, 200, 200]);
    assert!(p.targets[1..].iter().all(|t| t.1 == vec![2, 2]));
    p.start_many(Origin::Root, 300, 0, vec![]).unwrap();
    assert_eq!(p.targets.len(), 4);
}

#[test]
fn stop_swaps_the_last_target_into_the_first_match() {
    let mut p = pallet();
    for para in [100, 200, 300, 200, 400] {
        p.start(Origin::Root, para, vec![para as u8]).unwrap();
    }
    p.stop(Origin::Root, 200).unwrap();
    assert_eq!(paras(&p), vec![100, 400, 300, 200]);
    p.stop(Origin::Root, 999).unwrap();
    assert_eq!(paras(&p), vec![100, 400, 300, 200]);
}

#[test]
fn stop_all_removes_every_target_of_a_para() {
    let mut p = pallet();
    for para in [100, 200, 300, 200, 400] {
        p.start(Origin::Root, para, vec![para as u8]).unwrap();
    }
    p.stop_all(Origin::Root, Some(200)).unwrap();
    assert_eq!(paras(&p), vec![100, 300, 400]);
    assert_eq!(p.targets[1].1, vec![300u16 as u8]);
    p.stop_all(Origin::Root, Some(200)).unwrap();
    assert_eq!(paras(&p), vec![100, 300, 400]);
    p.stop_all(Origin::Root, None).unwrap();
    assert!(p.targets.is_empty());
}

#[test]
fn prepare_ping_counts_and_encodes_the_call() {
    let mut p = pallet();
    p.start(Origin::Root, 2000, b"hi".to_vec()).unwrap();
    let (seq, m) = p.prepare_ping(0);
    assert_eq!(seq, 1);
    assert_eq!(p.ping_count, 1);
    assert_eq!(m.dest, Destination { parents: 1, parachain: 2000 });
    assert_eq!(m.message.origin_kind, OriginKind::Native);
    assert_eq!(m.message.require_weight_at_most, 1_000);
    assert_eq!(m.message.call, vec![9, 4, 1, 0, 0, 0, 8, b'h', b'i']);
    let (seq2, m2) = p.prepare_ping(0);
    assert_eq!(seq2, 2);
    assert_eq!(&m2.message.call[2..6], &[2, 0, 0, 0]);
}

#[test]
fn compact_length_takes_two_or_four_bytes() {
    let mut p = pallet();
    p.start(Origin::Root, 1, vec![7; 63]).unwrap();
    p.start(Origin::Root, 1, vec![7; 64]).unwrap();
    p.start(Origin::Root, 1, vec![7; 16_384]).unwrap();
    let (_, a) = p.prepare_ping(0);
    assert_eq!(a.message.call[6], 252);
    assert_eq!(a.message.call.len(), 7 + 63);
    let (_, b) = p.prepare_ping(1);
    assert_eq!(&b.message.call[6..8], &[0x01, 0x01]);
    assert_eq!(b.message.call.len(), 8 + 64);
    let (_, c) = p.prepare_ping(2);
    assert_eq!(&c.message.call[6..10], &[0x02, 0x00, 0x01, 0x00]);
    assert_eq!(c.message.call.len(), 10 + 16_384);
}

#[test]
fn only_sent_pings_are_remembered() {
    let mut p = pallet();
    p.start(Origin::Root, 2000, vec![5]).unwrap();
    let (seq, _) = p.prepare_ping(0);
    assert_eq!(p.record_ping(0, seq, 40, Ok(())), Event::PingSent(2000, 1, vec![5]));
    assert_eq!(p.pings.get(&1), Some(&40));
    let (seq, _) = p.prepare_ping(0);
    let err = XcmError { code: 3 };
    assert_eq!(p.record_ping(0, seq, 41, Err(err)), Event::ErrorSendingPing(err, 2000, 2, vec![5]));
    assert_eq!(p.pings.get(&2), None);
}

#[test]
fn pong_answers_a_recorded_ping_once() {
    let mut p = pallet();
    p.start(Origin::Root, 2000, vec![5]).unwrap();
    let (seq, _) = p.prepare_ping(0);
    let _ = p.record_ping(0, seq, 40, Ok(()));
    assert_eq!(p.pong(Origin::Root, seq, vec![5], 45), Err(DispatchError::BadOrigin));
    assert_eq!(
        p.pong(Origin::SiblingParachain(2000), seq, vec![5], 45),
        Ok(Event::Ponged(2000, 1, vec![5], 5))
    );
    assert_eq!(
        p.pong(Origin::SiblingParachain(2000), seq, vec![5], 46),
        Ok(Event::UnknownPong(2000, 1, vec![5]))
    );
    // a block before the ping counts as none
    p.pings.insert(7, 50);
    assert_eq!(
        p.pong(Origin::SiblingParachain(3), 7, vec![], 45),
        Ok(Event::Ponged(3, 7, vec![], 0))
    );
}

#[test]
fn ping_is_answered_with_a_pong_call() {
    let p = pallet();
    assert_eq!(p.ping(Origin::Signed(1), 3, vec![1]), Err(DispatchError::BadOrigin));
    let (event, m) = p.ping(Origin::SiblingParachain(2001), 3, vec![1, 2]).unwrap();
    assert_eq!(event, Event::Pinged(2001, 3, vec![1, 2]));
    assert_eq!(m.dest, Destination { parents: 1, parachain: 2001 });
    assert_eq!(m.message.call, vec![9, 5, 3, 0, 0, 0, 8, 1, 2]);
    assert_eq!(Pallet::pong_sent(2001, 3, vec![1], Ok(())), Event::PongSent(2001, 3, vec![1]));
    let e = XcmError { code: 1 };
    assert_eq!(Pallet::pong_sent(2001, 3, vec![1], Err(e)), Event::ErrorSendingPong(e, 2001, 3, vec![1]));
}

#[test]
fn a_block_pings_every_target_with_consecutive_numbers() {
    let mut p = pallet();
    p.start(Origin::Root, 100, vec![1]).unwrap();
    p.start(Origin::Root, 200, vec![2]).unwrap();
    p.start(Origin::Root, 300, vec![3]).unwrap();
    p.ping_count = 10;
    let pings = p.prepare_pings();
    assert_eq!(p.ping_count, 13);
    let seqs: Vec<u32> = pings.iter().map(|x| x.0).collect();
    assert_eq!(seqs, vec![11, 12, 13]);
    let dests: Vec<u32> = pings.iter().map(|x| x.1.dest.parachain).collect();
    assert_eq!(dests, vec![100, 200, 300]);
    assert_eq!(pings[1].1.message.call, vec![9, 4, 12, 0, 0, 0, 4, 2]);
    let err = XcmError { code: 2 };
    let events = p.record_pings(7, vec![(11, Ok(())), (12, Err(err)), (13, Ok(()))]);
    assert_eq!(
        events,
        vec![
            Event::PingSent(100, 11, vec![1]),
            Event::ErrorSendingPing(err, 200, 12, vec![2]),
            Event::PingSent(300, 13, vec![3]),
        ]
    );
    assert_eq!(p.pings.get(&11), Some(&7));
    assert_eq!(p.pings.get(&12), None);
    assert_eq!(p.pings.get(&13), Some(&7));
}
