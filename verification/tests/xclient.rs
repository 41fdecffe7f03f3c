use dora_pallets::dispatch::{DispatchError, Origin};
use dora_pallets::xclient::{Config, Error, Event, Pallet, XregisterCall};
use dora_pallets::xcm_message::{Destination, OriginKind, XcmError};

fn pallet() -> Pallet {
    Pallet::new(Config {
        xregister_server_parachain_id: 2002,
        xregister_pallet_id: 40,
        xregister_method_id: 1,
        xregister_weight_at_most: 500,
    })
}

#[test]
fn register_call_encodes_index_account_and_name() {
    let call = XregisterCall::new(40, 1, 0x0102_0304_0506_0708, b"dora".to_vec());
    assert_eq!(
        call.encode(),
        vec![40, 1, 8, 7, 6, 5, 4, 3, 2, 1, 16, b'd', b'o', b'r', b'a']
    );
    assert_eq!(XregisterCall::default().encode(), vec![0; 11]);
}

#[test]
fn xregister_sends_the_call_to_the_server() {
    let p = pallet();
    assert_eq!(p.xregister(Origin::Root, vec![1]), Err(DispatchError::BadOrigin));
    let (who, m) = p.xregister(Origin::Signed(5), b"x".to_vec()).unwrap();
    assert_eq!(who, 5);
    assert_eq!(m.dest, Destination { parents: 1, parachain: 2002 });
    assert_eq!(m.message.origin_kind, OriginKind::Native);
    assert_eq!(m.message.require_weight_at_most, 500);
    assert_eq!(m.message.call, vec![40, 1, 5, 0, 0, 0, 0, 0, 0, 0, 4, b'x']);
}

#[test]
fn xregister_outcome() {
    assert_eq!(Pallet::xregister_sent(5, vec![1], Ok(())), Ok(Event::Xregister(5, vec![1])));
    assert_eq!(
        Pallet::xregister_sent(5, vec![1], Err(XcmError { code: 0 })),
        Err(DispatchError::Module(Error::XcmSendError))
    );
}
