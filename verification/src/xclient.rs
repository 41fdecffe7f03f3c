//! Registers names on a registration server parachain over XCM: the call
//! is built here, sending it is the transport's work.

use vstd::prelude::*;

use crate::dispatch::{ensure_signed, DispatchError, Origin};
use crate::scale::{encode_bytes, encode_u64, encoded_bytes, le_bytes};
use crate::xcm_message::{Destination, OriginKind, OutgoingXcm, Transact, XcmError};

verus! {

/// A call of the registration pallet on the server chain: the pallet's
/// index and the method's index there, then the account and the name to
/// register.
#[derive(Clone, Debug, PartialEq, Eq)]
pub struct XregisterCall {
    call_index: [u8; 2],
    account: u64,
    name: Vec<u8>,
}

/// The SCALE encoding of a registration call: the two call index bytes,
/// the account, and the name with its compact length.
pub open spec fn register_call_bytes(
    pallet_index: u8,
    method_index: u8,
    account: u64,
    name: Seq<u8>,
) -> Seq<u8> {
    seq![pallet_index, method_index] + le_bytes(account as nat, 8) + encoded_bytes(name)
}

impl XregisterCall {
    pub closed spec fn pallet_index(&self) -> u8 {
        self.call_index[0]
    }

    pub closed spec fn method_index(&self) -> u8 {
        self.call_index[1]
    }

    pub closed spec fn account(&self) -> u64 {
        self.account
    }

    pub closed spec fn name(&self) -> Seq<u8> {
        self.name@
    }

    pub fn new(pallet_index: u8, method_index: u8, account: u64, name: Vec<u8>) -> (r: Self)
        ensures
            r.pallet_index() == pallet_index,
            r.method_index() == method_index,
            r.account() == account,
            r.name() == name@,
    {
        XregisterCall { call_index: [pallet_index, method_index], account: account, name: name }
    }

    /// The SCALE encoding of the call, as the server chain decodes it.
    pub fn encode(&self) -> (r: Vec<u8>)
        requires
            self.name().len() <= u32::MAX,
        ensures
            r@ == register_call_bytes(
                self.pallet_index(),
                self.method_index(),
                self.account(),
                self.name(),
            ),
    {
        let mut bytes: Vec<u8> = Vec::new();
        bytes.push(self.call_index[0]);
        bytes.push(self.call_index[1]);
        let mut account_bytes = encode_u64(self.account);
        bytes.append(&mut account_bytes);
        let mut name_bytes = encode_bytes(&self.name);
        bytes.append(&mut name_bytes);
        assert(bytes@ =~= register_call_bytes(
            self.pallet_index(),
            self.method_index(),
            self.account(),
            self.name(),
        ));
        bytes
    }
}

impl Default for XregisterCall {
    fn default() -> (r: XregisterCall)
        ensures
            r.pallet_index() == 0,
            r.method_index() == 0,
            r.account() == 0,
            r.name() == Seq::<u8>::empty(),
    {
        XregisterCall { call_index: [0, 0], account: 0, name: Vec::new() }
    }
}

/// Where the registration server is and how to call it.
#[derive(Clone, Copy, Debug, PartialEq, Eq, Structural)]
pub struct Config {
    /// The server's parachain id.
    pub xregister_server_parachain_id: u32,
    /// The index of the registration pallet on the server.
    pub xregister_pallet_id: u8,
    /// The index of the registration method in that pallet.
    pub xregister_method_id: u8,
    /// The most weight the registration may take on the server.
    pub xregister_weight_at_most: u64,
}

#[derive(Clone, Debug, PartialEq, Eq)]
pub enum Event {
    /// A registration was sent: account and name.
    Xregister(u64, Vec<u8>),
}

#[derive(Clone, Copy, Debug, PartialEq, Eq, Structural)]
pub enum Error {
    /// The registration could not be sent to the server.
    XcmSendError,
}

/// The pallet keeps no storage; it holds its configuration.
pub struct Pallet {
    pub config: Config,
}

impl Pallet {
    pub fn new(config: Config) -> (r: Pallet)
        ensures
            r.config == config,
    {
        Pallet { config }
    }

    /// Registers `name` for the signed account: returns the account with
    /// the message that transacts, as the native origin and within the
    /// configured weight, the registration call on the server chain, one
    /// level up and then down into the server's parachain.
    pub fn xregister(&self, origin: Origin, name: Vec<u8>) -> (r: Result<
        (u64, OutgoingXcm),
        DispatchError<Error>,
    >)
        requires
            name.len() <= u32::MAX,
        ensures
            match origin {
                Origin::Signed(who) => r matches Ok((account, m)) && account == who && {
                    &&& m.dest == Destination {
                        parents: 1,
                        parachain: self.config.xregister_server_parachain_id,
                    }
                    &&& m.message.origin_kind == OriginKind::Native
                    &&& m.message.require_weight_at_most == self.config.xregister_weight_at_most
                    &&& m.message.call@ == register_call_bytes(
                        self.config.xregister_pallet_id,
                        self.config.xregister_method_id,
                        who,
                        name@,
                    )
                },
                _ => r == Err::<(u64, OutgoingXcm), DispatchError<Error>>(
                    DispatchError::BadOrigin,
                ),
            },
    {
        let who = ensure_signed(origin)?;
        let call = XregisterCall::new(
            self.config.xregister_pallet_id,
            self.config.xregister_method_id,
            who,
            name,
        );
        let message = Transact {
            origin_kind: OriginKind::Native,
            require_weight_at_most: self.config.xregister_weight_at_most,
            call: call.encode(),
        };
        Ok(
            (
                who,
                OutgoingXcm {
                    dest: Destination {
                        parents: 1,
                        parachain: self.config.xregister_server_parachain_id,
                    },
                    message,
                },
            ),
        )
    }

    /// What the outcome of sending the registration of `name` for `who`
    /// gives: the registration event once sent, else `XcmSendError`.
    pub fn xregister_sent(who: u64, name: Vec<u8>, sent: Result<(), XcmError>) -> (r: Result<
        Event,
        DispatchError<Error>,
    >)
        ensures
            r == match sent {
                Ok(()) => Ok::<Event, DispatchError<Error>>(Event::Xregister(who, name)),
                Err(_) => Err::<Event, DispatchError<Error>>(
                    DispatchError::Module(Error::XcmSendError),
                ),
            },
    {
        match sent {
            Ok(()) => Ok(Event::Xregister(who, name)),
            Err(_) => Err(DispatchError::Module(Error::XcmSendError)),
        }
    }
}

} // verus!
