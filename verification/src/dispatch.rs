use vstd::prelude::*;

verus! {

/// The origin of a call: the root, a signed account, an unsigned call, the relay
/// chain, or a sibling parachain (as the XCM origin converter gives it).
#[derive(Clone, Copy, Debug, PartialEq, Eq, Structural)]
pub enum Origin {
    Root,
    Signed(u64),
    Unsigned,
    Relay,
    SiblingParachain(u32),
}

/// Why a call was refused: its origin was not the one required, or the
/// pallet returned one of its own errors.
#[derive(Clone, Copy, Debug, PartialEq, Eq)]
pub enum DispatchError<E> {
    BadOrigin,
    Module(E),
}

/// The account of a signed origin, or `BadOrigin`.
pub fn ensure_signed<E>(origin: Origin) -> (r: Result<u64, DispatchError<E>>)
    ensures
        match origin {
            Origin::Signed(who) => r == Ok::<u64, DispatchError<E>>(who),
            _ => r == Err::<u64, DispatchError<E>>(DispatchError::BadOrigin),
        },
{
    match origin {
        Origin::Signed(who) => Ok(who),
        _ => Err(DispatchError::BadOrigin),
    }
}

/// `Ok` for the root origin, `BadOrigin` for any other.
pub fn ensure_root<E>(origin: Origin) -> (r: Result<(), DispatchError<E>>)
    ensures
        origin == Origin::Root ==> r == Ok::<(), DispatchError<E>>(()),
        origin != Origin::Root ==> r == Err::<(), DispatchError<E>>(DispatchError::BadOrigin),
{
    match origin {
        Origin::Root => Ok(()),
        _ => Err(DispatchError::BadOrigin),
    }
}

/// The parachain of a sibling-parachain origin, or `BadOrigin`.
pub fn ensure_sibling_para<E>(origin: Origin) -> (r: Result<u32, DispatchError<E>>)
    ensures
        match origin {
            Origin::SiblingParachain(para) => r == Ok::<u32, DispatchError<E>>(para),
            _ => r == Err::<u32, DispatchError<E>>(DispatchError::BadOrigin),
        },
{
    match origin {
        Origin::SiblingParachain(para) => Ok(para),
        _ => Err(DispatchError::BadOrigin),
    }
}

} // verus!
