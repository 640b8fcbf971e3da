//! Who asks for a call.

use frame_system::RawOrigin;
use vstd::prelude::*;

verus! {

/// `frame_system::RawOrigin`, the origins that the system knows.
#[verifier::external_type_specification]
#[verifier::external_body]
#[verifier::reject_recursive_types(AccountId)]
pub struct ExRawOrigin<AccountId>(frame_system::RawOrigin<AccountId>);

/// `sp_runtime::traits::BadOrigin`, the error of `frame_system::ensure_signed`.
#[verifier::external_type_specification]
#[verifier::external_body]
pub struct ExSystemBadOrigin(sp_runtime::traits::BadOrigin);

/// The origin of a call.
#[derive(Debug, Clone, Copy, PartialEq, Eq)]
pub enum Origin<A> {
    /// The system itself.
    Root,
    /// The account that signed the call.
    Signed(A),
    /// Nobody signed the call.
    Unsigned,
    /// Nobody signed the call, and the runtime authorized it.
    Authorized,
    /// An origin that is not one of the system.
    Foreign,
}

/// The call is refused because no account signed it.
#[derive(Debug, Clone, Copy, PartialEq, Eq, Structural)]
pub struct NotSigned;

/// The `frame_system::RawOrigin` of the same kind, or the origin itself where it is not one of the
/// system. Nothing is stated of the result, since a `RawOrigin` is opaque here.
#[verifier::external_body]
fn raw_origin<A>(origin: Origin<A>) -> (r: Result<RawOrigin<A>, Origin<A>>) {
    match origin {
        Origin::Root => Ok(RawOrigin::Root),
        Origin::Signed(who) => Ok(RawOrigin::Signed(who)),
        Origin::Unsigned => Ok(RawOrigin::None),
        Origin::Authorized => Ok(RawOrigin::Authorized),
        Origin::Foreign => Err(Origin::Foreign),
    }
}

// The conversion by which `frame_system::ensure_signed` looks at an origin. No contract speaks of
// what it gives.
impl<A> From<Origin<A>> for Result<RawOrigin<A>, Origin<A>> {
    fn from(origin: Origin<A>) -> (r: Self) {
        raw_origin(origin)
    }
}

impl<A> vstd::std_specs::convert::FromSpecImpl<Origin<A>> for Result<RawOrigin<A>, Origin<A>> {
    open spec fn obeys_from_spec() -> bool {
        false
    }

    open spec fn from_spec(origin: Origin<A>) -> Self {
        Err(origin)
    }
}

/// `frame_system::ensure_signed`. It looks at the origin as a `frame_system::RawOrigin`, gives the
/// account of a signed one, and an error for every other and for what is not one.
#[verifier::external_body]
fn ensure_signed<A>(origin: Origin<A>) -> (r: Result<A, sp_runtime::traits::BadOrigin>)
    ensures
        match origin {
            Origin::Signed(who) => r matches Ok(account) && account == who,
            _ => r is Err,
        },
{
    frame_system::ensure_signed(origin)
}

impl<A> Origin<A> {
    /// The account that signed the call. Any other origin is refused.
    pub fn signer(self) -> (r: Result<A, NotSigned>)
        ensures
            r == self.signed_by(),
    {
        match ensure_signed(self) {
            Ok(who) => Ok(who),
            Err(_) => Err(NotSigned),
        }
    }

    /// The outcome of [`Origin::signer`].
    pub open spec fn signed_by(self) -> Result<A, NotSigned> {
        match self {
            Origin::Signed(who) => Ok(who),
            _ => Err(NotSigned),
        }
    }
}

/// A call has a signer exactly where its origin is signed, and then it is that account.
pub proof fn law_only_a_signed_origin_has_a_signer<A>(origin: Origin<A>, who: A)
    ensures
        origin.signed_by() == Ok::<A, NotSigned>(who) <==> origin == Origin::Signed(who),
        origin.signed_by() is Err <==> !(origin is Signed),
{
}

} // verus!
