//! What is learned of an identified device and used for its requests.

use vstd::prelude::*;

use crate::digits::{append_decimal, decimal};
use crate::operation::{
    DeviceIdentity, DeviceReply, IdentityView, Operation, OperationError, ReadDeviceIdentity,
    Request, RequestView,
};
use crate::service::event::ExchangeError;
use crate::service::priority::Priority;
use crate::wire::{Address, WireError};

verus! {

/// Learned parameters of a specific device.
#[derive(Debug, PartialEq, Eq)]
pub struct SessionProfile {
    /// Identification data returned by Command 0.
    pub identity: DeviceIdentity,
    /// Address used after identification.
    pub address: Address,
    /// Preamble count for subsequent requests.
    pub request_preambles: u8,
}

/// What a profile holds, with the identification as its view.
#[verifier::ext_equal]
pub struct SessionView {
    pub identity: IdentityView,
    pub address: Address,
    pub request_preambles: u8,
}

impl View for SessionProfile {
    type V = SessionView;

    open spec fn view(&self) -> SessionView {
        SessionView {
            identity: self.identity@,
            address: self.address,
            request_preambles: self.request_preambles,
        }
    }
}

impl Clone for SessionProfile {
    fn clone(&self) -> (copy: Self)
        ensures
            copy@ == self@,
    {
        SessionProfile {
            identity: self.identity.clone(),
            address: self.address,
            request_preambles: self.request_preambles,
        }
    }
}

/// Error opening or using a session.
#[derive(Debug, Clone, PartialEq, Eq)]
pub enum SessionError {
    /// Exchange error.
    Exchange(ExchangeError),
    /// Application-format error.
    Operation(OperationError),
    /// The identity cannot be represented as a unique HART address.
    Address(WireError),
    /// Initial identification preambles are outside the practical line range.
    Preambles(u8),
}

impl SessionError {
    /// The diagnostic text of the error.
    pub open spec fn text(self) -> Seq<char> {
        match self {
            SessionError::Exchange(error) => error.text(),
            SessionError::Operation(error) => error.text(),
            SessionError::Address(error) => error.text(),
            SessionError::Preambles(count) => "initial preamble count "@ + decimal(count as nat)
                + " is outside 2..=40"@,
        }
    }

    /// Renders the error for a diagnostic.
    pub fn message(&self) -> (message: String)
        ensures
            message@ == self.text(),
    {
        match self {
            SessionError::Exchange(error) => error.message(),
            SessionError::Operation(error) => error.message(),
            SessionError::Address(error) => error.message(),
            SessionError::Preambles(count) => {
                let mut message = String::from_str("initial preamble count ");
                append_decimal(&mut message, *count as u64);
                message.append(" is outside 2..=40");
                message
            },
        }
    }
}

impl SessionView {
    /// What is learned of a device that identified itself at an address: it is
    /// called by its long address with the preambles that it asks for, but at
    /// least two.
    pub open spec fn learned(address: Address, identity: IdentityView) -> Result<
        SessionView,
        WireError,
    > {
        let request_preambles = if identity.request_preambles < 2 {
            2
        } else {
            identity.request_preambles
        };
        match address {
            Address::Polling { master, .. } => match identity.long_address(master) {
                Ok(address) => Ok(SessionView { identity, address, request_preambles }),
                Err(error) => Err(error),
            },
            Address::Unique { .. } => Ok(SessionView { identity, address, request_preambles }),
        }
    }

    /// A request of the session.
    pub open spec fn addressed(self, request: RequestView) -> RequestView {
        RequestView { preambles: self.request_preambles, ..request }
    }
}

/// Identified device.
#[derive(Debug)]
pub struct DeviceSession {
    profile: SessionProfile,
}

impl View for DeviceSession {
    type V = SessionView;

    closed spec fn view(&self) -> SessionView {
        self.profile@
    }
}

impl Clone for DeviceSession {
    fn clone(&self) -> (copy: Self)
        ensures
            copy@ == self@,
    {
        DeviceSession { profile: self.profile.clone() }
    }
}

/// The request that identifies a device.
pub open spec fn identification(address: Address, preambles: u8) -> RequestView {
    RequestView {
        preambles,
        retry_safety: Some(crate::catalog::OperationSafety::ReadOnly),
        ..RequestView::plain(address, crate::operation::CommandCode(0), Seq::empty())
    }
}

impl DeviceSession {
    /// Creates the request that identifies a device, and tells whom it serves.
    pub fn identify(address: Address) -> (result: Result<(Request, Priority), SessionError>)
        ensures
            result matches Ok((request, priority)) && request@ == identification(address, 5)
                && priority == Priority::Service,
    {
        match ReadDeviceIdentity.request(address) {
            Ok(request) => {
                assert(request@ =~= identification(address, 5));
                Ok((request, Priority::Service))
            },
            Err(error) => Err(SessionError::Operation(error)),
        }
    }

    /// Creates the request that identifies a device with a conservative
    /// caller-selected initial preamble count, and tells whom it serves.
    pub fn identify_with_preambles(address: Address, preambles: u8) -> (result: Result<
        (Request, Priority),
        SessionError,
    >)
        ensures
            if !(2 <= preambles <= 40) {
                result == Err::<(Request, Priority), SessionError>(
                    SessionError::Preambles(preambles),
                )
            } else {
                result matches Ok((request, priority)) && request@ == identification(
                    address,
                    preambles,
                ) && priority == Priority::Service
            },
    {
        if preambles < 2 || preambles > 40 {
            return Err(SessionError::Preambles(preambles));
        }
        let (request, priority) = DeviceSession::identify(address)?;
        let request = request.with_preambles(preambles);
        assert(request@ =~= identification(address, preambles));
        Ok((request, priority))
    }

    /// Creates a session from the reply to an identification request.
    pub fn identified(address: Address, reply: &DeviceReply) -> (result: Result<
        Self,
        SessionError,
    >)
        ensures
            exists|decoded: Result<DeviceIdentity, OperationError>| #[trigger]
                ReadDeviceIdentity.decodes(reply@, decoded) && match decoded {
                    Err(error) => result == Err::<Self, SessionError>(
                        SessionError::Operation(error),
                    ),
                    Ok(identity) => opens(result, address, identity@),
                },
    {
        let decoded = ReadDeviceIdentity.decode_reply(reply);
        assert(ReadDeviceIdentity.decodes(reply@, decoded));
        match decoded {
            Err(error) => Err(SessionError::Operation(error)),
            Ok(identity) => DeviceSession::from_identity(address, identity),
        }
    }

    /// Creates a session from an identity already returned by discovery or recovery.
    pub fn from_identity(address: Address, identity: DeviceIdentity) -> (result: Result<
        Self,
        SessionError,
    >)
        ensures
            opens(result, address, identity@),
    {
        let request_preambles: u8 = if identity.request_preambles < 2 {
            2
        } else {
            identity.request_preambles
        };
        let address = match address {
            Address::Polling { master, .. } => match identity.unique_address(master) {
                Ok(address) => address,
                Err(error) => {
                    return Err(SessionError::Address(error));
                },
            },
            Address::Unique { .. } => address,
        };
        Ok(DeviceSession { profile: SessionProfile { identity, address, request_preambles } })
    }

    /// Returns the learned profile.
    pub fn profile(&self) -> (profile: &SessionProfile)
        ensures
            profile@ == self@,
    {
        &self.profile
    }

    /// Creates a request using the learned preamble count.
    pub fn request<O: Operation>(&self, operation: &O) -> (result: Result<Request, OperationError>)
        ensures
            exists|plain: Result<Request, OperationError>| #[trigger]
                call_ensures(O::request, (operation, self@.address), plain) && match plain {
                    Ok(request) => result matches Ok(addressed) && addressed@ == self@.addressed(
                        request@,
                    ),
                    Err(error) => result == Err::<Request, OperationError>(error),
                },
    {
        let plain = operation.request(self.profile.address);
        assert(call_ensures(O::request, (operation, self@.address), plain));
        match plain {
            Ok(request) => {
                let addressed = request.with_preambles(self.profile.request_preambles);
                Ok(addressed)
            },
            Err(error) => Err(error),
        }
    }
}

/// Whether a result is the session of a device that identified itself at an address.
pub open spec fn opens(
    result: Result<DeviceSession, SessionError>,
    address: Address,
    identity: IdentityView,
) -> bool {
    match SessionView::learned(address, identity) {
        Ok(profile) => result matches Ok(session) && session@ == profile,
        Err(error) => result == Err::<DeviceSession, SessionError>(SessionError::Address(error)),
    }
}

/// A session always calls a device with at least two preambles, and with no
/// fewer than the device asks for.
pub proof fn lemma_session_preambles(address: Address, identity: IdentityView)
    ensures
        SessionView::learned(address, identity) matches Ok(profile) ==> profile.request_preambles
            >= 2 && profile.request_preambles >= identity.request_preambles,
{
}

/// A session speaks to the device that was identified: a long address is kept
/// as it was given, a polling address becomes the long address of the identity
/// for the same master. Requests carry as many preambles as the device asks
/// for and at least two, and are otherwise as they were.
pub proof fn lemma_session_addresses_its_device(
    address: Address,
    identity: IdentityView,
    request: RequestView,
)
    ensures
        SessionView::learned(address, identity) matches Ok(profile) ==> {
            &&& profile.identity == identity
            &&& (address is Unique ==> profile.address == address)
            &&& (address matches Address::Polling { master, .. } ==> (profile.address matches
                Address::Unique { device_id, master: by, .. } && device_id == identity.device_id
                && by == master))
            &&& (identity.request_preambles >= 2 ==> profile.request_preambles
                == identity.request_preambles)
            &&& (identity.request_preambles < 2 ==> profile.request_preambles == 2)
            &&& profile.addressed(request).preambles == profile.request_preambles
            &&& profile.addressed(request).address == request.address
            &&& profile.addressed(request).command == request.command
            &&& profile.addressed(request).data == request.data
            &&& profile.addressed(request).frame_expansion == request.frame_expansion
            &&& profile.addressed(request).physical_layer == request.physical_layer
            &&& profile.addressed(request).retry_safety == request.retry_safety
        },
        SessionView::learned(address, identity) is Err <==> address is Polling
            && identity.device_id > 0xff_ffff,
{
}

/// A device is identified by a request of command zero without data that may
/// be repeated.
pub proof fn lemma_identification_request(address: Address, preambles: u8)
    ensures
        identification(address, preambles).address == address,
        identification(address, preambles).command.0 == 0,
        identification(address, preambles).data.len() == 0,
        identification(address, preambles).preambles == preambles,
        identification(address, preambles).frame_expansion.len() == 0,
        identification(address, preambles).retry_safety == Some(
            crate::catalog::OperationSafety::ReadOnly,
        ),
{
}

/// A device is identified with the number of preambles that is asked for, if
/// it lies between two and forty, and otherwise with five. The request takes
/// precedence over ordinary ones.
pub proof fn lemma_identification_begins(
    address: Address,
    preambles: u8,
    plain: Result<(Request, Priority), SessionError>,
    chosen: Result<(Request, Priority), SessionError>,
)
    requires
        call_ensures(DeviceSession::identify, (address,), plain),
        call_ensures(DeviceSession::identify_with_preambles, (address, preambles), chosen),
    ensures
        plain matches Ok((request, priority)) && request@.preambles == 5 && request@.address
            == address && request@.command.0 == 0 && priority is Service,
        chosen is Ok <==> 2 <= preambles <= 40,
        chosen matches Err(error) ==> error == SessionError::Preambles(preambles),
        chosen matches Ok((request, priority)) ==> request@.preambles == preambles
            && request@.address == address && request@.command.0 == 0 && request@.data.len() == 0
            && priority is Service,
{
}

} // verus!
