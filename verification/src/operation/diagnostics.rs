use vstd::prelude::*;

use crate::bytes::copy_bytes;
use crate::catalog::{declared_safety, registered_safety, OperationSafety};
use crate::operation::{
    CommandCode, DeviceReply, Operation, OperationError, PayloadWriter, ReplyView,
};

verus! {

/// Requests additional device status.
#[derive(Debug, Clone, Copy, Default)]
pub struct ReadAdditionalStatus;

/// Additional status preserving every unknown bit.
#[derive(Debug, Clone, PartialEq, Eq)]
pub struct AdditionalStatus {
    /// Status bytes in their original order.
    pub bytes: Vec<u8>,
}

impl Operation for ReadAdditionalStatus {
    type Output = AdditionalStatus;

    open spec fn code(&self) -> CommandCode {
        CommandCode(48)
    }

    open spec fn safety(&self) -> OperationSafety {
        declared_safety(self.code().0)
    }

    open spec fn payload(&self) -> Result<Seq<u8>, OperationError> {
        Ok(seq![])
    }

    open spec fn decodes(
        &self,
        reply: ReplyView,
        result: Result<AdditionalStatus, OperationError>,
    ) -> bool {
        match reply.status_error(self.code()) {
            Some(error) => result == Err::<AdditionalStatus, OperationError>(error),
            None => result matches Ok(status) && status.bytes@ == reply.data,
        }
    }

    fn command(&self) -> CommandCode {
        CommandCode(48)
    }

    fn retry_safety(&self) -> OperationSafety {
        registered_safety(self.command())
    }

    fn encode_request(&self, _writer: &mut PayloadWriter) -> Result<(), OperationError> {
        assert(_writer@ =~= old(_writer)@ + Seq::<u8>::empty());
        Ok(())
    }

    fn decode_reply(&self, reply: &DeviceReply) -> Result<AdditionalStatus, OperationError> {
        reply.require_success(self.command())?;
        Ok(AdditionalStatus { bytes: copy_bytes(&reply.data) })
    }
}

} // verus!
