//! The security policy applied to frames, and the null policy.
use vstd::prelude::*;
use crate::frame_info::FrameInfo;

verus! {

/// A frame refused by the security policy.
#[derive(Clone, Copy, Debug, PartialEq, Eq, Structural)]
pub enum SecurityError {
    /// The frame carries a security header that the policy cannot check.
    SecInfoPresent,
}

/// A security policy: secures outbound frames and checks (and decrypts in
/// place) inbound ones.
pub trait SecurityContext {
    /// Secures an outbound frame according to the policy.
    fn process_outbound(&self, frame_info: &mut FrameInfo, payload: &mut [u8]) -> Result<
        (),
        SecurityError,
    >;

    /// Checks an inbound frame against the policy, decrypting its payload
    /// in place if it is encrypted.
    fn process_inbound(&self, frame_info: &FrameInfo, payload: &mut [u8]) -> Result<
        (),
        SecurityError,
    >;
}

/// The null policy: frames go out in the clear, and frames that come in
/// with a security header are refused.
#[derive(Clone, Copy, Debug)]
pub struct NullSecurityContext;

impl NullSecurityContext {
    /// Removes the security header; never fails.
    pub fn strip_outbound(&self, frame_info: &mut FrameInfo) -> (r: Result<(), SecurityError>)
        ensures
            *final(frame_info) == (FrameInfo { sec_info: None, ..*old(frame_info) }),
            r is Ok,
    {
        frame_info.sec_info = None;
        Ok(())
    }

    /// Accepts exactly the frames without a security header.
    pub fn check_inbound(&self, frame_info: &FrameInfo) -> (r: Result<(), SecurityError>)
        ensures
            frame_info.sec_info is None ==> r is Ok,
            frame_info.sec_info is Some ==> r == Err::<(), SecurityError>(
                SecurityError::SecInfoPresent,
            ),
    {
        if frame_info.sec_info.is_some() {
            Err(SecurityError::SecInfoPresent)
        } else {
            Ok(())
        }
    }
}

impl SecurityContext for NullSecurityContext {
    fn process_outbound(&self, frame_info: &mut FrameInfo, payload: &mut [u8]) -> Result<
        (),
        SecurityError,
    > {
        self.strip_outbound(frame_info)
    }

    fn process_inbound(&self, frame_info: &FrameInfo, payload: &mut [u8]) -> Result<
        (),
        SecurityError,
    > {
        self.check_inbound(frame_info)
    }
}

} // verus!
