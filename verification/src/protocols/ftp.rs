//! The file transfer protocol's answer to packets: requests are answered
//! from the store of responses, responses are stored.
use vstd::prelude::*;
use crate::packets::hbfi::{spec_hbfi_bytes, spec_interface_index, HBFI};
use crate::packets::identity::PublicIdentityInterface;
use crate::packets::narrow_waist::NarrowWaistPacket;

verus! {

/// The store keys a request is looked up under: its own name, then the
/// name with no requester (where responses are kept before they are
/// encrypted for whoever asks).
pub open spec fn spec_request_keys(h: HBFI) -> (Seq<u8>, Seq<u8>) {
    (
        spec_hbfi_bytes(h),
        spec_hbfi_bytes(
            HBFI {
                request_pid: PublicIdentityInterface::Absent,
                req: spec_interface_index(PublicIdentityInterface::Absent),
                ..h
            },
        ),
    )
}

/// What the protocol does with a packet, once the store was asked.
#[derive(Clone, Debug)]
pub enum FtpAction {
    /// Send the packet stored under `key` as it is.
    SendStored { key: Vec<u8> },
    /// Send the packet stored under `key`, encrypted for the requester.
    SendEncrypted { key: Vec<u8>, request_pid: PublicIdentityInterface },
    /// Store the response under `key`.
    Store { key: Vec<u8> },
    /// Nothing to do.
    Nothing,
}

/// The keys under which the store is asked for a request for `hbfi`.
pub fn request_keys(hbfi: &HBFI) -> (r: (Vec<u8>, Vec<u8>))
    ensures
        (r.0@, r.1@) == spec_request_keys(*hbfi),
{
    let exact = hbfi.as_bytes();
    let cleartext = hbfi.cleartext_repr().unwrap();
    (exact, cleartext.as_bytes())
}

/// What the protocol does with `packet`, given whether the store holds a
/// packet under the request's own key (`exact_found`) or under its key
/// without requester (`cleartext_found`): a stored packet for the exact key
/// is sent as it is; otherwise one stored without requester is sent,
/// encrypted for the requester if the request names one; a response is
/// stored under its own key.
pub fn ftp_decide(packet: &NarrowWaistPacket, exact_found: bool, cleartext_found: bool) -> (r: FtpAction)
    ensures
        match *packet {
            NarrowWaistPacket::Request { hbfi } => if exact_found {
                r matches FtpAction::SendStored { key } && key@ == spec_request_keys(hbfi).0
            } else if cleartext_found {
                match hbfi.request_pid {
                    PublicIdentityInterface::Present { .. } => r matches FtpAction::SendEncrypted {
                        key,
                        request_pid,
                    } && key@ == spec_request_keys(hbfi).1 && request_pid == hbfi.request_pid,
                    PublicIdentityInterface::Absent => r matches FtpAction::SendStored { key } && key@
                        == spec_request_keys(hbfi).1,
                }
            } else {
                r is Nothing
            },
            NarrowWaistPacket::Response { hbfi, .. } => r matches FtpAction::Store { key } && key@
                == spec_hbfi_bytes(hbfi),
        },
{
    match packet {
        NarrowWaistPacket::Request { hbfi } => {
            let (exact, cleartext) = request_keys(hbfi);
            if exact_found {
                FtpAction::SendStored { key: exact }
            } else if cleartext_found {
                match hbfi.request_pid {
                    PublicIdentityInterface::Present { .. } => FtpAction::SendEncrypted {
                        key: cleartext,
                        request_pid: hbfi.request_pid,
                    },
                    PublicIdentityInterface::Absent => FtpAction::SendStored { key: cleartext },
                }
            } else {
                FtpAction::Nothing
            }
        },
        NarrowWaistPacket::Response { hbfi, .. } => FtpAction::Store { key: hbfi.as_bytes() },
    }
}

} // verus!
