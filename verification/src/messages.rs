use vstd::prelude::*;

use crate::nvme::{BlockDeviceError, NvmeBlockError};
use crate::numfmt::{append_decimal, dec};

verus! {

/// The kind of an [`NvmeBlockError`], nested block device errors flattened.
#[derive(Debug, Clone, Copy, PartialEq, Eq, Structural)]
pub enum ErrorKind {
    NotInitialized,
    InvalidNamespace,
    LbaOutOfRange,
    ClientDisconnected,
    Aborted,
    NotSupported,
    ReadFailed,
    WriteFailed,
    ProbeFailure,
    QpairAllocationFailed,
}

/// An error as its kind and message text.
pub struct ErrView {
    pub kind: ErrorKind,
    pub msg: Seq<char>,
}

impl View for NvmeBlockError {
    type V = ErrView;

    open spec fn view(&self) -> ErrView {
        match self {
            NvmeBlockError::NotInitialized(m) => ErrView { kind: ErrorKind::NotInitialized, msg: m@ },
            NvmeBlockError::InvalidNamespace(m) => ErrView { kind: ErrorKind::InvalidNamespace, msg: m@ },
            NvmeBlockError::LbaOutOfRange(m) => ErrView { kind: ErrorKind::LbaOutOfRange, msg: m@ },
            NvmeBlockError::ClientDisconnected(m) => ErrView { kind: ErrorKind::ClientDisconnected, msg: m@ },
            NvmeBlockError::Aborted(m) => ErrView { kind: ErrorKind::Aborted, msg: m@ },
            NvmeBlockError::NotSupported(m) => ErrView { kind: ErrorKind::NotSupported, msg: m@ },
            NvmeBlockError::BlockDevice(BlockDeviceError::ReadFailed(m)) => ErrView { kind: ErrorKind::ReadFailed, msg: m@ },
            NvmeBlockError::BlockDevice(BlockDeviceError::WriteFailed(m)) => ErrView { kind: ErrorKind::WriteFailed, msg: m@ },
            NvmeBlockError::BlockDevice(BlockDeviceError::ProbeFailure(m)) => ErrView { kind: ErrorKind::ProbeFailure, msg: m@ },
            NvmeBlockError::BlockDevice(BlockDeviceError::QpairAllocationFailed(m)) => ErrView {
                kind: ErrorKind::QpairAllocationFailed,
                msg: m@,
            },
        }
    }
}

/// The error with the given kind and message.
pub fn make_error(kind: ErrorKind, msg: String) -> (e: NvmeBlockError)
    ensures
        e@ == (ErrView { kind, msg: msg@ }),
{
    match kind {
        ErrorKind::NotInitialized => NvmeBlockError::NotInitialized(msg),
        ErrorKind::InvalidNamespace => NvmeBlockError::InvalidNamespace(msg),
        ErrorKind::LbaOutOfRange => NvmeBlockError::LbaOutOfRange(msg),
        ErrorKind::ClientDisconnected => NvmeBlockError::ClientDisconnected(msg),
        ErrorKind::Aborted => NvmeBlockError::Aborted(msg),
        ErrorKind::NotSupported => NvmeBlockError::NotSupported(msg),
        ErrorKind::ReadFailed => NvmeBlockError::BlockDevice(BlockDeviceError::ReadFailed(msg)),
        ErrorKind::WriteFailed => NvmeBlockError::BlockDevice(BlockDeviceError::WriteFailed(msg)),
        ErrorKind::ProbeFailure => NvmeBlockError::BlockDevice(BlockDeviceError::ProbeFailure(msg)),
        ErrorKind::QpairAllocationFailed => NvmeBlockError::BlockDevice(
            BlockDeviceError::QpairAllocationFailed(msg),
        ),
    }
}

/// Signed decimal representation of `x`.
pub open spec fn sdec(x: int) -> Seq<char> {
    if x < 0 {
        seq!['-'] + dec((-x) as nat)
    } else {
        dec(x as nat)
    }
}

/// Appends the signed decimal representation of `x` to `s`.
pub fn append_signed(s: &mut String, x: i32)
    ensures
        final(s)@ == old(s)@ + sdec(x as int),
{
    proof {
        reveal_strlit("-");
    }
    if x < 0 {
        s.append("-");
        let m: i64 = -(x as i64);
        append_decimal(s, m as u64);
        proof {
            assert(final(s)@ =~= old(s)@ + sdec(x as int));
        }
    } else {
        append_decimal(s, x as u64);
    }
}

/// `prefix` followed by the signed decimal of `rc`.
pub fn with_rc(prefix: &str, rc: i32) -> (r: String)
    ensures
        r@ == prefix@ + sdec(rc as int),
{
    let mut s = String::from_str(prefix);
    append_signed(&mut s, rc);
    proof {
        assert(s@ =~= prefix@ + sdec(rc as int));
    }
    s
}

/// Text `NVMe error sct=<sct> sc=<sc>`.
pub open spec fn nvme_status_msg(sct: u16, sc: u16) -> Seq<char> {
    "NVMe error sct="@ + dec(sct as nat) + " sc="@ + dec(sc as nat)
}

/// `prefix` followed by `NVMe error sct=<sct> sc=<sc>`.
pub fn status_text(prefix: &str, sct: u16, sc: u16) -> (r: String)
    ensures
        r@ == prefix@ + nvme_status_msg(sct, sc),
{
    let mut s = String::from_str(prefix);
    s.append("NVMe error sct=");
    append_decimal(&mut s, sct as u64);
    s.append(" sc=");
    append_decimal(&mut s, sc as u64);
    proof {
        assert(s@ =~= prefix@ + nvme_status_msg(sct, sc));
    }
    s
}

/// Text `<prefix><ns_id><middle><rc>`.
pub fn ns_rc_text(prefix: &str, ns_id: u32, middle: &str, rc: i32) -> (r: String)
    ensures
        r@ == prefix@ + dec(ns_id as nat) + middle@ + sdec(rc as int),
{
    let mut s = String::from_str(prefix);
    append_decimal(&mut s, ns_id as u64);
    s.append(middle);
    append_signed(&mut s, rc);
    proof {
        assert(s@ =~= prefix@ + dec(ns_id as nat) + middle@ + sdec(rc as int));
    }
    s
}

} // verus!
