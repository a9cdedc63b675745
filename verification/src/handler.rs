use vstd::prelude::*;

use crate::messages::{
    make_error, nvme_status_msg, ns_rc_text, sdec, status_text, with_rc, ErrView, ErrorKind,
};
use crate::nvme::{
    client_ns, client_ns_list, find_ns, invalid_namespace_msg, lba_out_of_range_msg, to_namespace_info_list,
    validate_lba_range, validate_ns_id, NamespaceInfo, NvmeBlockError, NvmeNamespaceInfo,
};
use crate::numfmt::dec;
use crate::qpair::{select_spec, QueuePairPool};
use crate::tsc::TscClock;

verus! {

/// Identifier of an IO operation, unique per handler.
#[derive(Debug, Clone, Copy, PartialEq, Eq, Structural)]
pub struct OpHandle(pub u64);

/// The synchronous IO operations.
#[derive(Debug, Clone, Copy, PartialEq, Eq, Structural)]
pub enum SyncKind {
    Read,
    Write,
    WriteZeros,
}

/// The dispatch rules of a driver generation.
///
/// Under `V1` each operation of a batch chooses its own queue pair, and a
/// controller reset, allowed anywhere (inside a batch too), cancels only the
/// requesting client's operations. Under `V2` a batch pins its operations to
/// the queue pair chosen for the batch's size, and a controller reset, only
/// as a command of its own, cancels every client's operations.
#[derive(Debug, Clone, Copy, PartialEq, Eq, Structural)]
pub enum Generation {
    V1,
    V2,
}

/// A client command, as the handler sees it.
///
/// Data buffers stay with the caller: a command carries the caller's tag for
/// its buffer (`buf`) and the buffer's length in bytes. For reads the length
/// is `None` when the buffer's lock could not be taken.
#[derive(Debug)]
#[allow(inconsistent_fields)]
pub enum Command {
    ReadSync { ns_id: u32, lba: u64, buf: u64, buf_len: Option<u64> },
    WriteSync { ns_id: u32, lba: u64, buf: u64, buf_len: u64 },
    ReadAsync { ns_id: u32, lba: u64, buf: u64, buf_len: Option<u64>, timeout_ms: u64 },
    WriteAsync { ns_id: u32, lba: u64, buf: u64, buf_len: u64, timeout_ms: u64 },
    WriteZeros { ns_id: u32, lba: u64, num_blocks: u32 },
    BatchSubmit { ops: Vec<Command> },
    AbortOp { handle: OpHandle },
    NsProbe,
    NsCreate { size_sectors: u64 },
    NsFormat { ns_id: u32 },
    NsDelete { ns_id: u32 },
    ControllerReset,
}

/// A completion sent back to a client.
#[derive(Debug)]
#[allow(inconsistent_fields)]
pub enum Completion {
    ReadDone { handle: OpHandle, result: Result<(), NvmeBlockError> },
    WriteDone { handle: OpHandle, result: Result<(), NvmeBlockError> },
    WriteZerosDone { handle: OpHandle, result: Result<(), NvmeBlockError> },
    AbortAck { handle: OpHandle },
    NsProbeResult { namespaces: Vec<NamespaceInfo> },
    NsCreated { ns_id: u32 },
    NsFormatted { ns_id: u32 },
    NsDeleted { ns_id: u32 },
    Error { handle: Option<OpHandle>, error: NvmeBlockError },
    ResetDone { result: Result<(), NvmeBlockError> },
    Timeout { handle: OpHandle },
}

/// A completion with errors given by kind and text; a result is `None` on
/// success.
#[allow(inconsistent_fields)]
pub enum CompletionView {
    ReadDone { handle: u64, error: Option<ErrView> },
    WriteDone { handle: u64, error: Option<ErrView> },
    WriteZerosDone { handle: u64, error: Option<ErrView> },
    AbortAck { handle: u64 },
    NsProbeResult { namespaces: Seq<NamespaceInfo> },
    NsCreated { ns_id: u32 },
    NsFormatted { ns_id: u32 },
    NsDeleted { ns_id: u32 },
    Error { handle: Option<u64>, error: ErrView },
    ResetDone { error: Option<ErrView> },
    Timeout { handle: u64 },
}

/// The error of a result, `None` on success.
pub open spec fn result_error(r: Result<(), NvmeBlockError>) -> Option<ErrView> {
    match r {
        Ok(()) => None,
        Err(e) => Some(e@),
    }
}

impl View for Completion {
    type V = CompletionView;

    open spec fn view(&self) -> CompletionView {
        match self {
            Completion::ReadDone { handle, result } => CompletionView::ReadDone {
                handle: handle.0,
                error: result_error(*result),
            },
            Completion::WriteDone { handle, result } => CompletionView::WriteDone {
                handle: handle.0,
                error: result_error(*result),
            },
            Completion::WriteZerosDone { handle, result } => CompletionView::WriteZerosDone {
                handle: handle.0,
                error: result_error(*result),
            },
            Completion::AbortAck { handle } => CompletionView::AbortAck { handle: handle.0 },
            Completion::NsProbeResult { namespaces } => CompletionView::NsProbeResult {
                namespaces: namespaces@,
            },
            Completion::NsCreated { ns_id } => CompletionView::NsCreated { ns_id: *ns_id },
            Completion::NsFormatted { ns_id } => CompletionView::NsFormatted { ns_id: *ns_id },
            Completion::NsDeleted { ns_id } => CompletionView::NsDeleted { ns_id: *ns_id },
            Completion::Error { handle, error } => CompletionView::Error {
                handle: match handle {
                    Some(h) => Some(h.0),
                    None => None,
                },
                error: error@,
            },
            Completion::ResetDone { result } => CompletionView::ResetDone { error: result_error(*result) },
            Completion::Timeout { handle } => CompletionView::Timeout { handle: handle.0 },
        }
    }
}

/// A completion addressed to a client.
pub struct Outgoing {
    pub client_id: u64,
    pub completion: Completion,
}

/// The view of a list of addressed completions.
pub open spec fn outgoing_view(s: Seq<Outgoing>) -> Seq<(u64, CompletionView)> {
    s.map_values(|o: Outgoing| (o.client_id, o.completion@))
}

/// An asynchronous operation in flight.
#[derive(Debug, Clone, Copy)]
pub struct PendingOp {
    /// Operation handle.
    pub handle: u64,
    /// Counter value at which the operation times out.
    pub deadline: u64,
    /// Queue pair the operation was submitted on.
    pub qpair_idx: usize,
    /// The caller's tag of the operation's buffer.
    pub buf: u64,
}

/// The handler's record of a connected client.
pub struct ClientState {
    id: u64,
    pending_ops: Vec<PendingOp>,
}

/// A connected client: its id and its operations in flight, oldest first.
#[verifier::ext_equal]
pub struct ClientModel {
    pub id: u64,
    pub pending: Seq<PendingOp>,
}

impl View for ClientState {
    type V = ClientModel;

    closed spec fn view(&self) -> ClientModel {
        ClientModel { id: self.id, pending: self.pending_ops@ }
    }
}

/// A command waiting to be dispatched, with the queue pair that its batch
/// chose for it, if any.
#[derive(Debug)]
pub struct WorkItem {
    pub client_id: u64,
    pub cmd: Command,
    pub qp_override: Option<usize>,
}

/// A request for the device, to be carried out by the caller.
#[derive(Debug, Clone, Copy, PartialEq, Eq, Structural)]
pub enum DeviceRequest {
    /// Submit a synchronous operation on a queue pair and poll it to completion.
    SyncIo { kind: SyncKind, ns_id: u32, lba: u64, num_blocks: u32, buf: u64, qpair_idx: usize },
    /// Submit an asynchronous read or write on a queue pair.
    SubmitAsync {
        client_id: u64,
        handle: u64,
        is_read: bool,
        ns_id: u32,
        lba: u64,
        num_blocks: u32,
        buf: u64,
        qpair_idx: usize,
    },
    CreateNamespace { size_sectors: u64 },
    FormatNamespace { ns_id: u32 },
    DeleteNamespace { ns_id: u32 },
    ResetController,
    RefreshNamespaces,
}

/// What the handler waits for after issuing a device request.
#[derive(Debug, Clone, Copy, PartialEq, Eq, Structural)]
pub enum Awaiting {
    SyncIo { client_id: u64, handle: u64, kind: SyncKind, qpair_idx: usize },
    AsyncSubmit { client_id: u64, handle: u64, is_read: bool, qpair_idx: usize },
    NsCreate { client_id: u64 },
    NsCreateRefresh { client_id: u64, ns_id: u32 },
    NsFormat { client_id: u64, ns_id: u32 },
    NsDelete { client_id: u64, ns_id: u32 },
    NsDeleteRefresh { client_id: u64, ns_id: u32 },
    Reset { requester: u64 },
    ResetRefresh { requester: u64 },
}

/// The result of a device request.
#[derive(Debug)]
pub enum DeviceOutcome {
    /// A synchronous operation: the submission status `rc`; when it is 0,
    /// the completion status codes and the number of completions reaped
    /// from the queue pair while polling.
    SyncIo { rc: i32, sct: u16, sc: u16, reaped: u32 },
    /// The submission status of an asynchronous operation.
    Submitted { rc: i32 },
    /// The id of a created namespace (0 on failure).
    Created { ns_id: u32 },
    /// The status of a format, delete or reset.
    Status { rc: i32 },
    /// The namespaces found by a rescan.
    Namespaces { list: Vec<NvmeNamespaceInfo> },
}

/// Completions to send, in order, and then a device request, if any.
pub struct StepResult {
    pub sends: Vec<Outgoing>,
    pub request: Option<DeviceRequest>,
}

/// The actor-side state of the NVMe block device: the controller's
/// namespaces and queue pairs, the connected clients with their operations
/// in flight, and the commands still to dispatch.
pub struct BlockDeviceHandler {
    namespaces: Vec<NvmeNamespaceInfo>,
    qpairs: QueuePairPool,
    clients: Vec<ClientState>,
    next_handle: u64,
    work: Vec<WorkItem>,
    awaiting: Option<Awaiting>,
    clock: TscClock,
    last_timeout_check: u64,
    generation: Generation,
}

/// The abstract state of a handler.
#[verifier::ext_equal]
pub struct HandlerModel {
    pub namespaces: Seq<NvmeNamespaceInfo>,
    pub qpairs: Seq<(u32, u32)>,
    pub clients: Seq<ClientModel>,
    pub next_handle: u64,
    pub work: Seq<WorkItem>,
    pub awaiting: Option<Awaiting>,
    pub clock: TscClock,
    pub last_timeout_check: u64,
    pub generation: Generation,
}

// ---------------------------------------------------------------------
// Specification helpers
// ---------------------------------------------------------------------

/// Whether a client with id `id` is connected.
pub open spec fn has_client(cs: Seq<ClientModel>, id: u64) -> bool {
    exists|i: int| 0 <= i < cs.len() && cs[i].id == id
}

/// Index of the client with id `id`.
pub open spec fn client_idx(cs: Seq<ClientModel>, id: u64) -> int {
    choose|i: int| 0 <= i < cs.len() && cs[i].id == id
}

/// Client ids are distinct.
pub open spec fn ids_distinct(cs: Seq<ClientModel>) -> bool {
    forall|i: int, j: int| 0 <= i < j < cs.len() ==> cs[i].id != cs[j].id
}

/// Operations in flight of client `id` (empty when not connected).
pub open spec fn pending_of(cs: Seq<ClientModel>, id: u64) -> Seq<PendingOp> {
    if has_client(cs, id) {
        cs[client_idx(cs, id)].pending
    } else {
        Seq::empty()
    }
}

/// Replaces the operations in flight of client `id`.
pub open spec fn set_pending(cs: Seq<ClientModel>, id: u64, p: Seq<PendingOp>) -> Seq<ClientModel> {
    if has_client(cs, id) {
        cs.update(client_idx(cs, id), ClientModel { id, pending: p })
    } else {
        cs
    }
}

/// Whether `p` has an operation with handle `h`.
pub open spec fn has_handle(p: Seq<PendingOp>, h: u64) -> bool {
    exists|i: int| 0 <= i < p.len() && p[i].handle == h
}

/// `p` without its operation with handle `h` (unchanged when absent).
pub open spec fn remove_handle(p: Seq<PendingOp>, h: u64) -> Seq<PendingOp> {
    if has_handle(p, h) {
        p.remove(choose|i: int| 0 <= i < p.len() && p[i].handle == h)
    } else {
        p
    }
}

/// Handles in `p` are distinct and below `next`.
pub open spec fn handles_ok(p: Seq<PendingOp>, next: u64) -> bool {
    &&& forall|i: int, j: int| 0 <= i < j < p.len() ==> p[i].handle != p[j].handle
    &&& forall|i: int| 0 <= i < p.len() ==> p[i].handle < next
}

/// A command with no controller reset anywhere inside it.
pub open spec fn reset_free(c: Command) -> bool
    decreases c,
{
    match c {
        Command::ControllerReset => false,
        Command::BatchSubmit { ops } => forall|i: int| 0 <= i < ops@.len() ==> reset_free(#[trigger] ops@[i]),
        _ => true,
    }
}

/// Every block range given in blocks fits in 64 bits. (A range given as a
/// buffer length depends on the sector size of the namespace it goes to;
/// `step_ready` bounds it when the command is dispatched.)
pub open spec fn ranges_fit(c: Command) -> bool
    decreases c,
{
    match c {
        Command::WriteZeros { lba, num_blocks, .. } => lba + num_blocks <= u64::MAX,
        Command::BatchSubmit { ops } => forall|i: int| 0 <= i < ops@.len() ==> ranges_fit(#[trigger] ops@[i]),
        _ => true,
    }
}

/// A command that a client may submit: no controller reset inside a
/// batch, and every address range fits in 64 bits.
pub open spec fn command_ok(c: Command, g: Generation) -> bool {
    &&& (g == Generation::V1 || c is ControllerReset || reset_free(c))
    &&& ranges_fit(c)
}

/// A work item that the handler can dispatch.
pub open spec fn item_ok(w: WorkItem, nq: int, g: Generation) -> bool {
    &&& ranges_fit(w.cmd)
    &&& match w.qp_override {
        Some(i) => 0 <= i < nq && reset_free(w.cmd),
        None => g == Generation::V1 || w.cmd is ControllerReset || reset_free(w.cmd),
    }
}

/// An IO on `ns_id` at `lba` over a buffer of `len` bytes ends within 64
/// bits of block address: the start plus the buffer's whole sectors of the
/// namespace, when there is such a namespace and a buffer.
pub open spec fn io_fits(nss: Seq<NvmeNamespaceInfo>, ns_id: u32, lba: u64, len: Option<u64>) -> bool {
    match find_ns(nss, ns_id) {
        None => true,
        Some(i) => len matches Some(n) ==> lba + n as int / nss[i].sector_size as int <= u64::MAX,
    }
}

/// The result of validating an IO on `ns_id` at `lba` over a buffer of
/// `len` bytes (`None`: the buffer lock failed): the number of blocks, or
/// the error.
pub open spec fn io_check(nss: Seq<NvmeNamespaceInfo>, ns_id: u32, lba: u64, len: Option<u64>) -> Result<u64, ErrView> {
    match find_ns(nss, ns_id) {
        None => Err(ErrView { kind: ErrorKind::InvalidNamespace, msg: invalid_namespace_msg(ns_id) }),
        Some(i) => match len {
            None => Err(ErrView { kind: ErrorKind::ClientDisconnected, msg: "buffer lock poisoned"@ }),
            Some(n) => {
                let nb: int = n as int / nss[i].sector_size as int;
                if lba + nb > nss[i].num_sectors {
                    Err(ErrView { kind: ErrorKind::LbaOutOfRange, msg: lba_out_of_range_msg(nss[i], lba, nb as u64) })
                } else {
                    Ok(nb as u64)
                }
            },
        },
    }
}

/// The result of validating a write-zeros of `nb` blocks at `lba`.
pub open spec fn zeros_check(nss: Seq<NvmeNamespaceInfo>, ns_id: u32, lba: u64, nb: u32) -> Result<u64, ErrView> {
    match find_ns(nss, ns_id) {
        None => Err(ErrView { kind: ErrorKind::InvalidNamespace, msg: invalid_namespace_msg(ns_id) }),
        Some(i) => if lba + nb > nss[i].num_sectors {
            Err(ErrView { kind: ErrorKind::LbaOutOfRange, msg: lba_out_of_range_msg(nss[i], lba, nb as u64) })
        } else {
            Ok(nb as u64)
        },
    }
}

/// The "done" completion of a synchronous operation.
pub open spec fn sync_done(kind: SyncKind, handle: u64, error: Option<ErrView>) -> CompletionView {
    match kind {
        SyncKind::Read => CompletionView::ReadDone { handle, error },
        SyncKind::Write => CompletionView::WriteDone { handle, error },
        SyncKind::WriteZeros => CompletionView::WriteZerosDone { handle, error },
    }
}

/// The "done" completion of an asynchronous read or write.
pub open spec fn async_done(is_read: bool, handle: u64, error: Option<ErrView>) -> CompletionView {
    if is_read {
        CompletionView::ReadDone { handle, error }
    } else {
        CompletionView::WriteDone { handle, error }
    }
}

/// Message of a failed synchronous submission.
pub open spec fn sync_submit_msg(kind: SyncKind, rc: i32) -> Seq<char> {
    match kind {
        SyncKind::Read => "spdk_nvme_ns_cmd_read failed with rc="@ + sdec(rc as int),
        SyncKind::Write => "spdk_nvme_ns_cmd_write failed with rc="@ + sdec(rc as int),
        SyncKind::WriteZeros => "spdk_nvme_ns_cmd_write_zeroes failed with rc="@ + sdec(rc as int),
    }
}

/// Name of a synchronous operation in status messages.
pub open spec fn sync_op_name(kind: SyncKind) -> Seq<char> {
    match kind {
        SyncKind::Read => "read"@,
        SyncKind::Write => "write"@,
        SyncKind::WriteZeros => "write_zeros"@,
    }
}

/// The error of a synchronous operation with submission status `rc` and
/// completion status `(sct, sc)`. A failed completion status is reported
/// as a write failure for every kind of operation, reads included, as the
/// device component has always done; only a failed submission tells reads
/// and writes apart.
pub open spec fn sync_error(kind: SyncKind, rc: i32, sct: u16, sc: u16) -> Option<ErrView> {
    if rc != 0 {
        Some(ErrView {
            kind: if kind is Read { ErrorKind::ReadFailed } else { ErrorKind::WriteFailed },
            msg: sync_submit_msg(kind, rc),
        })
    } else if sct != 0 || sc != 0 {
        Some(ErrView { kind: ErrorKind::WriteFailed, msg: sync_op_name(kind) + ": "@ + nvme_status_msg(sct, sc) })
    } else {
        None
    }
}

/// The error of a failed asynchronous submission.
pub open spec fn async_submit_error(is_read: bool, rc: i32) -> ErrView {
    if is_read {
        ErrView {
            kind: ErrorKind::ReadFailed,
            msg: "async spdk_nvme_ns_cmd_read submit failed with rc="@ + sdec(rc as int),
        }
    } else {
        ErrView {
            kind: ErrorKind::WriteFailed,
            msg: "async spdk_nvme_ns_cmd_write submit failed with rc="@ + sdec(rc as int),
        }
    }
}

/// The error of an asynchronous operation whose completion carries status
/// `(sct, sc)`, `None` on success.
pub open spec fn async_status_error(is_read: bool, sct: u16, sc: u16) -> Option<ErrView> {
    if sct == 0 && sc == 0 {
        None
    } else {
        Some(ErrView {
            kind: if is_read { ErrorKind::ReadFailed } else { ErrorKind::WriteFailed },
            msg: nvme_status_msg(sct, sc),
        })
    }
}

/// The error for operations cancelled by a controller reset.
pub open spec fn reset_cancel_error() -> ErrView {
    ErrView { kind: ErrorKind::Aborted, msg: "cancelled due to controller reset"@ }
}

/// The error for operations cancelled by shutdown.
pub open spec fn shutdown_error() -> ErrView {
    ErrView { kind: ErrorKind::Aborted, msg: "actor shutting down"@ }
}

/// Completions cancelling every operation in `p` for client `id`.
pub open spec fn cancel_all(id: u64, p: Seq<PendingOp>, e: ErrView) -> Seq<(u64, CompletionView)> {
    p.map_values(|o: PendingOp| (id, CompletionView::Error { handle: Some(o.handle), error: e }))
}

/// Completions cancelling every operation of every client, client by client.
pub open spec fn cancel_clients(cs: Seq<ClientModel>, e: ErrView) -> Seq<(u64, CompletionView)>
    decreases cs.len(),
{
    if cs.len() == 0 {
        Seq::empty()
    } else {
        cancel_clients(cs.drop_last(), e) + cancel_all(cs.last().id, cs.last().pending, e)
    }
}

/// Operations of `p` that have reached their deadline at `now`.
pub open spec fn expired(p: Seq<PendingOp>, now: u64) -> Seq<PendingOp> {
    p.filter(|o: PendingOp| now >= o.deadline)
}

/// Operations of `p` still within their deadline at `now`.
pub open spec fn unexpired(p: Seq<PendingOp>, now: u64) -> Seq<PendingOp> {
    p.filter(|o: PendingOp| now < o.deadline)
}

/// Timeout completions for the expired operations of every client, client
/// by client.
pub open spec fn timeouts(cs: Seq<ClientModel>, now: u64) -> Seq<(u64, CompletionView)>
    decreases cs.len(),
{
    if cs.len() == 0 {
        Seq::empty()
    } else {
        timeouts(cs.drop_last(), now) + expired(cs.last().pending, now).map_values(
            |o: PendingOp| (cs.last().id, CompletionView::Timeout { handle: o.handle }),
        )
    }
}

/// The clients with their expired operations removed.
pub open spec fn prune_expired(cs: Seq<ClientModel>, now: u64) -> Seq<ClientModel> {
    cs.map_values(|c: ClientModel| ClientModel { id: c.id, pending: unexpired(c.pending, now) })
}

/// The clients with every operation removed.
pub open spec fn clear_pending(cs: Seq<ClientModel>) -> Seq<ClientModel> {
    cs.map_values(|c: ClientModel| ClientModel { id: c.id, pending: Seq::empty() })
}


/// A handler state together with what a step sent and requested.
#[verifier::ext_equal]
pub struct StepModel {
    pub m: HandlerModel,
    pub sends: Seq<(u64, CompletionView)>,
    pub request: Option<DeviceRequest>,
}

/// The state `m` with operations in flight `p` for client `id`.
pub open spec fn with_pending(m: HandlerModel, id: u64, p: Seq<PendingOp>) -> HandlerModel {
    HandlerModel { clients: set_pending(m.clients, id, p), ..m }
}

/// The step outcome: state `m`, one completion to `id`, no request.
pub open spec fn reply(m: HandlerModel, id: u64, c: CompletionView) -> StepModel {
    StepModel { m, sends: seq![(id, c)], request: None }
}

/// The step outcome: state `m` waiting for `a`, device request `r`.
pub open spec fn ask(m: HandlerModel, a: Awaiting, r: DeviceRequest) -> StepModel {
    StepModel { m: HandlerModel { awaiting: Some(a), ..m }, sends: Seq::empty(), request: Some(r) }
}

/// The work items a batch of `ops` from client `id` becomes, last operation
/// first, so that the first operation is dispatched first; `qo` is the
/// queue pair they are pinned to, if any.
pub open spec fn batch_items(id: u64, ops: Seq<Command>, qo: Option<usize>) -> Seq<WorkItem> {
    Seq::new(ops.len(), |k: int| WorkItem { client_id: id, cmd: ops[ops.len() - 1 - k], qp_override: qo })
}

/// The queue pair a batch of `n` operations is pinned to: the one chosen
/// for its size under `V2`, none under `V1`.
pub open spec fn batch_pin(m: HandlerModel, n: int) -> Option<usize> {
    if m.generation == Generation::V2 {
        Some(select_spec(m.qpairs, n) as usize)
    } else {
        None
    }
}

/// Dispatch of a synchronous IO of `kind` whose validation gave `check`.
pub open spec fn sync_step(
    m: HandlerModel,
    id: u64,
    kind: SyncKind,
    ns_id: u32,
    lba: u64,
    buf: u64,
    check: Result<u64, ErrView>,
) -> StepModel {
    let h = m.next_handle;
    let m1 = HandlerModel { next_handle: (h + 1) as u64, ..m };
    match check {
        Err(e) => reply(m1, id, sync_done(kind, h, Some(e))),
        Ok(nb) => {
            let q = select_spec(m.qpairs, 1) as usize;
            ask(
                m1,
                Awaiting::SyncIo { client_id: id, handle: h, kind, qpair_idx: q },
                DeviceRequest::SyncIo { kind, ns_id, lba, num_blocks: nb as u32, buf, qpair_idx: q },
            )
        },
    }
}

/// Dispatch of an asynchronous read or write whose validation gave `check`.
pub open spec fn async_step(
    m: HandlerModel,
    id: u64,
    is_read: bool,
    ns_id: u32,
    lba: u64,
    buf: u64,
    timeout_ms: u64,
    qo: Option<usize>,
    check: Result<u64, ErrView>,
    now: u64,
) -> StepModel {
    let h = m.next_handle;
    let m1 = HandlerModel { next_handle: (h + 1) as u64, ..m };
    match check {
        Err(e) => reply(m1, id, async_done(is_read, h, Some(e))),
        Ok(nb) => {
            let p = pending_of(m.clients, id);
            let q = match qo {
                Some(i) => i,
                None => select_spec(m.qpairs, p.len() as int + 1) as usize,
            };
            let op = PendingOp {
                handle: h,
                deadline: (now + timeout_ms * m.clock.ticks_per_ms_spec()) as u64,
                qpair_idx: q,
                buf,
            };
            ask(
                with_pending(m1, id, p.push(op)),
                Awaiting::AsyncSubmit { client_id: id, handle: h, is_read, qpair_idx: q },
                DeviceRequest::SubmitAsync {
                    client_id: id,
                    handle: h,
                    is_read,
                    ns_id,
                    lba,
                    num_blocks: nb as u32,
                    buf,
                    qpair_idx: q,
                },
            )
        },
    }
}

/// One dispatch step: the handler takes the last work item and dispatches
/// it. That is the next operation of a batch being expanded, else the
/// oldest command received.
pub open spec fn step_spec(m0: HandlerModel, now: u64) -> StepModel {
    let w = m0.work.last();
    let m = HandlerModel { work: m0.work.drop_last(), ..m0 };
    let id = w.client_id;
    match w.cmd {
        Command::ReadSync { ns_id, lba, buf, buf_len } =>
            sync_step(m, id, SyncKind::Read, ns_id, lba, buf, io_check(m.namespaces, ns_id, lba, buf_len)),
        Command::WriteSync { ns_id, lba, buf, buf_len } =>
            sync_step(m, id, SyncKind::Write, ns_id, lba, buf, io_check(m.namespaces, ns_id, lba, Some(buf_len))),
        Command::WriteZeros { ns_id, lba, num_blocks } =>
            sync_step(m, id, SyncKind::WriteZeros, ns_id, lba, 0, zeros_check(m.namespaces, ns_id, lba, num_blocks)),
        Command::ReadAsync { ns_id, lba, buf, buf_len, timeout_ms } =>
            async_step(m, id, true, ns_id, lba, buf, timeout_ms, w.qp_override,
                io_check(m.namespaces, ns_id, lba, buf_len), now),
        Command::WriteAsync { ns_id, lba, buf, buf_len, timeout_ms } =>
            async_step(m, id, false, ns_id, lba, buf, timeout_ms, w.qp_override,
                io_check(m.namespaces, ns_id, lba, Some(buf_len)), now),
        Command::BatchSubmit { ops } => StepModel {
            m: HandlerModel { work: m.work + batch_items(id, ops@, batch_pin(m, ops@.len() as int)), ..m },
            sends: Seq::empty(),
            request: None,
        },
        Command::AbortOp { handle } => reply(
            with_pending(m, id, remove_handle(pending_of(m.clients, id), handle.0)),
            id,
            CompletionView::AbortAck { handle: handle.0 },
        ),
        Command::NsProbe => reply(
            m,
            id,
            CompletionView::NsProbeResult { namespaces: client_ns_list(m.namespaces) },
        ),
        Command::NsCreate { size_sectors } => ask(
            m,
            Awaiting::NsCreate { client_id: id },
            DeviceRequest::CreateNamespace { size_sectors },
        ),
        Command::NsFormat { ns_id } => ask(
            m,
            Awaiting::NsFormat { client_id: id, ns_id },
            DeviceRequest::FormatNamespace { ns_id },
        ),
        Command::NsDelete { ns_id } => ask(
            m,
            Awaiting::NsDelete { client_id: id, ns_id },
            DeviceRequest::DeleteNamespace { ns_id },
        ),
        Command::ControllerReset => reset_step(m, id),
    }
}

/// A controller reset requested by client `id`: the operations it cancels
/// (every client's under `V2`, the requester's under `V1`) are answered
/// with an `Aborted` error, and the handler asks for the reset.
pub open spec fn reset_step(m: HandlerModel, id: u64) -> StepModel {
    if m.generation == Generation::V2 {
        StepModel {
            m: HandlerModel {
                clients: clear_pending(m.clients),
                awaiting: Some(Awaiting::Reset { requester: id }),
                ..m
            },
            sends: cancel_clients(m.clients, reset_cancel_error()),
            request: Some(DeviceRequest::ResetController),
        }
    } else {
        StepModel {
            m: HandlerModel {
                clients: set_pending(m.clients, id, Seq::empty()),
                awaiting: Some(Awaiting::Reset { requester: id }),
                ..m
            },
            sends: cancel_all(id, pending_of(m.clients, id), reset_cancel_error()),
            request: Some(DeviceRequest::ResetController),
        }
    }
}

/// Whether `o` is the kind of outcome that `a` waits for.
pub open spec fn outcome_fits(a: Awaiting, o: DeviceOutcome) -> bool {
    match a {
        Awaiting::SyncIo { .. } => o is SyncIo,
        Awaiting::AsyncSubmit { .. } => o is Submitted,
        Awaiting::NsCreate { .. } => o is Created,
        Awaiting::NsFormat { .. } => o is Status,
        Awaiting::NsDelete { .. } => o is Status,
        Awaiting::Reset { .. } => o is Status,
        Awaiting::NsCreateRefresh { .. } => o is Namespaces,
        Awaiting::NsDeleteRefresh { .. } => o is Namespaces,
        Awaiting::ResetRefresh { .. } => o is Namespaces,
    }
}

/// `in_flight` lowered by `n` completions, never below zero.
pub open spec fn sat_sub(x: u32, n: int) -> u32 {
    if n <= 0 { x } else if x >= n { (x - n) as u32 } else { 0u32 }
}

/// The state after a device request finished with outcome `o`.
pub open spec fn resume_spec(m0: HandlerModel, o: DeviceOutcome) -> StepModel {
    let m = HandlerModel { awaiting: None, ..m0 };
    match m0.awaiting {
        Some(Awaiting::SyncIo { client_id, handle, kind, qpair_idx }) => match o {
            DeviceOutcome::SyncIo { rc, sct, sc, reaped } => {
                let q = m.qpairs[qpair_idx as int];
                let m2 = if rc == 0 {
                    HandlerModel { qpairs: m.qpairs.update(qpair_idx as int, (q.0, sat_sub(q.1, reaped as int))), ..m }
                } else {
                    m
                };
                reply(m2, client_id, sync_done(kind, handle, sync_error(kind, rc, sct, sc)))
            },
            _ => StepModel { m, sends: Seq::empty(), request: None },
        },
        Some(Awaiting::AsyncSubmit { client_id, handle, is_read, qpair_idx }) => match o {
            DeviceOutcome::Submitted { rc } => if rc != 0 {
                reply(
                    with_pending(m, client_id, remove_handle(pending_of(m.clients, client_id), handle)),
                    client_id,
                    async_done(is_read, handle, Some(async_submit_error(is_read, rc))),
                )
            } else {
                let q = m.qpairs[qpair_idx as int];
                StepModel {
                    m: HandlerModel { qpairs: m.qpairs.update(qpair_idx as int, (q.0, (q.1 + 1) as u32)), ..m },
                    sends: Seq::empty(),
                    request: None,
                }
            },
            _ => StepModel { m, sends: Seq::empty(), request: None },
        },
        Some(Awaiting::NsCreate { client_id }) => match o {
            DeviceOutcome::Created { ns_id } => if ns_id == 0 {
                reply(m, client_id, CompletionView::Error {
                    handle: None,
                    error: ErrView {
                        kind: ErrorKind::NotSupported,
                        msg: "spdk_nvme_ctrlr_create_ns failed \u{2014} controller may not support namespace management"@,
                    },
                })
            } else {
                ask(m, Awaiting::NsCreateRefresh { client_id, ns_id }, DeviceRequest::RefreshNamespaces)
            },
            _ => StepModel { m, sends: Seq::empty(), request: None },
        },
        Some(Awaiting::NsFormat { client_id, ns_id }) => match o {
            DeviceOutcome::Status { rc } => if rc != 0 {
                reply(m, client_id, CompletionView::Error {
                    handle: None,
                    error: ErrView {
                        kind: ErrorKind::NotSupported,
                        msg: "spdk_nvme_ctrlr_format(ns_id="@ + dec(ns_id as nat) + ") failed with rc="@ + sdec(rc as int),
                    },
                })
            } else {
                reply(m, client_id, CompletionView::NsFormatted { ns_id })
            },
            _ => StepModel { m, sends: Seq::empty(), request: None },
        },
        Some(Awaiting::NsDelete { client_id, ns_id }) => match o {
            DeviceOutcome::Status { rc } => if rc != 0 {
                reply(m, client_id, CompletionView::Error {
                    handle: None,
                    error: ErrView {
                        kind: ErrorKind::NotSupported,
                        msg: "spdk_nvme_ctrlr_delete_ns(ns_id="@ + dec(ns_id as nat) + ") failed with rc="@ + sdec(rc as int),
                    },
                })
            } else {
                ask(m, Awaiting::NsDeleteRefresh { client_id, ns_id }, DeviceRequest::RefreshNamespaces)
            },
            _ => StepModel { m, sends: Seq::empty(), request: None },
        },
        Some(Awaiting::Reset { requester }) => match o {
            DeviceOutcome::Status { rc } => if rc != 0 {
                reply(m, requester, CompletionView::ResetDone {
                    error: Some(ErrView {
                        kind: ErrorKind::ProbeFailure,
                        msg: "spdk_nvme_ctrlr_reset failed with rc="@ + sdec(rc as int),
                    }),
                })
            } else {
                ask(m, Awaiting::ResetRefresh { requester }, DeviceRequest::RefreshNamespaces)
            },
            _ => StepModel { m, sends: Seq::empty(), request: None },
        },
        Some(Awaiting::NsCreateRefresh { client_id, ns_id }) => match o {
            DeviceOutcome::Namespaces { list } => reply(
                HandlerModel { namespaces: list@, ..m },
                client_id,
                CompletionView::NsCreated { ns_id },
            ),
            _ => StepModel { m, sends: Seq::empty(), request: None },
        },
        Some(Awaiting::NsDeleteRefresh { client_id, ns_id }) => match o {
            DeviceOutcome::Namespaces { list } => reply(
                HandlerModel { namespaces: list@, ..m },
                client_id,
                CompletionView::NsDeleted { ns_id },
            ),
            _ => StepModel { m, sends: Seq::empty(), request: None },
        },
        Some(Awaiting::ResetRefresh { requester }) => match o {
            DeviceOutcome::Namespaces { list } => reply(
                HandlerModel { namespaces: list@, ..m },
                requester,
                CompletionView::ResetDone { error: None },
            ),
            _ => StepModel { m, sends: Seq::empty(), request: None },
        },
        None => StepModel { m, sends: Seq::empty(), request: None },
    }
}

/// Well-formedness of a handler state.
pub open spec fn model_wf(m: HandlerModel) -> bool {
    &&& forall|i: int| 0 <= i < m.namespaces.len() ==> #[trigger] m.namespaces[i].sector_size > 0
    &&& m.qpairs.len() > 0
    &&& ids_distinct(m.clients)
    &&& forall|i: int| 0 <= i < m.clients.len() ==> handles_ok(#[trigger] m.clients[i].pending, m.next_handle)
    &&& forall|i: int| 0 <= i < m.work.len() ==> #[trigger] item_ok(m.work[i], m.qpairs.len() as int, m.generation)
    &&& forall|i: int| 0 <= i < m.work.len() ==> has_client(m.clients, #[trigger] m.work[i].client_id)
    &&& match m.awaiting {
        Some(Awaiting::SyncIo { client_id, qpair_idx, .. }) => qpair_idx < m.qpairs.len() && has_client(m.clients, client_id),
        Some(Awaiting::AsyncSubmit { client_id, qpair_idx, .. }) => qpair_idx < m.qpairs.len() && has_client(m.clients, client_id),
        Some(Awaiting::NsCreate { client_id }) => has_client(m.clients, client_id),
        Some(Awaiting::NsCreateRefresh { client_id, .. }) => has_client(m.clients, client_id),
        Some(Awaiting::NsFormat { client_id, .. }) => has_client(m.clients, client_id),
        Some(Awaiting::NsDelete { client_id, .. }) => has_client(m.clients, client_id),
        Some(Awaiting::NsDeleteRefresh { client_id, .. }) => has_client(m.clients, client_id),
        Some(Awaiting::Reset { requester }) => has_client(m.clients, requester),
        Some(Awaiting::ResetRefresh { requester }) => has_client(m.clients, requester),
        None => true,
    }
}

/// The conditions under which dispatching the next work item at counter
/// value `now` stays within machine limits: a fresh handle is available,
/// an IO's block range fits in 64 bits, and for an asynchronous operation the client's count of operations in
/// flight and the deadline fit.
pub open spec fn step_ready(m: HandlerModel, now: u64) -> bool {
    let w = m.work.last();
    &&& m.next_handle < u64::MAX
    &&& match w.cmd {
        Command::ReadSync { ns_id, lba, buf_len, .. } => io_fits(m.namespaces, ns_id, lba, buf_len),
        Command::ReadAsync { ns_id, lba, buf_len, .. } => io_fits(m.namespaces, ns_id, lba, buf_len),
        Command::WriteSync { ns_id, lba, buf_len, .. } => io_fits(m.namespaces, ns_id, lba, Some(buf_len)),
        Command::WriteAsync { ns_id, lba, buf_len, .. } => io_fits(m.namespaces, ns_id, lba, Some(buf_len)),
        _ => true,
    }
    &&& (w.cmd is ReadAsync || w.cmd is WriteAsync) ==> {
        &&& pending_of(m.clients, w.client_id).len() < usize::MAX
        &&& now + (match w.cmd {
            Command::ReadAsync { timeout_ms, .. } => timeout_ms,
            Command::WriteAsync { timeout_ms, .. } => timeout_ms,
            _ => 0u64,
        }) * m.clock.ticks_per_ms_spec() <= u64::MAX
    }
}

/// The conditions under which applying outcome `o` stays within machine
/// limits: a successful asynchronous submission finds room in its queue
/// pair's in-flight count, and a rescan reports only namespaces with a
/// nonzero sector size.
pub open spec fn resume_ready(m: HandlerModel, o: DeviceOutcome) -> bool {
    &&& m.awaiting matches Some(a) && outcome_fits(a, o)
    &&& match (m.awaiting, o) {
        (Some(Awaiting::AsyncSubmit { qpair_idx, .. }), DeviceOutcome::Submitted { rc }) =>
            rc == 0 ==> m.qpairs[qpair_idx as int].1 < u32::MAX,
        _ => true,
    }
    &&& o matches DeviceOutcome::Namespaces { list } ==>
        forall|i: int| 0 <= i < list@.len() ==> #[trigger] list@[i].sector_size > 0
}


/// The clients after client `id` leaves: the last client takes its place.
pub open spec fn remove_client(cs: Seq<ClientModel>, id: u64) -> Seq<ClientModel> {
    if has_client(cs, id) {
        cs.update(client_idx(cs, id), cs.last()).drop_last()
    } else {
        cs
    }
}

/// `r` and the new state `n` are what `sm` describes.
pub open spec fn step_matches(n: HandlerModel, r: StepResult, sm: StepModel) -> bool {
    &&& n == sm.m
    &&& outgoing_view(r.sends@) == sm.sends
    &&& r.request == sm.request
}

/// The view of a validation result.
pub open spec fn check_view(r: Result<u64, NvmeBlockError>) -> Result<u64, ErrView> {
    match r {
        Ok(n) => Ok(n),
        Err(e) => Err(e@),
    }
}

// ---------------------------------------------------------------------
// Lemmas
// ---------------------------------------------------------------------

/// With distinct ids, the client with id `id` sits at its only index.
pub proof fn lemma_client_idx(cs: Seq<ClientModel>, id: u64, i: int)
    requires
        ids_distinct(cs),
        0 <= i < cs.len(),
        cs[i].id == id,
    ensures
        has_client(cs, id),
        client_idx(cs, id) == i,
{
    let j = client_idx(cs, id);
    assert(0 <= j < cs.len() && cs[j].id == id);
    if j < i {
        assert(cs[j].id != cs[i].id);
    } else if j > i {
        assert(cs[i].id != cs[j].id);
    }
}

/// With distinct handles, the operation with handle `h` sits at its only
/// index, and removing it is removing that index.
pub proof fn lemma_remove_handle(p: Seq<PendingOp>, h: u64, k: int)
    requires
        forall|i: int, j: int| 0 <= i < j < p.len() ==> p[i].handle != p[j].handle,
        0 <= k < p.len(),
        p[k].handle == h,
    ensures
        has_handle(p, h),
        remove_handle(p, h) == p.remove(k),
{
    assert(0 <= k < p.len() && p[k].handle == h);
    let j = choose|i: int| 0 <= i < p.len() && p[i].handle == h;
    if j < k {
        assert(p[j].handle != p[k].handle);
    } else if j > k {
        assert(p[k].handle != p[j].handle);
    }
}

/// Removing an operation keeps handles distinct and bounded.
pub proof fn lemma_remove_handle_ok(p: Seq<PendingOp>, h: u64, next: u64)
    requires
        handles_ok(p, next),
    ensures
        handles_ok(remove_handle(p, h), next),
{
    if has_handle(p, h) {
        let k = choose|i: int| 0 <= i < p.len() && p[i].handle == h;
        let r = p.remove(k);
        assert forall|i: int, j: int| 0 <= i < j < r.len() implies r[i].handle != r[j].handle by {
            let a = if i < k { i } else { i + 1 };
            let b = if j < k { j } else { j + 1 };
            assert(r[i] == p[a] && r[j] == p[b] && a < b);
        }
        assert forall|i: int| 0 <= i < r.len() implies r[i].handle < next by {
            let a = if i < k { i } else { i + 1 };
            assert(r[i] == p[a]);
        }
    }
}

/// Cancelling the clients up to `i + 1` adds client `i`'s cancellations.
pub proof fn lemma_cancel_clients_take(cs: Seq<ClientModel>, e: ErrView, i: int)
    requires
        0 <= i < cs.len(),
    ensures
        cancel_clients(cs.take(i + 1), e) == cancel_clients(cs.take(i), e) + cancel_all(cs[i].id, cs[i].pending, e),
{
    assert(cs.take(i + 1).drop_last() =~= cs.take(i));
}

/// Timeouts of the clients up to `i + 1` add client `i`'s timeouts.
pub proof fn lemma_timeouts_take(cs: Seq<ClientModel>, now: u64, i: int)
    requires
        0 <= i < cs.len(),
    ensures
        timeouts(cs.take(i + 1), now) == timeouts(cs.take(i), now) + expired(cs[i].pending, now).map_values(
            |o: PendingOp| (cs[i].id, CompletionView::Timeout { handle: o.handle }),
        ),
{
    assert(cs.take(i + 1).drop_last() =~= cs.take(i));
}

/// Filtering keeps handles distinct and bounded.
pub proof fn lemma_filter_handles_ok(p: Seq<PendingOp>, f: spec_fn(PendingOp) -> bool, next: u64)
    requires
        handles_ok(p, next),
    ensures
        handles_ok(p.filter(f), next),
    decreases p.len(),
{
    reveal(Seq::filter);
    if p.len() > 0 {
        let q = p.drop_last();
        assert(handles_ok(q, next)) by {
            assert forall|i: int, j: int| 0 <= i < j < q.len() implies q[i].handle != q[j].handle by {
                assert(q[i] == p[i] && q[j] == p[j]);
            }
            assert forall|i: int| 0 <= i < q.len() implies q[i].handle < next by {
                assert(q[i] == p[i]);
            }
        }
        lemma_filter_handles_ok(q, f, next);
        let fq = q.filter(f);
        if f(p.last()) {
            let r = fq.push(p.last());
            assert forall|i: int, j: int| 0 <= i < j < r.len() implies r[i].handle != r[j].handle by {
                if j == r.len() - 1 {
                    // r[i] comes from q, which holds no element equal in handle to p.last()
                    assert(fq.contains(fq[i]));
                    q.lemma_filter_contains_rev(f, fq[i]);
                    let k = choose|k: int| 0 <= k < q.len() && q[k] == fq[i];
                    assert(p[k] == q[k]);
                    assert(p[k].handle != p[p.len() - 1].handle);
                }
            }
        }
    }
}

/// One more step of a filter over a prefix.
pub proof fn lemma_filter_take(s: Seq<PendingOp>, f: spec_fn(PendingOp) -> bool, j: int)
    requires
        0 <= j < s.len(),
    ensures
        s.take(j + 1).filter(f) == if f(s[j]) {
            s.take(j).filter(f).push(s[j])
        } else {
            s.take(j).filter(f)
        },
{
    assert(s.take(j + 1) =~= s.take(j).push(s[j]));
    s.take(j).lemma_filter_push(s[j], f);
}

/// The operations in flight of client `id` after they were replaced by `p`.
pub proof fn lemma_pending_after_set(m: HandlerModel, id: u64, p: Seq<PendingOp>)
    requires
        model_wf(m),
        has_client(m.clients, id),
    ensures
        pending_of(with_pending(m, id, p).clients, id) == p,
{
    let cs = m.clients;
    let i = client_idx(cs, id);
    let ncs = set_pending(cs, id, p);
    assert(ids_distinct(ncs)) by {
        assert forall|a: int, b: int| 0 <= a < b < ncs.len() implies ncs[a].id != ncs[b].id by {
            assert(ncs[a].id == cs[a].id && ncs[b].id == cs[b].id);
        }
    }
    lemma_client_idx(ncs, id, i);
}

/// Removing handle `h` from operations with distinct handles leaves none
/// with handle `h`.
pub proof fn lemma_removed_absent(p: Seq<PendingOp>, h: u64, next: u64)
    requires
        handles_ok(p, next),
    ensures
        !has_handle(remove_handle(p, h), h),
{
    if has_handle(p, h) {
        let k = choose|i: int| 0 <= i < p.len() && p[i].handle == h;
        let r = p.remove(k);
        assert forall|j: int| 0 <= j < r.len() implies r[j].handle != h by {
            let a = if j < k { j } else { j + 1 };
            assert(r[j] == p[a]);
            if a < k {
                assert(p[a].handle != p[k].handle);
            } else {
                assert(p[k].handle != p[a].handle);
            }
        }
    }
}

/// An aborted operation never completes afterwards: once client `id` has
/// aborted handle `h`, the handle is no longer in flight for it, so a later
/// device completion of `h` is dropped by `complete_async`.
pub proof fn law_abort_drops_completion(m: HandlerModel, id: u64, h: u64)
    requires
        model_wf(m),
        has_client(m.clients, id),
    ensures
        !has_handle(pending_of(with_pending(m, id, remove_handle(pending_of(m.clients, id), h)).clients, id), h),
{
    let p = pending_of(m.clients, id);
    assert(handles_ok(m.clients[client_idx(m.clients, id)].pending, m.next_handle));
    lemma_removed_absent(p, h, m.next_handle);
    lemma_pending_after_set(m, id, remove_handle(p, h));
}

/// A device completion reaches the client as the operation's own kind of
/// completion for the same handle, and its result is a success exactly
/// when the status is `(0, 0)`: any other status is a read failure for a
/// read and a write failure for a write, with the text
/// `NVMe error sct=<sct> sc=<sc>`.
pub proof fn law_completion_status(is_read: bool, h: u64, sct: u16, sc: u16)
    ensures
        ({
            let c = async_done(is_read, h, async_status_error(is_read, sct, sc));
            let kind = if is_read { ErrorKind::ReadFailed } else { ErrorKind::WriteFailed };
            let right = |handle: u64, error: Option<ErrView>|
                handle == h && (error is None <==> (sct == 0 && sc == 0)) && (error matches Some(e) ==> e.kind
                    == kind && e.msg == "NVMe error sct="@ + dec(sct as nat) + " sc="@ + dec(sc as nat));
            if is_read {
                c matches CompletionView::ReadDone { handle, error } && right(handle, error)
            } else {
                c matches CompletionView::WriteDone { handle, error } && right(handle, error)
            }
        }),
{
}

/// A synchronous operation succeeds exactly when it was submitted (`rc`
/// is 0) and completed with status `(0, 0)`.
pub proof fn law_sync_status(kind: SyncKind, rc: i32, sct: u16, sc: u16)
    ensures
        sync_error(kind, rc, sct, sc) is None <==> (rc == 0 && sct == 0 && sc == 0),
{
}

/// A timed-out operation never completes afterwards: when the operation
/// with handle `h` of client `id` has reached its deadline at `now`, the
/// timeout check removes it, so a later device completion of `h` is
/// dropped by `complete_async`.
pub proof fn law_timeout_drops_completion(m: HandlerModel, now: u64, id: u64, h: u64)
    requires
        model_wf(m),
        has_client(m.clients, id),
        exists|k: int| 0 <= k < pending_of(m.clients, id).len()
            && #[trigger] pending_of(m.clients, id)[k].handle == h
            && pending_of(m.clients, id)[k].deadline <= now,
    ensures
        !has_handle(pending_of(prune_expired(m.clients, now), id), h),
{
    let cs = m.clients;
    let i = client_idx(cs, id);
    let p = cs[i].pending;
    let ncs = prune_expired(cs, now);
    assert(ids_distinct(ncs)) by {
        assert forall|a: int, b: int| 0 <= a < b < ncs.len() implies ncs[a].id != ncs[b].id by {
            assert(ncs[a].id == cs[a].id && ncs[b].id == cs[b].id);
        }
    }
    assert(ncs[i].id == id);
    lemma_client_idx(ncs, id, i);
    assert(handles_ok(p, m.next_handle));
    let k = choose|k: int| 0 <= k < pending_of(m.clients, id).len()
        && #[trigger] pending_of(m.clients, id)[k].handle == h
        && pending_of(m.clients, id)[k].deadline <= now;
    let f = |o: PendingOp| now < o.deadline;
    let q = p.filter(f);
    assert(ncs[i].pending == q);
    assert forall|j: int| 0 <= j < q.len() implies q[j].handle != h by {
        assert(q.contains(q[j]));
        p.lemma_filter_contains_rev(f, q[j]);
        let a = choose|a: int| 0 <= a < p.len() && p[a] == q[j];
        if q[j].handle == h {
            if a < k {
                assert(p[a].handle != p[k].handle);
            } else if a > k {
                assert(p[k].handle != p[a].handle);
            }
        }
    }
}

// ---------------------------------------------------------------------
// Executable part
// ---------------------------------------------------------------------

/// The "done" completion of a synchronous operation.
fn make_sync_done(kind: SyncKind, handle: u64, result: Result<(), NvmeBlockError>) -> (c: Completion)
    ensures
        c@ == sync_done(kind, handle, result_error(result)),
{
    match kind {
        SyncKind::Read => Completion::ReadDone { handle: OpHandle(handle), result },
        SyncKind::Write => Completion::WriteDone { handle: OpHandle(handle), result },
        SyncKind::WriteZeros => Completion::WriteZerosDone { handle: OpHandle(handle), result },
    }
}

/// The "done" completion of an asynchronous operation.
fn make_async_done(is_read: bool, handle: u64, result: Result<(), NvmeBlockError>) -> (c: Completion)
    ensures
        c@ == async_done(is_read, handle, result_error(result)),
{
    if is_read {
        Completion::ReadDone { handle: OpHandle(handle), result }
    } else {
        Completion::WriteDone { handle: OpHandle(handle), result }
    }
}

/// The error of a finished synchronous operation.
fn make_sync_result(kind: SyncKind, rc: i32, sct: u16, sc: u16) -> (r: Result<(), NvmeBlockError>)
    ensures
        result_error(r) == sync_error(kind, rc, sct, sc),
{
    if rc != 0 {
        let (k, msg) = match kind {
            SyncKind::Read => (ErrorKind::ReadFailed, with_rc("spdk_nvme_ns_cmd_read failed with rc=", rc)),
            SyncKind::Write => (ErrorKind::WriteFailed, with_rc("spdk_nvme_ns_cmd_write failed with rc=", rc)),
            SyncKind::WriteZeros => (ErrorKind::WriteFailed, with_rc("spdk_nvme_ns_cmd_write_zeroes failed with rc=", rc)),
        };
        Err(make_error(k, msg))
    } else if sct != 0 || sc != 0 {
        let msg = match kind {
            SyncKind::Read => status_text("read: ", sct, sc),
            SyncKind::Write => status_text("write: ", sct, sc),
            SyncKind::WriteZeros => status_text("write_zeros: ", sct, sc),
        };
        proof {
            reveal_strlit("read: ");
            reveal_strlit("write: ");
            reveal_strlit("write_zeros: ");
            reveal_strlit("read");
            reveal_strlit("write");
            reveal_strlit("write_zeros");
            reveal_strlit(": ");
            assert("read: "@ =~= "read"@ + ": "@);
            assert("write: "@ =~= "write"@ + ": "@);
            assert("write_zeros: "@ =~= "write_zeros"@ + ": "@);
        }
        Err(make_error(ErrorKind::WriteFailed, msg))
    } else {
        Ok(())
    }
}

impl BlockDeviceHandler {
    /// The abstract state.
    pub closed spec fn model(&self) -> HandlerModel {
        HandlerModel {
            namespaces: self.namespaces@,
            qpairs: self.qpairs@,
            clients: self.clients@.map_values(|c: ClientState| c@),
            next_handle: self.next_handle,
            work: self.work@,
            awaiting: self.awaiting,
            clock: self.clock,
            last_timeout_check: self.last_timeout_check,
            generation: self.generation,
        }
    }

    /// Creates a handler for a controller with the given namespaces and
    /// queue pairs, using `clock` for deadlines and the dispatch rules of
    /// `generation`; `now` is the current counter value. Handles start at 1.
    pub fn new(
        namespaces: Vec<NvmeNamespaceInfo>,
        qpairs: QueuePairPool,
        clock: TscClock,
        now: u64,
        generation: Generation,
    ) -> (r: Self)
        requires
            forall|i: int| 0 <= i < namespaces@.len() ==> #[trigger] namespaces@[i].sector_size > 0,
            qpairs@.len() > 0,
        ensures
            model_wf(r.model()),
            r.model() == (HandlerModel {
                namespaces: namespaces@,
                qpairs: qpairs@,
                clients: Seq::empty(),
                next_handle: 1,
                work: Seq::empty(),
                awaiting: None,
                clock,
                last_timeout_check: now,
                generation,
            }),
    {
        let r = BlockDeviceHandler {
            namespaces,
            qpairs,
            clients: Vec::new(),
            next_handle: 1,
            work: Vec::new(),
            awaiting: None,
            clock,
            last_timeout_check: now,
            generation,
        };
        proof {
            assert(r.model() =~~= (HandlerModel {
                namespaces: namespaces@,
                qpairs: qpairs@,
                clients: Seq::empty(),
                next_handle: 1,
                work: Seq::empty(),
                awaiting: None,
                clock,
                last_timeout_check: now,
                generation,
            }));
        }
        r
    }

    /// The namespaces currently known.
    pub fn namespaces(&self) -> (r: &Vec<NvmeNamespaceInfo>)
        ensures
            r@ == self.model().namespaces,
    {
        &self.namespaces
    }

    /// Number of connected clients.
    pub fn client_count(&self) -> (r: usize)
        ensures
            r == self.model().clients.len(),
    {
        self.clients.len()
    }

    /// Whether commands remain to be dispatched.
    pub fn has_work(&self) -> (r: bool)
        ensures
            r <==> self.model().work.len() > 0,
    {
        self.work.len() > 0
    }

    /// Whether the handler waits for the outcome of a device request.
    pub fn is_waiting(&self) -> (r: bool)
        ensures
            r <==> self.model().awaiting is Some,
    {
        self.awaiting.is_some()
    }

    fn find_client(&self, id: u64) -> (r: Option<usize>)
        requires
            model_wf(self.model()),
        ensures
            match r {
                Some(i) => i < self.clients@.len() && self.clients@[i as int]@.id == id
                    && has_client(self.model().clients, id) && client_idx(self.model().clients, id) == i,
                None => !has_client(self.model().clients, id),
            },
    {
        let ghost cs = self.model().clients;
        let mut i: usize = 0;
        while i < self.clients.len()
            invariant
                0 <= i <= self.clients@.len(),
                cs == self.clients@.map_values(|c: ClientState| c@),
                ids_distinct(cs),
                forall|j: int| 0 <= j < i ==> cs[j].id != id,
            decreases self.clients@.len() - i,
        {
            if self.clients[i].id == id {
                proof {
                    lemma_client_idx(cs, id, i as int);
                }
                return Some(i);
            }
            i = i + 1;
        }
        None
    }

    /// Registers a newly connected client with no operations in flight.
    pub fn connect_client(&mut self, id: u64)
        requires
            model_wf(old(self).model()),
            old(self).model().awaiting is None,
            !has_client(old(self).model().clients, id),
        ensures
            model_wf(final(self).model()),
            final(self).model() == (HandlerModel {
                clients: old(self).model().clients.push(ClientModel { id, pending: Seq::empty() }),
                ..old(self).model()
            }),
    {
        let ghost old_m = self.model();
        self.clients.push(ClientState { id, pending_ops: Vec::new() });
        proof {
            let m = self.model();
            assert(m.clients =~~= old_m.clients.push(ClientModel { id, pending: Seq::empty() }));
            assert forall|i: int| 0 <= i < m.work.len() implies has_client(m.clients, #[trigger] m.work[i].client_id) by {
                let k = choose|k: int| 0 <= k < old_m.clients.len() && old_m.clients[k].id == old_m.work[i].client_id;
                assert(m.clients[k] == old_m.clients[k]);
            }
            assert(m =~~= HandlerModel { clients: old_m.clients.push(ClientModel { id, pending: Seq::empty() }), ..old_m });
        }
    }

    /// Removes client `id`; the last client takes its place. Nothing
    /// changes when no such client is connected.
    pub fn disconnect_client(&mut self, id: u64)
        requires
            model_wf(old(self).model()),
            old(self).model().awaiting is None,
            old(self).model().work.len() == 0,
        ensures
            model_wf(final(self).model()),
            final(self).model() == (HandlerModel {
                clients: remove_client(old(self).model().clients, id),
                ..old(self).model()
            }),
    {
        let ghost old_m = self.model();
        match self.find_client(id) {
            Some(i) => {
                let _ = self.clients.swap_remove(i);
                proof {
                    let m = self.model();
                    let cs = old_m.clients;
                    assert(m.clients =~~= cs.update(i as int, cs.last()).drop_last());
                    let n = cs.len() - 1;
                    assert forall|a: int, b: int| 0 <= a < b < m.clients.len() implies m.clients[a].id != m.clients[b].id by {
                        let a0 = if a == i { n } else { a };
                        let b0 = if b == i { n } else { b };
                        assert(m.clients[a] == cs[a0] && m.clients[b] == cs[b0]);
                        assert(a0 != b0);
                    }
                    assert forall|a: int| 0 <= a < m.clients.len() implies handles_ok(#[trigger] m.clients[a].pending, m.next_handle) by {
                        let a0 = if a == i { n } else { a };
                        assert(m.clients[a] == cs[a0]);
                    }
                    assert(m =~~= HandlerModel { clients: remove_client(old_m.clients, id), ..old_m });
                }
            },
            None => {
                proof {
                    assert(self.model() =~~= HandlerModel { clients: remove_client(old_m.clients, id), ..old_m });
                }
            },
        }
    }

    /// Queues a command from client `client_id` for dispatch, behind all
    /// work already queued: the next item to dispatch is the last of the
    /// work list, so commands join it at the front and are dispatched in
    /// the order they were received.
    pub fn submit_command(&mut self, client_id: u64, cmd: Command)
        requires
            model_wf(old(self).model()),
            old(self).model().awaiting is None,
            has_client(old(self).model().clients, client_id),
            command_ok(cmd, old(self).model().generation),
        ensures
            model_wf(final(self).model()),
            final(self).model() == (HandlerModel {
                work: seq![WorkItem { client_id, cmd, qp_override: None }] + old(self).model().work,
                ..old(self).model()
            }),
    {
        let ghost old_m = self.model();
        let ghost item = WorkItem { client_id, cmd, qp_override: None };
        self.work.insert(0, WorkItem { client_id, cmd, qp_override: None });
        proof {
            let m = self.model();
            assert(m.work =~= seq![item] + old_m.work);
            assert(m =~~= HandlerModel { work: seq![item] + old_m.work, ..old_m });
            assert forall|i: int| 0 <= i < m.work.len() implies #[trigger] item_ok(m.work[i], m.qpairs.len() as int, m.generation) by {
                if i > 0 {
                    assert(m.work[i] == old_m.work[i - 1]);
                }
            }
            assert forall|i: int| 0 <= i < m.work.len() implies has_client(m.clients, #[trigger] m.work[i].client_id) by {
                if i > 0 {
                    assert(m.work[i] == old_m.work[i - 1]);
                }
            }
        }
    }

    fn check_io(&self, ns_id: u32, lba: u64, len: Option<u64>) -> (r: Result<u64, NvmeBlockError>)
        requires
            model_wf(self.model()),
            io_fits(self.model().namespaces, ns_id, lba, len),
        ensures
            check_view(r) == io_check(self.model().namespaces, ns_id, lba, len),
    {
        proof {
            crate::nvme::lemma_find_ns(self.namespaces@, ns_id);
        }
        match validate_ns_id(&self.namespaces, ns_id) {
            Err(e) => Err(e),
            Ok(ns) => match len {
                None => {
                    proof {
                        reveal_strlit("buffer lock poisoned");
                    }
                    Err(make_error(ErrorKind::ClientDisconnected, String::from_str("buffer lock poisoned")))
                },
                Some(n) => {
                    let ghost i = find_ns(self.namespaces@, ns_id)->0;
                    assert(ns.sector_size > 0);
                    let nb = n / ns.sector_size as u64;
                    match validate_lba_range(&ns, lba, nb) {
                        Err(e) => Err(e),
                        Ok(()) => Ok(nb),
                    }
                },
            },
        }
    }

    fn check_zeros(&self, ns_id: u32, lba: u64, nb: u32) -> (r: Result<u64, NvmeBlockError>)
        requires
            model_wf(self.model()),
            lba + nb <= u64::MAX,
        ensures
            check_view(r) == zeros_check(self.model().namespaces, ns_id, lba, nb),
    {
        proof {
            crate::nvme::lemma_find_ns(self.namespaces@, ns_id);
        }
        match validate_ns_id(&self.namespaces, ns_id) {
            Err(e) => Err(e),
            Ok(ns) => match validate_lba_range(&ns, lba, nb as u64) {
                Err(e) => Err(e),
                Ok(()) => Ok(nb as u64),
            },
        }
    }

    fn do_sync(
        &mut self,
        id: u64,
        kind: SyncKind,
        ns_id: u32,
        lba: u64,
        buf: u64,
        check: Result<u64, NvmeBlockError>,
    ) -> (r: StepResult)
        requires
            model_wf(old(self).model()),
            old(self).model().awaiting is None,
            old(self).model().next_handle < u64::MAX,
            has_client(old(self).model().clients, id),
        ensures
            model_wf(final(self).model()),
            step_matches(final(self).model(), r, sync_step(old(self).model(), id, kind, ns_id, lba, buf, check_view(check))),
    {
        let ghost old_m = self.model();
        let h = self.next_handle;
        self.next_handle = h + 1;
        let ghost m1 = HandlerModel { next_handle: (h + 1) as u64, ..old_m };
        proof {
            assert(self.model() =~~= m1);
            assert forall|i: int| 0 <= i < m1.clients.len() implies handles_ok(#[trigger] m1.clients[i].pending, m1.next_handle) by {
                assert(handles_ok(old_m.clients[i].pending, old_m.next_handle));
            }
        }
        let mut sends: Vec<Outgoing> = Vec::new();
        match check {
            Err(e) => {
                let c = make_sync_done(kind, h, Err(e));
                sends.push(Outgoing { client_id: id, completion: c });
                proof {
                    assert(outgoing_view(sends@) =~= seq![(id, sync_done(kind, h, Some(e@)))]);
                }
                StepResult { sends, request: None }
            },
            Ok(nb) => {
                let q = self.qpairs.select_index(1);
                proof {
                    crate::qpair::lemma_select_spec(self.qpairs@, 1);
                }
                self.awaiting = Some(Awaiting::SyncIo { client_id: id, handle: h, kind, qpair_idx: q });
                proof {
                    assert(outgoing_view(sends@) =~= Seq::<(u64, CompletionView)>::empty());
                    assert(self.model() =~~= HandlerModel {
                        awaiting: Some(Awaiting::SyncIo { client_id: id, handle: h, kind, qpair_idx: q }),
                        ..m1
                    });
                }
                StepResult {
                    sends,
                    request: Some(DeviceRequest::SyncIo { kind, ns_id, lba, num_blocks: nb as u32, buf, qpair_idx: q }),
                }
            },
        }
    }

    fn do_async(
        &mut self,
        id: u64,
        is_read: bool,
        ns_id: u32,
        lba: u64,
        buf: u64,
        timeout_ms: u64,
        qo: Option<usize>,
        check: Result<u64, NvmeBlockError>,
        now: u64,
    ) -> (r: StepResult)
        requires
            model_wf(old(self).model()),
            old(self).model().awaiting is None,
            old(self).model().next_handle < u64::MAX,
            has_client(old(self).model().clients, id),
            qo matches Some(i) ==> i < old(self).model().qpairs.len(),
            pending_of(old(self).model().clients, id).len() < usize::MAX,
            now + timeout_ms * old(self).model().clock.ticks_per_ms_spec() <= u64::MAX,
        ensures
            model_wf(final(self).model()),
            step_matches(
                final(self).model(),
                r,
                async_step(old(self).model(), id, is_read, ns_id, lba, buf, timeout_ms, qo, check_view(check), now),
            ),
    {
        let ghost old_m = self.model();
        let h = self.next_handle;
        self.next_handle = h + 1;
        let ghost m1 = HandlerModel { next_handle: (h + 1) as u64, ..old_m };
        proof {
            assert(self.model() =~~= m1);
            assert forall|i: int| 0 <= i < m1.clients.len() implies handles_ok(#[trigger] m1.clients[i].pending, m1.next_handle) by {
                assert(handles_ok(old_m.clients[i].pending, old_m.next_handle));
            }
        }
        let mut sends: Vec<Outgoing> = Vec::new();
        match check {
            Err(e) => {
                let c = make_async_done(is_read, h, Err(e));
                sends.push(Outgoing { client_id: id, completion: c });
                proof {
                    assert(outgoing_view(sends@) =~= seq![(id, async_done(is_read, h, Some(e@)))]);
                }
                StepResult { sends, request: None }
            },
            Ok(nb) => {
                let i = match self.find_client(id) {
                    Some(i) => i,
                    None => {
                        proof {
                            assert(false);
                        }
                        0
                    },
                };
                let ghost p = self.clients@[i as int].pending_ops@;
                let q = match qo {
                    Some(qi) => qi,
                    None => {
                        proof {
                            crate::qpair::lemma_select_spec(self.qpairs@, p.len() as int + 1);
                        }
                        self.qpairs.select_index(self.clients[i].pending_ops.len() + 1)
                    },
                };
                let deadline = self.clock.deadline_from_ms(now, timeout_ms);
                let op = PendingOp { handle: h, deadline, qpair_idx: q, buf };
                let c = &mut self.clients[i];
                c.pending_ops.push(op);
                self.awaiting = Some(Awaiting::AsyncSubmit { client_id: id, handle: h, is_read, qpair_idx: q });
                proof {
                    let m = self.model();
                    let target = HandlerModel {
                        awaiting: Some(Awaiting::AsyncSubmit { client_id: id, handle: h, is_read, qpair_idx: q }),
                        ..with_pending(m1, id, p.push(op))
                    };
                    assert(m.clients =~~= m1.clients.update(i as int, ClientModel { id, pending: p.push(op) }));
                    assert(m =~~= target);
                    assert(outgoing_view(sends@) =~= Seq::<(u64, CompletionView)>::empty());
                    // well-formedness of the new client record
                    let np = p.push(op);
                    assert(handles_ok(p, old_m.next_handle));
                    assert forall|a: int, b: int| 0 <= a < b < np.len() implies np[a].handle != np[b].handle by {
                        if b == np.len() - 1 {
                            assert(np[a] == p[a]);
                        } else {
                            assert(np[a] == p[a] && np[b] == p[b]);
                        }
                    }
                    assert forall|a: int| 0 <= a < m.clients.len() implies handles_ok(#[trigger] m.clients[a].pending, m.next_handle) by {
                        if a != i {
                            assert(m.clients[a] == m1.clients[a]);
                        }
                    }
                    assert forall|a: int| 0 <= a < m.work.len() implies has_client(m.clients, #[trigger] m.work[a].client_id) by {
                        let k = choose|k: int| 0 <= k < m1.clients.len() && m1.clients[k].id == m1.work[a].client_id;
                        assert(m.clients[k].id == m1.clients[k].id);
                    }
                    assert(m.clients[i as int].id == id);
                    assert(ids_distinct(m.clients)) by {
                        assert forall|a: int, b: int| 0 <= a < b < m.clients.len() implies m.clients[a].id != m.clients[b].id by {
                            assert(m.clients[a].id == m1.clients[a].id && m.clients[b].id == m1.clients[b].id);
                        }
                    }
                }
                StepResult {
                    sends,
                    request: Some(DeviceRequest::SubmitAsync {
                        client_id: id,
                        handle: h,
                        is_read,
                        ns_id,
                        lba,
                        num_blocks: nb as u32,
                        buf,
                        qpair_idx: q,
                    }),
                }
            },
        }
    }

    fn do_batch(&mut self, id: u64, ops: Vec<Command>) -> (r: StepResult)
        requires
            model_wf(old(self).model()),
            has_client(old(self).model().clients, id),
            old(self).model().generation == Generation::V2 ==> forall|i: int| 0 <= i < ops@.len() ==> reset_free(
                #[trigger] ops@[i],
            ),
            forall|i: int| 0 <= i < ops@.len() ==> ranges_fit(#[trigger] ops@[i]),
        ensures
            model_wf(final(self).model()),
            step_matches(final(self).model(), r, StepModel {
                m: HandlerModel {
                    work: old(self).model().work + batch_items(
                        id,
                        ops@,
                        batch_pin(old(self).model(), ops@.len() as int),
                    ),
                    ..old(self).model()
                },
                sends: Seq::empty(),
                request: None,
            }),
    {
        let ghost old_m = self.model();
        let ghost all = ops@;
        let n = ops.len();
        let q = self.qpairs.select_index(n);
        proof {
            crate::qpair::lemma_select_spec(self.qpairs@, n as int);
        }
        let qo = match self.generation {
            Generation::V2 => Some(q),
            Generation::V1 => None,
        };
        let ghost items = batch_items(id, all, qo);
        let mut ops = ops;
        let mut k: usize = 0;
        while ops.len() > 0
            invariant
                k <= n,
                n == all.len(),
                ops@ == all.take(n - k),
                self.model() == (HandlerModel { work: old_m.work + items.take(k as int), ..old_m }),
                items == batch_items(id, all, qo),
            decreases ops.len(),
        {
            let op = ops.pop().unwrap();
            let ghost w = self.work@;
            self.work.push(WorkItem { client_id: id, cmd: op, qp_override: qo });
            proof {
                assert(op == all[n - 1 - k]);
                assert(items.take(k + 1) =~= items.take(k as int).push(items[k as int]));
                assert(self.work@ =~= old_m.work + items.take(k + 1));
                assert(ops@ =~= all.take(n - (k + 1)));
            }
            k = k + 1;
            proof {
                assert(self.model() =~~= HandlerModel { work: old_m.work + items.take(k as int), ..old_m });
            }
        }
        proof {
            assert(items.take(n as int) =~= items);
            let m = self.model();
            assert forall|i: int| 0 <= i < m.work.len() implies #[trigger] item_ok(m.work[i], m.qpairs.len() as int, m.generation) by {
                if i >= old_m.work.len() {
                    let t = i - old_m.work.len();
                    assert(m.work[i] == items[t]);
                    assert(ranges_fit(all[n - 1 - t]));
                }
            }
            assert forall|i: int| 0 <= i < m.work.len() implies has_client(m.clients, #[trigger] m.work[i].client_id) by {
                if i >= old_m.work.len() {
                    assert(m.work[i] == items[i - old_m.work.len()]);
                } else {
                    assert(m.work[i] == old_m.work[i]);
                }
            }
        }
        let sends: Vec<Outgoing> = Vec::new();
        proof {
            assert(outgoing_view(sends@) =~= Seq::<(u64, CompletionView)>::empty());
        }
        StepResult { sends, request: None }
    }

    fn do_abort(&mut self, id: u64, handle: OpHandle) -> (r: StepResult)
        requires
            model_wf(old(self).model()),
            has_client(old(self).model().clients, id),
        ensures
            model_wf(final(self).model()),
            step_matches(final(self).model(), r, reply(
                with_pending(old(self).model(), id, remove_handle(pending_of(old(self).model().clients, id), handle.0)),
                id,
                CompletionView::AbortAck { handle: handle.0 },
            )),
    {
        let ghost old_m = self.model();
        let i = match self.find_client(id) {
            Some(i) => i,
            None => {
                proof {
                    assert(false);
                }
                0
            },
        };
        self.remove_op(i, handle.0);
        let mut sends: Vec<Outgoing> = Vec::new();
        sends.push(Outgoing { client_id: id, completion: Completion::AbortAck { handle } });
        proof {
            assert(outgoing_view(sends@) =~= seq![(id, CompletionView::AbortAck { handle: handle.0 })]);
        }
        StepResult { sends, request: None }
    }

    /// Removes the operation with handle `h` from client number `i`.
    fn remove_op(&mut self, i: usize, h: u64)
        requires
            model_wf(old(self).model()),
            i < old(self).clients@.len(),
        ensures
            model_wf(final(self).model()),
            final(self).model() == with_pending(
                old(self).model(),
                old(self).clients@[i as int]@.id,
                remove_handle(old(self).clients@[i as int]@.pending, h),
            ),
            final(self).clients@.len() == old(self).clients@.len(),
    {
        let ghost old_m = self.model();
        let ghost id = self.clients@[i as int].id;
        let ghost p = self.clients@[i as int].pending_ops@;
        proof {
            lemma_client_idx(old_m.clients, id, i as int);
            assert(handles_ok(old_m.clients[i as int].pending, old_m.next_handle));
            lemma_remove_handle_ok(p, h, old_m.next_handle);
        }
        let mut k: usize = 0;
        let len = self.clients[i].pending_ops.len();
        while k < len
            invariant
                k <= len,
                len == p.len(),
                self.model() == old_m,
                self.clients@.len() == old_m.clients.len(),
                i < self.clients@.len(),
                self.clients@[i as int].pending_ops@ == p,
                forall|j: int| 0 <= j < k ==> p[j].handle != h,
            ensures
                k < len ==> p[k as int].handle == h,
            decreases len - k,
        {
            if self.clients[i].pending_ops[k].handle == h {
                break;
            }
            k = k + 1;
        }
        if k < len {
            proof {
                lemma_remove_handle(p, h, k as int);
            }
            let c = &mut self.clients[i];
            let _ = c.pending_ops.remove(k);
        } else {
            proof {
                assert(!has_handle(p, h));
            }
        }
        proof {
            let m = self.model();
            assert(m.clients =~~= old_m.clients.update(i as int, ClientModel { id, pending: remove_handle(p, h) }));
            assert(m =~~= with_pending(old_m, id, remove_handle(p, h)));
            assert forall|a: int| 0 <= a < m.clients.len() implies handles_ok(#[trigger] m.clients[a].pending, m.next_handle) by {
                if a != i {
                    assert(m.clients[a] == old_m.clients[a]);
                }
            }
            assert forall|a: int, b: int| 0 <= a < b < m.clients.len() implies m.clients[a].id != m.clients[b].id by {
                assert(m.clients[a].id == old_m.clients[a].id && m.clients[b].id == old_m.clients[b].id);
            }
            assert forall|a: int| 0 <= a < m.work.len() implies has_client(m.clients, #[trigger] m.work[a].client_id) by {
                let kk = choose|kk: int| 0 <= kk < old_m.clients.len() && old_m.clients[kk].id == old_m.work[a].client_id;
                assert(m.clients[kk].id == old_m.clients[kk].id);
            }
            assert(match m.awaiting {
                Some(Awaiting::SyncIo { client_id, qpair_idx, .. }) => has_client(m.clients, client_id),
                Some(Awaiting::AsyncSubmit { client_id, qpair_idx, .. }) => has_client(m.clients, client_id),
                Some(Awaiting::NsCreate { client_id }) => has_client(m.clients, client_id),
                Some(Awaiting::NsCreateRefresh { client_id, .. }) => has_client(m.clients, client_id),
                Some(Awaiting::NsFormat { client_id, .. }) => has_client(m.clients, client_id),
                Some(Awaiting::NsDelete { client_id, .. }) => has_client(m.clients, client_id),
                Some(Awaiting::NsDeleteRefresh { client_id, .. }) => has_client(m.clients, client_id),
                Some(Awaiting::Reset { requester }) => has_client(m.clients, requester),
                Some(Awaiting::ResetRefresh { requester }) => has_client(m.clients, requester),
                None => true,
            }) by {
                assert forall|cid: u64| has_client(old_m.clients, cid) implies has_client(m.clients, cid) by {
                    let kk = choose|kk: int| 0 <= kk < old_m.clients.len() && old_m.clients[kk].id == cid;
                    assert(m.clients[kk].id == old_m.clients[kk].id);
                }
            }
        }
    }

    /// Cancels every operation in flight of client number `i` with an
    /// `Aborted` error carrying `msg`, oldest first.
    fn cancel_one(&mut self, i: usize, msg: &str) -> (sends: Vec<Outgoing>)
        requires
            model_wf(old(self).model()),
            i < old(self).clients@.len(),
        ensures
            model_wf(final(self).model()),
            final(self).clients@.len() == old(self).clients@.len(),
            final(self).model() == with_pending(old(self).model(), old(self).clients@[i as int]@.id, Seq::empty()),
            outgoing_view(sends@) == cancel_all(
                old(self).clients@[i as int]@.id,
                old(self).clients@[i as int]@.pending,
                ErrView { kind: ErrorKind::Aborted, msg: msg@ },
            ),
    {
        let ghost old_m = self.model();
        let ghost e = ErrView { kind: ErrorKind::Aborted, msg: msg@ };
        let id = self.clients[i].id;
        let ghost p = self.clients@[i as int].pending_ops@;
        proof {
            lemma_client_idx(old_m.clients, id, i as int);
        }
        let mut sends: Vec<Outgoing> = Vec::new();
        let plen = self.clients[i].pending_ops.len();
        let mut j: usize = 0;
        proof {
            assert(outgoing_view(sends@) =~= cancel_all(id, p.take(0), e));
        }
        while j < plen
            invariant
                0 <= j <= plen,
                plen == p.len(),
                i < self.clients@.len(),
                self.clients@[i as int].pending_ops@ == p,
                outgoing_view(sends@) == cancel_all(id, p.take(j as int), e),
                e == (ErrView { kind: ErrorKind::Aborted, msg: msg@ }),
            decreases plen - j,
        {
            let h = self.clients[i].pending_ops[j].handle;
            let err = make_error(ErrorKind::Aborted, String::from_str(msg));
            let ghost before = sends@;
            let out = Outgoing { client_id: id, completion: Completion::Error { handle: Some(OpHandle(h)), error: err } };
            proof {
                assert(err@.msg =~= e.msg);
                assert(err@ =~~= e);
                assert(out.completion@ =~~= CompletionView::Error { handle: Some(h), error: e });
            }
            sends.push(out);
            proof {
                assert(outgoing_view(sends@) =~= outgoing_view(before).push((id, CompletionView::Error { handle: Some(h), error: e })));
                assert(p.take(j + 1) =~= p.take(j as int).push(p[j as int]));
                assert(cancel_all(id, p.take(j + 1), e) =~= cancel_all(id, p.take(j as int), e).push(
                    (id, CompletionView::Error { handle: Some(h), error: e }),
                ));
            }
            j = j + 1;
        }
        let ghost before = self.clients@;
        let c = &mut self.clients[i];
        c.pending_ops.clear();
        proof {
            assert(p.take(plen as int) =~= p);
            let m = self.model();
            assert(m.clients =~~= old_m.clients.update(i as int, ClientModel { id, pending: Seq::empty() }));
            assert(m =~~= with_pending(old_m, id, Seq::empty()));
            assert forall|a: int| 0 <= a < m.clients.len() implies handles_ok(#[trigger] m.clients[a].pending, m.next_handle) by {
                if a != i {
                    assert(m.clients[a] == old_m.clients[a]);
                }
            }
            assert forall|a: int, b: int| 0 <= a < b < m.clients.len() implies m.clients[a].id != m.clients[b].id by {
                assert(m.clients[a].id == old_m.clients[a].id && m.clients[b].id == old_m.clients[b].id);
            }
            assert forall|cid: u64| has_client(old_m.clients, cid) implies has_client(m.clients, cid) by {
                let kk = choose|kk: int| 0 <= kk < old_m.clients.len() && old_m.clients[kk].id == cid;
                assert(m.clients[kk].id == old_m.clients[kk].id);
            }
            assert forall|a: int| 0 <= a < m.work.len() implies has_client(m.clients, #[trigger] m.work[a].client_id) by {
                assert(has_client(old_m.clients, m.work[a].client_id));
            }
        }
        sends
    }

    /// Cancels every operation in flight of every client with an `Aborted`
    /// error carrying `msg`, client by client.
    fn cancel_everything(&mut self, msg: &str) -> (sends: Vec<Outgoing>)
        requires
            model_wf(old(self).model()),
        ensures
            model_wf(final(self).model()),
            final(self).model() == (HandlerModel { clients: clear_pending(old(self).model().clients), ..old(self).model() }),
            outgoing_view(sends@) == cancel_clients(old(self).model().clients, ErrView { kind: ErrorKind::Aborted, msg: msg@ }),
    {
        let ghost old_m = self.model();
        let ghost cs = old_m.clients;
        let ghost e = ErrView { kind: ErrorKind::Aborted, msg: msg@ };
        let mut sends: Vec<Outgoing> = Vec::new();
        let mut i: usize = 0;
        proof {
            assert(clear_pending(cs.take(0)) + cs.skip(0) =~= cs);
            assert(self.model() =~~= HandlerModel { clients: clear_pending(cs.take(0)) + cs.skip(0), ..old_m });
            assert(outgoing_view(sends@) =~= cancel_clients(cs.take(0), e));
        }
        while i < self.clients.len()
            invariant
                0 <= i <= cs.len(),
                self.clients@.len() == cs.len(),
                self.model() == (HandlerModel { clients: clear_pending(cs.take(i as int)) + cs.skip(i as int), ..old_m }),
                outgoing_view(sends@) == cancel_clients(cs.take(i as int), e),
                e == (ErrView { kind: ErrorKind::Aborted, msg: msg@ }),
            decreases cs.len() - i,
        {
            let id = self.clients[i].id;
            let ghost p = self.clients@[i as int].pending_ops@;
            proof {
                assert(self.model().clients[i as int] == cs[i as int]);
                assert(self.clients@[i as int]@ == cs[i as int]);
            }
            let plen = self.clients[i].pending_ops.len();
            let mut j: usize = 0;
            while j < plen
                invariant
                    0 <= j <= plen,
                    plen == p.len(),
                    i < self.clients@.len(),
                    self.clients@[i as int].pending_ops@ == p,
                    outgoing_view(sends@) == cancel_clients(cs.take(i as int), e) + cancel_all(id, p.take(j as int), e),
                    e == (ErrView { kind: ErrorKind::Aborted, msg: msg@ }),
                decreases plen - j,
            {
                let h = self.clients[i].pending_ops[j].handle;
                let err = make_error(ErrorKind::Aborted, String::from_str(msg));
                let ghost before = sends@;
                let out = Outgoing { client_id: id, completion: Completion::Error { handle: Some(OpHandle(h)), error: err } };
                proof {
                    assert(err@.msg =~= e.msg);
                    assert(err@ =~~= e);
                    assert(out.completion@ =~~= CompletionView::Error { handle: Some(h), error: e });
                }
                sends.push(out);
                proof {
                    assert(outgoing_view(sends@) =~= outgoing_view(before).push((id, CompletionView::Error { handle: Some(h), error: e })));
                    assert(p.take(j + 1) =~= p.take(j as int).push(p[j as int]));
                    assert(cancel_all(id, p.take(j + 1), e) =~= cancel_all(id, p.take(j as int), e).push(
                        (id, CompletionView::Error { handle: Some(h), error: e }),
                    ));
                    assert(outgoing_view(sends@) =~= cancel_clients(cs.take(i as int), e) + cancel_all(id, p.take(j + 1), e));
                }
                j = j + 1;
            }
            let ghost before = self.clients@;
            let c = &mut self.clients[i];
            c.pending_ops.clear();
            proof {
                assert(forall|k: int| 0 <= k < before.len() && k != i ==> self.clients@[k] == before[k]);
                assert(self.clients@[i as int]@ =~~= ClientModel { id, pending: Seq::empty() });
                let prev = clear_pending(cs.take(i as int)) + cs.skip(i as int);
                let next = clear_pending(cs.take(i + 1)) + cs.skip(i + 1);
                assert forall|k: int| 0 <= k < cs.len() implies #[trigger] self.model().clients[k] =~~= next[k] by {
                    if k != i {
                        assert(self.model().clients[k] == before[k]@);
                        assert(before.map_values(|c: ClientState| c@)[k] == prev[k]);
                    }
                }
                assert(p.take(plen as int) =~= p);
                lemma_cancel_clients_take(cs, e, i as int);
                assert(self.model().clients =~~= clear_pending(cs.take(i + 1)) + cs.skip(i + 1));
            }
            i = i + 1;
            proof {
                assert(self.model() =~~= HandlerModel { clients: clear_pending(cs.take(i as int)) + cs.skip(i as int), ..old_m });
            }
        }
        proof {
            assert(cs.take(i as int) =~= cs);
            assert(clear_pending(cs.take(i as int)) + cs.skip(i as int) =~~= clear_pending(cs));
            let m = self.model();
            assert(m =~~= HandlerModel { clients: clear_pending(cs), ..old_m });
            assert forall|a: int, b: int| 0 <= a < b < m.clients.len() implies m.clients[a].id != m.clients[b].id by {
                assert(m.clients[a].id == cs[a].id && m.clients[b].id == cs[b].id);
            }
            assert forall|a: int| 0 <= a < m.work.len() implies has_client(m.clients, #[trigger] m.work[a].client_id) by {
                let kk = choose|kk: int| 0 <= kk < cs.len() && cs[kk].id == m.work[a].client_id;
                assert(m.clients[kk].id == cs[kk].id);
            }
            assert forall|cid: u64| has_client(cs, cid) implies has_client(m.clients, cid) by {
                let kk = choose|kk: int| 0 <= kk < cs.len() && cs[kk].id == cid;
                assert(m.clients[kk].id == cs[kk].id);
            }
        }
        sends
    }

    /// Times out every operation whose deadline has been reached at counter
    /// value `now`: each is removed and answered with a `Timeout`, client by
    /// client, oldest first.
    pub fn check_timeouts(&mut self, now: u64) -> (sends: Vec<Outgoing>)
        requires
            model_wf(old(self).model()),
        ensures
            model_wf(final(self).model()),
            final(self).model() == (HandlerModel { clients: prune_expired(old(self).model().clients, now), ..old(self).model() }),
            outgoing_view(sends@) == timeouts(old(self).model().clients, now),
    {
        let ghost old_m = self.model();
        let ghost cs = old_m.clients;
        let mut sends: Vec<Outgoing> = Vec::new();
        let mut i: usize = 0;
        proof {
            assert(prune_expired(cs.take(0), now) + cs.skip(0) =~= cs);
            assert(self.model() =~~= HandlerModel { clients: prune_expired(cs.take(0), now) + cs.skip(0), ..old_m });
            assert(outgoing_view(sends@) =~= timeouts(cs.take(0), now));
        }
        while i < self.clients.len()
            invariant
                0 <= i <= cs.len(),
                self.clients@.len() == cs.len(),
                self.model() == (HandlerModel { clients: prune_expired(cs.take(i as int), now) + cs.skip(i as int), ..old_m }),
                outgoing_view(sends@) == timeouts(cs.take(i as int), now),
                model_wf(old_m),
                cs == old_m.clients,
            decreases cs.len() - i,
        {
            let id = self.clients[i].id;
            let ghost p = self.clients@[i as int].pending_ops@;
            proof {
                assert(self.model().clients[i as int] == cs[i as int]);
                assert(self.clients@[i as int]@ == cs[i as int]);
                assert(handles_ok(cs[i as int].pending, old_m.next_handle));
            }
            let plen = self.clients[i].pending_ops.len();
            let mut kept: Vec<PendingOp> = Vec::new();
            let mut j: usize = 0;
            let ghost f_exp = |o: PendingOp| now >= o.deadline;
            let ghost f_keep = |o: PendingOp| now < o.deadline;
            let ghost mk = |o: PendingOp| (id, CompletionView::Timeout { handle: o.handle });
            while j < plen
                invariant
                    0 <= j <= plen,
                    plen == p.len(),
                    i < self.clients@.len(),
                    self.clients@[i as int].pending_ops@ == p,
                    kept@ == p.take(j as int).filter(f_keep),
                    outgoing_view(sends@) == timeouts(cs.take(i as int), now) + p.take(j as int).filter(f_exp).map_values(mk),
                    f_exp == (|o: PendingOp| now >= o.deadline),
                    f_keep == (|o: PendingOp| now < o.deadline),
                    mk == (|o: PendingOp| (id, CompletionView::Timeout { handle: o.handle })),
                decreases plen - j,
            {
                let op = self.clients[i].pending_ops[j];
                proof {
                    lemma_filter_take(p, f_exp, j as int);
                    lemma_filter_take(p, f_keep, j as int);
                }
                if now >= op.deadline {
                    let ghost before = sends@;
                    sends.push(Outgoing { client_id: id, completion: Completion::Timeout { handle: OpHandle(op.handle) } });
                    proof {
                        assert(outgoing_view(sends@) =~= outgoing_view(before).push(mk(op)));
                        assert(p.take(j + 1).filter(f_exp).map_values(mk) =~= p.take(j as int).filter(f_exp).map_values(mk).push(mk(op)));
                        assert(outgoing_view(sends@) =~= timeouts(cs.take(i as int), now) + p.take(j + 1).filter(f_exp).map_values(mk));
                    }
                } else {
                    kept.push(op);
                }
                j = j + 1;
            }
            proof {
                assert(p.take(plen as int) =~= p);
            }
            let ghost before = self.clients@;
            let ghost kv = kept@;
            let c = &mut self.clients[i];
            c.pending_ops = kept;
            proof {
                assert(forall|k: int| 0 <= k < before.len() && k != i ==> self.clients@[k] == before[k]);
                assert(self.clients@[i as int]@ =~~= ClientModel { id, pending: kv });
                let prev = prune_expired(cs.take(i as int), now) + cs.skip(i as int);
                let next = prune_expired(cs.take(i + 1), now) + cs.skip(i + 1);
                assert(kv =~= unexpired(cs[i as int].pending, now));
                assert forall|k: int| 0 <= k < cs.len() implies #[trigger] self.model().clients[k] =~~= next[k] by {
                    if k != i {
                        assert(self.model().clients[k] == before[k]@);
                        assert(before.map_values(|c: ClientState| c@)[k] == prev[k]);
                    }
                }
                assert(p.take(plen as int) =~= p);
                assert(expired(p, now) == p.filter(f_exp));
                assert(unexpired(p, now) == p.filter(f_keep));
                lemma_timeouts_take(cs, now, i as int);
                assert(expired(cs[i as int].pending, now).map_values(
                    |o: PendingOp| (cs[i as int].id, CompletionView::Timeout { handle: o.handle }),
                ) =~= p.filter(f_exp).map_values(mk));
                assert(self.model().clients =~~= prune_expired(cs.take(i + 1), now) + cs.skip(i + 1));
            }
            i = i + 1;
            proof {
                assert(self.model() =~~= HandlerModel { clients: prune_expired(cs.take(i as int), now) + cs.skip(i as int), ..old_m });
            }
        }
        proof {
            assert(cs.take(i as int) =~= cs);
            assert(prune_expired(cs.take(i as int), now) + cs.skip(i as int) =~~= prune_expired(cs, now));
            let m = self.model();
            assert(m =~~= HandlerModel { clients: prune_expired(cs, now), ..old_m });
            assert forall|a: int, b: int| 0 <= a < b < m.clients.len() implies m.clients[a].id != m.clients[b].id by {
                assert(m.clients[a].id == cs[a].id && m.clients[b].id == cs[b].id);
            }
            assert forall|a: int| 0 <= a < m.clients.len() implies handles_ok(#[trigger] m.clients[a].pending, m.next_handle) by {
                let q = cs[a].pending;
                let r = unexpired(q, now);
                assert(handles_ok(q, m.next_handle));
                lemma_filter_handles_ok(q, |o: PendingOp| now < o.deadline, m.next_handle);
            }
            assert forall|a: int| 0 <= a < m.work.len() implies has_client(m.clients, #[trigger] m.work[a].client_id) by {
                let kk = choose|kk: int| 0 <= kk < cs.len() && cs[kk].id == m.work[a].client_id;
                assert(m.clients[kk].id == cs[kk].id);
            }
            assert forall|cid: u64| has_client(cs, cid) implies has_client(m.clients, cid) by {
                let kk = choose|kk: int| 0 <= kk < cs.len() && cs[kk].id == cid;
                assert(m.clients[kk].id == cs[kk].id);
            }
        }
        sends
    }

    /// A controller reset requested by client `client_id` (see
    /// `reset_step`).
    fn do_reset(&mut self, client_id: u64) -> (r: StepResult)
        requires
            model_wf(old(self).model()),
            old(self).model().awaiting is None,
            has_client(old(self).model().clients, client_id),
        ensures
            model_wf(final(self).model()),
            step_matches(final(self).model(), r, reset_step(old(self).model(), client_id)),
    {
        let ghost m = self.model();
        proof {
            reveal_strlit("cancelled due to controller reset");
        }
        match self.generation {
            Generation::V2 => {
                let sends = self.cancel_everything("cancelled due to controller reset");
                self.awaiting = Some(Awaiting::Reset { requester: client_id });
                proof {
                    let cs = m.clients;
                    let k = choose|k: int| 0 <= k < cs.len() && cs[k].id == client_id;
                    assert(self.model().clients[k].id == cs[k].id);
                    assert(self.model() =~~= HandlerModel {
                        clients: clear_pending(m.clients),
                        awaiting: Some(Awaiting::Reset { requester: client_id }),
                        ..m
                    });
                }
                StepResult { sends, request: Some(DeviceRequest::ResetController) }
            },
            Generation::V1 => {
                let i = match self.find_client(client_id) {
                    Some(i) => i,
                    None => {
                        proof {
                            assert(false);
                        }
                        0
                    },
                };
                let sends = self.cancel_one(i, "cancelled due to controller reset");
                self.awaiting = Some(Awaiting::Reset { requester: client_id });
                proof {
                    lemma_pending_after_set(m, client_id, Seq::empty());
                    let cs = m.clients;
                    assert(self.model().clients[i as int].id == client_id);
                    assert(self.model() =~~= HandlerModel {
                        clients: set_pending(m.clients, client_id, Seq::empty()),
                        awaiting: Some(Awaiting::Reset { requester: client_id }),
                        ..m
                    });
                }
                StepResult { sends, request: Some(DeviceRequest::ResetController) }
            },
        }
    }

    /// Dispatches the next work item (see `step_spec`):
    /// validates it, allocates its handle, records asynchronous operations
    /// in flight, expands batches, and either answers the client at once or
    /// asks for a device request whose outcome `resume` takes.
    #[verifier::rlimit(60)]
    #[verifier::spinoff_prover]
    pub fn step(&mut self, now: u64) -> (r: StepResult)
        requires
            model_wf(old(self).model()),
            old(self).model().awaiting is None,
            old(self).model().work.len() > 0,
            step_ready(old(self).model(), now),
        ensures
            model_wf(final(self).model()),
            step_matches(final(self).model(), r, step_spec(old(self).model(), now)),
    {
        let ghost old_m = self.model();
        let w = self.work.pop().unwrap();
        let ghost m = HandlerModel { work: old_m.work.drop_last(), ..old_m };
        proof {
            assert(self.model() =~~= m);
            assert(w == old_m.work.last());
            assert(item_ok(w, old_m.qpairs.len() as int, old_m.generation));
            assert(has_client(old_m.clients, w.client_id));
            assert forall|i: int| 0 <= i < m.work.len() implies #[trigger] item_ok(m.work[i], m.qpairs.len() as int, m.generation) by {
                assert(m.work[i] == old_m.work[i]);
            }
            assert forall|i: int| 0 <= i < m.work.len() implies has_client(m.clients, #[trigger] m.work[i].client_id) by {
                assert(m.work[i] == old_m.work[i]);
            }
        }
        let WorkItem { client_id, cmd, qp_override } = w;
        match cmd {
            Command::ReadSync { ns_id, lba, buf, buf_len } => {
                let c = self.check_io(ns_id, lba, buf_len);
                self.do_sync(client_id, SyncKind::Read, ns_id, lba, buf, c)
            },
            Command::WriteSync { ns_id, lba, buf, buf_len } => {
                let c = self.check_io(ns_id, lba, Some(buf_len));
                self.do_sync(client_id, SyncKind::Write, ns_id, lba, buf, c)
            },
            Command::WriteZeros { ns_id, lba, num_blocks } => {
                let c = self.check_zeros(ns_id, lba, num_blocks);
                self.do_sync(client_id, SyncKind::WriteZeros, ns_id, lba, 0, c)
            },
            Command::ReadAsync { ns_id, lba, buf, buf_len, timeout_ms } => {
                let c = self.check_io(ns_id, lba, buf_len);
                self.do_async(client_id, true, ns_id, lba, buf, timeout_ms, qp_override, c, now)
            },
            Command::WriteAsync { ns_id, lba, buf, buf_len, timeout_ms } => {
                let c = self.check_io(ns_id, lba, Some(buf_len));
                self.do_async(client_id, false, ns_id, lba, buf, timeout_ms, qp_override, c, now)
            },
            Command::BatchSubmit { ops } => self.do_batch(client_id, ops),
            Command::AbortOp { handle } => self.do_abort(client_id, handle),
            Command::NsProbe => {
                let namespaces = to_namespace_info_list(&self.namespaces);
                let mut sends: Vec<Outgoing> = Vec::new();
                sends.push(Outgoing { client_id, completion: Completion::NsProbeResult { namespaces } });
                proof {
                    assert(outgoing_view(sends@) =~= seq![
                        (client_id, CompletionView::NsProbeResult { namespaces: client_ns_list(m.namespaces) }),
                    ]);
                }
                StepResult { sends, request: None }
            },
            Command::NsCreate { size_sectors } => {
                self.awaiting = Some(Awaiting::NsCreate { client_id });
                let sends: Vec<Outgoing> = Vec::new();
                proof {
                    assert(outgoing_view(sends@) =~= Seq::<(u64, CompletionView)>::empty());
                    assert(self.model() =~~= HandlerModel { awaiting: Some(Awaiting::NsCreate { client_id }), ..m });
                }
                StepResult { sends, request: Some(DeviceRequest::CreateNamespace { size_sectors }) }
            },
            Command::NsFormat { ns_id } => {
                self.awaiting = Some(Awaiting::NsFormat { client_id, ns_id });
                let sends: Vec<Outgoing> = Vec::new();
                proof {
                    assert(outgoing_view(sends@) =~= Seq::<(u64, CompletionView)>::empty());
                    assert(self.model() =~~= HandlerModel { awaiting: Some(Awaiting::NsFormat { client_id, ns_id }), ..m });
                }
                StepResult { sends, request: Some(DeviceRequest::FormatNamespace { ns_id }) }
            },
            Command::NsDelete { ns_id } => {
                self.awaiting = Some(Awaiting::NsDelete { client_id, ns_id });
                let sends: Vec<Outgoing> = Vec::new();
                proof {
                    assert(outgoing_view(sends@) =~= Seq::<(u64, CompletionView)>::empty());
                    assert(self.model() =~~= HandlerModel { awaiting: Some(Awaiting::NsDelete { client_id, ns_id }), ..m });
                }
                StepResult { sends, request: Some(DeviceRequest::DeleteNamespace { ns_id }) }
            },
            Command::ControllerReset => self.do_reset(client_id),
        }
    }

    /// Applies the outcome of the device request the handler waits for
    /// (see `resume_spec`) and answers the client or asks for a follow-up
    /// request.
    pub fn resume(&mut self, outcome: DeviceOutcome) -> (r: StepResult)
        requires
            model_wf(old(self).model()),
            resume_ready(old(self).model(), outcome),
        ensures
            model_wf(final(self).model()),
            step_matches(final(self).model(), r, resume_spec(old(self).model(), outcome)),
    {
        let ghost old_m = self.model();
        let a = self.awaiting.unwrap();
        self.awaiting = None;
        let ghost m = HandlerModel { awaiting: None, ..old_m };
        proof {
            assert(self.model() =~~= m);
        }
        let mut sends: Vec<Outgoing> = Vec::new();
        match a {
            Awaiting::SyncIo { client_id, handle, kind, qpair_idx } => match outcome {
                DeviceOutcome::SyncIo { rc, sct, sc, reaped } => {
                    if rc == 0 {
                        self.qpairs.reap_on(qpair_idx, reaped);
                        proof {
                            assert(self.model() =~~= HandlerModel {
                                qpairs: m.qpairs.update(qpair_idx as int, (m.qpairs[qpair_idx as int].0,
                                    sat_sub(m.qpairs[qpair_idx as int].1, reaped as int))),
                                ..m
                            });
                        }
                    }
                    let res = make_sync_result(kind, rc, sct, sc);
                    let c = make_sync_done(kind, handle, res);
                    sends.push(Outgoing { client_id, completion: c });
                    proof {
                        assert(outgoing_view(sends@) =~= seq![(client_id, sync_done(kind, handle, sync_error(kind, rc, sct, sc)))]);
                    }
                    StepResult { sends, request: None }
                },
                _ => {
                    proof {
                        assert(outgoing_view(sends@) =~= Seq::<(u64, CompletionView)>::empty());
                    }
                    StepResult { sends, request: None }
                },
            },
            Awaiting::AsyncSubmit { client_id, handle, is_read, qpair_idx } => match outcome {
                DeviceOutcome::Submitted { rc } => {
                    if rc != 0 {
                        let i = match self.find_client(client_id) {
                            Some(i) => i,
                            None => {
                                proof {
                                    assert(false);
                                }
                                0
                            },
                        };
                        self.remove_op(i, handle);
                        let err = if is_read {
                            make_error(ErrorKind::ReadFailed, with_rc("async spdk_nvme_ns_cmd_read submit failed with rc=", rc))
                        } else {
                            make_error(ErrorKind::WriteFailed, with_rc("async spdk_nvme_ns_cmd_write submit failed with rc=", rc))
                        };
                        let c = make_async_done(is_read, handle, Err(err));
                        sends.push(Outgoing { client_id, completion: c });
                        proof {
                            assert(err@ =~~= async_submit_error(is_read, rc));
                            assert(outgoing_view(sends@) =~= seq![
                                (client_id, async_done(is_read, handle, Some(async_submit_error(is_read, rc)))),
                            ]);
                        }
                        StepResult { sends, request: None }
                    } else {
                        let _ = self.qpairs.submit_on(qpair_idx);
                        proof {
                            assert(self.model() =~~= HandlerModel {
                                qpairs: m.qpairs.update(qpair_idx as int, (m.qpairs[qpair_idx as int].0,
                                    (m.qpairs[qpair_idx as int].1 + 1) as u32)),
                                ..m
                            });
                            assert(outgoing_view(sends@) =~= Seq::<(u64, CompletionView)>::empty());
                        }
                        StepResult { sends, request: None }
                    }
                },
                _ => {
                    proof {
                        assert(outgoing_view(sends@) =~= Seq::<(u64, CompletionView)>::empty());
                    }
                    StepResult { sends, request: None }
                },
            },
            Awaiting::NsCreate { client_id } => match outcome {
                DeviceOutcome::Created { ns_id } => {
                    if ns_id == 0 {
                        let err = make_error(
                            ErrorKind::NotSupported,
                            String::from_str("spdk_nvme_ctrlr_create_ns failed \u{2014} controller may not support namespace management"),
                        );
                        sends.push(Outgoing { client_id, completion: Completion::Error { handle: None, error: err } });
                        proof {
                            assert(outgoing_view(sends@) =~= seq![(client_id, CompletionView::Error {
                                handle: None,
                                error: ErrView {
                                    kind: ErrorKind::NotSupported,
                                    msg: "spdk_nvme_ctrlr_create_ns failed \u{2014} controller may not support namespace management"@,
                                },
                            })]);
                        }
                        StepResult { sends, request: None }
                    } else {
                        self.awaiting = Some(Awaiting::NsCreateRefresh { client_id, ns_id });
                        proof {
                            assert(outgoing_view(sends@) =~= Seq::<(u64, CompletionView)>::empty());
                            assert(self.model() =~~= HandlerModel { awaiting: Some(Awaiting::NsCreateRefresh { client_id, ns_id }), ..m });
                        }
                        StepResult { sends, request: Some(DeviceRequest::RefreshNamespaces) }
                    }
                },
                _ => {
                    proof {
                        assert(outgoing_view(sends@) =~= Seq::<(u64, CompletionView)>::empty());
                    }
                    StepResult { sends, request: None }
                },
            },
            Awaiting::NsFormat { client_id, ns_id } => match outcome {
                DeviceOutcome::Status { rc } => {
                    if rc != 0 {
                        let err = make_error(
                            ErrorKind::NotSupported,
                            ns_rc_text("spdk_nvme_ctrlr_format(ns_id=", ns_id, ") failed with rc=", rc),
                        );
                        sends.push(Outgoing { client_id, completion: Completion::Error { handle: None, error: err } });
                        proof {
                            assert(outgoing_view(sends@) =~= seq![(client_id, CompletionView::Error {
                                handle: None,
                                error: ErrView {
                                    kind: ErrorKind::NotSupported,
                                    msg: "spdk_nvme_ctrlr_format(ns_id="@ + dec(ns_id as nat) + ") failed with rc="@ + sdec(rc as int),
                                },
                            })]);
                        }
                    } else {
                        sends.push(Outgoing { client_id, completion: Completion::NsFormatted { ns_id } });
                        proof {
                            assert(outgoing_view(sends@) =~= seq![(client_id, CompletionView::NsFormatted { ns_id })]);
                        }
                    }
                    StepResult { sends, request: None }
                },
                _ => {
                    proof {
                        assert(outgoing_view(sends@) =~= Seq::<(u64, CompletionView)>::empty());
                    }
                    StepResult { sends, request: None }
                },
            },
            Awaiting::NsDelete { client_id, ns_id } => match outcome {
                DeviceOutcome::Status { rc } => {
                    if rc != 0 {
                        let err = make_error(
                            ErrorKind::NotSupported,
                            ns_rc_text("spdk_nvme_ctrlr_delete_ns(ns_id=", ns_id, ") failed with rc=", rc),
                        );
                        sends.push(Outgoing { client_id, completion: Completion::Error { handle: None, error: err } });
                        proof {
                            assert(outgoing_view(sends@) =~= seq![(client_id, CompletionView::Error {
                                handle: None,
                                error: ErrView {
                                    kind: ErrorKind::NotSupported,
                                    msg: "spdk_nvme_ctrlr_delete_ns(ns_id="@ + dec(ns_id as nat) + ") failed with rc="@ + sdec(rc as int),
                                },
                            })]);
                        }
                        StepResult { sends, request: None }
                    } else {
                        self.awaiting = Some(Awaiting::NsDeleteRefresh { client_id, ns_id });
                        proof {
                            assert(outgoing_view(sends@) =~= Seq::<(u64, CompletionView)>::empty());
                            assert(self.model() =~~= HandlerModel { awaiting: Some(Awaiting::NsDeleteRefresh { client_id, ns_id }), ..m });
                        }
                        StepResult { sends, request: Some(DeviceRequest::RefreshNamespaces) }
                    }
                },
                _ => {
                    proof {
                        assert(outgoing_view(sends@) =~= Seq::<(u64, CompletionView)>::empty());
                    }
                    StepResult { sends, request: None }
                },
            },
            Awaiting::Reset { requester } => match outcome {
                DeviceOutcome::Status { rc } => {
                    if rc != 0 {
                        let err = make_error(ErrorKind::ProbeFailure, with_rc("spdk_nvme_ctrlr_reset failed with rc=", rc));
                        sends.push(Outgoing { client_id: requester, completion: Completion::ResetDone { result: Err(err) } });
                        proof {
                            assert(outgoing_view(sends@) =~= seq![(requester, CompletionView::ResetDone {
                                error: Some(ErrView {
                                    kind: ErrorKind::ProbeFailure,
                                    msg: "spdk_nvme_ctrlr_reset failed with rc="@ + sdec(rc as int),
                                }),
                            })]);
                        }
                        StepResult { sends, request: None }
                    } else {
                        self.awaiting = Some(Awaiting::ResetRefresh { requester });
                        proof {
                            assert(outgoing_view(sends@) =~= Seq::<(u64, CompletionView)>::empty());
                            assert(self.model() =~~= HandlerModel { awaiting: Some(Awaiting::ResetRefresh { requester }), ..m });
                        }
                        StepResult { sends, request: Some(DeviceRequest::RefreshNamespaces) }
                    }
                },
                _ => {
                    proof {
                        assert(outgoing_view(sends@) =~= Seq::<(u64, CompletionView)>::empty());
                    }
                    StepResult { sends, request: None }
                },
            },
            Awaiting::NsCreateRefresh { client_id, ns_id } => match outcome {
                DeviceOutcome::Namespaces { list } => {
                    self.namespaces = list;
                    sends.push(Outgoing { client_id, completion: Completion::NsCreated { ns_id } });
                    proof {
                        assert(outgoing_view(sends@) =~= seq![(client_id, CompletionView::NsCreated { ns_id })]);
                    }
                    StepResult { sends, request: None }
                },
                _ => {
                    proof {
                        assert(outgoing_view(sends@) =~= Seq::<(u64, CompletionView)>::empty());
                    }
                    StepResult { sends, request: None }
                },
            },
            Awaiting::NsDeleteRefresh { client_id, ns_id } => match outcome {
                DeviceOutcome::Namespaces { list } => {
                    self.namespaces = list;
                    sends.push(Outgoing { client_id, completion: Completion::NsDeleted { ns_id } });
                    proof {
                        assert(outgoing_view(sends@) =~= seq![(client_id, CompletionView::NsDeleted { ns_id })]);
                    }
                    StepResult { sends, request: None }
                },
                _ => {
                    proof {
                        assert(outgoing_view(sends@) =~= Seq::<(u64, CompletionView)>::empty());
                    }
                    StepResult { sends, request: None }
                },
            },
            Awaiting::ResetRefresh { requester } => match outcome {
                DeviceOutcome::Namespaces { list } => {
                    self.namespaces = list;
                    sends.push(Outgoing { client_id: requester, completion: Completion::ResetDone { result: Ok(()) } });
                    proof {
                        assert(outgoing_view(sends@) =~= seq![(requester, CompletionView::ResetDone { error: None })]);
                    }
                    StepResult { sends, request: None }
                },
                _ => {
                    proof {
                        assert(outgoing_view(sends@) =~= Seq::<(u64, CompletionView)>::empty());
                    }
                    StepResult { sends, request: None }
                },
            },
        }
    }

    /// Finds the position of the operation with handle `h` among the
    /// operations in flight of client number `i`.
    fn find_op(&self, i: usize, h: u64) -> (r: Option<usize>)
        requires
            i < self.clients@.len(),
        ensures
            match r {
                Some(k) => k < self.clients@[i as int]@.pending.len()
                    && self.clients@[i as int]@.pending[k as int].handle == h,
                None => !has_handle(self.clients@[i as int]@.pending, h),
            },
    {
        let ghost p = self.clients@[i as int].pending_ops@;
        let len = self.clients[i].pending_ops.len();
        let mut k: usize = 0;
        while k < len
            invariant
                k <= len,
                len == p.len(),
                i < self.clients@.len(),
                self.clients@[i as int].pending_ops@ == p,
                forall|j: int| 0 <= j < k ==> p[j].handle != h,
            decreases len - k,
        {
            if self.clients[i].pending_ops[k].handle == h {
                return Some(k);
            }
            k = k + 1;
        }
        None
    }

    /// Routes the device's completion of asynchronous operation `handle` of
    /// client `client_id`, finished with status `(sct, sc)`. When the client
    /// is connected and the operation still in flight, the operation is
    /// removed and the client gets its `ReadDone` or `WriteDone`; an
    /// operation already aborted or timed out, or of a client that left,
    /// is dropped silently.
    pub fn complete_async(&mut self, client_id: u64, handle: u64, is_read: bool, sct: u16, sc: u16) -> (r: Option<Outgoing>)
        requires
            model_wf(old(self).model()),
        ensures
            model_wf(final(self).model()),
            if has_client(old(self).model().clients, client_id)
                && has_handle(pending_of(old(self).model().clients, client_id), handle) {
                &&& final(self).model() == with_pending(
                    old(self).model(),
                    client_id,
                    remove_handle(pending_of(old(self).model().clients, client_id), handle),
                )
                &&& r matches Some(o) && o.client_id == client_id
                    && o.completion@ == async_done(is_read, handle, async_status_error(is_read, sct, sc))
            } else {
                &&& final(self).model() == old(self).model()
                &&& r is None
            },
    {
        let i = match self.find_client(client_id) {
            Some(i) => i,
            None => {
                return None;
            },
        };
        match self.find_op(i, handle) {
            None => {
                return None;
            },
            Some(_) => {},
        }
        self.remove_op(i, handle);
        let result = if sct == 0 && sc == 0 {
            Ok(())
        } else {
            let kind = if is_read { ErrorKind::ReadFailed } else { ErrorKind::WriteFailed };
            proof {
                reveal_strlit("");
            }
            let msg = status_text("", sct, sc);
            proof {
                assert(msg@ =~= nvme_status_msg(sct, sc));
            }
            Err(make_error(kind, msg))
        };
        Some(Outgoing { client_id, completion: make_async_done(is_read, handle, result) })
    }

    /// Records `n` completions reaped from queue pair `qpair_idx`: its count
    /// of operations in flight drops by `n`, never below zero.
    pub fn record_completions(&mut self, qpair_idx: usize, n: u32)
        requires
            model_wf(old(self).model()),
            qpair_idx < old(self).model().qpairs.len(),
        ensures
            model_wf(final(self).model()),
            final(self).model() == (HandlerModel {
                qpairs: old(self).model().qpairs.update(
                    qpair_idx as int,
                    (old(self).model().qpairs[qpair_idx as int].0,
                     sat_sub(old(self).model().qpairs[qpair_idx as int].1, n as int)),
                ),
                ..old(self).model()
            }),
    {
        let ghost old_m = self.model();
        self.qpairs.reap_on(qpair_idx, n);
        proof {
            assert(self.model() =~~= HandlerModel {
                qpairs: old_m.qpairs.update(
                    qpair_idx as int,
                    (old_m.qpairs[qpair_idx as int].0, sat_sub(old_m.qpairs[qpair_idx as int].1, n as int)),
                ),
                ..old_m
            });
        }
    }

    /// Whether the periodic timeout check is due at counter value `now`:
    /// one millisecond of ticks has passed since the last check. A check
    /// whose due time lies beyond the counter's range is never due.
    pub fn timeout_check_due(&self, now: u64) -> (r: bool)
        ensures
            r <==> now >= self.model().last_timeout_check + self.model().clock.ticks_per_ms_spec(),
    {
        let tpm = self.clock.ticks_per_ms();
        if self.last_timeout_check > u64::MAX - tpm {
            false
        } else {
            let deadline = self.clock.deadline_from_ms(self.last_timeout_check, 1);
            self.clock.has_elapsed(now, deadline)
        }
    }

    /// The idle-time timeout check at counter value `now`: when the check is
    /// due, operations past their deadline are timed out and `now` becomes
    /// the time of the last check; otherwise nothing changes.
    pub fn idle_timeouts(&mut self, now: u64) -> (sends: Vec<Outgoing>)
        requires
            model_wf(old(self).model()),
        ensures
            model_wf(final(self).model()),
            if now >= old(self).model().last_timeout_check + old(self).model().clock.ticks_per_ms_spec() {
                &&& final(self).model() == (HandlerModel {
                    clients: prune_expired(old(self).model().clients, now),
                    last_timeout_check: now,
                    ..old(self).model()
                })
                &&& outgoing_view(sends@) == timeouts(old(self).model().clients, now)
            } else {
                &&& final(self).model() == old(self).model()
                &&& sends@.len() == 0
            },
    {
        if self.timeout_check_due(now) {
            let ghost mid = HandlerModel { clients: prune_expired(self.model().clients, now), ..self.model() };
            let sends = self.check_timeouts(now);
            self.last_timeout_check = now;
            proof {
                assert(self.model() =~~= HandlerModel { last_timeout_check: now, ..mid });
            }
            sends
        } else {
            Vec::new()
        }
    }

    /// Shuts the handler down: every operation in flight of every client is
    /// answered with an `Aborted("actor shutting down")` error, client by
    /// client, and all clients are forgotten.
    pub fn shutdown(&mut self) -> (sends: Vec<Outgoing>)
        requires
            model_wf(old(self).model()),
            old(self).model().awaiting is None,
            old(self).model().work.len() == 0,
        ensures
            model_wf(final(self).model()),
            final(self).model() == (HandlerModel { clients: Seq::empty(), ..old(self).model() }),
            outgoing_view(sends@) == cancel_clients(old(self).model().clients, shutdown_error()),
    {
        let ghost old_m = self.model();
        proof {
            reveal_strlit("actor shutting down");
        }
        let sends = self.cancel_everything("actor shutting down");
        self.clients.clear();
        proof {
            assert(self.model() =~~= HandlerModel { clients: Seq::empty(), ..old_m });
        }
        sends
    }
}

} // verus!
