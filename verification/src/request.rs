//! The streaming request decoder and the decoded request view.
//!
//! `Request::parse` is invoked repeatedly against the connection's decode
//! buffer.  It either reports that not enough bytes are buffered yet (the
//! buffer is left untouched), consumes exactly one frame and returns an
//! immutable `Request` over a snapshot of it, or rejects the input fatally.
//! Everything it does is stated against the `wire` model.

use crate::bytebuf::buffer_bytes;
use crate::bytebuf::buffer_freeze;
use crate::bytebuf::buffer_slice;
use crate::bytebuf::buffer_split_to;
use crate::bytebuf::snapshot_bytes;
use crate::bytebuf::snapshot_slice;
use crate::bytebuf::snapshot_slice_range;
use crate::bytebuf::string_from_bytes;
use crate::decimal::parse_i32;
use crate::decimal::spec_parse_i32;
use crate::wire::lemma_scan_bulk_found;
use crate::wire::lemma_scan_frame_ready;
use crate::wire::lemma_scan_int_from_found;
use crate::wire::scan_args;
use crate::wire::scan_int_from;
use crate::wire::scan_bulk;
use crate::wire::scan_frame;
use crate::wire::scan_int;
use crate::wire::ArgsScan;
use crate::wire::BulkScan;
use crate::wire::FaultKind;
use crate::wire::FrameScan;
use crate::wire::IntScan;
use crate::wire::SpanModel;
use crate::wire::ARRAY_MARKER;
use crate::wire::BULK_MARKER;
use crate::wire::TERM_FIRST;
use vstd::prelude::*;
use vstd::slice::slice_subrange;
use vstd::slice::slice_to_vec;
use vstd::utf8::decode_utf8;
use vstd::utf8::valid_utf8;

verus! {

/// Inclusive byte range inside a buffer; `end == start - 1` denotes an
/// empty region.
#[derive(Clone, Copy, Debug)]
pub struct Range {
    pub start: usize,
    pub end: usize,
}

impl View for Range {
    type V = SpanModel;

    open spec fn view(&self) -> SpanModel {
        SpanModel { start: self.start as int, end: self.end as int }
    }
}

impl Range {
    /// Offset of the byte just past this field's two-byte terminator.
    pub fn next_offset(&self) -> (r: usize)
        requires
            self.end + 3 <= usize::MAX,
        ensures
            r == self.end + 3,
    {
        self.end + 3
    }
}

/// A fatal protocol violation: the connection must be closed and no
/// request is produced.
#[derive(Clone, Copy, Debug, PartialEq, Eq, Structural)]
pub struct ProtocolError {
    pub kind: FaultKind,
    pub offset: usize,
}

/// A recoverable error raised while reading a decoded request's fields;
/// it never condemns the connection.
#[derive(Debug)]
#[allow(inconsistent_fields)]
pub enum RequestError {
    /// The requested argument index is at or past the argument count.
    IndexOutOfRange { index: usize, count: usize },
    /// The bytes at `start ..= end` are not valid UTF-8; `index` is `None`
    /// when they are the command's.
    InvalidEncoding { index: Option<usize>, start: usize, end: usize },
    /// The argument is not the decimal form of a 32-bit signed integer.
    InvalidFormat { index: usize, text: String },
}

/// Scan an unsigned decimal integer beginning at `offset`, exactly as
/// `scan_int` says: the value and the digit range on success, `None` when
/// the terminator is not fully buffered yet, or the offending offset.
#[verifier::loop_isolation(false)]
fn read_int(buffer: &[u8], offset: usize) -> (r: Result<Option<(u64, Range)>, usize>)
    requires
        1 <= offset,
    ensures
        match r {
            Ok(None) => scan_int(buffer@, offset as int) is Incomplete,
            Ok(Some((value, digits))) => scan_int(buffer@, offset as int) == (IntScan::Found {
                value: value as int,
                digits: digits@,
            }),
            Err(at) => scan_int(buffer@, offset as int) == (IntScan::Malformed { at: at as int }),
        },
{
    let n = buffer.len();
    let mut acc: u64 = 0;
    let mut index = offset;
    while index < n
        invariant
            offset <= index,
            n == buffer@.len(),
            scan_int(buffer@, offset as int) == scan_int_from(
                buffer@,
                offset as int,
                index as int,
                acc as int,
            ),
        decreases n - index,
    {
        let b = buffer[index];
        if b == TERM_FIRST {
            if index + 1 < n {
                return Ok(Some((acc, Range { start: offset, end: index - 1 })));
            } else {
                return Ok(None);
            }
        }
        if b < 48 || b > 57 {
            return Err(index);
        }
        let d = (b - 48) as u64;
        let wide: u128 = (acc as u128) * 10 + (d as u128);
        if wide > (u64::MAX as u128) {
            return Err(index);
        }
        acc = wide as u64;
        index = index + 1;
    }
    Ok(None)
}

/// Scan one bulk string beginning at `offset`, exactly as `scan_bulk`
/// says: the payload range on success, `None` while bytes are missing, or
/// the fatal violation.
fn read_bulk_string(buffer: &[u8], offset: usize) -> (r: Result<Option<Range>, ProtocolError>)
    ensures
        match r {
            Ok(None) => scan_bulk(buffer@, offset as int) is Incomplete,
            Ok(Some(payload)) => scan_bulk(buffer@, offset as int) == (BulkScan::Found {
                payload: payload@,
                next: payload.end + 3,
            }),
            Err(e) => scan_bulk(buffer@, offset as int) == (BulkScan::Fatal {
                kind: e.kind,
                at: e.offset as int,
            }),
        },
{
    let n = buffer.len();
    if offset >= n {
        return Ok(None);
    }
    if buffer[offset] != BULK_MARKER {
        return Err(ProtocolError { kind: FaultKind::ExpectedBulkString, offset });
    }
    let (length, digits) = match read_int(buffer, offset + 1) {
        Err(at) => return Err(ProtocolError { kind: FaultKind::MalformedInteger, offset: at }),
        Ok(None) => return Ok(None),
        Ok(Some(found)) => found,
    };
    proof {
        lemma_scan_int_from_found(buffer@, offset + 1, offset + 1, 0);
    }
    let data_start = digits.next_offset();
    let avail = n - data_start;
    if avail >= 2 && length <= (avail - 2) as u64 {
        let payload_len = length as usize;
        Ok(Some(Range { start: data_start, end: data_start + payload_len - 1 }))
    } else {
        Ok(None)
    }
}

/// The decoded request: an immutable snapshot of the consumed frame, the
/// command's byte range in it, and the arguments' byte ranges in wire
/// order.
pub struct Request {
    data: bytes::Bytes,
    command: Range,
    arguments: Vec<Range>,
}

/// What `Request::parse` promises, given the buffer's bytes before
/// (`pre`) and after (`post`) the call: the outcome is exactly what
/// `scan_frame` says of `pre`, an incomplete parse leaves the buffer
/// untouched, and a successful one consumes exactly the frame and hands
/// out ranges into a snapshot of it.
pub open spec fn parse_post(pre: Seq<u8>, post: Seq<u8>, r: Result<
    Option<Request>,
    ProtocolError,
>) -> bool {
    match r {
        Ok(None) => scan_frame(pre) is Incomplete && post == pre,
        Ok(Some(req)) => {
            &&& scan_frame(pre) matches FrameScan::Ready { count, consumed, command, args }
            &&& post == pre.skip(consumed)
            &&& req.snapshot() == pre.take(consumed)
            &&& req.command_span() == command
            &&& req.argument_spans() == args
        },
        Err(e) => {
            &&& scan_frame(pre) matches FrameScan::Fatal { kind, at }
            &&& e.kind == kind
            &&& e.offset as int == at
        },
    }
}

/// Scan one whole frame against a plain view of the buffer; on success
/// return the command range, the argument ranges and how many bytes the
/// frame occupies.
#[verifier::loop_isolation(false)]
fn scan_ranges(buffer: &[u8]) -> (r: Result<Option<(Range, Vec<Range>, usize)>, ProtocolError>)
    ensures
        match r {
            Ok(None) => scan_frame(buffer@) is Incomplete,
            Ok(Some((command, arguments, consumed))) => scan_frame(buffer@)
                == (FrameScan::Ready {
                count: scan_frame(buffer@)->Ready_count,
                consumed: consumed as int,
                command: command@,
                args: arguments@.map_values(|x: Range| x@),
            }),
            Err(e) => scan_frame(buffer@) == (FrameScan::Fatal {
                kind: e.kind,
                at: e.offset as int,
            }),
        },
{
    let ghost s = buffer@;
    let n = buffer.len();
    if n == 0 {
        return Ok(None);
    }
    if buffer[0] != ARRAY_MARKER {
        return Err(ProtocolError { kind: FaultKind::NotAnArray, offset: 0 });
    }
    let (count, count_digits) = match read_int(buffer, 1) {
        Err(at) => return Err(ProtocolError { kind: FaultKind::MalformedInteger, offset: at }),
        Ok(None) => return Ok(None),
        Ok(Some(found)) => found,
    };
    if count == 0 {
        return Err(ProtocolError { kind: FaultKind::InvalidElementCount, offset: 1 });
    }
    proof {
        lemma_scan_int_from_found(s, 1, 1, 0);
    }
    let mut offset = count_digits.next_offset();
    let command = match read_bulk_string(buffer, offset) {
        Err(e) => return Err(e),
        Ok(None) => return Ok(None),
        Ok(Some(found)) => found,
    };
    proof {
        lemma_scan_bulk_found(s, offset as int);
    }
    offset = command.next_offset();
    let ghost off0 = offset as int;
    let ghost k0 = (count - 1) as nat;
    let mut remaining: u64 = count - 1;
    let mut arguments: Vec<Range> = Vec::new();
    proof {
        if scan_args(s, off0, k0) is Done {
            assert(arguments@.map_values(|x: Range| x@) + scan_args(s, off0, k0)->Done_args
                =~= scan_args(s, off0, k0)->Done_args);
        }
    }
    while remaining > 0
        invariant
            remaining <= k0,
            match scan_args(s, offset as int, remaining as nat) {
                ArgsScan::Done { args, next } => scan_args(s, off0, k0) == (ArgsScan::Done {
                    args: arguments@.map_values(|x: Range| x@) + args,
                    next,
                }),
                ArgsScan::Incomplete => scan_args(s, off0, k0) is Incomplete,
                ArgsScan::Fatal { kind, at } => scan_args(s, off0, k0) == (ArgsScan::Fatal {
                    kind,
                    at,
                }),
            },
        decreases remaining,
    {
        let ghost args_before = arguments@;
        let ghost offset_before = offset as int;
        let ghost remaining_before = remaining as nat;
        let argument = match read_bulk_string(buffer, offset) {
            Err(e) => return Err(e),
            Ok(None) => return Ok(None),
            Ok(Some(found)) => found,
        };
        proof {
            lemma_scan_bulk_found(s, offset as int);
        }
        arguments.push(argument);
        remaining = remaining - 1;
        offset = argument.next_offset();
        proof {
            assert(arguments@.map_values(|x: Range| x@) =~= args_before.map_values(
                |x: Range| x@,
            ) + seq![argument@]);
            if scan_args(s, offset as int, remaining as nat) is Done {
                let rest = scan_args(s, offset as int, remaining as nat)->Done_args;
                assert(args_before.map_values(|x: Range| x@) + (seq![argument@] + rest)
                    =~= arguments@.map_values(|x: Range| x@) + rest);
            }
        }
    }
    proof {
        assert(arguments@.map_values(|x: Range| x@) + Seq::<SpanModel>::empty()
            =~= arguments@.map_values(|x: Range| x@));
    }
    Ok(Some((command, arguments, offset)))
}

impl Request {
    /// Every stored range lies inside the snapshot.
    #[verifier::type_invariant]
    spec fn well_formed(self) -> bool {
        &&& snapshot_bytes(self.data).len() <= usize::MAX
        &&& self.command.start <= self.command.end + 1
        &&& self.command.end + 1 <= snapshot_bytes(self.data).len()
        &&& forall|i: int|
            0 <= i < self.arguments@.len() ==> {
                &&& (#[trigger] self.arguments@[i]).start <= self.arguments@[i].end + 1
                &&& self.arguments@[i].end + 1 <= snapshot_bytes(self.data).len()
            }
    }

    /// The immutable snapshot the ranges index into.
    pub closed spec fn snapshot(self) -> Seq<u8> {
        snapshot_bytes(self.data)
    }

    /// The command's byte range in the snapshot.
    pub closed spec fn command_span(self) -> SpanModel {
        self.command@
    }

    /// The arguments' byte ranges in the snapshot, in wire order.
    pub closed spec fn argument_spans(self) -> Seq<SpanModel> {
        self.arguments@.map_values(|x: Range| x@)
    }

    /// The bytes of the command name.
    pub open spec fn command_bytes(self) -> Seq<u8> {
        self.snapshot().subrange(self.command_span().start, self.command_span().end + 1)
    }

    /// The bytes of argument `i`.
    pub open spec fn argument_bytes(self, i: int) -> Seq<u8> {
        self.snapshot().subrange(self.argument_spans()[i].start, self.argument_spans()[i].end + 1)
    }

    /// Attempt to decode one frame from the start of `data`, restarting
    /// from scratch on every call.
    pub fn parse(data: &mut bytes::BytesMut) -> (r: Result<Option<Request>, ProtocolError>)
        ensures
            parse_post(buffer_bytes(*old(data)), buffer_bytes(*final(data)), r),
    {
        let scanned = {
            let buffer: &[u8] = buffer_slice(data);
            scan_ranges(buffer)
        };
        match scanned {
            Err(e) => Err(e),
            Ok(None) => Ok(None),
            Ok(Some((command, arguments, consumed))) => {
                let ghost pre = buffer_bytes(*data);
                proof {
                    lemma_scan_frame_ready(pre);
                }
                let frame = buffer_split_to(data, consumed);
                let snap = buffer_freeze(frame);
                proof {
                    let args = scan_frame(pre)->Ready_args;
                    let used = scan_frame(pre)->Ready_consumed;
                    assert(snapshot_bytes(snap).len() == used);
                    assert forall|i: int| 0 <= i < arguments@.len() implies {
                        &&& (#[trigger] arguments@[i]).start <= arguments@[i].end + 1
                        &&& arguments@[i].end + 1 <= snapshot_bytes(snap).len()
                    } by {
                        assert(args[i] == arguments@.map_values(|x: Range| x@)[i]);
                        assert(args[i].start <= args[i].end + 1 && args[i].end + 3 <= used);
                    }
                }
                Ok(Some(Request { data: snap, command, arguments }))
            },
        }
    }

    /// The command name, UTF-8 decoded; recoverably refused when the
    /// command bytes are not valid UTF-8.
    pub fn command(&self) -> (r: Result<String, RequestError>)
        ensures
            valid_utf8(self.command_bytes()) ==> (r matches Ok(s) && s@ == decode_utf8(
                self.command_bytes(),
            )),
            !valid_utf8(self.command_bytes()) ==> (r matches Err(e) && e matches
                RequestError::InvalidEncoding { index, start, end } && index is None && start as int
                == self.command_span().start && end as int == self.command_span().end),
    {
        proof {
            use_type_invariant(&*self);
        }
        let bytes = snapshot_slice(&self.data);
        let sub = slice_subrange(bytes, self.command.start, self.command.end + 1);
        let owned = slice_to_vec(sub);
        match string_from_bytes(owned) {
            Some(s) => Ok(s),
            None => Err(RequestError::InvalidEncoding {
                index: None,
                start: self.command.start,
                end: self.command.end,
            }),
        }
    }

    /// How many arguments follow the command.
    pub fn parameter_count(&self) -> (r: usize)
        ensures
            r == self.argument_spans().len(),
    {
        self.arguments.len()
    }

    /// The raw bytes of argument `index`, shared out of the snapshot
    /// without copying.
    pub fn parameter(&self, index: usize) -> (r: Result<bytes::Bytes, RequestError>)
        ensures
            index < self.argument_spans().len() ==> (r matches Ok(b) && snapshot_bytes(b)
                == self.argument_bytes(index as int)),
            index >= self.argument_spans().len() ==> (r matches Err(e) && e matches
                RequestError::IndexOutOfRange { index: i, count } && i == index && count
                == self.argument_spans().len()),
    {
        proof {
            use_type_invariant(&*self);
        }
        if index < self.arguments.len() {
            let range = self.arguments[index];
            Ok(snapshot_slice_range(&self.data, range.start, range.end + 1))
        } else {
            Err(RequestError::IndexOutOfRange { index, count: self.arguments.len() })
        }
    }

    /// Argument `index`, UTF-8 decoded.
    pub fn str_parameter(&self, index: usize) -> (r: Result<String, RequestError>)
        ensures
            index >= self.argument_spans().len() ==> (r matches Err(e) && e matches
                RequestError::IndexOutOfRange { index: i, count } && i == index && count
                == self.argument_spans().len()),
            index < self.argument_spans().len() && valid_utf8(self.argument_bytes(index as int))
                ==> (r matches Ok(s) && s@ == decode_utf8(self.argument_bytes(index as int))),
            index < self.argument_spans().len() && !valid_utf8(self.argument_bytes(index as int))
                ==> (r matches Err(e) && e matches RequestError::InvalidEncoding {
                index: i,
                start,
                end,
            } && i == Some(index) && start as int == self.argument_spans()[index as int].start
                && end as int == self.argument_spans()[index as int].end),
    {
        proof {
            use_type_invariant(&*self);
        }
        if index >= self.arguments.len() {
            return Err(RequestError::IndexOutOfRange { index, count: self.arguments.len() });
        }
        let range = self.arguments[index];
        let bytes = snapshot_slice(&self.data);
        let sub = slice_subrange(bytes, range.start, range.end + 1);
        let owned = slice_to_vec(sub);
        match string_from_bytes(owned) {
            Some(s) => Ok(s),
            None => Err(RequestError::InvalidEncoding {
                index: Some(index),
                start: range.start,
                end: range.end,
            }),
        }
    }

    /// Argument `index`, parsed as a 32-bit signed decimal integer.
    pub fn int_parameter(&self, index: usize) -> (r: Result<i32, RequestError>)
        ensures
            index >= self.argument_spans().len() ==> (r matches Err(e) && e matches
                RequestError::IndexOutOfRange { index: i, count } && i == index && count
                == self.argument_spans().len()),
            index < self.argument_spans().len() && !valid_utf8(self.argument_bytes(index as int))
                ==> (r matches Err(e) && e matches RequestError::InvalidEncoding { .. }),
            index < self.argument_spans().len() && valid_utf8(self.argument_bytes(index as int))
                ==> match spec_parse_i32(self.argument_bytes(index as int)) {
                Some(v) => (r matches Ok(n) && n as int == v),
                None => (r matches Err(e) && e matches RequestError::InvalidFormat {
                    index: i,
                    text,
                } && i == index && text@ == decode_utf8(self.argument_bytes(index as int))),
            },
    {
        proof {
            use_type_invariant(&*self);
        }
        if index >= self.arguments.len() {
            return Err(RequestError::IndexOutOfRange { index, count: self.arguments.len() });
        }
        let range = self.arguments[index];
        let bytes = snapshot_slice(&self.data);
        let sub = slice_subrange(bytes, range.start, range.end + 1);
        let owned = slice_to_vec(sub);
        let text = match string_from_bytes(owned) {
            Some(s) => s,
            None => return Err(RequestError::InvalidEncoding {
                index: Some(index),
                start: range.start,
                end: range.end,
            }),
        };
        match parse_i32(sub) {
            Some(n) => Ok(n),
            None => Err(RequestError::InvalidFormat { index, text }),
        }
    }
}

} // verus!
