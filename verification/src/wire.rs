//! Mathematical model of the wire format.
//!
//! A request frame is `*<count><terminator>` followed by `count` bulk
//! strings, each `$<length><terminator><payload><terminator>`, where the
//! terminator is the two bytes carriage return, line feed.  The spec
//! functions here scan a byte sequence and say, for every possible input,
//! whether it holds a complete frame, not yet enough bytes, or a fatal
//! protocol violation.  The executable scanners in `request` are proved to
//! return exactly what these functions say.

use vstd::prelude::*;

verus! {

/// First byte of every request frame: the array marker `*`.
pub const ARRAY_MARKER: u8 = 42;
/// First byte of every bulk string: the bulk marker `$`.
pub const BULK_MARKER: u8 = 36;
/// First byte of the two-byte line terminator (carriage return).
pub const TERM_FIRST: u8 = 13;
/// Second byte of the two-byte line terminator (line feed).
pub const TERM_SECOND: u8 = 10;

/// Inclusive byte range inside a buffer; `end == start - 1` denotes an
/// empty region.
pub struct SpanModel {
    pub start: int,
    pub end: int,
}

/// The ways a frame can be rejected fatally.
#[derive(Clone, Copy, Debug, PartialEq, Eq, Structural)]
pub enum FaultKind {
    /// The first byte of the frame is not the array marker.
    NotAnArray,
    /// A byte inside a decimal length field is neither a digit nor the
    /// terminator, or the value does not fit in 64 bits.
    MalformedInteger,
    /// A byte where a bulk string must begin is not the bulk marker.
    ExpectedBulkString,
    /// The declared element count is zero, so there is no command.
    InvalidElementCount,
}

/// Outcome of scanning an unsigned decimal integer.
pub enum IntScan {
    /// The terminator was not reached before the end of the buffer.
    Incomplete,
    /// A non-digit byte (other than the terminator) stands at `at`, or the
    /// digit at `at` pushes the value past `u64::MAX`.
    Malformed { at: int },
    /// The digits span `digits` and denote `value`; the byte after
    /// `digits.end` is the carriage return and at least one byte follows it.
    Found { value: int, digits: SpanModel },
}

/// Outcome of scanning one bulk string.
pub enum BulkScan {
    Incomplete,
    Fatal { kind: FaultKind, at: int },
    /// The payload spans `payload`; the field ends right before `next`.
    Found { payload: SpanModel, next: int },
}

/// Outcome of scanning a run of bulk strings.
pub enum ArgsScan {
    Incomplete,
    Fatal { kind: FaultKind, at: int },
    Done { args: Seq<SpanModel>, next: int },
}

/// Outcome of scanning one whole request frame.
pub enum FrameScan {
    Incomplete,
    Fatal { kind: FaultKind, at: int },
    /// A full frame of `count` elements occupies the first `consumed`
    /// bytes; the command payload spans `command` and the remaining
    /// elements span `args`, in wire order.
    Ready { count: int, consumed: int, command: SpanModel, args: Seq<SpanModel> },
}

pub open spec fn is_digit(b: u8) -> bool {
    48 <= b <= 57
}

pub open spec fn digit_value(b: u8) -> int {
    b - 48
}

/// Scan decimal digits from `idx` with accumulated value `acc`; the digits
/// started at `start`.  The integer ends at the first carriage return, which
/// must itself be followed by at least one more buffered byte so that the
/// full two-byte terminator is known to be present.
pub open spec fn scan_int_from(s: Seq<u8>, start: int, idx: int, acc: int) -> IntScan
    decreases s.len() - idx,
{
    if idx >= s.len() {
        IntScan::Incomplete
    } else if s[idx] == TERM_FIRST {
        if idx + 1 < s.len() {
            IntScan::Found { value: acc, digits: SpanModel { start, end: idx - 1 } }
        } else {
            IntScan::Incomplete
        }
    } else if !is_digit(s[idx]) {
        IntScan::Malformed { at: idx }
    } else if acc * 10 + digit_value(s[idx]) > u64::MAX {
        IntScan::Malformed { at: idx }
    } else {
        scan_int_from(s, start, idx + 1, acc * 10 + digit_value(s[idx]))
    }
}

/// Scan an unsigned decimal integer that begins at `off`.
pub open spec fn scan_int(s: Seq<u8>, off: int) -> IntScan {
    scan_int_from(s, off, off, 0)
}

/// Scan one bulk string that begins at `off`: the bulk marker, a decimal
/// length, the terminator, `length` payload bytes and the trailing
/// terminator.  Only the presence of the trailing terminator is required,
/// never its bytes.
pub open spec fn scan_bulk(s: Seq<u8>, off: int) -> BulkScan {
    if off >= s.len() {
        BulkScan::Incomplete
    } else if s[off] != BULK_MARKER {
        BulkScan::Fatal { kind: FaultKind::ExpectedBulkString, at: off }
    } else {
        match scan_int(s, off + 1) {
            IntScan::Incomplete => BulkScan::Incomplete,
            IntScan::Malformed { at } => BulkScan::Fatal {
                kind: FaultKind::MalformedInteger,
                at,
            },
            IntScan::Found { value, digits } => {
                let data_start = digits.end + 3;
                if data_start + value + 2 <= s.len() {
                    BulkScan::Found {
                        payload: SpanModel { start: data_start, end: data_start + value - 1 },
                        next: data_start + value + 2,
                    }
                } else {
                    BulkScan::Incomplete
                }
            },
        }
    }
}

/// Scan `k` consecutive bulk strings starting at `off`.
pub open spec fn scan_args(s: Seq<u8>, off: int, k: nat) -> ArgsScan
    decreases k,
{
    if k == 0 {
        ArgsScan::Done { args: Seq::empty(), next: off }
    } else {
        match scan_bulk(s, off) {
            BulkScan::Incomplete => ArgsScan::Incomplete,
            BulkScan::Fatal { kind, at } => ArgsScan::Fatal { kind, at },
            BulkScan::Found { payload, next } => match scan_args(s, next, (k - 1) as nat) {
                ArgsScan::Incomplete => ArgsScan::Incomplete,
                ArgsScan::Fatal { kind, at } => ArgsScan::Fatal { kind, at },
                ArgsScan::Done { args, next: fin } => ArgsScan::Done {
                    args: seq![payload] + args,
                    next: fin,
                },
            },
        }
    }
}

/// Scan one whole request frame from the start of the buffer: the array
/// marker, the element count, the command bulk string, and `count - 1`
/// argument bulk strings.  A declared count of zero leaves no room for a
/// command and is a fatal violation.
pub open spec fn scan_frame(s: Seq<u8>) -> FrameScan {
    if s.len() == 0 {
        FrameScan::Incomplete
    } else if s[0] != ARRAY_MARKER {
        FrameScan::Fatal { kind: FaultKind::NotAnArray, at: 0 }
    } else {
        match scan_int(s, 1) {
            IntScan::Incomplete => FrameScan::Incomplete,
            IntScan::Malformed { at } => FrameScan::Fatal {
                kind: FaultKind::MalformedInteger,
                at,
            },
            IntScan::Found { value: count, digits } => {
                if count == 0 {
                    FrameScan::Fatal { kind: FaultKind::InvalidElementCount, at: 1 }
                } else {
                    match scan_bulk(s, digits.end + 3) {
                        BulkScan::Incomplete => FrameScan::Incomplete,
                        BulkScan::Fatal { kind, at } => FrameScan::Fatal { kind, at },
                        BulkScan::Found { payload: command, next } => match scan_args(
                            s,
                            next,
                            (count - 1) as nat,
                        ) {
                            ArgsScan::Incomplete => FrameScan::Incomplete,
                            ArgsScan::Fatal { kind, at } => FrameScan::Fatal { kind, at },
                            ArgsScan::Done { args, next: consumed } => FrameScan::Ready {
                                count,
                                consumed,
                                command,
                                args,
                            },
                        },
                    }
                }
            },
        }
    }
}

/// Bounds that hold of every successful integer scan: the digits begin at
/// `start`, their end is no earlier than `idx - 1`, the byte after the full
/// terminator is still inside the buffer, and the value fits in 64 bits.
pub proof fn lemma_scan_int_from_found(s: Seq<u8>, start: int, idx: int, acc: int)
    requires
        0 <= start <= idx,
        0 <= acc <= u64::MAX,
        scan_int_from(s, start, idx, acc) is Found,
    ensures
        scan_int_from(s, start, idx, acc) matches IntScan::Found { value, digits } ==> {
            &&& digits.start == start
            &&& idx - 1 <= digits.end
            &&& digits.end + 3 <= s.len()
            &&& 0 <= value <= u64::MAX
        },
    decreases s.len() - idx,
{
    if idx >= s.len() {
    } else if s[idx] == TERM_FIRST {
    } else if !is_digit(s[idx]) {
    } else if acc * 10 + digit_value(s[idx]) > u64::MAX {
    } else {
        lemma_scan_int_from_found(s, start, idx + 1, acc * 10 + digit_value(s[idx]));
    }
}

/// Bounds of a successful bulk-string scan: the field occupies at least the
/// marker, an empty digit run, and two terminators, the payload lies
/// strictly inside it, and it ends within the buffer.
pub proof fn lemma_scan_bulk_found(s: Seq<u8>, off: int)
    requires
        0 <= off,
        scan_bulk(s, off) is Found,
    ensures
        scan_bulk(s, off) matches BulkScan::Found { payload, next } ==> {
            &&& off + 5 <= next <= s.len()
            &&& off + 3 <= payload.start
            &&& payload.start <= payload.end + 1
            &&& payload.end + 3 == next
        },
{
    if off < s.len() && s[off] == BULK_MARKER {
        if scan_int(s, off + 1) is Found {
            lemma_scan_int_from_found(s, off + 1, off + 1, 0);
        }
    }
}

/// Bounds of a successful run of bulk strings: there are exactly `k` of
/// them, the scan never moves backwards, never past the buffer, and every
/// payload lies between `off` and `next`.
pub proof fn lemma_scan_args_done(s: Seq<u8>, off: int, k: nat)
    requires
        0 <= off <= s.len(),
        scan_args(s, off, k) is Done,
    ensures
        scan_args(s, off, k) matches ArgsScan::Done { args, next } ==> {
            &&& args.len() == k
            &&& off <= next <= s.len()
            &&& forall|i: int|
                0 <= i < args.len() ==> {
                    &&& off <= #[trigger] args[i].start
                    &&& args[i].start <= args[i].end + 1
                    &&& args[i].end + 3 <= next
                }
        },
    decreases k,
{
    if k > 0 {
        match scan_bulk(s, off) {
            BulkScan::Found { payload, next } => {
                lemma_scan_bulk_found(s, off);
                lemma_scan_args_done(s, next, (k - 1) as nat);
            },
            _ => {},
        }
    }
}

/// Bounds of a complete frame: the element count is positive, there are
/// `count - 1` arguments, everything lies inside the consumed prefix, and
/// the command comes first.
pub proof fn lemma_scan_frame_ready(s: Seq<u8>)
    requires
        scan_frame(s) is Ready,
    ensures
        scan_frame(s) matches FrameScan::Ready { count, consumed, command, args } ==> {
            &&& 1 <= count <= u64::MAX
            &&& args.len() == count - 1
            &&& 4 <= consumed <= s.len()
            &&& 4 <= command.start
            &&& command.start <= command.end + 1
            &&& command.end + 3 <= consumed
            &&& forall|i: int|
                0 <= i < args.len() ==> {
                    &&& 0 <= #[trigger] args[i].start
                    &&& args[i].start <= args[i].end + 1
                    &&& args[i].end + 3 <= consumed
                }
        },
{
    if scan_frame(s) is Ready {
        lemma_scan_int_from_found(s, 1, 1, 0);
        let digits = scan_int(s, 1)->Found_digits;
        lemma_scan_bulk_found(s, digits.end + 3);
        let next = scan_bulk(s, digits.end + 3)->Found_next;
        let count = scan_int(s, 1)->Found_value;
        lemma_scan_args_done(s, next, (count - 1) as nat);
    }
}

} // verus!
