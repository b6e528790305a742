//! Laws of the streaming decoder, proved against the `wire` model.
//!
//! Together with `Request::parse`'s contract they say: feeding a valid
//! frame in arbitrary byte-wise chunks yields incomplete results until the
//! last byte arrives and then exactly the one request that a single call
//! would yield; pipelined frames are decoded one per call, each untouched
//! by the other; and malformed markers or digits are rejected fatally.

use crate::wire::is_digit;
use crate::wire::lemma_scan_args_done;
use crate::wire::lemma_scan_bulk_found;
use crate::wire::lemma_scan_frame_ready;
use crate::wire::lemma_scan_int_from_found;
use crate::wire::scan_args;
use crate::wire::scan_bulk;
use crate::wire::scan_frame;
use crate::wire::scan_int;
use crate::wire::scan_int_from;
use crate::wire::ArgsScan;
use crate::wire::BulkScan;
use crate::wire::FaultKind;
use crate::wire::FrameScan;
use crate::wire::IntScan;
use crate::wire::ARRAY_MARKER;
use crate::wire::BULK_MARKER;
use crate::wire::TERM_FIRST;
use vstd::prelude::*;

verus! {

/// A successful integer scan is unaffected by bytes appended after the
/// buffer.
proof fn lemma_scan_int_extends(s: Seq<u8>, extra: Seq<u8>, start: int, idx: int, acc: int)
    requires
        0 <= idx,
        scan_int_from(s, start, idx, acc) is Found,
    ensures
        scan_int_from(s + extra, start, idx, acc) == scan_int_from(s, start, idx, acc),
    decreases s.len() - idx,
{
    assert((s + extra)[idx] == s[idx]);
    if s[idx] == TERM_FIRST {
    } else {
        lemma_scan_int_extends(s, extra, start, idx + 1, acc * 10 + crate::wire::digit_value(s[idx]));
    }
}

/// Truncating the buffer before a successful integer scan's full
/// terminator leaves the scan incomplete; truncating at or after it
/// leaves the result unchanged.
proof fn lemma_scan_int_truncates(s: Seq<u8>, m: int, start: int, idx: int, acc: int)
    requires
        0 <= start <= idx,
        0 <= acc <= u64::MAX,
        0 <= m <= s.len(),
        scan_int_from(s, start, idx, acc) is Found,
    ensures
        scan_int_from(s, start, idx, acc) matches IntScan::Found { value, digits } ==> {
            if m >= digits.end + 3 {
                scan_int_from(s.take(m), start, idx, acc) == scan_int_from(s, start, idx, acc)
            } else {
                scan_int_from(s.take(m), start, idx, acc) is Incomplete
            }
        },
    decreases s.len() - idx,
{
    lemma_scan_int_from_found(s, start, idx, acc);
    let t = s.take(m);
    if idx >= m {
    } else {
        assert(t[idx] == s[idx]);
        if s[idx] == TERM_FIRST {
        } else {
            lemma_scan_int_truncates(s, m, start, idx + 1, acc * 10 + crate::wire::digit_value(
                s[idx],
            ));
        }
    }
}

/// A successful bulk-string scan is unaffected by appended bytes.
proof fn lemma_scan_bulk_extends(s: Seq<u8>, extra: Seq<u8>, off: int)
    requires
        0 <= off,
        scan_bulk(s, off) is Found,
    ensures
        scan_bulk(s + extra, off) == scan_bulk(s, off),
{
    assert((s + extra)[off] == s[off]);
    lemma_scan_int_extends(s, extra, off + 1, off + 1, 0);
    lemma_scan_int_from_found(s, off + 1, off + 1, 0);
}

/// Truncating the buffer before the end of a successful bulk-string scan
/// leaves it incomplete; truncating at or after its end leaves the result
/// unchanged.
proof fn lemma_scan_bulk_truncates(s: Seq<u8>, m: int, off: int)
    requires
        0 <= off,
        0 <= m <= s.len(),
        scan_bulk(s, off) is Found,
    ensures
        scan_bulk(s, off) matches BulkScan::Found { payload, next } ==> {
            if m >= next {
                scan_bulk(s.take(m), off) == scan_bulk(s, off)
            } else {
                scan_bulk(s.take(m), off) is Incomplete
            }
        },
{
    lemma_scan_bulk_found(s, off);
    let t = s.take(m);
    if off < m {
        assert(t[off] == s[off]);
        lemma_scan_int_from_found(s, off + 1, off + 1, 0);
        lemma_scan_int_truncates(s, m, off + 1, off + 1, 0);
    }
}

/// A successful run of bulk strings is unaffected by appended bytes.
proof fn lemma_scan_args_extends(s: Seq<u8>, extra: Seq<u8>, off: int, k: nat)
    requires
        0 <= off <= s.len(),
        scan_args(s, off, k) is Done,
    ensures
        scan_args(s + extra, off, k) == scan_args(s, off, k),
    decreases k,
{
    if k > 0 {
        lemma_scan_bulk_found(s, off);
        lemma_scan_bulk_extends(s, extra, off);
        let next = scan_bulk(s, off)->Found_next;
        lemma_scan_args_extends(s, extra, next, (k - 1) as nat);
    }
}

/// Truncating the buffer before the end of a successful run of bulk
/// strings leaves it incomplete (when the run is not empty); truncating
/// at or after its end leaves the result unchanged.
proof fn lemma_scan_args_truncates(s: Seq<u8>, m: int, off: int, k: nat)
    requires
        0 <= off <= s.len(),
        0 <= m <= s.len(),
        scan_args(s, off, k) is Done,
    ensures
        scan_args(s, off, k) matches ArgsScan::Done { args, next } ==> {
            &&& m >= next ==> scan_args(s.take(m), off, k) == scan_args(s, off, k)
            &&& m < next && k > 0 ==> scan_args(s.take(m), off, k) is Incomplete
        },
    decreases k,
{
    if k > 0 {
        lemma_scan_bulk_found(s, off);
        lemma_scan_bulk_truncates(s, m, off);
        let next1 = scan_bulk(s, off)->Found_next;
        lemma_scan_args_done(s, next1, (k - 1) as nat);
        lemma_scan_args_truncates(s, m, next1, (k - 1) as nat);
    }
}

/// Law: once a buffer holds a complete frame, bytes arriving after it do
/// not change what is decoded — the same frame, the same command and
/// argument ranges, the same consumed length.
pub proof fn lemma_frame_unaffected_by_appended_bytes(s: Seq<u8>, extra: Seq<u8>)
    requires
        scan_frame(s) is Ready,
    ensures
        scan_frame(s + extra) == scan_frame(s),
{
    assert((s + extra)[0] == s[0]);
    lemma_scan_int_extends(s, extra, 1, 1, 0);
    lemma_scan_int_from_found(s, 1, 1, 0);
    let digits = scan_int(s, 1)->Found_digits;
    let count = scan_int(s, 1)->Found_value;
    lemma_scan_bulk_extends(s, extra, digits.end + 3);
    lemma_scan_bulk_found(s, digits.end + 3);
    let next = scan_bulk(s, digits.end + 3)->Found_next;
    lemma_scan_args_extends(s, extra, next, (count - 1) as nat);
}

/// Law: every truncation of a frame short of its full length is decoded
/// as incomplete — never as a fatal error and never as a spurious frame.
/// With `Request::parse`'s contract this also covers chunked feeding: a
/// valid frame split into arbitrary byte-wise chunks and appended chunk
/// by chunk yields incomplete results, the buffer each time untouched,
/// until the final chunk completes the frame, and then exactly the
/// request that parsing the whole frame in one call yields.
pub proof fn lemma_truncated_frame_incomplete(s: Seq<u8>, m: int)
    requires
        scan_frame(s) is Ready,
        0 <= m < scan_frame(s)->Ready_consumed,
    ensures
        scan_frame(s.take(m)) is Incomplete,
{
    lemma_scan_frame_ready(s);
    let t = s.take(m);
    if m > 0 {
        assert(t[0] == s[0]);
        lemma_scan_int_from_found(s, 1, 1, 0);
        lemma_scan_int_truncates(s, m, 1, 1, 0);
        let digits = scan_int(s, 1)->Found_digits;
        let count = scan_int(s, 1)->Found_value;
        if m >= digits.end + 3 {
            lemma_scan_bulk_found(s, digits.end + 3);
            lemma_scan_bulk_truncates(s, m, digits.end + 3);
            let next = scan_bulk(s, digits.end + 3)->Found_next;
            if m >= next {
                lemma_scan_args_done(s, next, (count - 1) as nat);
                lemma_scan_args_truncates(s, m, next, (count - 1) as nat);
            }
        }
    }
}

/// Law: two frames concatenated in one buffer are decoded by two
/// sequential calls, the first consuming exactly the first frame and
/// leaving the second intact for the next call.
pub proof fn lemma_pipelined_frames(first: Seq<u8>, second: Seq<u8>)
    requires
        scan_frame(first) is Ready,
        scan_frame(first)->Ready_consumed == first.len(),
    ensures
        scan_frame(first + second) == scan_frame(first),
        (first + second).take(first.len() as int) == first,
        (first + second).skip(first.len() as int) == second,
{
    lemma_frame_unaffected_by_appended_bytes(first, second);
    assert((first + second).take(first.len() as int) =~= first);
    assert((first + second).skip(first.len() as int) =~= second);
}

/// Law: a complete frame of declared element count `count` carries
/// exactly `count - 1` arguments besides the command; in particular a
/// count of one yields a request with the command only.
pub proof fn lemma_ready_argument_count(s: Seq<u8>)
    requires
        scan_frame(s) is Ready,
    ensures
        scan_frame(s)->Ready_count >= 1,
        scan_frame(s)->Ready_args.len() == scan_frame(s)->Ready_count - 1,
{
    lemma_scan_frame_ready(s);
}

/// Law: a bulk string's payload range is exactly as long as its declared
/// length; in particular a declared length of zero yields an empty
/// payload, not a failure.
pub proof fn lemma_bulk_payload_length(s: Seq<u8>, off: int)
    requires
        0 <= off,
        scan_bulk(s, off) is Found,
    ensures
        scan_bulk(s, off) matches BulkScan::Found { payload, next } ==> payload.end + 1
            - payload.start == scan_int(s, off + 1)->Found_value,
{
}

/// Law: a non-empty buffer whose first byte is not the array marker is
/// rejected fatally at offset zero.
pub proof fn lemma_non_array_marker_fatal(s: Seq<u8>)
    requires
        s.len() > 0,
        s[0] != ARRAY_MARKER,
    ensures
        scan_frame(s) == (FrameScan::Fatal { kind: FaultKind::NotAnArray, at: 0 }),
{
}

/// Law: a byte other than the bulk marker where a bulk string must begin
/// is rejected fatally at that offset.
pub proof fn lemma_non_bulk_marker_fatal(s: Seq<u8>, off: int)
    requires
        0 <= off < s.len(),
        s[off] != BULK_MARKER,
    ensures
        scan_bulk(s, off) == (BulkScan::Fatal { kind: FaultKind::ExpectedBulkString, at: off }),
{
}

proof fn lemma_scan_int_from_malformed(s: Seq<u8>, start: int, idx: int, acc: int, j: int)
    requires
        0 <= idx <= j < s.len(),
        forall|i: int| idx <= i < j ==> is_digit(#[trigger] s[i]),
        !is_digit(s[j]),
        s[j] != TERM_FIRST,
    ensures
        scan_int_from(s, start, idx, acc) is Malformed,
    decreases j - idx,
{
    if idx < j {
        assert(is_digit(s[idx]));
        if acc * 10 + crate::wire::digit_value(s[idx]) <= u64::MAX {
            lemma_scan_int_from_malformed(
                s,
                start,
                idx + 1,
                acc * 10 + crate::wire::digit_value(s[idx]),
                j,
            );
        }
    }
}

/// Law: a length field holding a byte that is neither a digit nor the
/// terminator is rejected as malformed.
pub proof fn lemma_non_digit_malformed(s: Seq<u8>, off: int, j: int)
    requires
        0 <= off <= j < s.len(),
        forall|i: int| off <= i < j ==> is_digit(#[trigger] s[i]),
        !is_digit(s[j]),
        s[j] != TERM_FIRST,
    ensures
        scan_int(s, off) is Malformed,
{
    lemma_scan_int_from_malformed(s, off, off, 0, j);
}

} // verus!
