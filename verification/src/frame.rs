//! Length-prefixed chunks and records: the framing shared by the staging file
//! and the proof store.
//!
//! A chunk is the length of its data as sixteen lower-case hexadecimal digits,
//! a line feed, the data as it is, and a line feed. The length in front makes a
//! chunk self-delimiting whatever bytes the data holds. A record is two chunks
//! between three fixed marks; a file is records one after another, and reading
//! it back gives exactly the records that were written, in their order.

use vstd::prelude::*;
use crate::bytes::{append_bytes, bytes_eq, copy_range};
use vstd::slice::slice_subrange;

verus! {

/// The number of hexadecimal digits in front of a chunk.
pub const LEN_DIGITS: usize = 16;

/// The line feed that ends the length and the data of a chunk.
pub const LINE_FEED: u8 = 10;

/// The bytes that a chunk adds around its data.
pub const CHUNK_OVERHEAD: usize = 18;

/// The digit that stands for `d`, for `d` below sixteen.
pub open spec fn digit_char(d: int) -> u8 {
    if d < 10 {
        (48 + d) as u8
    } else {
        (87 + d) as u8
    }
}

/// The value of a lower-case hexadecimal digit; nothing for any other byte.
pub open spec fn digit_value(c: u8) -> Option<int> {
    if 48 <= c <= 57 {
        Some(c - 48)
    } else if 97 <= c <= 102 {
        Some(c - 87)
    } else {
        None
    }
}

/// Sixteen to the power of `k`.
pub open spec fn pow16(k: nat) -> nat
    decreases k,
{
    if k == 0 {
        1
    } else {
        16 * pow16((k - 1) as nat)
    }
}

/// The last `width` hexadecimal digits of `n`, most significant first.
pub open spec fn hex_digits(n: nat, width: nat) -> Seq<u8>
    decreases width,
{
    if width == 0 {
        Seq::empty()
    } else {
        hex_digits(n / 16, (width - 1) as nat).push(digit_char((n % 16) as int))
    }
}

/// Whether every byte of `s` is a lower-case hexadecimal digit.
pub open spec fn is_hex(s: Seq<u8>) -> bool {
    forall|i: int| 0 <= i < s.len() ==> digit_value(#[trigger] s[i]) is Some
}

/// The number that the digits `s` write, most significant first.
pub open spec fn hex_value(s: Seq<u8>) -> nat
    decreases s.len(),
{
    if s.len() == 0 {
        0
    } else {
        (hex_value(s.drop_last()) * 16 + digit_value(s.last()).unwrap_or(0)) as nat
    }
}

/// `data` as a chunk.
pub open spec fn chunk_spec(data: Seq<u8>) -> Seq<u8> {
    hex_digits(data.len(), LEN_DIGITS as nat) + seq![LINE_FEED] + data + seq![LINE_FEED]
}

/// Where the data of the chunk that starts at `start` begins and ends, if a
/// well-formed chunk starts there.
pub open spec fn chunk_at(bytes: Seq<u8>, start: int) -> Option<(int, int)> {
    let digits = bytes.subrange(start, start + LEN_DIGITS);
    let from = start + LEN_DIGITS + 1;
    if 0 <= start && from <= bytes.len() && is_hex(digits) && bytes[from - 1] == LINE_FEED
        && from + hex_value(digits) < bytes.len() && bytes[from + hex_value(digits)]
        == LINE_FEED {
        Some((from, from + hex_value(digits)))
    } else {
        None
    }
}

/// The digits of a number have the width asked for and are hexadecimal.
pub proof fn lemma_hex_digits_shape(n: nat, width: nat)
    ensures
        hex_digits(n, width).len() == width,
        is_hex(hex_digits(n, width)),
    decreases width,
{
    if width > 0 {
        lemma_hex_digits_shape(n / 16, (width - 1) as nat);
    }
}

/// Reading the digits of a number that fits the width gives the number back.
pub proof fn lemma_hex_round_trip(n: nat, width: nat)
    requires
        n < pow16(width),
    ensures
        hex_value(hex_digits(n, width)) == n,
    decreases width,
{
    if width > 0 {
        let rest = hex_digits(n / 16, (width - 1) as nat);
        lemma_hex_round_trip(n / 16, (width - 1) as nat);
        assert(hex_digits(n, width).drop_last() =~= rest);
    }
}

/// Digits write a number below sixteen to the power of their count.
pub proof fn lemma_hex_value_bound(s: Seq<u8>)
    requires
        is_hex(s),
    ensures
        hex_value(s) < pow16(s.len()),
    decreases s.len(),
{
    if s.len() > 0 {
        let head = s.drop_last();
        assert forall|i: int| 0 <= i < head.len() implies digit_value(#[trigger] head[i])
            is Some by {
            assert(head[i] == s[i]);
        }
        lemma_hex_value_bound(head);
        assert(digit_value(s.last()) is Some);
    }
}

/// Sixteen digits hold every 64-bit number, and nothing more.
pub proof fn lemma_pow16_width()
    ensures
        pow16(LEN_DIGITS as nat) == 0x1_0000_0000_0000_0000,
        pow16(15) == 0x1000_0000_0000_0000,
{
    reveal_with_fuel(pow16, 17);
}

/// Sixteen to a power grows with the power.
pub proof fn lemma_pow16_monotonic(a: nat, b: nat)
    requires
        a <= b,
    ensures
        pow16(a) <= pow16(b),
    decreases b,
{
    if a < b {
        lemma_pow16_monotonic(a, (b - 1) as nat);
    }
}

/// A chunk is eighteen bytes longer than its data.
pub proof fn lemma_chunk_len(data: Seq<u8>)
    ensures
        chunk_spec(data).len() == data.len() + CHUNK_OVERHEAD,
{
    lemma_hex_digits_shape(data.len(), LEN_DIGITS as nat);
}

/// A chunk that stands between any two byte strings is found where it starts,
/// with exactly its data.
pub proof fn lemma_chunk_at(before: Seq<u8>, data: Seq<u8>, after: Seq<u8>)
    requires
        data.len() <= u64::MAX,
    ensures
        chunk_at(before + chunk_spec(data) + after, before.len() as int) == Some(
            (before.len() + LEN_DIGITS + 1, before.len() + LEN_DIGITS + 1 + data.len()),
        ),
        (before + chunk_spec(data) + after).subrange(
            before.len() + LEN_DIGITS + 1,
            before.len() + LEN_DIGITS + 1 + data.len(),
        ) == data,
{
    let all = before + chunk_spec(data) + after;
    let start = before.len() as int;
    let digits = hex_digits(data.len(), LEN_DIGITS as nat);
    lemma_hex_digits_shape(data.len(), LEN_DIGITS as nat);
    lemma_pow16_width();
    lemma_hex_round_trip(data.len(), LEN_DIGITS as nat);
    assert(all.subrange(start, start + LEN_DIGITS) =~= digits);
    assert(all.subrange(start + LEN_DIGITS + 1, start + LEN_DIGITS + 1 + data.len()) =~= data);
    assert(all[start + LEN_DIGITS] == LINE_FEED);
    assert(all[start + LEN_DIGITS + 1 + data.len()] == LINE_FEED);
}

/// The digit that stands for `d`.
fn hex_digit(d: u8) -> (c: u8)
    requires
        d < 16,
    ensures
        c == digit_char(d as int),
{
    if d < 10 {
        48 + d
    } else {
        87 + d
    }
}

/// The value of the digit `c`, if it is one.
fn hex_digit_value(c: u8) -> (v: Option<u8>)
    ensures
        v is Some <==> digit_value(c) is Some,
        v matches Some(d) ==> digit_value(c) == Some(d as int),
{
    if 48 <= c && c <= 57 {
        Some(c - 48)
    } else if 97 <= c && c <= 102 {
        Some(c - 87)
    } else {
        None
    }
}

/// Appends the sixteen digits of `n` to `out`.
fn put_length(out: &mut Vec<u8>, n: u64)
    ensures
        final(out)@ == old(out)@ + hex_digits(n as nat, LEN_DIGITS as nat),
{
    let mut shift: u32 = 64;
    let ghost mut written: nat = 0;
    while shift > 0
        invariant
            shift % 4 == 0,
            shift <= 64,
            written == (64 - shift) / 4,
            out@ == old(out)@ + hex_digits((n >> shift) as nat, written),
        decreases shift,
    {
        let ghost high: u64 = n >> shift;
        shift = shift - 4;
        let low: u64 = n >> shift;
        let digit: u8 = (low & 0xf) as u8;
        proof {
            let s: u32 = shift;
            assert(low / 16 == high && low % 16 == (low & 0xf) && (low & 0xf) < 16) by (bit_vector)
                requires
                    s <= 60,
                    low == n >> s,
                    high == n >> ((s + 4) as u32),
            ;
            assert(hex_digits(low as nat, written + 1) == hex_digits(high as nat, written).push(
                digit_char(digit as int),
            ));
            written = written + 1;
        }
        out.push(hex_digit(digit));
    }
    proof {
        assert(n >> 0u32 == n) by (bit_vector);
    }
}

/// Appends `data` as a chunk to `out`.
pub fn put_chunk(out: &mut Vec<u8>, data: &[u8])
    ensures
        final(out)@ == old(out)@ + chunk_spec(data@),
        data@.len() <= usize::MAX,
{
    put_length(out, data.len() as u64);
    out.push(LINE_FEED);
    append_bytes(out, data);
    out.push(LINE_FEED);
    proof {
        assert(out@ =~= old(out)@ + chunk_spec(data@));
    }
}

/// Reads the chunk that starts at `start`: where its data begins and ends.
/// The next chunk, if any, starts one byte after the end.
pub fn take_chunk(bytes: &[u8], start: usize) -> (found: Option<(usize, usize)>)
    ensures
        found is Some <==> chunk_at(bytes@, start as int) is Some,
        found matches Some((from, to)) ==> chunk_at(bytes@, start as int) == Some(
            (from as int, to as int),
        ),
{
    if bytes.len() < LEN_DIGITS + 1 || start > bytes.len() - (LEN_DIGITS + 1) {
        return None;
    }
    let ghost digits = bytes@.subrange(start as int, start + LEN_DIGITS);
    let mut value: u64 = 0;
    let mut i: usize = 0;
    while i < LEN_DIGITS
        invariant
            i <= LEN_DIGITS,
            start + LEN_DIGITS + 1 <= bytes@.len() <= usize::MAX,
            digits == bytes@.subrange(start as int, start + LEN_DIGITS),
            is_hex(digits.subrange(0, i as int)),
            value == hex_value(digits.subrange(0, i as int)),
        decreases LEN_DIGITS - i,
    {
        let ghost seen = digits.subrange(0, i as int);
        let ghost next = digits.subrange(0, i + 1);
        proof {
            assert(next.drop_last() =~= seen);
            assert(next.last() == bytes@[start + i]);
            lemma_hex_value_bound(seen);
            lemma_pow16_monotonic(i as nat, 15);
            lemma_pow16_width();
        }
        match hex_digit_value(bytes[start + i]) {
            None => {
                proof {
                    assert(digit_value(digits[i as int]) is None);
                }
                return None;
            },
            Some(d) => {
                value = value * 16 + d as u64;
                proof {
                    assert forall|k: int| 0 <= k < next.len() implies digit_value(
                        #[trigger] next[k],
                    ) is Some by {
                        if k < i {
                            assert(next[k] == seen[k]);
                        }
                    }
                }
            },
        }
        i = i + 1;
    }
    proof {
        assert(digits.subrange(0, i as int) =~= digits);
    }
    let from: usize = start + LEN_DIGITS + 1;
    if bytes[from - 1] != LINE_FEED {
        return None;
    }
    let room: usize = bytes.len() - from;
    if value >= room as u64 {
        return None;
    }
    let to: usize = from + value as usize;
    if bytes[to] != LINE_FEED {
        return None;
    }
    Some((from, to))
}

/// The fixed byte strings that open a record, separate its two chunks and
/// close it.
#[derive(Clone, Debug, PartialEq, Eq)]
pub struct Marks {
    pub open: Vec<u8>,
    pub middle: Vec<u8>,
    pub close: Vec<u8>,
}

/// The marks of a record as byte sequences.
pub struct MarksView {
    pub open: Seq<u8>,
    pub middle: Seq<u8>,
    pub close: Seq<u8>,
}

impl View for Marks {
    type V = MarksView;

    open spec fn view(&self) -> MarksView {
        MarksView { open: self.open@, middle: self.middle@, close: self.close@ }
    }
}

/// Where the parts of a record lie in a file.
#[derive(Clone, Copy, Debug)]
pub struct RecordSpan {
    /// The data of the first chunk, from and up to.
    pub first: (usize, usize),
    /// The data of the second chunk, from and up to.
    pub second: (usize, usize),
    /// Where the record ends and the next one starts.
    pub next: usize,
}

/// The positions of a record's parts.
pub struct SpanView {
    pub first: (int, int),
    pub second: (int, int),
    pub next: int,
}

impl View for RecordSpan {
    type V = SpanView;

    open spec fn view(&self) -> SpanView {
        SpanView {
            first: (self.first.0 as int, self.first.1 as int),
            second: (self.second.0 as int, self.second.1 as int),
            next: self.next as int,
        }
    }
}

/// The record that holds `first` and `second`.
pub open spec fn record_spec(marks: MarksView, first: Seq<u8>, second: Seq<u8>) -> Seq<u8> {
    marks.open + chunk_spec(first) + marks.middle + chunk_spec(second) + marks.close
}

/// Whether `mark` stands in `bytes` at `pos`.
pub open spec fn has_at(bytes: Seq<u8>, pos: int, mark: Seq<u8>) -> bool {
    0 <= pos && pos + mark.len() <= bytes.len() && bytes.subrange(pos, pos + mark.len()) == mark
}

/// The record that starts at `pos`, if a well-formed one starts there.
pub open spec fn record_at(bytes: Seq<u8>, pos: int, marks: MarksView) -> Option<SpanView> {
    if !has_at(bytes, pos, marks.open) {
        None
    } else {
        match chunk_at(bytes, pos + marks.open.len()) {
            None => None,
            Some(first) => if !has_at(bytes, first.1 + 1, marks.middle) {
                None
            } else {
                match chunk_at(bytes, first.1 + 1 + marks.middle.len()) {
                    None => None,
                    Some(second) => if !has_at(bytes, second.1 + 1, marks.close) {
                        None
                    } else {
                        Some(SpanView { first, second, next: second.1 + 1 + marks.close.len() })
                    },
                }
            },
        }
    }
}

/// The records that `bytes` holds from `pos` to its end, if it is made of
/// well-formed records and nothing else from there on.
pub open spec fn records_from(bytes: Seq<u8>, pos: int, marks: MarksView) -> Option<
    Seq<(Seq<u8>, Seq<u8>)>,
>
    decreases bytes.len() - pos,
{
    if pos >= bytes.len() {
        if pos == bytes.len() {
            Some(Seq::empty())
        } else {
            None
        }
    } else {
        match record_at(bytes, pos, marks) {
            None => None,
            Some(span) => match records_from(bytes, span.next, marks) {
                None => None,
                Some(rest) => Some(
                    seq![
                        (
                            bytes.subrange(span.first.0, span.first.1),
                            bytes.subrange(span.second.0, span.second.1),
                        ),
                    ] + rest,
                ),
            },
        }
    }
}

/// The records that the whole of `bytes` holds.
pub open spec fn records_of(bytes: Seq<u8>, marks: MarksView) -> Option<Seq<(Seq<u8>, Seq<u8>)>> {
    records_from(bytes, 0, marks)
}

/// The length of a record.
pub open spec fn record_len(marks: MarksView, first: Seq<u8>, second: Seq<u8>) -> int {
    marks.open.len() + first.len() + marks.middle.len() + second.len() + marks.close.len() + 2
        * CHUNK_OVERHEAD
}

/// A record that stands between any two byte strings is found where it
/// starts, with exactly its two data, and ends where what follows starts.
pub proof fn lemma_record_at(
    before: Seq<u8>,
    marks: MarksView,
    first: Seq<u8>,
    second: Seq<u8>,
    after: Seq<u8>,
)
    requires
        first.len() <= u64::MAX,
        second.len() <= u64::MAX,
    ensures
        record_spec(marks, first, second).len() == record_len(marks, first, second),
        record_at(before + record_spec(marks, first, second) + after, before.len() as int, marks)
            matches Some(span) && {
            let all = before + record_spec(marks, first, second) + after;
            &&& all.subrange(span.first.0, span.first.1) == first
            &&& all.subrange(span.second.0, span.second.1) == second
            &&& span.next == before.len() + record_len(marks, first, second)
        },
{
    let all = before + record_spec(marks, first, second) + after;
    let p0 = before.len() as int;
    let p1 = p0 + marks.open.len();
    let p2 = p1 + first.len() + CHUNK_OVERHEAD;
    let p3 = p2 + marks.middle.len();
    let p4 = p3 + second.len() + CHUNK_OVERHEAD;
    lemma_chunk_len(first);
    lemma_chunk_len(second);
    assert(all.subrange(p0, p1) =~= marks.open);
    assert(all =~= (before + marks.open) + chunk_spec(first) + (marks.middle + chunk_spec(second)
        + marks.close + after));
    lemma_chunk_at(
        before + marks.open,
        first,
        marks.middle + chunk_spec(second) + marks.close + after,
    );
    assert(all.subrange(p2, p3) =~= marks.middle);
    assert(all =~= (before + marks.open + chunk_spec(first) + marks.middle) + chunk_spec(second)
        + (marks.close + after));
    lemma_chunk_at(
        before + marks.open + chunk_spec(first) + marks.middle,
        second,
        marks.close + after,
    );
    assert(all.subrange(p4, p4 + marks.close.len()) =~= marks.close);
}

/// What is read from a position of a file stays what it was when bytes are
/// appended to the file.
pub proof fn lemma_record_at_stable(bytes: Seq<u8>, pos: int, marks: MarksView, more: Seq<u8>)
    requires
        record_at(bytes, pos, marks) is Some,
    ensures
        record_at(bytes + more, pos, marks) == record_at(bytes, pos, marks),
{
    let longer = bytes + more;
    let span = record_at(bytes, pos, marks)->Some_0;
    let p1 = pos + marks.open.len();
    assert(longer.subrange(pos, p1) =~= bytes.subrange(pos, p1));
    assert(longer.subrange(p1, p1 + LEN_DIGITS) =~= bytes.subrange(p1, p1 + LEN_DIGITS));
    let p2 = span.first.1 + 1;
    let p3 = p2 + marks.middle.len();
    assert(longer.subrange(p2, p3) =~= bytes.subrange(p2, p3));
    assert(longer.subrange(p3, p3 + LEN_DIGITS) =~= bytes.subrange(p3, p3 + LEN_DIGITS));
    let p4 = span.second.1 + 1;
    assert(longer.subrange(p4, p4 + marks.close.len()) =~= bytes.subrange(
        p4,
        p4 + marks.close.len(),
    ));
}

/// Appending a record to a file of records appends it to what is read back:
/// the records before it are read as before, and it comes last.
pub proof fn lemma_records_extend(
    bytes: Seq<u8>,
    pos: int,
    marks: MarksView,
    first: Seq<u8>,
    second: Seq<u8>,
)
    requires
        0 <= pos <= bytes.len(),
        records_from(bytes, pos, marks) is Some,
        first.len() <= u64::MAX,
        second.len() <= u64::MAX,
    ensures
        records_from(bytes + record_spec(marks, first, second), pos, marks) == Some(
            records_from(bytes, pos, marks)->Some_0.push((first, second)),
        ),
    decreases bytes.len() - pos,
{
    let record = record_spec(marks, first, second);
    let longer = bytes + record;
    if pos == bytes.len() {
        lemma_record_at(bytes, marks, first, second, Seq::empty());
        assert(longer =~= bytes + record + Seq::<u8>::empty());
        let span = record_at(longer, pos, marks)->Some_0;
        assert(span.next == longer.len());
        assert(records_from(longer, span.next, marks) == Some(Seq::<(Seq<u8>, Seq<u8>)>::empty()));
        assert(seq![(first, second)] + Seq::<(Seq<u8>, Seq<u8>)>::empty() =~= Seq::<
            (Seq<u8>, Seq<u8>),
        >::empty().push((first, second)));
    } else {
        let span = record_at(bytes, pos, marks)->Some_0;
        lemma_record_at_stable(bytes, pos, marks, record);
        lemma_records_extend(bytes, span.next, marks, first, second);
        let rest = records_from(bytes, span.next, marks)->Some_0;
        assert(longer.subrange(span.first.0, span.first.1) =~= bytes.subrange(
            span.first.0,
            span.first.1,
        ));
        assert(longer.subrange(span.second.0, span.second.1) =~= bytes.subrange(
            span.second.0,
            span.second.1,
        ));
        let head = seq![
            (
                bytes.subrange(span.first.0, span.first.1),
                bytes.subrange(span.second.0, span.second.1),
            ),
        ];
        assert(head + rest.push((first, second)) =~= (head + rest).push((first, second)));
    }
}

/// Whether `mark` stands in `bytes` at `pos`.
pub fn starts_with_at(bytes: &[u8], pos: usize, mark: &[u8]) -> (found: bool)
    ensures
        found == has_at(bytes@, pos as int, mark@),
{
    if pos > bytes.len() || mark.len() > bytes.len() - pos {
        return false;
    }
    bytes_eq(slice_subrange(bytes, pos, pos + mark.len()), mark)
}

/// Appends the record that holds `first` and `second` to `out`.
pub fn put_record(out: &mut Vec<u8>, marks: &Marks, first: &[u8], second: &[u8])
    ensures
        final(out)@ == old(out)@ + record_spec(marks@, first@, second@),
        first@.len() <= usize::MAX,
        second@.len() <= usize::MAX,
{
    append_bytes(out, marks.open.as_slice());
    put_chunk(out, first);
    append_bytes(out, marks.middle.as_slice());
    put_chunk(out, second);
    append_bytes(out, marks.close.as_slice());
    proof {
        assert(out@ =~= old(out)@ + record_spec(marks@, first@, second@));
    }
}

/// Reads the record that starts at `pos`.
pub fn take_record(bytes: &[u8], pos: usize, marks: &Marks) -> (found: Option<RecordSpan>)
    ensures
        found is Some <==> record_at(bytes@, pos as int, marks@) is Some,
        found matches Some(span) ==> record_at(bytes@, pos as int, marks@) == Some(span@),
{
    let ghost total: usize = bytes.len();
    if !starts_with_at(bytes, pos, marks.open.as_slice()) {
        return None;
    }
    let first = match take_chunk(bytes, pos + marks.open.len()) {
        None => {
            return None;
        },
        Some(range) => range,
    };
    if !starts_with_at(bytes, first.1 + 1, marks.middle.as_slice()) {
        return None;
    }
    let second = match take_chunk(bytes, first.1 + 1 + marks.middle.len()) {
        None => {
            return None;
        },
        Some(range) => range,
    };
    if !starts_with_at(bytes, second.1 + 1, marks.close.as_slice()) {
        return None;
    }
    Some(RecordSpan { first, second, next: second.1 + 1 + marks.close.len() })
}

/// Reads `bytes` as records: the two data of each, in the order in which they
/// stand, or nothing where `bytes` is not made of well-formed records alone.
pub fn split_records(bytes: &[u8], marks: &Marks) -> (found: Option<Vec<(Vec<u8>, Vec<u8>)>>)
    ensures
        found is Some <==> records_of(bytes@, marks@) is Some,
        found matches Some(records) ==> records_of(bytes@, marks@) == Some(records.deep_view()),
{
    let mut records: Vec<(Vec<u8>, Vec<u8>)> = Vec::new();
    let mut pos: usize = 0;
    while pos < bytes.len()
        invariant
            pos <= bytes@.len(),
            records_of(bytes@, marks@) == match records_from(bytes@, pos as int, marks@) {
                None => None,
                Some(rest) => Some(records.deep_view() + rest),
            },
        decreases bytes@.len() - pos,
    {
        match take_record(bytes, pos, marks) {
            None => {
                return None;
            },
            Some(span) => {
                let ghost seen = records.deep_view();
                let first = copy_range(bytes, span.first.0, span.first.1);
                let second = copy_range(bytes, span.second.0, span.second.1);
                records.push((first, second));
                proof {
                    let item = (first@, second@);
                    assert(first.deep_view() =~= first@);
                    assert(second.deep_view() =~= second@);
                    assert(records.deep_view() =~= seen.push(item));
                    match records_from(bytes@, span.next as int, marks@) {
                        None => {},
                        Some(rest) => {
                            assert(seen + (seq![item] + rest) =~= seen.push(item) + rest);
                        },
                    }
                }
                pos = span.next;
            },
        }
    }
    proof {
        assert(records.deep_view() + Seq::<(Seq<u8>, Seq<u8>)>::empty() =~= records.deep_view());
    }
    Some(records)
}

} // verus!
