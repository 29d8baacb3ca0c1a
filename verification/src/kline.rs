//! Fixed-size OHLCV candle ring buffer with a binary file image.
//!
//! The window holds `len` rows in descending time order: row 0 is the
//! newest candle and row `i` covers the bucket starting at
//! `head_opentime_ms - i * timeframe_ms`. The file image is
//! `8 + len * 41` bytes: a big-endian 64-bit header holding the head
//! opentime in milliseconds, then one 41-byte row each — a marker byte
//! (`0xC0` for an empty row, `0x95` for a populated one) followed by the
//! five 64-bit OHLCV words in big-endian order. Candle values are carried
//! as the raw binary64 words of the feed; merging compares them by word
//! order, which coincides with numeric order for the non-negative prices
//! and amounts the feeds deliver.

use vstd::prelude::*;

use crate::errors::KLineError;
use crate::trade::TradeRecord;

verus! {

broadcast use vstd::std_specs::vec::group_vec_axioms;

/// A populated candle: the five OHLCV values as binary64 words.
#[derive(Clone, Copy, Debug, PartialEq, Eq, Structural)]
pub struct KLineRowData {
    pub open: u64,
    pub high: u64,
    pub low: u64,
    pub close: u64,
    pub volume: u64,
}

/// One slot of the window: either no trade was seen in the bucket, or a
/// populated candle.
#[derive(Clone, Copy, Debug, PartialEq, Eq, Structural)]
pub enum KLineRow {
    Empty,
    Data(KLineRowData),
}

/// Marker byte of an empty row (the msgpack nil marker).
pub const MARKER_EMPTY: u8 = 0xc0;

/// Marker byte of a populated row (the msgpack marker of a five-element
/// fixed array).
pub const MARKER_DATA: u8 = 0x95;

/// A word split into eight bytes, most significant first.
pub open spec fn be_bytes_of(x: u64) -> Seq<u8> {
    seq![
        ((x >> 56) & 0xff) as u8,
        ((x >> 48) & 0xff) as u8,
        ((x >> 40) & 0xff) as u8,
        ((x >> 32) & 0xff) as u8,
        ((x >> 24) & 0xff) as u8,
        ((x >> 16) & 0xff) as u8,
        ((x >> 8) & 0xff) as u8,
        (x & 0xff) as u8,
    ]
}

/// Eight bytes recombined into a word, most significant first.
pub open spec fn u64_of_be(s: Seq<u8>) -> u64
    recommends
        s.len() == 8,
{
    ((s[0] as u64) << 56) | ((s[1] as u64) << 48) | ((s[2] as u64) << 40) | ((s[3] as u64) << 32)
        | ((s[4] as u64) << 24) | ((s[5] as u64) << 16) | ((s[6] as u64) << 8) | (s[7] as u64)
}

/// Splitting a word into bytes and recombining them gives the word back.
pub proof fn lemma_be_roundtrip(x: u64)
    ensures
        u64_of_be(be_bytes_of(x)) == x,
{
    let s = be_bytes_of(x);
    assert(((((x >> 56) & 0xff) as u8 as u64) << 56) | ((((x >> 48) & 0xff) as u8 as u64) << 48)
        | ((((x >> 40) & 0xff) as u8 as u64) << 40) | ((((x >> 32) & 0xff) as u8 as u64) << 32) | ((
    ((x >> 24) & 0xff) as u8 as u64) << 24) | ((((x >> 16) & 0xff) as u8 as u64) << 16) | ((((x
        >> 8) & 0xff) as u8 as u64) << 8) | (((x & 0xff) as u8) as u64) == x) by (bit_vector);
}

/// The 41-byte image of a row.
pub open spec fn row_bytes(row: KLineRow) -> Seq<u8> {
    match row {
        KLineRow::Empty => seq![MARKER_EMPTY] + Seq::new(40, |i: int| 0u8),
        KLineRow::Data(d) => seq![MARKER_DATA] + be_bytes_of(d.open) + be_bytes_of(d.high)
            + be_bytes_of(d.low) + be_bytes_of(d.close) + be_bytes_of(d.volume),
    }
}

/// Decode a 41-byte image; `None` on an unrecognized marker. The forty
/// bytes after an empty marker are ignored, as the file format allows.
pub open spec fn row_decode(s: Seq<u8>) -> Option<KLineRow>
    recommends
        s.len() == 41,
{
    if s[0] == MARKER_EMPTY {
        Some(KLineRow::Empty)
    } else if s[0] == MARKER_DATA {
        Some(
            KLineRow::Data(
                KLineRowData {
                    open: u64_of_be(s.subrange(1, 9)),
                    high: u64_of_be(s.subrange(9, 17)),
                    low: u64_of_be(s.subrange(17, 25)),
                    close: u64_of_be(s.subrange(25, 33)),
                    volume: u64_of_be(s.subrange(33, 41)),
                },
            ),
        )
    } else {
        None
    }
}

/// Decoding the image of a row gives the row back.
pub proof fn lemma_row_roundtrip(row: KLineRow)
    ensures
        row_bytes(row).len() == 41,
        row_decode(row_bytes(row)) == Some(row),
{
    let s = row_bytes(row);
    match row {
        KLineRow::Empty => {
            assert(s[0] == MARKER_EMPTY);
        },
        KLineRow::Data(d) => {
            assert(s[0] == MARKER_DATA);
            assert(s.subrange(1, 9) =~= be_bytes_of(d.open));
            assert(s.subrange(9, 17) =~= be_bytes_of(d.high));
            assert(s.subrange(17, 25) =~= be_bytes_of(d.low));
            assert(s.subrange(25, 33) =~= be_bytes_of(d.close));
            assert(s.subrange(33, 41) =~= be_bytes_of(d.volume));
            lemma_be_roundtrip(d.open);
            lemma_be_roundtrip(d.high);
            lemma_be_roundtrip(d.low);
            lemma_be_roundtrip(d.close);
            lemma_be_roundtrip(d.volume);
        },
    }
}

/// Append the eight big-endian bytes of a word.
fn push_be_u64(out: &mut Vec<u8>, x: u64)
    ensures
        final(out)@ == old(out)@ + be_bytes_of(x),
{
    out.push(((x >> 56) & 0xff) as u8);
    out.push(((x >> 48) & 0xff) as u8);
    out.push(((x >> 40) & 0xff) as u8);
    out.push(((x >> 32) & 0xff) as u8);
    out.push(((x >> 24) & 0xff) as u8);
    out.push(((x >> 16) & 0xff) as u8);
    out.push(((x >> 8) & 0xff) as u8);
    out.push((x & 0xff) as u8);
    proof {
        assert(out@ =~= old(out)@ + be_bytes_of(x));
    }
}

/// Read a big-endian word at the given offset.
fn read_be_u64(buf: &Vec<u8>, off: usize) -> (r: u64)
    requires
        off + 8 <= buf@.len(),
    ensures
        r == u64_of_be(buf@.subrange(off as int, off as int + 8)),
{
    let ghost s = buf@.subrange(off as int, off as int + 8);
    proof {
        vstd::std_specs::vec::axiom_spec_len(buf);
    }
    let r = ((buf[off] as u64) << 56) | ((buf[off + 1] as u64) << 48) | ((buf[off + 2] as u64)
        << 40) | ((buf[off + 3] as u64) << 32) | ((buf[off + 4] as u64) << 24) | ((buf[off
        + 5] as u64) << 16) | ((buf[off + 6] as u64) << 8) | (buf[off + 7] as u64);
    proof {
        assert(s[0] == buf@[off as int]);
        assert(s[1] == buf@[off as int + 1]);
        assert(s[2] == buf@[off as int + 2]);
        assert(s[3] == buf@[off as int + 3]);
        assert(s[4] == buf@[off as int + 4]);
        assert(s[5] == buf@[off as int + 5]);
        assert(s[6] == buf@[off as int + 6]);
        assert(s[7] == buf@[off as int + 7]);
    }
    r
}

impl KLineRow {
    /// The fixed 41-byte image of this row.
    pub fn write_bytes(&self) -> (r: Vec<u8>)
        ensures
            r@ == row_bytes(*self),
            r@.len() == 41,
    {
        proof {
            lemma_row_roundtrip(*self);
        }
        let mut out: Vec<u8> = Vec::new();
        match self {
            KLineRow::Empty => {
                out.push(MARKER_EMPTY);
                let mut i: usize = 0;
                while i < 40
                    invariant
                        i <= 40,
                        out@ =~= seq![MARKER_EMPTY] + Seq::new(i as nat, |j: int| 0u8),
                    decreases 40 - i,
                {
                    out.push(0);
                    i = i + 1;
                }
                proof {
                    assert(out@ =~= row_bytes(*self));
                }
            },
            KLineRow::Data(d) => {
                out.push(MARKER_DATA);
                push_be_u64(&mut out, d.open);
                push_be_u64(&mut out, d.high);
                push_be_u64(&mut out, d.low);
                push_be_u64(&mut out, d.close);
                push_be_u64(&mut out, d.volume);
                proof {
                    assert(out@ =~= row_bytes(*self));
                }
            },
        }
        out
    }

    /// Decode the 41-byte row at `off`; an unrecognized marker is a
    /// corruption error, never guessed over.
    pub fn read_bytes(buf: &Vec<u8>, off: usize) -> (r: Result<KLineRow, KLineError>)
        requires
            off + 41 <= buf@.len(),
        ensures
            (match row_decode(buf@.subrange(off as int, off as int + 41)) {
                Some(row) => r == Ok::<KLineRow, KLineError>(row),
                None => r == Err::<KLineRow, KLineError>(KLineError::Corruption),
            }),
    {
        let ghost s = buf@.subrange(off as int, off as int + 41);
        proof {
            vstd::std_specs::vec::axiom_spec_len(buf);
            assert(s[0] == buf@[off as int]);
            assert(s.subrange(1, 9) =~= buf@.subrange(off as int + 1, off as int + 9));
            assert(s.subrange(9, 17) =~= buf@.subrange(off as int + 9, off as int + 17));
            assert(s.subrange(17, 25) =~= buf@.subrange(off as int + 17, off as int + 25));
            assert(s.subrange(25, 33) =~= buf@.subrange(off as int + 25, off as int + 33));
            assert(s.subrange(33, 41) =~= buf@.subrange(off as int + 33, off as int + 41));
        }
        let marker = buf[off];
        if marker == MARKER_EMPTY {
            Ok(KLineRow::Empty)
        } else if marker == MARKER_DATA {
            let open = read_be_u64(buf, off + 1);
            let high = read_be_u64(buf, off + 9);
            let low = read_be_u64(buf, off + 17);
            let close = read_be_u64(buf, off + 25);
            let volume = read_be_u64(buf, off + 33);
            Ok(KLineRow::Data(KLineRowData { open, high, low, close, volume }))
        } else {
            Err(KLineError::Corruption)
        }
    }

    /// The five values, in OHLCV order, `None` for an empty row.
    pub fn to_vec(&self) -> (r: Vec<Option<u64>>)
        ensures
            r@ == (match *self {
                KLineRow::Empty => seq![
                    None::<u64>,
                    None::<u64>,
                    None::<u64>,
                    None::<u64>,
                    None::<u64>,
                ],
                KLineRow::Data(d) => seq![
                    Some(d.open),
                    Some(d.high),
                    Some(d.low),
                    Some(d.close),
                    Some(d.volume),
                ],
            }),
    {
        let mut out: Vec<Option<u64>> = Vec::new();
        match self {
            KLineRow::Empty => {
                out.push(None);
                out.push(None);
                out.push(None);
                out.push(None);
                out.push(None);
            },
            KLineRow::Data(d) => {
                out.push(Some(d.open));
                out.push(Some(d.high));
                out.push(Some(d.low));
                out.push(Some(d.close));
                out.push(Some(d.volume));
            },
        }
        proof {
            assert(out@ =~= (match *self {
                KLineRow::Empty => seq![
                    None::<u64>,
                    None::<u64>,
                    None::<u64>,
                    None::<u64>,
                    None::<u64>,
                ],
                KLineRow::Data(d) => seq![
                    Some(d.open),
                    Some(d.high),
                    Some(d.low),
                    Some(d.close),
                    Some(d.volume),
                ],
            }));
        }
        out
    }

    pub fn open(&self) -> (r: Option<u64>)
        ensures
            r == (match *self {
                KLineRow::Empty => None::<u64>,
                KLineRow::Data(d) => Some(d.open),
            }),
    {
        match self {
            KLineRow::Empty => None,
            KLineRow::Data(d) => Some(d.open),
        }
    }

    pub fn high(&self) -> (r: Option<u64>)
        ensures
            r == (match *self {
                KLineRow::Empty => None::<u64>,
                KLineRow::Data(d) => Some(d.high),
            }),
    {
        match self {
            KLineRow::Empty => None,
            KLineRow::Data(d) => Some(d.high),
        }
    }

    pub fn low(&self) -> (r: Option<u64>)
        ensures
            r == (match *self {
                KLineRow::Empty => None::<u64>,
                KLineRow::Data(d) => Some(d.low),
            }),
    {
        match self {
            KLineRow::Empty => None,
            KLineRow::Data(d) => Some(d.low),
        }
    }

    pub fn close(&self) -> (r: Option<u64>)
        ensures
            r == (match *self {
                KLineRow::Empty => None::<u64>,
                KLineRow::Data(d) => Some(d.close),
            }),
    {
        match self {
            KLineRow::Empty => None,
            KLineRow::Data(d) => Some(d.close),
        }
    }

    pub fn volume(&self) -> (r: Option<u64>)
        ensures
            r == (match *self {
                KLineRow::Empty => None::<u64>,
                KLineRow::Data(d) => Some(d.volume),
            }),
    {
        match self {
            KLineRow::Empty => None,
            KLineRow::Data(d) => Some(d.volume),
        }
    }
}

/// The larger of two words; the numeric maximum for non-negative binary64
/// values, whose word order matches their numeric order.
pub open spec fn word_max(a: u64, b: u64) -> u64 {
    if a >= b {
        a
    } else {
        b
    }
}

pub open spec fn word_min(a: u64, b: u64) -> u64 {
    if a <= b {
        a
    } else {
        b
    }
}

/// The bucket opentime of a timestamp: floored to a timeframe multiple.
pub open spec fn floor_ms(ts: int, tf: int) -> int
    recommends
        tf >= 1,
{
    (ts / tf) * tf
}

/// The window after advancing its head to `next`: no move backward, a jump
/// past the whole window resets it, and otherwise the newest `len - k` rows
/// survive, pushed `k` places back behind `k` fresh empty rows.
pub open spec fn spec_shift(state: Seq<KLineRow>, head: int, next: int, tf: int) -> (Seq<KLineRow>,
    int)
    recommends
        tf >= 1,
{
    let k = (next - head) / tf;
    if k <= 0 {
        (state, head)
    } else if k > state.len() {
        (Seq::new(state.len(), |i: int| KLineRow::Empty), next)
    } else {
        (Seq::new(k as nat, |i: int| KLineRow::Empty) + state.take(state.len() - k), next)
    }
}

/// The serialized rows, row 0 first.
pub open spec fn rows_bytes(rows: Seq<KLineRow>) -> Seq<u8>
    decreases rows.len(),
{
    if rows.len() == 0 {
        Seq::empty()
    } else {
        rows_bytes(rows.drop_last()) + row_bytes(rows.last())
    }
}

/// The full file image: big-endian header, then the rows.
pub open spec fn buffer_bytes(b: KLineBuffer) -> Seq<u8>
    recommends
        b.head_opentime_ms >= 0,
{
    be_bytes_of(b.head_opentime_ms as u64) + rows_bytes(b.state@)
}

/// Decode `n` consecutive 41-byte rows.
pub open spec fn rows_decode(s: Seq<u8>, n: nat) -> Option<Seq<KLineRow>>
    decreases n,
{
    if n == 0 {
        Some(Seq::<KLineRow>::empty())
    } else {
        match row_decode(s.take(41)) {
            Some(r0) => match rows_decode(s.skip(41), (n - 1) as nat) {
                Some(rest) => Some(seq![r0] + rest),
                None => None,
            },
            None => None,
        }
    }
}

/// Decode a full file image: the header must be a usable head time (non
/// negative and a timeframe multiple) and every row must decode.
pub open spec fn buffer_decode(tf: int, n: nat, s: Seq<u8>) -> Option<(int, Seq<KLineRow>)>
    recommends
        tf >= 1,
        s.len() == 8 + 41 * n,
{
    let h = u64_of_be(s.take(8));
    if h >= 0x8000_0000_0000_0000 {
        None
    } else if (h as int) % tf != 0 {
        None
    } else {
        match rows_decode(s.skip(8), n) {
            Some(rows) => Some((h as int, rows)),
            None => None,
        }
    }
}

proof fn lemma_rows_bytes_len(rows: Seq<KLineRow>)
    ensures
        rows_bytes(rows).len() == 41 * rows.len(),
    decreases rows.len(),
{
    if rows.len() > 0 {
        lemma_rows_bytes_len(rows.drop_last());
        lemma_row_roundtrip(rows.last());
    }
}

/// `rows_bytes` unfolded at the front: the first row's image, then the rest.
proof fn lemma_rows_bytes_head(rows: Seq<KLineRow>)
    requires
        rows.len() > 0,
    ensures
        rows_bytes(rows) == row_bytes(rows[0]) + rows_bytes(rows.skip(1)),
    decreases rows.len(),
{
    if rows.len() == 1 {
        assert(rows.drop_last() =~= Seq::<KLineRow>::empty());
        assert(rows.skip(1) =~= Seq::<KLineRow>::empty());
        assert(rows_bytes(rows) =~= row_bytes(rows[0]) + rows_bytes(rows.skip(1)));
    } else {
        let d = rows.drop_last();
        lemma_rows_bytes_head(d);
        assert(d[0] == rows[0]);
        assert(rows.skip(1).drop_last() =~= d.skip(1));
        assert(rows.skip(1).last() == rows.last());
        assert(rows.skip(1).len() > 0);
        assert(rows_bytes(rows.skip(1)) == rows_bytes(d.skip(1)) + row_bytes(rows.last()));
        assert(rows_bytes(rows) =~= row_bytes(rows[0]) + rows_bytes(rows.skip(1)));
    }
}

/// Decoding the serialized rows yields the rows back.
proof fn lemma_rows_roundtrip(rows: Seq<KLineRow>)
    ensures
        rows_decode(rows_bytes(rows), rows.len()) == Some(rows),
    decreases rows.len(),
{
    if rows.len() == 0 {
        assert(rows =~= Seq::<KLineRow>::empty());
    } else {
        let s = rows_bytes(rows);
        lemma_rows_bytes_head(rows);
        lemma_row_roundtrip(rows[0]);
        lemma_rows_bytes_len(rows.skip(1));
        assert(s.take(41) =~= row_bytes(rows[0]));
        assert(s.skip(41) =~= rows_bytes(rows.skip(1)));
        lemma_rows_roundtrip(rows.skip(1));
        assert(seq![rows[0]] + rows.skip(1) =~= rows);
    }
}

/// Reading back a window's binary image yields the identical window:
/// every row and the head opentime round-trip.
pub proof fn lemma_buffer_roundtrip(b: KLineBuffer)
    requires
        b.well_formed(),
    ensures
        buffer_decode(b.timeframe_ms as int, b.len as nat, buffer_bytes(b)) == Some(
            (b.head_opentime_ms as int, b.state@),
        ),
{
    let s = buffer_bytes(b);
    let hw = b.head_opentime_ms as u64;
    assert(s.take(8) =~= be_bytes_of(hw));
    lemma_be_roundtrip(hw);
    lemma_rows_bytes_len(b.state@);
    assert(s.skip(8) =~= rows_bytes(b.state@));
    lemma_rows_roundtrip(b.state@);
}

/// The row after folding one trade into a slot: the first trade populates
/// the candle with its amount as the volume; later trades keep the open,
/// raise the high, lower the low, set the close, and leave the volume as
/// it was (its completion is the caller's step, see `OhlcvUpdate`).
pub open spec fn spec_merge_row(row: KLineRow, price: u64, amount: u64) -> KLineRow {
    match row {
        KLineRow::Empty => KLineRow::Data(
            KLineRowData { open: price, high: price, low: price, close: price, volume: amount },
        ),
        KLineRow::Data(d) => KLineRow::Data(
            KLineRowData {
                open: d.open,
                high: word_max(d.high, price),
                low: word_min(d.low, price),
                close: price,
                volume: d.volume,
            },
        ),
    }
}

/// The outcome value that reports a merge into the given slot.
pub open spec fn spec_update_outcome(row: KLineRow, idx: int) -> OhlcvUpdate {
    match row {
        KLineRow::Empty => OhlcvUpdate::Inserted { index: idx as usize },
        KLineRow::Data(d) => OhlcvUpdate::Merged { index: idx as usize, prev_volume: d.volume },
    }
}

/// The outcome of merging one trade into the window.
#[derive(Clone, Copy, Debug, PartialEq, Eq, Structural)]
pub enum OhlcvUpdate {
    /// The bucket's row was empty; the trade became its first candle, with
    /// the trade amount as the volume.
    Inserted { index: usize },
    /// The trade was merged into an existing candle. The candle's volume
    /// still holds `prev_volume`: the caller must add the trade amount to
    /// it (a binary64 addition, performed at the feed edge) and store the
    /// sum with `set_volume`.
    Merged { index: usize, prev_volume: u64 },
}

/// The in-memory candle window. The backing file is kept in sync
/// explicitly: `to_bytes` yields the image to write and `from_bytes`
/// rebuilds a window from a read image.
pub struct KLineBuffer {
    pub timeframe_ms: i64,
    pub len: usize,
    /// Rows in descending opentime order; index 0 is the newest bucket.
    pub state: Vec<KLineRow>,
    /// Opentime of row 0, in milliseconds; a multiple of the timeframe.
    pub head_opentime_ms: i64,
}

impl KLineBuffer {
    pub open spec fn well_formed(self) -> bool {
        &&& 1 <= self.timeframe_ms
        &&& self.state@.len() == self.len
        &&& 0 <= self.head_opentime_ms
        &&& self.head_opentime_ms as int % self.timeframe_ms as int == 0
        &&& (self.len as int) * (self.timeframe_ms as int) <= i64::MAX
    }

    /// A fresh window of empty rows headed at the given opentime.
    pub fn new_empty(timeframe_ms: i64, len: usize, head_opentime_ms: i64) -> (r: Self)
        requires
            1 <= timeframe_ms,
            0 <= head_opentime_ms,
            head_opentime_ms as int % timeframe_ms as int == 0,
            (len as int) * (timeframe_ms as int) <= i64::MAX,
        ensures
            r.well_formed(),
            r.timeframe_ms == timeframe_ms,
            r.len == len,
            r.head_opentime_ms == head_opentime_ms,
            r.state@ == Seq::new(len as nat, |i: int| KLineRow::Empty),
    {
        let mut state: Vec<KLineRow> = Vec::new();
        let mut i: usize = 0;
        while i < len
            invariant
                i <= len,
                state@ =~= Seq::new(i as nat, |j: int| KLineRow::Empty),
            decreases len - i,
        {
            state.push(KLineRow::Empty);
            i = i + 1;
        }
        proof {
            assert(state@ =~= Seq::new(len as nat, |j: int| KLineRow::Empty));
        }
        Self { timeframe_ms, len, state, head_opentime_ms }
    }

    /// Advance the window so that `next_head_opentime_ms` becomes the head
    /// opentime; never moves backward. Advancing by `k` buckets keeps the
    /// newest `len - k` rows at positions `k..len` and fills `0..k` with
    /// empty rows; advancing past the whole window empties it.
    pub fn shift_state(&mut self, next_head_opentime_ms: i64)
        requires
            old(self).well_formed(),
            0 <= next_head_opentime_ms,
            next_head_opentime_ms as int % old(self).timeframe_ms as int == 0,
        ensures
            final(self).well_formed(),
            final(self).timeframe_ms == old(self).timeframe_ms,
            final(self).len == old(self).len,
            (final(self).state@, final(self).head_opentime_ms as int) == spec_shift(
                old(self).state@,
                old(self).head_opentime_ms as int,
                next_head_opentime_ms as int,
                old(self).timeframe_ms as int,
            ),
    {
        let ghost orig = self.state@;
        let ghost tf = self.timeframe_ms as int;
        let ghost head0 = self.head_opentime_ms as int;
        let ghost next = next_head_opentime_ms as int;
        let ghost kk = (next - head0) / tf;
        if next_head_opentime_ms <= self.head_opentime_ms {
            proof {
                if next < head0 {
                    vstd::arithmetic::div_mod::lemma_div_is_ordered(next - head0, 0, tf);
                    vstd::arithmetic::div_mod::lemma_div_of0(tf);
                } else {
                    vstd::arithmetic::div_mod::lemma_div_of0(tf);
                }
                assert(kk <= 0);
            }
            return ;
        }
        let diff_u: u64 = (next_head_opentime_ms - self.head_opentime_ms) as u64;
        let tf_u: u64 = self.timeframe_ms as u64;
        let k_u: u64 = diff_u / tf_u;
        proof {
            assert(k_u as int == kk);
            vstd::arithmetic::div_mod::lemma_div_pos_is_pos(next - head0, tf);
            // next and head are both on the timeframe grid, so a strictly
            // forward move is at least one whole bucket
            vstd::arithmetic::div_mod::lemma_sub_mod_noop(next, head0, tf);
            vstd::arithmetic::div_mod::lemma_small_mod(0, tf as nat);
            assert((next - head0) % tf == 0);
            vstd::arithmetic::div_mod::lemma_fundamental_div_mod(next - head0, tf);
            assert(tf * kk == next - head0);
            assert(kk >= 1) by (nonlinear_arith)
                requires
                    tf >= 1,
                    tf * kk >= 1,
            ;
        }
        self.head_opentime_ms = next_head_opentime_ms;
        let n = self.len;
        if k_u > n as u64 {
            self.state.clear();
            let mut i: usize = 0;
            while i < n
                invariant
                    i <= n,
                    self.state@ =~= Seq::new(i as nat, |j: int| KLineRow::Empty),
                    self.timeframe_ms == old(self).timeframe_ms,
                    self.len == old(self).len,
                    self.len == n,
                    self.head_opentime_ms == next_head_opentime_ms,
                decreases n - i,
            {
                self.state.push(KLineRow::Empty);
                i = i + 1;
            }
            proof {
                assert(self.state@ =~= Seq::new(orig.len(), |j: int| KLineRow::Empty));
            }
        } else {
            let k = k_u as usize;
            let mut j: usize = 0;
            while j < k
                invariant
                    j <= k,
                    k <= n,
                    self.state@.len() == n,
                    orig.len() == n,
                    self.state@ =~= Seq::new(j as nat, |i: int| KLineRow::Empty) + orig.take(
                        n - j,
                    ),
                    self.timeframe_ms == old(self).timeframe_ms,
                    self.len == old(self).len,
                    self.len == n,
                    self.head_opentime_ms == next_head_opentime_ms,
                decreases k - j,
            {
                let ghost before = self.state@;
                self.state.insert(0, KLineRow::Empty);
                let _dropped = self.state.pop();
                proof {
                    assert(self.state@ =~= Seq::new((j + 1) as nat, |i: int| KLineRow::Empty)
                        + orig.take(n - j - 1));
                }
                j = j + 1;
            }
            proof {
                assert(self.state@ =~= Seq::new(kk as nat, |i: int| KLineRow::Empty) + orig.take(
                    orig.len() - kk,
                ));
            }
        }
    }

    /// The window slot that covers the given bucket opentime, or an
    /// out-of-window error.
    pub fn index_of(&self, opentime_ms: i64) -> (r: Result<usize, KLineError>)
        requires
            self.well_formed(),
            0 <= opentime_ms,
            opentime_ms as int % self.timeframe_ms as int == 0,
        ensures
            ({
                let idx = (self.head_opentime_ms - opentime_ms) / (self.timeframe_ms as int);
                if 0 <= idx < self.len {
                    r == Ok::<usize, KLineError>(idx as usize)
                } else {
                    r == Err::<usize, KLineError>(KLineError::OutOfWindow)
                }
            }),
    {
        let ghost tf = self.timeframe_ms as int;
        let ghost idx = (self.head_opentime_ms - opentime_ms) / tf;
        if opentime_ms > self.head_opentime_ms {
            proof {
                vstd::arithmetic::div_mod::lemma_div_is_ordered(
                    self.head_opentime_ms - opentime_ms,
                    -1,
                    tf,
                );
                vstd::arithmetic::div_mod::lemma_fundamental_div_mod(-1, tf);
                vstd::arithmetic::div_mod::lemma_mod_division_less_than_divisor(-1, tf);
                let q = (-1) / tf;
                let rr = (-1) % tf;
                assert(tf * q == -1 - rr);
                assert(q < 0) by (nonlinear_arith)
                    requires
                        tf >= 1,
                        tf * q <= -1,
                ;
                assert(idx < 0);
            }
            return Err(KLineError::OutOfWindow);
        }
        let diff_u: u64 = (self.head_opentime_ms - opentime_ms) as u64;
        let tf_u: u64 = self.timeframe_ms as u64;
        let i_u: u64 = diff_u / tf_u;
        proof {
            assert(i_u as int == idx);
        }
        if i_u >= self.len as u64 {
            Err(KLineError::OutOfWindow)
        } else {
            Ok(i_u as usize)
        }
    }

    /// Merge one trade into its bucket: shift the window forward if the
    /// trade's bucket is newer than the head, fail if the bucket still
    /// falls outside the window, and otherwise fold the trade into the
    /// slot: first trade populates the candle, later trades keep the open,
    /// raise the high, lower the low, set the close, and leave the volume
    /// for the caller to complete (see `OhlcvUpdate::Merged`).
    pub fn update_ohlcv(&mut self, record: &TradeRecord) -> (r: Result<OhlcvUpdate, KLineError>)
        requires
            old(self).well_formed(),
            0 <= record.timestamp,
        ensures
            final(self).well_formed(),
            final(self).timeframe_ms == old(self).timeframe_ms,
            final(self).len == old(self).len,
            ({
                let tf = old(self).timeframe_ms as int;
                let bucket = floor_ms(record.timestamp as int, tf);
                let sh = spec_shift(
                    old(self).state@,
                    old(self).head_opentime_ms as int,
                    bucket,
                    tf,
                );
                let s1 = sh.0;
                let h1 = sh.1;
                let idx = (h1 - bucket) / tf;
                &&& final(self).head_opentime_ms == h1
                &&& (!(0 <= idx < old(self).len) ==> (r == Err::<OhlcvUpdate, KLineError>(
                    KLineError::OutOfWindow,
                ) && final(self).state@ == s1))
                &&& (0 <= idx < old(self).len ==> (r == Ok::<OhlcvUpdate, KLineError>(
                    spec_update_outcome(s1[idx], idx),
                ) && final(self).state@ == s1.update(
                    idx,
                    spec_merge_row(s1[idx], record.price, record.amount),
                )))
            }),
    {
        let ghost tf = self.timeframe_ms as int;
        let tf_u: u64 = self.timeframe_ms as u64;
        let ts_u: u64 = record.timestamp as u64;
        proof {
            let ts = record.timestamp as int;
            vstd::arithmetic::div_mod::lemma_fundamental_div_mod(ts, tf);
            vstd::arithmetic::div_mod::lemma_mod_division_less_than_divisor(ts, tf);
            vstd::arithmetic::div_mod::lemma_div_pos_is_pos(ts, tf);
            vstd::arithmetic::mul::lemma_mul_is_commutative(ts / tf, tf);
            assert((ts / tf) * tf == ts - ts % tf);
            vstd::arithmetic::div_mod::lemma_mod_multiples_basic(ts / tf, tf);
            vstd::arithmetic::mul::lemma_mul_nonnegative(ts / tf, tf);
        }
        let bucket_u: u64 = (ts_u / tf_u) * tf_u;
        proof {
            assert(bucket_u as int == floor_ms(record.timestamp as int, tf));
        }
        let bucket: i64 = bucket_u as i64;
        self.shift_state(bucket);
        let idx_r = self.index_of(bucket);
        match idx_r {
            Err(_) => Err(KLineError::OutOfWindow),
            Ok(i) => {
                let row = self.state[i];
                match row {
                    KLineRow::Empty => {
                        self.state.set(
                            i,
                            KLineRow::Data(
                                KLineRowData {
                                    open: record.price,
                                    high: record.price,
                                    low: record.price,
                                    close: record.price,
                                    volume: record.amount,
                                },
                            ),
                        );
                        Ok(OhlcvUpdate::Inserted { index: i })
                    },
                    KLineRow::Data(d) => {
                        let high = if d.high >= record.price {
                            d.high
                        } else {
                            record.price
                        };
                        let low = if d.low <= record.price {
                            d.low
                        } else {
                            record.price
                        };
                        self.state.set(
                            i,
                            KLineRow::Data(
                                KLineRowData {
                                    open: d.open,
                                    high,
                                    low,
                                    close: record.price,
                                    volume: d.volume,
                                },
                            ),
                        );
                        Ok(OhlcvUpdate::Merged { index: i, prev_volume: d.volume })
                    },
                }
            },
        }
    }

    /// Store the completed volume word of a populated slot; the other four
    /// values are untouched.
    pub fn set_volume(&mut self, index: usize, volume: u64)
        requires
            old(self).well_formed(),
            index < old(self).len,
            old(self).state@[index as int] is Data,
        ensures
            final(self).well_formed(),
            final(self).timeframe_ms == old(self).timeframe_ms,
            final(self).len == old(self).len,
            final(self).head_opentime_ms == old(self).head_opentime_ms,
            final(self).state@ == old(self).state@.update(
                index as int,
                KLineRow::Data(
                    KLineRowData {
                        volume,
                        ..old(self).state@[index as int]->Data_0
                    },
                ),
            ),
    {
        let row = self.state[index];
        match row {
            KLineRow::Data(d) => {
                self.state.set(
                    index,
                    KLineRow::Data(
                        KLineRowData {
                            open: d.open,
                            high: d.high,
                            low: d.low,
                            close: d.close,
                            volume,
                        },
                    ),
                );
            },
            KLineRow::Empty => {
                proof {
                    assert(false);
                }
            },
        }
    }

    /// The window as an ordered table, oldest bucket first: each entry is
    /// the bucket opentime in milliseconds and the row.
    pub fn read_all(&self) -> (r: Vec<(i64, KLineRow)>)
        requires
            self.well_formed(),
        ensures
            r@.len() == self.len,
            forall|j: int|
                0 <= j < self.len ==> (#[trigger] r@[j]).0 as int == self.head_opentime_ms - (
                self.len - 1 - j) * self.timeframe_ms && r@[j].1 == self.state@[self.len - 1 - j],
    {
        let mut out: Vec<(i64, KLineRow)> = Vec::new();
        let mut j: usize = 0;
        let n = self.len;
        while j < n
            invariant
                j <= n,
                n == self.len,
                self.well_formed(),
                out@.len() == j,
                forall|q: int|
                    0 <= q < j ==> (#[trigger] out@[q]).0 as int == self.head_opentime_ms - (n - 1
                        - q) * self.timeframe_ms && out@[q].1 == self.state@[n - 1 - q],
            decreases n - j,
        {
            let idx = n - 1 - j;
            proof {
                let tfg = self.timeframe_ms as int;
                assert((self.len as int) <= (self.len as int) * tfg) by (nonlinear_arith)
                    requires
                        tfg >= 1,
                        self.len as int >= 0,
                ;
                vstd::arithmetic::mul::lemma_mul_inequality(idx as int, self.len as int, tfg);
                vstd::arithmetic::mul::lemma_mul_nonnegative(idx as int, tfg);
            }
            let offset: i64 = (idx as i64) * self.timeframe_ms;
            let t: i64 = self.head_opentime_ms - offset;
            let row = self.state[idx];
            out.push((t, row));
            j = j + 1;
        }
        out
    }

    /// Serialize the window into its full file image.
    pub fn to_bytes(&self) -> (r: Vec<u8>)
        requires
            self.well_formed(),
        ensures
            r@ == buffer_bytes(*self),
            r@.len() == 8 + 41 * (self.len as int),
    {
        proof {
            lemma_rows_bytes_len(self.state@);
        }
        let mut out: Vec<u8> = Vec::new();
        push_be_u64(&mut out, self.head_opentime_ms as u64);
        let mut i: usize = 0;
        let n = self.len;
        while i < n
            invariant
                i <= n,
                n == self.len,
                self.well_formed(),
                out@ =~= be_bytes_of(self.head_opentime_ms as u64) + rows_bytes(
                    self.state@.take(i as int),
                ),
            decreases n - i,
        {
            let row = self.state[i];
            let mut bs = row.write_bytes();
            out.append(&mut bs);
            proof {
                assert(self.state@.take(i + 1).drop_last() =~= self.state@.take(i as int));
                assert(self.state@.take(i + 1).last() == self.state@[i as int]);
            }
            i = i + 1;
        }
        proof {
            assert(self.state@.take(n as int) =~= self.state@);
            assert(out@ =~= buffer_bytes(*self));
        }
        out
    }

    /// Rebuild a window from a file image read back; a header that is
    /// negative or off the timeframe grid, or any row with an unrecognized
    /// marker, is corruption.
    pub fn from_bytes(timeframe_ms: i64, len: usize, bytes: &Vec<u8>) -> (r: Result<
        KLineBuffer,
        KLineError,
    >)
        requires
            1 <= timeframe_ms,
            (len as int) * (timeframe_ms as int) <= i64::MAX,
            bytes@.len() == 8 + 41 * (len as int),
        ensures
            (match buffer_decode(timeframe_ms as int, len as nat, bytes@) {
                Some((h, rows)) => (match r {
                    Ok(b) => {
                        &&& b.well_formed()
                        &&& b.timeframe_ms == timeframe_ms
                        &&& b.len == len
                        &&& b.head_opentime_ms as int == h
                        &&& b.state@ == rows
                    },
                    Err(_) => false,
                }),
                None => r == Err::<KLineBuffer, KLineError>(KLineError::Corruption),
            }),
    {
        proof {
            vstd::std_specs::vec::axiom_spec_len(bytes);
        }
        let hw = read_be_u64(bytes, 0);
        proof {
            assert(bytes@.subrange(0, 8) =~= bytes@.take(8));
        }
        if hw >= 0x8000_0000_0000_0000 {
            return Err(KLineError::Corruption);
        }
        let head: i64 = hw as i64;
        let tf_u: u64 = timeframe_ms as u64;
        if hw % tf_u != 0 {
            return Err(KLineError::Corruption);
        }
        let ghost target = rows_decode(bytes@.skip(8), len as nat);
        let mut state: Vec<KLineRow> = Vec::new();
        let mut i: usize = 0;
        while i < len
            invariant
                i <= len,
                bytes@.len() == 8 + 41 * (len as int),
                state@.len() == i,
                target == rows_decode(bytes@.skip(8), len as nat),
                (match rows_decode(bytes@.skip(8 + 41 * (i as int)), (len - i) as nat) {
                    Some(rest) => target == Some(state@ + rest),
                    None => target is None,
                }),
            decreases len - i,
        {
            let ghost tail = bytes@.skip(8 + 41 * (i as int));
            proof {
                vstd::std_specs::vec::axiom_spec_len(bytes);
                assert(tail.take(41) =~= bytes@.subrange(
                    8 + 41 * (i as int),
                    8 + 41 * (i as int) + 41,
                ));
                assert(tail.skip(41) =~= bytes@.skip(8 + 41 * ((i + 1) as int)));
            }
            let off: usize = 8 + 41 * i;
            match KLineRow::read_bytes(bytes, off) {
                Ok(row) => {
                    state.push(row);
                    proof {
                        match rows_decode(bytes@.skip(8 + 41 * ((i + 1) as int)), (len - i
                            - 1) as nat) {
                            Some(rest) => {
                                assert(state@ + rest =~= state@.drop_last() + (seq![row] + rest));
                            },
                            None => {},
                        }
                    }
                },
                Err(_) => {
                    return Err(KLineError::Corruption);
                },
            }
            i = i + 1;
        }
        proof {
            assert(bytes@.skip(8 + 41 * (len as int)) =~= Seq::<u8>::empty());
            match rows_decode(bytes@.skip(8 + 41 * (len as int)), 0) {
                Some(rest) => {
                    assert(state@ + rest =~= state@);
                },
                None => {},
            }
        }
        Ok(KLineBuffer { timeframe_ms, len, state, head_opentime_ms: head })
    }

    /// Decode only the persisted head opentime of a file image, the
    /// staleness check concurrent readers make before trusting a read.
    pub fn read_header(bytes: &Vec<u8>) -> (r: Result<i64, KLineError>)
        requires
            bytes@.len() >= 8,
        ensures
            ({
                let h = u64_of_be(bytes@.take(8));
                if h < 0x8000_0000_0000_0000 {
                    r == Ok::<i64, KLineError>(h as i64)
                } else {
                    r == Err::<i64, KLineError>(KLineError::Corruption)
                }
            }),
    {
        let hw = read_be_u64(bytes, 0);
        proof {
            assert(bytes@.subrange(0, 8) =~= bytes@.take(8));
        }
        if hw < 0x8000_0000_0000_0000 {
            Ok(hw as i64)
        } else {
            Err(KLineError::Corruption)
        }
    }
}

} // verus!
