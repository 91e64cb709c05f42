//! Streaming firmware into raw flash: chunked erasing, and writes that are
//! always aligned although the network hands over reads of any size.
use vstd::prelude::*;
use crate::text::{append_bytes, copy_range};

verus! {

/// Granularity of flash writes, in bytes.
pub const WRITE_ALIGN: usize = 4;

/// Value of an erased flash byte, used to pad the last write.
pub const ERASED_BYTE: u8 = 0xFF;

/// Size of an erase page, in bytes.
pub const ERASE_PAGE: u32 = 4096;

/// Longest run erased in one call before yielding to other tasks.
pub const ERASE_CHUNK: u32 = 65536;

/// Capacity of the write buffer.
pub const WRITE_BUFFER_SIZE: usize = 2048;

/// One write request: `data` goes to flash at `offset`.
#[derive(Debug)]
pub struct FlashWrite {
    pub offset: u32,
    pub data: Vec<u8>,
}

/// Length of the longest prefix of `n` bytes that can be written aligned.
pub open spec fn aligned_len(n: nat) -> nat {
    (n - n % (WRITE_ALIGN as nat)) as nat
}

/// Number of erased-state bytes that bring `n` up to alignment.
pub open spec fn pad_len(n: nat) -> nat {
    if n % (WRITE_ALIGN as nat) == 0 {
        0
    } else {
        ((WRITE_ALIGN as nat) - n % (WRITE_ALIGN as nat)) as nat
    }
}

/// `p` padded with erased-state bytes up to alignment.
pub open spec fn padded(p: Seq<u8>) -> Seq<u8> {
    p + Seq::new(pad_len(p.len()), |i: int| ERASED_BYTE)
}

/// One read handed to a writer that has written `written` bytes and buffers
/// `pending`: the aligned prefix of `pending + data` is written at `written`,
/// the rest stays buffered. Gives the new count, the new buffer, and the
/// write, if any.
pub open spec fn push_step(written: nat, pending: Seq<u8>, data: Seq<u8>) -> (
    nat,
    Seq<u8>,
    Option<(nat, Seq<u8>)>,
) {
    let all = pending + data;
    let al = aligned_len(all.len());
    (
        written + al,
        all.subrange(al as int, all.len() as int),
        if al > 0 {
            Some((written, all.subrange(0, al as int)))
        } else {
            None
        },
    )
}

/// End of stream: what is buffered is written padded, and counted unpadded.
pub open spec fn finish_step(written: nat, pending: Seq<u8>) -> (nat, Option<(nat, Seq<u8>)>) {
    (
        written + pending.len(),
        if pending.len() > 0 {
            Some((written, padded(pending)))
        } else {
            None
        },
    )
}

/// The writes issued for the reads `chunks` and the end of stream.
pub open spec fn stream_writes(written: nat, pending: Seq<u8>, chunks: Seq<Seq<u8>>) -> Seq<
    (nat, Seq<u8>),
>
    decreases chunks.len(),
{
    if chunks.len() == 0 {
        match finish_step(written, pending).1 {
            Some(w) => seq![w],
            None => Seq::empty(),
        }
    } else {
        let (w, p, out) = push_step(written, pending, chunks[0]);
        let rest = stream_writes(w, p, chunks.drop_first());
        match out {
            Some(x) => seq![x] + rest,
            None => rest,
        }
    }
}

/// The byte count after the reads `chunks` and the end of stream.
pub open spec fn stream_count(written: nat, pending: Seq<u8>, chunks: Seq<Seq<u8>>) -> nat
    decreases chunks.len(),
{
    if chunks.len() == 0 {
        finish_step(written, pending).0
    } else {
        let (w, p, out) = push_step(written, pending, chunks[0]);
        stream_count(w, p, chunks.drop_first())
    }
}

/// All chunks, one after the other.
pub open spec fn flatten(chunks: Seq<Seq<u8>>) -> Seq<u8>
    decreases chunks.len(),
{
    if chunks.len() == 0 {
        Seq::empty()
    } else {
        chunks[0] + flatten(chunks.drop_first())
    }
}

/// The data of a run of writes, one after the other.
pub open spec fn written_data(ws: Seq<(nat, Seq<u8>)>) -> Seq<u8>
    decreases ws.len(),
{
    if ws.len() == 0 {
        Seq::empty()
    } else {
        ws[0].1 + written_data(ws.drop_first())
    }
}


proof fn lemma_padded_after_aligned(x: Seq<u8>, y: Seq<u8>)
    requires
        x.len() % (WRITE_ALIGN as nat) == 0,
    ensures
        x + padded(y) == padded(x + y),
{
    assert((x.len() + y.len()) % 4 == y.len() % 4);
    assert(pad_len((x + y).len()) == pad_len(y.len()));
    assert(x + padded(y) =~= padded(x + y));
}

/// The writes for `chunks`, from a writer at `written` buffering `pending`:
/// the first starts at `written`, each starts where the one before ended,
/// each is aligned, together they hold the buffered and the read bytes
/// padded, and the count grows by exactly the genuine bytes.
pub proof fn lemma_stream_writes_from(written: nat, pending: Seq<u8>, chunks: Seq<Seq<u8>>)
    ensures
        ({
            let ws = stream_writes(written, pending, chunks);
            &&& ws.len() > 0 ==> ws[0].0 == written
            &&& forall|k: int| 0 <= k < ws.len() - 1 ==> #[trigger] ws[k + 1].0 == ws[k].0 + ws[k].1.len()
            &&& forall|k: int| 0 <= k < ws.len() ==> #[trigger] ws[k].1.len() % (WRITE_ALIGN as nat) == 0
            &&& written_data(ws) == padded(pending + flatten(chunks))
            &&& stream_count(written, pending, chunks) == written + pending.len() + flatten(chunks).len()
        }),
    decreases chunks.len(),
{
    let ws = stream_writes(written, pending, chunks);
    if chunks.len() == 0 {
        assert(pending + flatten(chunks) =~= pending);
        if pending.len() > 0 {
            assert(written_data(ws.drop_first()) == Seq::<u8>::empty());
            assert(written_data(ws) =~= padded(pending));
        } else {
            assert(padded(pending) =~= Seq::<u8>::empty());
        }
    } else {
        let all = pending + chunks[0];
        let al = aligned_len(all.len());
        let (w, p, out) = push_step(written, pending, chunks[0]);
        let rest = stream_writes(w, p, chunks.drop_first());
        lemma_stream_writes_from(w, p, chunks.drop_first());
        assert(flatten(chunks) == chunks[0] + flatten(chunks.drop_first()));
        let head = all.subrange(0, al as int);
        assert(al % 4 == 0);
        lemma_padded_after_aligned(head, p + flatten(chunks.drop_first()));
        assert(head + (p + flatten(chunks.drop_first())) =~= pending + flatten(chunks));
        match out {
            Some(x) => {
                assert(ws == seq![x] + rest);
                assert(ws.drop_first() =~= rest);
                assert forall|k: int| 0 <= k < ws.len() - 1 implies #[trigger] ws[k + 1].0 == ws[k].0
                    + ws[k].1.len() by {
                    if k > 0 {
                        assert(ws[k] == rest[k - 1]);
                        assert(ws[k + 1] == rest[k]);
                    }
                }
                assert forall|k: int| 0 <= k < ws.len() implies #[trigger] ws[k].1.len() % (
                WRITE_ALIGN as nat) == 0 by {
                    if k > 0 {
                        assert(ws[k] == rest[k - 1]);
                    }
                }
            },
            None => {
                assert(head =~= Seq::<u8>::empty());
            },
        }
    }
}

/// However an image is split into reads, a fresh writer's writes start at
/// offset 0, follow one another with no gap or overlap, all have aligned
/// lengths, hold exactly the image followed by erased-state padding, and
/// the final count is the image's length, padding excluded.
pub proof fn lemma_stream_writes_cover(chunks: Seq<Seq<u8>>)
    ensures
        ({
            let ws = stream_writes(0, Seq::empty(), chunks);
            &&& ws.len() > 0 ==> ws[0].0 == 0
            &&& forall|k: int| 0 <= k < ws.len() - 1 ==> #[trigger] ws[k + 1].0 == ws[k].0 + ws[k].1.len()
            &&& forall|k: int| 0 <= k < ws.len() ==> #[trigger] ws[k].1.len() % (WRITE_ALIGN as nat) == 0
            &&& written_data(ws) == padded(flatten(chunks))
            &&& stream_count(0, Seq::empty(), chunks) == flatten(chunks).len()
        }),
{
    lemma_stream_writes_from(0, Seq::empty(), chunks);
    assert(Seq::<u8>::empty() + flatten(chunks) =~= flatten(chunks));
}


/// Bytes erased for an image of `size` bytes: whole pages, rounded up.
pub open spec fn erase_len(size: nat) -> nat {
    (((size + 4095) / 4096) * 4096) as nat
}

/// The erase calls still to come, as `[start, end)` ranges, when `erased`
/// of `total` bytes are done and each call covers at most `chunk` bytes.
pub open spec fn erase_ranges(erased: nat, total: nat, chunk: nat) -> Seq<(nat, nat)>
    decreases total - erased,
{
    if chunk == 0 || erased >= total {
        Seq::empty()
    } else {
        let c = if chunk < total - erased {
            chunk
        } else {
            (total - erased) as nat
        };
        seq![(erased, erased + c)] + erase_ranges(erased + c, total, chunk)
    }
}

/// `erase_len(size)`, where it fits the 32-bit flash address space.
pub fn erase_length(size: u32) -> (r: Option<u32>)
    ensures
        match r {
            Some(n) => n as nat == erase_len(size as nat),
            None => erase_len(size as nat) > u32::MAX,
        },
{
    let n: u64 = (size as u64 + 4095) / 4096 * 4096;
    if n > 0xffff_ffffu64 {
        None
    } else {
        Some(n as u32)
    }
}

/// The erase ranges from `erased` on: the first starts at `erased`, each
/// starts where the one before ended, none is empty or longer than `chunk`,
/// and the last ends at `total`.
pub proof fn lemma_erase_ranges_from(erased: nat, total: nat, chunk: nat)
    requires
        chunk > 0,
        erased <= total,
    ensures
        ({
            let rs = erase_ranges(erased, total, chunk);
            &&& rs.len() == 0 <==> erased == total
            &&& rs.len() > 0 ==> rs[0].0 == erased && rs[rs.len() - 1].1 == total
            &&& forall|k: int| 0 <= k < rs.len() - 1 ==> #[trigger] rs[k + 1].0 == rs[k].1
            &&& forall|k: int| 0 <= k < rs.len() ==> rs[k].0 < #[trigger] rs[k].1 <= rs[k].0 + chunk
        }),
    decreases total - erased,
{
    if erased < total {
        let c = if chunk < total - erased {
            chunk
        } else {
            (total - erased) as nat
        };
        lemma_erase_ranges_from(erased + c, total, chunk);
        let rs = erase_ranges(erased, total, chunk);
        let rest = erase_ranges(erased + c, total, chunk);
        assert(rs == seq![(erased, erased + c)] + rest);
        assert forall|k: int| 0 <= k < rs.len() - 1 implies #[trigger] rs[k + 1].0 == rs[k].1 by {
            if k > 0 {
                assert(rs[k] == rest[k - 1]);
                let j = k - 1;
                assert(rest[j + 1].0 == rest[j].1);
            } else {
                assert(rs[0] == (erased, erased + c));
                assert(rest.len() > 0);
                assert(rest[0].0 == erased + c);
            }
            assert(rs[k + 1] == rest[k]);
        }
        assert forall|k: int| 0 <= k < rs.len() implies rs[k].0 < #[trigger] rs[k].1 <= rs[k].0 + chunk by {
            if k > 0 {
                assert(rs[k] == rest[k - 1]);
            }
        }
        if rest.len() > 0 {
            assert(rs[rs.len() - 1] == rest[rest.len() - 1]);
        }
    }
}

/// An image of `size` bytes is erased as `ceil(size / 4096) * 4096` bytes,
/// a whole number of pages that holds the image, in ranges of at most
/// `chunk` bytes that cover `[0, erase_len)` with no gap or overlap.
pub proof fn lemma_erase_plan(size: nat, chunk: nat)
    requires
        chunk > 0,
    ensures
        ({
            let total = erase_len(size);
            let rs = erase_ranges(0, total, chunk);
            &&& total % (ERASE_PAGE as nat) == 0
            &&& size <= total < size + (ERASE_PAGE as nat)
            &&& rs.len() == 0 <==> total == 0
            &&& rs.len() > 0 ==> rs[0].0 == 0 && rs[rs.len() - 1].1 == total
            &&& forall|k: int| 0 <= k < rs.len() - 1 ==> #[trigger] rs[k + 1].0 == rs[k].1
            &&& forall|k: int| 0 <= k < rs.len() ==> rs[k].0 < #[trigger] rs[k].1 <= rs[k].0 + chunk
        }),
{
    let q = (size + 4095) / 4096;
    assert(q * 4096 % 4096 == 0) by (nonlinear_arith);
    assert(size <= q * 4096 < size + 4096) by (nonlinear_arith)
        requires
            q == (size + 4095) / 4096,
    ;
    lemma_erase_ranges_from(0, erase_len(size), chunk);
}

/// The erase region holds the image and ends on a write boundary.
pub proof fn lemma_erase_len_bounds(size: nat)
    ensures
        size <= erase_len(size),
        erase_len(size) % (WRITE_ALIGN as nat) == 0,
{
    let q = (size + 4095) / 4096;
    assert(size <= q * 4096) by (nonlinear_arith)
        requires
            q == (size + 4095) / 4096,
    ;
    assert((q * 4096) % 4 == 0) by (nonlinear_arith);
}

/// Hands out the erase calls for a region one at a time, so that the caller
/// can yield between them.
pub struct EraseCursor {
    erased: u32,
    total: u32,
    chunk: u32,
}

impl EraseCursor {
    /// Bytes erased so far.
    pub closed spec fn erased(&self) -> nat {
        self.erased as nat
    }

    /// Bytes to erase in all.
    pub closed spec fn total(&self) -> nat {
        self.total as nat
    }

    /// Longest range of one call.
    pub closed spec fn chunk(&self) -> nat {
        self.chunk as nat
    }

    /// The calls still to come.
    pub open spec fn remaining(&self) -> Seq<(nat, nat)> {
        erase_ranges(self.erased(), self.total(), self.chunk())
    }

    pub open spec fn wf(&self) -> bool {
        self.chunk() > 0 && self.erased() <= self.total()
    }

    /// A cursor over `[0, total)` in calls of at most `chunk` bytes.
    pub fn new(total: u32, chunk: u32) -> (r: EraseCursor)
        requires
            chunk > 0,
        ensures
            r.wf(),
            r.erased() == 0,
            r.total() == total,
            r.chunk() == chunk,
    {
        EraseCursor { erased: 0, total, chunk }
    }

    /// The next `[start, end)` range to erase, or `None` when all is done.
    pub fn next_range(&mut self) -> (r: Option<(u32, u32)>)
        requires
            old(self).wf(),
        ensures
            final(self).wf(),
            final(self).total() == old(self).total(),
            final(self).chunk() == old(self).chunk(),
            match r {
                Some((a, b)) => old(self).remaining() == seq![(a as nat, b as nat)]
                    + final(self).remaining() && final(self).erased() == b,
                None => old(self).remaining().len() == 0 && final(self).erased() == old(self).erased(),
            },
    {
        if self.erased >= self.total {
            return None;
        }
        let left = self.total - self.erased;
        let c = if self.chunk < left {
            self.chunk
        } else {
            left
        };
        let start = self.erased;
        self.erased = self.erased + c;
        Some((start, self.erased))
    }
}


/// The writes follow one another from offset 0, end where their data ends,
/// and all have aligned lengths.
pub open spec fn writes_contiguous(ws: Seq<(nat, Seq<u8>)>) -> bool {
    &&& ws.len() > 0 ==> ws[0].0 == 0 && ws.last().0 + ws.last().1.len() == written_data(ws).len()
    &&& forall|k: int| 0 <= k < ws.len() - 1 ==> #[trigger] ws[k + 1].0 == ws[k].0 + ws[k].1.len()
    &&& forall|k: int| 0 <= k < ws.len() ==> #[trigger] ws[k].1.len() % (WRITE_ALIGN as nat) == 0
}

pub proof fn lemma_written_data_push(ws: Seq<(nat, Seq<u8>)>, x: (nat, Seq<u8>))
    ensures
        written_data(ws.push(x)) == written_data(ws) + x.1,
    decreases ws.len(),
{
    if ws.len() == 0 {
        assert(ws.push(x).drop_first() =~= Seq::<(nat, Seq<u8>)>::empty());
        assert(ws.push(x)[0] == x);
        assert(written_data(ws.push(x).drop_first()) == Seq::<u8>::empty());
        assert(written_data(ws) == Seq::<u8>::empty());
        assert(written_data(ws.push(x)) =~= written_data(ws) + x.1);
    } else {
        lemma_written_data_push(ws.drop_first(), x);
        assert(ws.push(x).drop_first() =~= ws.drop_first().push(x));
        assert(written_data(ws.push(x)) =~= written_data(ws) + x.1);
    }
}

/// A write placed where the data written so far ends keeps the writes
/// contiguous.
pub proof fn lemma_contiguous_push(ws: Seq<(nat, Seq<u8>)>, x: (nat, Seq<u8>))
    requires
        writes_contiguous(ws),
        x.0 == written_data(ws).len(),
        x.1.len() % (WRITE_ALIGN as nat) == 0,
    ensures
        writes_contiguous(ws.push(x)),
        written_data(ws.push(x)) == written_data(ws) + x.1,
{
    lemma_written_data_push(ws, x);
    let w2 = ws.push(x);
    assert forall|k: int| 0 <= k < w2.len() - 1 implies #[trigger] w2[k + 1].0 == w2[k].0
        + w2[k].1.len() by {
        if k < ws.len() - 1 {
            assert(w2[k] == ws[k]);
            assert(w2[k + 1] == ws[k + 1]);
        } else {
            assert(w2[k] == ws.last());
        }
    }
    assert forall|k: int| 0 <= k < w2.len() implies #[trigger] w2[k].1.len() % (WRITE_ALIGN as nat)
        == 0 by {
        if k < ws.len() {
            assert(w2[k] == ws[k]);
        }
    }
    if ws.len() == 0 {
        assert(written_data(ws) =~= Seq::<u8>::empty());
    }
}

/// One read keeps "written data is the prefix of what arrived, the buffer
/// holds the rest": `arrived` is everything that has arrived, `data` included.
pub proof fn lemma_push_keeps_prefix(
    ws: Seq<(nat, Seq<u8>)>,
    written: nat,
    pending: Seq<u8>,
    data: Seq<u8>,
    arrived: Seq<u8>,
)
    requires
        writes_contiguous(ws),
        written_data(ws) == arrived.subrange(0, written as int),
        written + pending.len() + data.len() == arrived.len(),
        pending + data == arrived.subrange(written as int, arrived.len() as int),
    ensures
        ({
            let (w, p, out) = push_step(written, pending, data);
            let ws2 = match out {
                Some(x) => ws.push(x),
                None => ws,
            };
            &&& writes_contiguous(ws2)
            &&& written_data(ws2) == arrived.subrange(0, w as int)
            &&& p == arrived.subrange(w as int, arrived.len() as int)
            &&& w + p.len() == arrived.len()
            &&& out matches Some(x) ==> x.0 == written
        }),
{
    let all = pending + data;
    let al = aligned_len(all.len());
    let (w, p, out) = push_step(written, pending, data);
    if al > 0 {
        let x = (written, all.subrange(0, al as int));
        lemma_contiguous_push(ws, x);
        assert(written_data(ws.push(x)) =~= arrived.subrange(0, w as int));
    } else {
        assert(arrived.subrange(0, w as int) =~= arrived.subrange(0, written as int));
    }
    assert(p =~= arrived.subrange(w as int, arrived.len() as int));
}

/// End of stream turns "written data is the prefix" into "written data is
/// everything that arrived, padded", with the count at its length.
pub proof fn lemma_finish_completes(
    ws: Seq<(nat, Seq<u8>)>,
    written: nat,
    pending: Seq<u8>,
    arrived: Seq<u8>,
)
    requires
        writes_contiguous(ws),
        written % (WRITE_ALIGN as nat) == 0,
        written_data(ws) == arrived.subrange(0, written as int),
        written + pending.len() == arrived.len(),
        pending == arrived.subrange(written as int, arrived.len() as int),
    ensures
        ({
            let (w, out) = finish_step(written, pending);
            let ws2 = match out {
                Some(x) => ws.push(x),
                None => ws,
            };
            &&& writes_contiguous(ws2)
            &&& written_data(ws2) == padded(arrived)
            &&& w == arrived.len()
            &&& out matches Some(x) ==> x.0 == written
        }),
{
    let head = arrived.subrange(0, written as int);
    assert(head + pending =~= arrived);
    lemma_padded_after_aligned(head, pending);
    if pending.len() > 0 {
        let x = (written, padded(pending));
        assert((pending.len() + pad_len(pending.len())) % 4 == 0);
        assert(padded(pending).len() == pending.len() + pad_len(pending.len()));
        lemma_contiguous_push(ws, x);
    } else {
        assert(padded(pending) =~= Seq::<u8>::empty());
    }
}

/// The state a writer exposes: bytes counted so far, bytes buffered, and the
/// buffer's capacity.
pub struct WriterState {
    pub written: nat,
    pub pending: Seq<u8>,
    pub capacity: nat,
}

/// Turns reads of any size into aligned flash writes with a buffer of at
/// most one chunk.
pub struct FlashWriter {
    written: u32,
    pending: Vec<u8>,
    capacity: usize,
}

impl View for FlashWriter {
    type V = WriterState;

    closed spec fn view(&self) -> WriterState {
        WriterState { written: self.written as nat, pending: self.pending@, capacity: self.capacity as nat }
    }
}

impl FlashWriter {
    /// Between calls, fewer than `WRITE_ALIGN` bytes wait in the buffer.
    pub open spec fn wf(&self) -> bool {
        &&& self@.pending.len() < WRITE_ALIGN
        &&& WRITE_ALIGN <= self@.capacity
        &&& self@.written + self@.pending.len() <= u32::MAX
    }

    /// A writer that has written nothing.
    pub fn new(capacity: usize) -> (r: FlashWriter)
        requires
            WRITE_ALIGN <= capacity,
        ensures
            r.wf(),
            r@ == (WriterState { written: 0, pending: Seq::empty(), capacity: capacity as nat }),
    {
        FlashWriter { written: 0, pending: Vec::new(), capacity }
    }

    /// Bytes of genuine data counted so far.
    pub fn bytes_written(&self) -> (r: u32)
        ensures
            r == self@.written,
    {
        self.written
    }

    /// Bytes waiting in the buffer.
    pub fn pending_len(&self) -> (r: usize)
        ensures
            r == self@.pending.len(),
    {
        self.pending.len()
    }

    /// How much the next read may bring: what fits beside the buffer.
    pub fn max_read(&self) -> (r: usize)
        requires
            self.wf(),
        ensures
            r == self@.capacity - self@.pending.len(),
            r > 0,
    {
        self.capacity - self.pending.len()
    }

    /// Takes one read: returns the aligned write it makes possible, if any.
    pub fn push(&mut self, data: &[u8]) -> (r: Option<FlashWrite>)
        requires
            old(self).wf(),
            data@.len() <= old(self)@.capacity - old(self)@.pending.len(),
            old(self)@.written + old(self)@.pending.len() + data@.len() <= u32::MAX,
        ensures
            final(self).wf(),
            final(self)@.capacity == old(self)@.capacity,
            final(self)@.written == push_step(old(self)@.written, old(self)@.pending, data@).0,
            final(self)@.pending == push_step(old(self)@.written, old(self)@.pending, data@).1,
            r matches Some(w) ==> w.data@.len() <= old(self)@.capacity,
            match r {
                Some(w) => push_step(old(self)@.written, old(self)@.pending, data@).2 == Some(
                    (w.offset as nat, w.data@),
                ),
                None => push_step(old(self)@.written, old(self)@.pending, data@).2 is None,
            },
    {
        append_bytes(&mut self.pending, data);
        let n = self.pending.len();
        let al = n - n % WRITE_ALIGN;
        if al == 0 {
            return None;
        }
        let head = copy_range(self.pending.as_slice(), 0, al);
        let tail = copy_range(self.pending.as_slice(), al, n);
        let offset = self.written;
        self.pending = tail;
        self.written = self.written + al as u32;
        Some(FlashWrite { offset, data: head })
    }

    /// End of stream: writes what is buffered padded with `ERASED_BYTE`,
    /// counting only the genuine bytes.
    pub fn finish(&mut self) -> (r: Option<FlashWrite>)
        requires
            old(self).wf(),
        ensures
            final(self).wf(),
            final(self)@.capacity == old(self)@.capacity,
            final(self)@.written == finish_step(old(self)@.written, old(self)@.pending).0,
            final(self)@.pending.len() == 0,
            r matches Some(w) ==> w.data@.len() <= WRITE_ALIGN && WRITE_ALIGN <= old(self)@.capacity,
            match r {
                Some(w) => finish_step(old(self)@.written, old(self)@.pending).1 == Some(
                    (w.offset as nat, w.data@),
                ),
                None => finish_step(old(self)@.written, old(self)@.pending).1 is None,
            },
    {
        let n = self.pending.len();
        if n == 0 {
            return None;
        }
        let mut data = copy_range(self.pending.as_slice(), 0, n);
        let target = n + (WRITE_ALIGN - n % WRITE_ALIGN) % WRITE_ALIGN;
        while data.len() < target
            invariant
                n <= data@.len() <= target,
                target == n + pad_len(n as nat),
                data@.subrange(0, n as int) == old(self)@.pending,
                forall|i: int| n <= i < data@.len() ==> data@[i] == ERASED_BYTE,
            decreases target - data.len(),
        {
            data.push(ERASED_BYTE);
        }
        assert(data@ =~= padded(old(self)@.pending));
        let offset = self.written;
        self.written = self.written + n as u32;
        self.pending = Vec::new();
        Some(FlashWrite { offset, data })
    }
}

} // verus!
