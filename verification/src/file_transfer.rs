//! Chunking of outgoing files and reassembly of incoming ones.
//!
//! The chunks themselves travel encrypted (see `crate::crypto::Plain::FileChunk`);
//! this module only cuts and joins bytes. Reading and writing files is the
//! caller's part.
use vstd::prelude::*;

verus! {

broadcast use vstd::string::group_string_axioms;

/// Size of a file chunk in bytes (before encryption).
pub const CHUNK_SIZE: usize = 16384;

/// A file ready to be sent, cut into chunks `(offset, bytes)`.
pub struct FileSend {
    pub name: String,
    pub size: u64,
    pub chunks: Vec<(u64, Vec<u8>)>,
}

/// How many chunks a file of `n` bytes is cut into: at least one, so that an
/// empty file is still announced and completed.
pub open spec fn chunk_count(n: nat) -> nat {
    if n == 0 {
        1
    } else {
        ((n + 16383) / 16384) as nat
    }
}

/// The bytes of chunk `k` of `data`.
pub open spec fn chunk_bytes(data: Seq<u8>, k: int) -> Seq<u8> {
    let start = k * CHUNK_SIZE;
    let end = if start + CHUNK_SIZE <= data.len() {
        start + CHUNK_SIZE
    } else {
        data.len() as int
    };
    data.subrange(start, end)
}

/// `chunks` is `data` cut into consecutive pieces of `CHUNK_SIZE` bytes (the
/// last one shorter), each with its offset; an empty `data` gives one empty chunk.
pub open spec fn is_chunking(data: Seq<u8>, chunks: Seq<(u64, Vec<u8>)>) -> bool {
    &&& chunks.len() == chunk_count(data.len())
    &&& forall|k: int|
        0 <= k < chunks.len() ==> {
            &&& (#[trigger] chunks[k]).0 == k * CHUNK_SIZE
            &&& chunks[k].1@ == chunk_bytes(data, k)
        }
}

/// Cut `data` into chunks.
pub fn chunk_data(data: &[u8]) -> (chunks: Vec<(u64, Vec<u8>)>)
    ensures
        is_chunking(data@, chunks@),
{
    let n = data.len();
    let mut chunks: Vec<(u64, Vec<u8>)> = Vec::new();
    let mut offset: usize = 0;
    while offset < n
        invariant
            n == data@.len(),
            offset <= n,
            offset == (if chunks@.len() * CHUNK_SIZE <= n {
                chunks@.len() * CHUNK_SIZE
            } else {
                n as int
            }),
            chunks@.len() == 0 || (chunks@.len() - 1) * CHUNK_SIZE < n,
            forall|k: int|
                0 <= k < chunks@.len() ==> {
                    &&& (#[trigger] chunks@[k]).0 == k * CHUNK_SIZE
                    &&& chunks@[k].1@ == chunk_bytes(data@, k)
                },
            chunks@.len() <= n,
        decreases n - offset,
    {
        let end = if n - offset >= CHUNK_SIZE {
            offset + CHUNK_SIZE
        } else {
            n
        };
        let piece = copy_range(data, offset, end);
        let ghost k = chunks@.len() as int;
        chunks.push((offset as u64, piece));
        offset = end;
        proof {
            assert(chunks@[k].1@ == chunk_bytes(data@, k));
        }
    }
    if chunks.len() == 0 {
        chunks.push((0, Vec::new()));
        proof {
            assert(data@.subrange(0, 0) =~= Seq::<u8>::empty());
        }
    }
    proof {
        let c = chunks@.len();
        if n > 0 {
            assert(c * CHUNK_SIZE >= n);
            assert((c - 1) * CHUNK_SIZE < n);
            assert(c == chunk_count(n as nat)) by (nonlinear_arith)
                requires
                    c * 16384 >= n,
                    (c - 1) * 16384 < n,
                    n > 0,
                    chunk_count(n as nat) == (n + 16383) / 16384,
            ;
        }
    }
    chunks
}

/// The bytes `data[a..b]`.
pub fn copy_range(data: &[u8], a: usize, b: usize) -> (r: Vec<u8>)
    requires
        a <= b <= data@.len(),
    ensures
        r@ == data@.subrange(a as int, b as int),
{
    let mut r: Vec<u8> = Vec::new();
    let mut k: usize = a;
    while k < b
        invariant
            a <= k <= b <= data@.len(),
            r@ == data@.subrange(a as int, k as int),
        decreases b - k,
    {
        r.push(data[k]);
        proof {
            assert(data@.subrange(a as int, k as int).push(data@[k as int]) =~= data@.subrange(
                a as int,
                k + 1,
            ));
        }
        k = k + 1;
    }
    r
}

/// The last component of a path, as `Path::file_name` gives it (lossily
/// converted to text).
pub uninterp spec fn path_file_name(path: Seq<char>) -> Option<Seq<char>>;

/// Calls `Path::file_name` on the path and converts the name to text with
/// `to_string_lossy`; the result is a fixed function of the path.
#[verifier::external_body]
pub(crate) fn file_name_of(path: &str) -> (r: Option<String>)
    ensures
        match r {
            Some(n) => path_file_name(path@) == Some(n@),
            None => path_file_name(path@) is None,
        },
{
    std::path::Path::new(path).file_name().map(|n| n.to_string_lossy().into_owned())
}

/// The name under which a file is offered: the last component of its path,
/// or `"file"`.
pub open spec fn send_name(path: Seq<char>) -> Seq<char> {
    match path_file_name(path) {
        Some(n) => n,
        None => "file"@,
    }
}

/// The name under which the file at `path` is offered.
pub fn send_name_of(path: &str) -> (r: String)
    ensures
        r@ == send_name(path@),
{
    match file_name_of(path) {
        Some(n) => n,
        None => "file".to_string(),
    }
}

/// Make a file ready to be sent: its name (the last component of the path)
/// and size, and its bytes cut into chunks.
pub fn prepare(path: &str, data: &[u8]) -> (r: FileSend)
    ensures
        r.name@ == send_name(path@),
        r.size == data@.len(),
        is_chunking(data@, r.chunks@),
{
    FileSend { name: send_name_of(path), size: data.len() as u64, chunks: chunk_data(data) }
}

/// `buf` after writing `data` at `offset`, growing it with zero bytes first if
/// it is too short.
pub open spec fn write_at(buf: Seq<u8>, offset: int, data: Seq<u8>) -> Seq<u8> {
    let end = offset + data.len();
    let len = if end > buf.len() {
        end
    } else {
        buf.len() as int
    };
    Seq::new(
        len as nat,
        |i: int|
            if offset <= i < end {
                data[i - offset]
            } else if i < buf.len() {
                buf[i]
            } else {
                0u8
            },
    )
}

/// `have` with the positions `a..b` marked as received, grown with unmarked
/// positions first if it is too short.
pub open spec fn mark_range(have: Seq<bool>, a: int, b: int) -> Seq<bool> {
    let len = if b > have.len() {
        b
    } else {
        have.len() as int
    };
    Seq::new(len as nat, |i: int| (a <= i < b) || (i < have.len() && have[i]))
}

/// Every position `0..n` is marked.
pub open spec fn covers(have: Seq<bool>, n: int) -> bool {
    &&& n <= have.len()
    &&& forall|i: int| 0 <= i < n ==> #[trigger] have[i]
}

/// What an incoming file holds, as values: its name and size when known, the
/// bytes collected, which positions were written, and the count of bytes
/// received.
pub struct FileState {
    pub name: Option<Seq<char>>,
    pub total: Option<u64>,
    pub bytes: Seq<u8>,
    pub have: Seq<bool>,
    pub filled: nat,
}

/// The state after a chunk of `data` at `offset`.
pub open spec fn pushed(st: FileState, offset: int, data: Seq<u8>) -> FileState {
    FileState {
        bytes: write_at(st.bytes, offset, data),
        have: mark_range(st.have, offset, offset + data.len()),
        filled: st.filled + data.len(),
        ..st
    }
}

/// The state after the size is set to `t`.
pub open spec fn sized(st: FileState, t: u64) -> FileState {
    FileState { total: Some(t), ..st }
}

/// Collects an incoming file. Chunks may come in any order, and the offer
/// that names the file may come after the first chunks.
pub struct IncomingFile {
    name: Option<String>,
    total: Option<u64>,
    buf: Vec<u8>,
    /// Which positions of `buf` a chunk has written.
    have: Vec<bool>,
    /// Every position before this one was written.
    upto: usize,
    /// How many bytes were written (the sum of the lengths of the chunks received).
    filled: u64,
}

impl IncomingFile {
    #[verifier::type_invariant]
    spec fn coverage_inv(&self) -> bool {
        &&& self.upto <= self.have@.len()
        &&& forall|i: int| 0 <= i < self.upto ==> #[trigger] self.have@[i]
    }

    pub closed spec fn name_field(&self) -> Option<Seq<char>> {
        match self.name {
            Some(n) => Some(n@),
            None => None,
        }
    }

    pub closed spec fn total_field(&self) -> Option<u64> {
        self.total
    }

    pub closed spec fn bytes(&self) -> Seq<u8> {
        self.buf@
    }

    /// Which positions were written by some chunk.
    pub closed spec fn coverage(&self) -> Seq<bool> {
        self.have@
    }

    pub closed spec fn filled(&self) -> u64 {
        self.filled
    }

    /// All that the collector holds, as values.
    pub open spec fn state(&self) -> FileState {
        FileState {
            name: self.name_field(),
            total: self.total_field(),
            bytes: self.bytes(),
            have: self.coverage(),
            filled: self.filled() as nat,
        }
    }

    /// The name shown for the file.
    pub open spec fn shown_name(&self) -> Seq<char> {
        match self.name_field() {
            Some(n) => n,
            None => "file"@,
        }
    }

    /// The size of the file: the announced one, or else what was received.
    pub open spec fn shown_total(&self) -> u64 {
        match self.total_field() {
            Some(t) => t,
            None => self.filled(),
        }
    }

    /// The size is known and every byte of it was received.
    pub open spec fn complete(&self) -> bool {
        match self.total_field() {
            Some(t) => covers(self.coverage(), t as int),
            None => false,
        }
    }

    /// A chunk of `len` bytes at `offset` can be taken without overflow.
    pub open spec fn can_take(&self, offset: u64, len: nat) -> bool {
        &&& offset + len <= usize::MAX
        &&& self.filled() + len <= u64::MAX
    }

    /// An empty collector.
    pub fn new() -> (r: IncomingFile)
        ensures
            r.name_field() is None,
            r.total_field() is None,
            r.bytes() == Seq::<u8>::empty(),
            r.coverage() == Seq::<bool>::empty(),
            r.filled() == 0,
    {
        IncomingFile { name: None, total: None, buf: Vec::new(), have: Vec::new(), upto: 0, filled: 0 }
    }

    /// The name shown for the file (`"file"` until an offer named it).
    pub fn name(&self) -> (r: String)
        ensures
            r@ == self.shown_name(),
    {
        match &self.name {
            Some(n) => n.clone(),
            None => "file".to_string(),
        }
    }

    /// The announced size, or else the number of bytes received.
    pub fn total(&self) -> (r: u64)
        ensures
            r == self.shown_total(),
    {
        match self.total {
            Some(t) => t,
            None => self.filled,
        }
    }

    /// The number of bytes received.
    pub fn received(&self) -> (r: u64)
        ensures
            r == self.filled(),
    {
        self.filled
    }

    /// The collected bytes.
    pub fn contents(&self) -> (r: &Vec<u8>)
        ensures
            r@ == self.bytes(),
    {
        &self.buf
    }

    /// Set the name (from the file offer).
    pub fn set_name(&mut self, name: String)
        ensures
            final(self).name_field() == Some(name@),
            final(self).total_field() == old(self).total_field(),
            final(self).bytes() == old(self).bytes(),
            final(self).coverage() == old(self).coverage(),
            final(self).filled() == old(self).filled(),
    {
        proof {
            use_type_invariant(&*self);
        }
        self.name = Some(name);
    }

    /// Set the full size (from the offer or from a chunk).
    pub fn set_total(&mut self, total: u64)
        ensures
            final(self).name_field() == old(self).name_field(),
            final(self).total_field() == Some(total),
            final(self).bytes() == old(self).bytes(),
            final(self).coverage() == old(self).coverage(),
            final(self).filled() == old(self).filled(),
            final(self).state() == sized(old(self).state(), total),
    {
        proof {
            use_type_invariant(&*self);
        }
        self.total = Some(total);
    }

    /// The transfer is complete when the size is known and every byte of it
    /// was received.
    pub fn is_complete(&self) -> (r: bool)
        ensures
            r == self.complete(),
    {
        proof {
            use_type_invariant(self);
        }
        match self.total {
            None => false,
            Some(t) => {
                if t > self.have.len() as u64 {
                    return false;
                }
                let n = t as usize;
                let mut i: usize = self.upto;
                while i < n
                    invariant
                        self.total == Some(n as u64),
                        self.upto <= i,
                        n <= self.have@.len(),
                        forall|j: int| 0 <= j < self.upto ==> #[trigger] self.have@[j],
                        forall|j: int| self.upto <= j < i ==> #[trigger] self.have@[j],
                    decreases n - i,
                {
                    if !self.have[i] {
                        assert(!self.have@[i as int]);
                        return false;
                    }
                    i = i + 1;
                }
                proof {
                    assert forall|j: int| 0 <= j < n implies #[trigger] self.have@[j] by {
                        if j >= self.upto {
                            assert(self.upto <= j < i);
                        }
                    }
                }
                true
            },
        }
    }

    /// Whether a chunk of `len` bytes at `offset` can be taken.
    pub fn fits(&self, offset: u64, len: usize) -> (r: bool)
        ensures
            r == self.can_take(offset, len as nat),
    {
        offset <= usize::MAX as u64 && (len as u64) <= (usize::MAX as u64) - offset && (len as u64)
            <= u64::MAX - self.filled
    }

    /// Write a chunk at its offset (in any order). A chunk that comes twice
    /// is counted twice in `received`, but covers its bytes only once.
    pub fn push(&mut self, offset: u64, data: &[u8])
        requires
            old(self).can_take(offset, data@.len()),
        ensures
            final(self).name_field() == old(self).name_field(),
            final(self).total_field() == old(self).total_field(),
            final(self).bytes() == write_at(old(self).bytes(), offset as int, data@),
            final(self).coverage() == mark_range(
                old(self).coverage(),
                offset as int,
                offset + data@.len(),
            ),
            final(self).filled() == old(self).filled() + data@.len(),
            final(self).state() == pushed(old(self).state(), offset as int, data@),
    {
        proof {
            use_type_invariant(&*self);
        }
        let off = offset as usize;
        let end = off + data.len();
        let mut buf: Vec<u8> = Vec::new();
        std::mem::swap(&mut buf, &mut self.buf);
        let ghost old_buf = buf@;
        if end > buf.len() {
            buf.resize(end, 0u8);
        }
        let ghost grown = buf@;
        let mut k: usize = 0;
        while k < data.len()
            invariant
                off == offset,
                end == off + data@.len(),
                end <= buf@.len(),
                buf@.len() == grown.len(),
                k <= data@.len(),
                forall|i: int|
                    0 <= i < buf@.len() ==> #[trigger] buf@[i] == if off <= i < off + k {
                        data@[i - off]
                    } else {
                        grown[i]
                    },
            decreases data@.len() - k,
        {
            buf.set(off + k, data[k]);
            k = k + 1;
        }
        proof {
            assert forall|i: int| 0 <= i < grown.len() && !(off <= i < end) implies grown[i] == (
            if i < old_buf.len() {
                old_buf[i]
            } else {
                0u8
            }) by {
                if i < old_buf.len() {
                    assert(grown.subrange(0, old_buf.len() as int)[i] == old_buf[i]);
                }
            }
            assert(buf@ =~= write_at(old_buf, offset as int, data@));
        }
        std::mem::swap(&mut buf, &mut self.buf);
        self.filled = self.filled + data.len() as u64;
        let mut upto = self.upto;
        self.upto = 0;
        let mut have: Vec<bool> = Vec::new();
        std::mem::swap(&mut have, &mut self.have);
        let ghost old_have = have@;
        if end > have.len() {
            have.resize(end, false);
        }
        let ghost widened = have@;
        proof {
            assert forall|i: int| 0 <= i < widened.len() implies #[trigger] widened[i] == (i
                < old_have.len() && old_have[i]) by {
                if i < old_have.len() {
                    assert(widened.subrange(0, old_have.len() as int)[i] == old_have[i]);
                }
            }
        }
        let mut p: usize = off;
        while p < end
            invariant
                off <= p <= end,
                end <= have@.len(),
                have@.len() == widened.len(),
                upto <= have@.len(),
                forall|i: int| 0 <= i < upto ==> #[trigger] have@[i],
                forall|i: int|
                    0 <= i < have@.len() ==> #[trigger] have@[i] == ((off <= i < p) || widened[i]),
            decreases end - p,
        {
            have.set(p, true);
            p = p + 1;
        }
        proof {
            assert(have@ =~= mark_range(old_have, offset as int, offset + data@.len()));
        }
        while upto < have.len() && have[upto]
            invariant
                upto <= have@.len(),
                forall|i: int| 0 <= i < upto ==> #[trigger] have@[i],
            decreases have@.len() - upto,
        {
            upto = upto + 1;
        }
        std::mem::swap(&mut have, &mut self.have);
        self.upto = upto;
    }
}

/// A chunk that comes twice changes neither the bytes nor which of them were
/// received.
pub proof fn law_duplicate_chunk(buf: Seq<u8>, have: Seq<bool>, offset: int, data: Seq<u8>)
    requires
        0 <= offset,
    ensures
        write_at(write_at(buf, offset, data), offset, data) == write_at(buf, offset, data),
        mark_range(mark_range(have, offset, offset + data.len()), offset, offset + data.len())
            == mark_range(have, offset, offset + data.len()),
{
    assert(write_at(write_at(buf, offset, data), offset, data) =~= write_at(buf, offset, data));
    assert(mark_range(mark_range(have, offset, offset + data.len()), offset, offset + data.len())
        =~= mark_range(have, offset, offset + data.len()));
}

/// Two chunks whose ranges do not overlap can be taken in either order: the
/// bytes and the received positions come out the same.
pub proof fn law_chunks_commute(
    buf: Seq<u8>,
    have: Seq<bool>,
    a: int,
    da: Seq<u8>,
    b: int,
    db: Seq<u8>,
)
    requires
        0 <= a,
        0 <= b,
        a + da.len() <= b || b + db.len() <= a,
    ensures
        write_at(write_at(buf, a, da), b, db) == write_at(write_at(buf, b, db), a, da),
        mark_range(mark_range(have, a, a + da.len()), b, b + db.len()) == mark_range(
            mark_range(have, b, b + db.len()),
            a,
            a + da.len(),
        ),
{
    assert(write_at(write_at(buf, a, da), b, db) =~= write_at(write_at(buf, b, db), a, da));
    assert(mark_range(mark_range(have, a, a + da.len()), b, b + db.len()) =~= mark_range(
        mark_range(have, b, b + db.len()),
        a,
        a + da.len(),
    ));
}

/// Chunks may arrive in any order, and the size before or after them: two
/// chunks with ranges that do not overlap give the same state in either
/// order; setting the size before or after a chunk gives the same state; and
/// of two sizes set, the later one counts.
pub proof fn law_file_state_order(st: FileState, a: int, da: Seq<u8>, b: int, db: Seq<u8>, t: u64, t2: u64)
    requires
        0 <= a,
        0 <= b,
        a + da.len() <= b || b + db.len() <= a,
    ensures
        pushed(pushed(st, a, da), b, db) == pushed(pushed(st, b, db), a, da),
        sized(pushed(st, a, da), t) == pushed(sized(st, t), a, da),
        sized(sized(st, t), t2) == sized(st, t2),
{
    law_chunks_commute(st.bytes, st.have, a, da, b, db);
    assert(pushed(pushed(st, a, da), b, db) =~= pushed(pushed(st, b, db), a, da));
}

/// The pieces `(offset, bytes)` that arrive when the chunks are delivered in
/// the order given by their positions.
pub open spec fn delivered(chunks: Seq<(u64, Vec<u8>)>, order: Seq<int>) -> Seq<(int, Seq<u8>)> {
    order.map_values(|k: int| (chunks[k].0 as int, chunks[k].1@))
}

/// The pieces that arrive when the chunks of `data` are delivered in the
/// order given by their positions.
pub open spec fn arrival(data: Seq<u8>, order: Seq<int>) -> Seq<(int, Seq<u8>)> {
    order.map_values(|k: int| (k * CHUNK_SIZE, chunk_bytes(data, k)))
}

/// The buffer after writing the pieces one after the other.
pub open spec fn written(buf: Seq<u8>, pieces: Seq<(int, Seq<u8>)>) -> Seq<u8>
    decreases pieces.len(),
{
    if pieces.len() == 0 {
        buf
    } else {
        let last = pieces.last();
        write_at(written(buf, pieces.drop_last()), last.0, last.1)
    }
}

/// The number of bytes in the pieces.
pub open spec fn piece_bytes(pieces: Seq<(int, Seq<u8>)>) -> nat
    decreases pieces.len(),
{
    if pieces.len() == 0 {
        0
    } else {
        piece_bytes(pieces.drop_last()) + pieces.last().1.len()
    }
}

/// The end of chunk `k` of a file of `n` bytes.
pub open spec fn chunk_end(n: int, k: int) -> int {
    if (k + 1) * CHUNK_SIZE <= n {
        (k + 1) * CHUNK_SIZE
    } else {
        n
    }
}

/// Some chunk among the first `j` delivered covers position `i`.
spec fn covered(n: int, order: Seq<int>, j: int, i: int) -> bool {
    exists|t: int| 0 <= t < j && #[trigger] order[t] * CHUNK_SIZE <= i < chunk_end(n, order[t])
}

pub proof fn lemma_chunk_bounds(n: nat, k: int)
    requires
        0 <= k < chunk_count(n),
    ensures
        k * CHUNK_SIZE <= chunk_end(n as int, k) <= n,
        n > 0 ==> k * CHUNK_SIZE < n,
{
    if n > 0 {
        assert(k * 16384 < n) by (nonlinear_arith)
            requires
                k < (n + 16383) / 16384,
                0 <= k,
        ;
    }
}

/// The chunks of a chunking, delivered, are the pieces of the data.
proof fn lemma_delivered_arrival(data: Seq<u8>, chunks: Seq<(u64, Vec<u8>)>, order: Seq<int>)
    requires
        is_chunking(data, chunks),
        forall|t: int| 0 <= t < order.len() ==> 0 <= #[trigger] order[t] < chunks.len(),
    ensures
        delivered(chunks, order) == arrival(data, order),
{
    assert forall|t: int| 0 <= t < order.len() implies #[trigger] delivered(chunks, order)[t]
        == arrival(data, order)[t] by {
        let k = order[t];
        assert(chunks[k].0 == k * CHUNK_SIZE);
    }
    assert(delivered(chunks, order) =~= arrival(data, order));
}

proof fn lemma_written_prefix(data: Seq<u8>, order: Seq<int>, j: int)
    requires
        forall|t: int| 0 <= t < order.len() ==> 0 <= #[trigger] order[t] < chunk_count(data.len()),
        0 <= j <= order.len(),
    ensures
        ({
            let buf = written(Seq::empty(), arrival(data, order).take(j));
            &&& buf.len() <= data.len()
            &&& forall|i: int|
                0 <= i < buf.len() ==> #[trigger] buf[i] == (if covered(data.len() as int, order, j, i) {
                    data[i]
                } else {
                    0u8
                })
            &&& forall|t: int| 0 <= t < j ==> chunk_end(data.len() as int, #[trigger] order[t]) <= buf.len()
        }),
    decreases j,
{
    let n = data.len() as int;
    let ps = arrival(data, order);
    if j == 0 {
        assert(ps.take(0) =~= Seq::<(int, Seq<u8>)>::empty());
    } else {
        lemma_written_prefix(data, order, j - 1);
        let prev = written(Seq::empty(), ps.take(j - 1));
        assert(ps.take(j).drop_last() =~= ps.take(j - 1));
        let k = order[j - 1];
        lemma_chunk_bounds(data.len(), k);
        let off = k * CHUNK_SIZE;
        let d = chunk_bytes(data, k);
        assert(ps.take(j).last() == (off, d));
        assert(d.len() == chunk_end(n, k) - off);
        let buf = written(Seq::empty(), ps.take(j));
        assert(buf == write_at(prev, off, d));
        assert forall|i: int| 0 <= i < buf.len() implies #[trigger] buf[i] == (if covered(
            n,
            order,
            j,
            i,
        ) {
            data[i]
        } else {
            0u8
        }) by {
            if off <= i < chunk_end(n, k) {
                assert(order[j - 1] * CHUNK_SIZE <= i < chunk_end(n, order[j - 1]));
                assert(covered(n, order, j, i));
            } else {
                if covered(n, order, j, i) {
                    let t = choose|t: int|
                        0 <= t < j && #[trigger] order[t] * CHUNK_SIZE <= i < chunk_end(n, order[t]);
                    assert(t != j - 1);
                    assert(covered(n, order, j - 1, i));
                } else {
                    assert forall|t: int| 0 <= t < j - 1 implies !(#[trigger] order[t] * CHUNK_SIZE
                        <= i < chunk_end(n, order[t])) by {
                        assert(!(0 <= t < j && order[t] * CHUNK_SIZE <= i < chunk_end(n, order[t])));
                    }
                    assert(!covered(n, order, j - 1, i));
                }
                if i < prev.len() {
                    assert(buf[i] == prev[i]);
                } else {
                    assert(buf[i] == 0u8);
                    if covered(n, order, j - 1, i) {
                        let t = choose|t: int|
                            0 <= t < j - 1 && #[trigger] order[t] * CHUNK_SIZE <= i < chunk_end(
                                n,
                                order[t],
                            );
                        assert(chunk_end(n, order[t]) <= prev.len());
                    }
                }
            }
        }
    }
}

/// Chunk `k` is among those delivered.
pub open spec fn arrives(order: Seq<int>, k: int) -> bool {
    exists|t: int| 0 <= t < order.len() && order[t] == k
}

/// Writing the pieces of `data`, delivered in any order that brings each of
/// them, gives back `data`.
pub proof fn lemma_arrival_written(data: Seq<u8>, order: Seq<int>)
    requires
        forall|t: int| 0 <= t < order.len() ==> 0 <= #[trigger] order[t] < chunk_count(data.len()),
        forall|k: int| 0 <= k < chunk_count(data.len()) ==> #[trigger] arrives(order, k),
    ensures
        written(Seq::empty(), arrival(data, order)) == data,
{
    let n = data.len() as int;
    let ps = arrival(data, order);
    lemma_written_prefix(data, order, order.len() as int);
    assert(ps.take(order.len() as int) =~= ps);
    let buf = written(Seq::empty(), ps);
    if n > 0 {
        let last = chunk_count(n as nat) - 1;
        assert(arrives(order, last));
        let t = choose|t: int| 0 <= t < order.len() && #[trigger] order[t] == last;
        assert(chunk_count(n as nat) * 16384 >= n) by (nonlinear_arith)
            requires
                n > 0,
                chunk_count(n as nat) == (n + 16383) / 16384,
        ;
        assert(chunk_end(n, order[t]) == n);
        assert(buf.len() == n);
        assert forall|i: int| 0 <= i < n implies buf[i] == data[i] by {
            let k = i / 16384;
            assert(k * 16384 <= i < (k + 1) * 16384) by (nonlinear_arith)
                requires
                    k == i / 16384,
                    0 <= i,
            ;
            assert(k < chunk_count(n as nat)) by (nonlinear_arith)
                requires
                    k * 16384 <= i,
                    i < n,
                    0 <= k,
                    chunk_count(n as nat) == (n + 16383) / 16384,
            ;
            assert(arrives(order, k));
            let t = choose|t: int| 0 <= t < order.len() && #[trigger] order[t] == k;
            assert(order[t] * CHUNK_SIZE <= i < chunk_end(n, order[t]));
            assert(covered(n, order, order.len() as int, i));
        }
    }
    assert(buf =~= data);
}

/// Chunks come back together: whatever the order in which the chunks of a
/// file are delivered, so long as each of them comes, writing each at its
/// offset gives back the file.
pub proof fn law_reassembly(data: Seq<u8>, chunks: Seq<(u64, Vec<u8>)>, order: Seq<int>)
    requires
        is_chunking(data, chunks),
        forall|t: int| 0 <= t < order.len() ==> 0 <= #[trigger] order[t] < chunks.len(),
        forall|k: int| 0 <= k < chunks.len() ==> #[trigger] arrives(order, k),
    ensures
        written(Seq::empty(), delivered(chunks, order)) == data,
{
    lemma_delivered_arrival(data, chunks, order);
    lemma_arrival_written(data, order);
}

/// Where the first `m` chunks of a file of `n` bytes end.
pub open spec fn prefix_end(n: int, m: int) -> int {
    if m * CHUNK_SIZE <= n {
        m * CHUNK_SIZE
    } else {
        n
    }
}

proof fn lemma_piece_bytes_remove(ps: Seq<(int, Seq<u8>)>, p: int)
    requires
        0 <= p < ps.len(),
    ensures
        piece_bytes(ps.remove(p)) + ps[p].1.len() == piece_bytes(ps),
    decreases ps.len(),
{
    if p == ps.len() - 1 {
        assert(ps.remove(p) =~= ps.drop_last());
    } else {
        assert(ps.remove(p).drop_last() =~= ps.drop_last().remove(p));
        assert(ps.remove(p).last() == ps.last());
        lemma_piece_bytes_remove(ps.drop_last(), p);
    }
}

/// Each of the chunks `0..m` is delivered exactly once, and nothing else.
pub open spec fn once_each(order: Seq<int>, m: int) -> bool {
    &&& forall|t: int| 0 <= t < order.len() ==> 0 <= #[trigger] order[t] < m
    &&& forall|t: int, u: int| 0 <= t < u < order.len() ==> #[trigger] order[t] != #[trigger] order[u]
    &&& forall|k: int| 0 <= k < m ==> #[trigger] arrives(order, k)
}

proof fn lemma_bytes_of_prefix(data: Seq<u8>, order: Seq<int>, m: int)
    requires
        0 <= m <= chunk_count(data.len()),
        once_each(order, m),
    ensures
        piece_bytes(arrival(data, order)) == prefix_end(data.len() as int, m),
    decreases m,
{
    let n = data.len() as int;
    if m == 0 {
        if order.len() > 0 {
            assert(0 <= order[0] < m);
        }
        assert(arrival(data, order) =~= Seq::<(int, Seq<u8>)>::empty());
    } else {
        assert(arrives(order, m - 1));
        let p = choose|t: int| 0 <= t < order.len() && order[t] == m - 1;
        let rest = order.remove(p);
        assert forall|t: int| 0 <= t < rest.len() implies 0 <= #[trigger] rest[t] < m - 1 by {
            let s = if t < p { t } else { t + 1 };
            assert(rest[t] == order[s]);
            if s < p {
                assert(order[s] != order[p]);
            } else {
                assert(order[p] != order[s]);
            }
        }
        assert forall|t: int, u: int| 0 <= t < u < rest.len() implies #[trigger] rest[t]
            != #[trigger] rest[u] by {
            let s = if t < p { t } else { t + 1 };
            let v = if u < p { u } else { u + 1 };
            assert(rest[t] == order[s] && rest[u] == order[v]);
            assert(order[s] != order[v]);
        }
        assert forall|k: int| 0 <= k < m - 1 implies #[trigger] arrives(rest, k) by {
            assert(arrives(order, k));
            let t = choose|t: int| 0 <= t < order.len() && order[t] == k;
            assert(t != p);
            let s = if t < p { t } else { t - 1 };
            assert(rest[s] == k);
        }
        lemma_bytes_of_prefix(data, rest, m - 1);
        let ps = arrival(data, order);
        assert(arrival(data, rest) =~= ps.remove(p));
        lemma_piece_bytes_remove(ps, p);
        lemma_chunk_bounds(data.len(), m - 1);
        assert(ps[p].1.len() == chunk_end(n, m - 1) - (m - 1) * CHUNK_SIZE);
        if n > 0 {
            assert((m - 1) * CHUNK_SIZE < n);
        } else {
            assert(chunk_count(0) == 1);
        }
    }
}

/// Delivering each chunk of `data` exactly once, in any order, brings as
/// many bytes as `data` has.
pub proof fn lemma_arrival_bytes(data: Seq<u8>, order: Seq<int>)
    requires
        once_each(order, chunk_count(data.len()) as int),
    ensures
        piece_bytes(arrival(data, order)) == data.len(),
{
    let n = data.len() as int;
    lemma_bytes_of_prefix(data, order, chunk_count(data.len()) as int);
    if n > 0 {
        assert(chunk_count(n as nat) * 16384 >= n) by (nonlinear_arith)
            requires
                n > 0,
                chunk_count(n as nat) == (n + 16383) / 16384,
        ;
    }
}

proof fn lemma_piece_bytes_concat(a: Seq<(int, Seq<u8>)>, b: Seq<(int, Seq<u8>)>)
    ensures
        piece_bytes(a + b) == piece_bytes(a) + piece_bytes(b),
    decreases b.len(),
{
    if b.len() == 0 {
        assert(a + b =~= a);
    } else {
        assert((a + b).drop_last() =~= a + b.drop_last());
        lemma_piece_bytes_concat(a, b.drop_last());
    }
}

/// Before the last chunk of a non-empty file arrives, fewer bytes than the
/// file has have come.
pub proof fn lemma_arrival_partial(data: Seq<u8>, order: Seq<int>, j: int)
    requires
        once_each(order, chunk_count(data.len()) as int),
        data.len() > 0,
        0 <= j < order.len(),
    ensures
        piece_bytes(arrival(data, order).take(j)) < data.len(),
{
    let ps = arrival(data, order);
    lemma_arrival_bytes(data, order);
    assert(ps =~= ps.take(j) + ps.skip(j));
    lemma_piece_bytes_concat(ps.take(j), ps.skip(j));
    let rest = ps.skip(j);
    assert(rest.drop_last() + seq![rest.last()] =~= rest);
    lemma_piece_bytes_concat(rest.drop_last(), seq![rest.last()]);
    assert(seq![rest.last()].drop_last() =~= Seq::<(int, Seq<u8>)>::empty());
    let k = order[order.len() - 1];
    lemma_chunk_bounds(data.len(), k);
    assert(rest.last() == (k * CHUNK_SIZE, chunk_bytes(data, k)));
}

/// Every byte is counted once: when each chunk of a file is delivered exactly
/// once, in whatever order, the chunks hold as many bytes as the file; before
/// the last of them (of a non-empty file), fewer.
pub proof fn law_all_bytes_counted(data: Seq<u8>, chunks: Seq<(u64, Vec<u8>)>, order: Seq<int>)
    requires
        is_chunking(data, chunks),
        once_each(order, chunks.len() as int),
    ensures
        piece_bytes(delivered(chunks, order)) == data.len(),
        data.len() > 0 ==> forall|j: int|
            0 <= j < order.len() ==> piece_bytes(#[trigger] delivered(chunks, order).take(j)) < data.len(),
{
    lemma_delivered_arrival(data, chunks, order);
    lemma_arrival_bytes(data, order);
    if data.len() > 0 {
        assert forall|j: int| 0 <= j < order.len() implies piece_bytes(
            #[trigger] delivered(chunks, order).take(j),
        ) < data.len() by {
            lemma_arrival_partial(data, order, j);
        }
    }
}

/// The positions marked after marking each piece in turn.
pub open spec fn marked(have: Seq<bool>, pieces: Seq<(int, Seq<u8>)>) -> Seq<bool>
    decreases pieces.len(),
{
    if pieces.len() == 0 {
        have
    } else {
        let last = pieces.last();
        mark_range(marked(have, pieces.drop_last()), last.0, last.0 + last.1.len())
    }
}

proof fn lemma_marked_prefix(data: Seq<u8>, order: Seq<int>, j: int)
    requires
        forall|t: int| 0 <= t < order.len() ==> 0 <= #[trigger] order[t] < chunk_count(data.len()),
        0 <= j <= order.len(),
    ensures
        ({
            let have = marked(Seq::empty(), arrival(data, order).take(j));
            &&& forall|i: int|
                0 <= i < have.len() ==> #[trigger] have[i] == covered(data.len() as int, order, j, i)
            &&& forall|t: int| 0 <= t < j ==> chunk_end(data.len() as int, #[trigger] order[t]) <= have.len()
        }),
    decreases j,
{
    let n = data.len() as int;
    let ps = arrival(data, order);
    if j == 0 {
        assert(ps.take(0) =~= Seq::<(int, Seq<u8>)>::empty());
    } else {
        lemma_marked_prefix(data, order, j - 1);
        let prev = marked(Seq::empty(), ps.take(j - 1));
        assert(ps.take(j).drop_last() =~= ps.take(j - 1));
        let k = order[j - 1];
        lemma_chunk_bounds(data.len(), k);
        let off = k * CHUNK_SIZE;
        let d = chunk_bytes(data, k);
        assert(ps.take(j).last() == (off, d));
        assert(off + d.len() == chunk_end(n, k));
        let have = marked(Seq::empty(), ps.take(j));
        assert(have == mark_range(prev, off, chunk_end(n, k)));
        assert forall|i: int| 0 <= i < have.len() implies #[trigger] have[i] == covered(
            n,
            order,
            j,
            i,
        ) by {
            if off <= i < chunk_end(n, k) {
                assert(order[j - 1] * CHUNK_SIZE <= i < chunk_end(n, order[j - 1]));
            } else {
                if covered(n, order, j, i) {
                    let t = choose|t: int|
                        0 <= t < j && #[trigger] order[t] * CHUNK_SIZE <= i < chunk_end(n, order[t]);
                    assert(t != j - 1);
                    assert(covered(n, order, j - 1, i));
                    assert(chunk_end(n, order[t]) <= prev.len());
                } else {
                    assert forall|t: int| 0 <= t < j - 1 implies !(#[trigger] order[t] * CHUNK_SIZE
                        <= i < chunk_end(n, order[t])) by {
                        assert(!(0 <= t < j && order[t] * CHUNK_SIZE <= i < chunk_end(n, order[t])));
                    }
                    assert(!covered(n, order, j - 1, i));
                }
            }
        }
    }
}

/// Delivering the pieces of `data` in any order that brings each of them
/// marks every position of `data`.
pub proof fn lemma_arrival_marked(data: Seq<u8>, order: Seq<int>)
    requires
        forall|t: int| 0 <= t < order.len() ==> 0 <= #[trigger] order[t] < chunk_count(data.len()),
        forall|k: int| 0 <= k < chunk_count(data.len()) ==> #[trigger] arrives(order, k),
    ensures
        covers(marked(Seq::empty(), arrival(data, order)), data.len() as int),
{
    let n = data.len() as int;
    let ps = arrival(data, order);
    lemma_marked_prefix(data, order, order.len() as int);
    assert(ps.take(order.len() as int) =~= ps);
    let have = marked(Seq::empty(), ps);
    if n > 0 {
        let last = chunk_count(n as nat) - 1;
        assert(arrives(order, last));
        let t = choose|t: int| 0 <= t < order.len() && #[trigger] order[t] == last;
        assert(chunk_count(n as nat) * 16384 >= n) by (nonlinear_arith)
            requires
                n > 0,
                chunk_count(n as nat) == (n + 16383) / 16384,
        ;
        assert(chunk_end(n, order[t]) == n);
        assert forall|i: int| 0 <= i < n implies #[trigger] have[i] by {
            let k = i / 16384;
            assert(k * 16384 <= i < (k + 1) * 16384) by (nonlinear_arith)
                requires
                    k == i / 16384,
                    0 <= i,
            ;
            assert(k < chunk_count(n as nat)) by (nonlinear_arith)
                requires
                    k * 16384 <= i,
                    i < n,
                    0 <= k,
                    chunk_count(n as nat) == (n + 16383) / 16384,
            ;
            assert(arrives(order, k));
            let t = choose|t: int| 0 <= t < order.len() && #[trigger] order[t] == k;
            assert(order[t] * CHUNK_SIZE <= i < chunk_end(n, order[t]));
            assert(covered(n, order, order.len() as int, i));
        }
    }
}

/// Before the last chunk of a non-empty file arrives (each chunk coming
/// once), some position of the file is not yet marked: the first one of a
/// chunk still to come.
pub proof fn lemma_arrival_gap(data: Seq<u8>, order: Seq<int>, j: int)
    requires
        once_each(order, chunk_count(data.len()) as int),
        data.len() > 0,
        0 <= j < order.len(),
    ensures
        !covers(marked(Seq::empty(), arrival(data, order).take(j)), data.len() as int),
{
    let n = data.len() as int;
    let have = marked(Seq::empty(), arrival(data, order).take(j));
    lemma_marked_prefix(data, order, j);
    let k = order[j];
    lemma_chunk_bounds(data.len(), k);
    let s = k * CHUNK_SIZE;
    if covers(have, n) {
        assert(have[s]);
        assert(covered(n, order, j, s));
        let t = choose|t: int| 0 <= t < j && #[trigger] order[t] * CHUNK_SIZE <= s < chunk_end(n, order[t]);
        let a = order[t];
        assert(a == k) by (nonlinear_arith)
            requires
                a * 16384 <= k * 16384,
                k * 16384 < (a + 1) * 16384,
        ;
        assert(order[t] != order[j]);
    }
}

/// A file is complete exactly when its last chunk arrives: when each chunk of
/// a file is delivered exactly once, in whatever order, all its positions are
/// received at the end, and (for a non-empty file) some position is missing
/// before the last chunk.
pub proof fn law_complete_at_last_chunk(data: Seq<u8>, chunks: Seq<(u64, Vec<u8>)>, order: Seq<int>)
    requires
        is_chunking(data, chunks),
        once_each(order, chunks.len() as int),
    ensures
        covers(marked(Seq::empty(), delivered(chunks, order)), data.len() as int),
        data.len() > 0 ==> forall|j: int|
            0 <= j < order.len() ==> !covers(
                marked(Seq::empty(), #[trigger] delivered(chunks, order).take(j)),
                data.len() as int,
            ),
{
    lemma_delivered_arrival(data, chunks, order);
    lemma_arrival_marked(data, order);
    if data.len() > 0 {
        assert forall|j: int| 0 <= j < order.len() implies !covers(
            marked(Seq::empty(), #[trigger] delivered(chunks, order).take(j)),
            data.len() as int,
        ) by {
            lemma_arrival_gap(data, order, j);
        }
    }
}

} // verus!
