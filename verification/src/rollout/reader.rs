//! Splitting a rollout's bytes into bounded JSONL records, and checkpoints
//! that tell whether a file still starts as it did.

use vstd::prelude::*;

use crate::text::{hex_encode, lemma_hex_encode_injective, sha256_hex, sha256_spec};
use vstd::slice::{slice_subrange, slice_to_vec};

verus! {

/// How a physical line ended.
#[derive(Clone, Copy, Debug, PartialEq, Eq, Structural)]
pub enum LineReadStatus {
    /// Ended by a newline and within the size limit.
    Complete,
    /// Ended by a newline but longer than the size limit.
    Oversize,
    /// The file ended before a newline.
    IncompleteTail,
}

/// One physical line of a rollout: where it lies, the SHA-256 of its bytes
/// (without the newline), how it ended, and its bytes when it is complete.
#[derive(Clone, Debug)]
pub struct ReadLine {
    pub line_no: u64,
    pub byte_offset: u64,
    pub byte_length: u64,
    pub content_hash: String,
    pub status: LineReadStatus,
    pub bytes: Option<Vec<u8>>,
}

/// A prefix of a file and the SHA-256 of it, in hex.
#[derive(Clone, Debug)]
pub struct FileCheckpoint {
    pub offset: u64,
    pub prefix_hash: String,
}

/// The position of the first newline at or after `from`.
pub open spec fn newline_from(data: Seq<u8>, from: int) -> Option<int>
    decreases data.len() - from,
{
    if from < 0 || from >= data.len() {
        None
    } else if data[from] == 10 {
        Some(from)
    } else {
        newline_from(data, from + 1)
    }
}

/// The position of the first `needle` at or after `from`.
pub open spec fn byte_from(data: Seq<u8>, from: int, needle: u8) -> Option<int>
    decreases data.len() - from,
{
    if from < 0 || from >= data.len() {
        None
    } else if data[from] == needle {
        Some(from)
    } else {
        byte_from(data, from + 1, needle)
    }
}

proof fn lemma_byte_from_newline(data: Seq<u8>, from: int)
    ensures
        byte_from(data, from, 10) == newline_from(data, from),
    decreases data.len() - from,
{
    if 0 <= from < data.len() && data[from] != 10 {
        lemma_byte_from_newline(data, from + 1);
    }
}

/// Calls `memchr::memchr`: the position of the first `needle` in the
/// haystack.
#[verifier::external_body]
fn find_byte(needle: u8, haystack: &[u8]) -> (r: Option<usize>)
    ensures
        match byte_from(haystack@, 0, needle) {
            Some(i) => r == Some(i as usize),
            None => r is None,
        },
{
    memchr::memchr(needle, haystack)
}

proof fn lemma_newline_shift(data: Seq<u8>, from: int, k: int)
    requires
        0 <= from <= k <= data.len(),
        forall|i: int| from <= i < k ==> data[i] != 10,
    ensures
        newline_from(data, from) == newline_from(data, k),
    decreases k - from,
{
    if from < k {
        lemma_newline_shift(data, from + 1, k);
    }
}

/// What `newline_from` finds: a newline at or after `from`, with none before it.
pub proof fn lemma_newline_bounds(data: Seq<u8>, from: int)
    requires
        0 <= from,
    ensures
        newline_from(data, from) matches Some(i) ==> from <= i < data.len() && data[i] == 10
            && forall|k: int| from <= k < i ==> data[k] != 10,
        newline_from(data, from) is None ==> forall|k: int| from <= k < data.len() ==> data[k] != 10,
    decreases data.len() - from,
{
    if 0 <= from < data.len() && data[from] != 10 {
        lemma_newline_bounds(data, from + 1);
    }
}

proof fn lemma_newline_offset(s: Seq<u8>, t: Seq<u8>, d: int)
    requires
        0 <= d <= s.len(),
        t == s.subrange(d, s.len() as int),
    ensures
        newline_from(s, d) == match newline_from(t, 0) {
            Some(i) => Some(i + d),
            None => None,
        },
{
    lemma_newline_offset_from(s, t, d, 0);
}

proof fn lemma_newline_offset_from(s: Seq<u8>, t: Seq<u8>, d: int, j: int)
    requires
        0 <= d <= s.len(),
        0 <= j <= t.len(),
        t == s.subrange(d, s.len() as int),
    ensures
        newline_from(s, d + j) == match newline_from(t, j) {
            Some(i) => Some(i + d),
            None => None,
        },
    decreases t.len() - j,
{
    if j < t.len() {
        assert(t[j] == s[d + j]);
        lemma_newline_offset_from(s, t, d, j + 1);
    }
}

/// The records of `data` from byte `from` on, numbered from `line_no`:
/// `(line_no, offset, length, status)` for every line, the last one
/// unfinished when the data does not end with a newline.
pub open spec fn records_from(data: Seq<u8>, from: int, line_no: int, max: int) -> Seq<(int, int, int, LineReadStatus)>
    decreases data.len() - from,
{
    if from < 0 || from >= data.len() {
        Seq::empty()
    } else {
        match newline_from(data, from) {
            Some(nl) => {
                proof {
                    lemma_newline_bounds(data, from);
                }
                seq![(line_no, from, nl - from, if nl - from > max { LineReadStatus::Oversize } else { LineReadStatus::Complete })]
                + records_from(data, nl + 1, line_no + 1, max)
            },
            None => seq![(line_no, from, data.len() - from, LineReadStatus::IncompleteTail)],
        }
    }
}

/// Whether `recs` numbers the lines of `data` from byte `from` on, one by
/// one from `line_no`: the first starts at `from` and each next one right
/// after the newline that ends the one before; no line holds a newline;
/// every line but an unfinished last one ends at a newline; the last one
/// reaches the end of the data; only a last line without a newline is an
/// unfinished tail, and a finished line longer than `max` is oversize.
pub open spec fn records_tile(data: Seq<u8>, from: int, line_no: int, max: int, recs: Seq<(int, int, int, LineReadStatus)>) -> bool {
    let n = recs.len();
    &&& (n > 0 <==> from < data.len())
    &&& n > 0 ==> recs[0].1 == from
    &&& forall|k: int| 0 <= k < n ==> (#[trigger] recs[k]).0 == line_no + k && from <= recs[k].1 && 0 <= recs[k].2
        && recs[k].1 + recs[k].2 <= data.len()
        && (forall|i: int| recs[k].1 <= i < recs[k].1 + recs[k].2 ==> data[i] != 10)
        && recs[k].3 == (if k == n - 1 && data.last() != 10 {
            LineReadStatus::IncompleteTail
        } else if recs[k].2 > max {
            LineReadStatus::Oversize
        } else {
            LineReadStatus::Complete
        })
        && (recs[k].3 != LineReadStatus::IncompleteTail ==> recs[k].1 + recs[k].2 < data.len() && data[recs[k].1 + recs[k].2] == 10)
    &&& forall|k: int, m: int| #![trigger recs[k], recs[m]] 0 <= k && m == k + 1 && m < n ==> recs[m].1 == recs[k].1 + recs[k].2 + 1
    &&& n > 0 ==> recs[n - 1].1 + recs[n - 1].2 + (if data.last() == 10 { 1int } else { 0int }) == data.len()
}

/// The records of the data after any byte offset number its lines one by
/// one, tile it between newlines, and leave only an unfinished last line as
/// a tail.
pub proof fn lemma_records_tile(data: Seq<u8>, from: int, line_no: int, max: int)
    requires
        0 <= from,
    ensures
        records_tile(data, from, line_no, max, records_from(data, from, line_no, max)),
    decreases data.len() - from,
{
    let recs = records_from(data, from, line_no, max);
    if from >= data.len() {
    } else {
        lemma_newline_bounds(data, from);
        match newline_from(data, from) {
            Some(nl) => {
                lemma_records_tile(data, nl + 1, line_no + 1, max);
                let rest = records_from(data, nl + 1, line_no + 1, max);
                let head = (line_no, from, nl - from, if nl - from > max { LineReadStatus::Oversize } else { LineReadStatus::Complete });
                assert(recs == seq![head] + rest);
                let n = recs.len();
                assert forall|k: int| 1 <= k < n implies #[trigger] recs[k] == rest[k - 1] by {}
                if rest.len() == 0 {
                    assert(nl == data.len() - 1);
                }
                assert forall|k: int, m: int| #![trigger recs[k], recs[m]] 0 <= k && m == k + 1 && m < n implies recs[m].1 == recs[k].1
                    + recs[k].2 + 1 by {
                    if k > 0 {
                        assert(recs[k] == rest[k - 1] && recs[m] == rest[m - 1]);
                    } else {
                        assert(recs[m] == rest[0]);
                    }
                }
                if rest.len() > 0 {
                    assert(recs[n - 1] == rest[rest.len() - 1]);
                }
            },
            None => {
                assert(data[data.len() - 1] != 10);
            },
        }
    }
}

/// The end of the last newline at or after `from`; `from` when there is none.
pub open spec fn stable_end_from(data: Seq<u8>, from: int) -> int
    decreases data.len() - from,
{
    if from < 0 || from >= data.len() {
        from
    } else {
        match newline_from(data, from) {
            Some(nl) => {
                proof {
                    lemma_newline_bounds(data, from);
                }
                stable_end_from(data, nl + 1)
            },
            None => from,
        }
    }
}

/// Whether `line` is the record `rec` of `data`, whose first byte lies at
/// offset `base` of the file.
pub open spec fn line_matches_at(line: ReadLine, rec: (int, int, int, LineReadStatus), data: Seq<u8>, base: int) -> bool {
    &&& line.line_no == rec.0
    &&& line.byte_offset == base + rec.1
    &&& line.byte_length == rec.2
    &&& line.status == rec.3
    &&& line.content_hash@ == hex_encode(sha256_spec(data.subrange(rec.1, rec.1 + rec.2)))
    &&& (match line.bytes {
        Some(b) => rec.3 == LineReadStatus::Complete && b@ == data.subrange(rec.1, rec.1 + rec.2),
        None => rec.3 != LineReadStatus::Complete,
    })
}

/// Whether `line` is the record `rec` of `data`.
pub open spec fn line_matches(line: ReadLine, rec: (int, int, int, LineReadStatus), data: Seq<u8>) -> bool {
    line_matches_at(line, rec, data, 0)
}

/// Splits the bytes of a rollout that follow offset `next_offset`, where
/// line `next_line_no` starts, into records of at most `max_event_bytes`
/// bytes, and reports where the last newline among them ends with the
/// SHA-256 of these bytes up to there.
pub fn read_lines_from(data: &[u8], max_event_bytes: usize, next_line_no: u64, next_offset: u64) -> (r: (Vec<ReadLine>, FileCheckpoint))
    requires
        next_line_no + data@.len() <= u64::MAX + 1,
        next_offset + data@.len() <= u64::MAX,
    ensures
        r.0@.len() == records_from(data@, 0, next_line_no as int, max_event_bytes as int).len(),
        forall|i: int| 0 <= i < r.0@.len() ==> line_matches_at(
            #[trigger] r.0@[i],
            records_from(data@, 0, next_line_no as int, max_event_bytes as int)[i],
            data@,
            next_offset as int,
        ),
        r.1.offset == next_offset + stable_end_from(data@, 0),
        r.1.prefix_hash@ == hex_encode(sha256_spec(data@.take(stable_end_from(data@, 0)))),
{
    let len = data.len();
    let ghost all = records_from(data@, 0, next_line_no as int, max_event_bytes as int);
    let mut out: Vec<ReadLine> = Vec::new();
    let mut pos: usize = 0;
    let mut stable: usize = 0;
    while pos < len
        invariant
            pos <= len,
            len == data@.len(),
            stable <= pos,
            out@.len() <= pos,
            next_line_no + data@.len() <= u64::MAX + 1,
            next_offset + data@.len() <= u64::MAX,
            all == records_from(data@, 0, next_line_no as int, max_event_bytes as int),
            all == out@.map_values(|l: ReadLine| (l.line_no as int, l.byte_offset - next_offset, l.byte_length as int, l.status))
                + records_from(data@, pos as int, next_line_no + out@.len(), max_event_bytes as int),
            forall|i: int| 0 <= i < out@.len() ==> line_matches_at(#[trigger] out@[i], all[i], data@, next_offset as int),
            stable_end_from(data@, 0) == stable_end_from(data@, stable as int),
            stable == pos || (pos == len && stable_end_from(data@, stable as int) == stable as int),
        decreases len - pos,
    {
        let rest = slice_subrange(data, pos, len);
        proof {
            lemma_newline_offset(data@, rest@, pos as int);
            lemma_newline_bounds(data@, pos as int);
            lemma_byte_from_newline(rest@, 0);
        }
        let ghost done = out@.map_values(|l: ReadLine| (l.line_no as int, l.byte_offset - next_offset, l.byte_length as int, l.status));
        let line_no: u64 = next_line_no + out.len() as u64;
        match find_byte(10, rest) {
            Some(i) => {
                let nl = pos + i;
                let line = slice_subrange(data, pos, nl);
                let hash = sha256_hex(line);
                let length = i;
                let status = if length > max_event_bytes { LineReadStatus::Oversize } else { LineReadStatus::Complete };
                let bytes = if length > max_event_bytes { None } else { Some(slice_to_vec(line)) };
                let record = ReadLine {
                    line_no,
                    byte_offset: next_offset + pos as u64,
                    byte_length: length as u64,
                    content_hash: hash,
                    status,
                    bytes,
                };
                let ghost rec = (line_no as int, pos as int, length as int, status);
                out.push(record);
                proof {
                    assert(out@.map_values(|l: ReadLine| (l.line_no as int, l.byte_offset - next_offset, l.byte_length as int, l.status))
                        =~= done.push(rec));
                    assert(records_from(data@, pos as int, line_no as int, max_event_bytes as int)
                        == seq![rec] + records_from(data@, nl + 1, line_no + 1, max_event_bytes as int));
                    assert(all =~= done.push(rec) + records_from(data@, nl + 1, line_no + 1, max_event_bytes as int));
                    assert(all[done.len() as int] == rec);
                }
                pos = nl + 1;
                stable = pos;
            },
            None => {
                let line = slice_subrange(data, pos, len);
                let hash = sha256_hex(line);
                let record = ReadLine {
                    line_no,
                    byte_offset: next_offset + pos as u64,
                    byte_length: (len - pos) as u64,
                    content_hash: hash,
                    status: LineReadStatus::IncompleteTail,
                    bytes: None,
                };
                let ghost rec = (line_no as int, pos as int, (len - pos) as int, LineReadStatus::IncompleteTail);
                out.push(record);
                proof {
                    assert(out@.map_values(|l: ReadLine| (l.line_no as int, l.byte_offset - next_offset, l.byte_length as int, l.status))
                        =~= done.push(rec));
                    assert(records_from(data@, pos as int, line_no as int, max_event_bytes as int) == seq![rec]);
                    assert(records_from(data@, len as int, line_no + 1, max_event_bytes as int) =~= Seq::<(int, int, int, LineReadStatus)>::empty());
                    assert(all =~= done.push(rec) + records_from(data@, len as int, line_no + 1, max_event_bytes as int));
                    assert(all[done.len() as int] == rec);
                    assert(stable_end_from(data@, pos as int) == pos);
                }
                pos = len;
            },
        }
    }
    assert(stable_end_from(data@, stable as int) == stable as int);
    let prefix = slice_subrange(data, 0, stable);
    let prefix_hash = sha256_hex(prefix);
    assert(data@.subrange(0, stable as int) =~= data@.take(stable as int));
    (out, FileCheckpoint { offset: next_offset + stable as u64, prefix_hash })
}

/// Splits a rollout's bytes into records of at most `max_event_bytes`
/// bytes, numbered from 1, and reports the prefix up to the last newline
/// as a checkpoint.
pub fn read_lines(data: &[u8], max_event_bytes: usize) -> (r: (Vec<ReadLine>, FileCheckpoint))
    ensures
        r.0@.len() == records_from(data@, 0, 1, max_event_bytes as int).len(),
        forall|i: int| 0 <= i < r.0@.len() ==> line_matches(#[trigger] r.0@[i], records_from(data@, 0, 1, max_event_bytes as int)[i], data@),
        r.1.offset == stable_end_from(data@, 0),
        r.1.prefix_hash@ == hex_encode(sha256_spec(data@.take(stable_end_from(data@, 0)))),
        records_tile(data@, 0, 1, max_event_bytes as int, records_from(data@, 0, 1, max_event_bytes as int)),
{
    proof {
        lemma_records_tile(data@, 0, 1, max_event_bytes as int);
    }
    let n = data.len();
    assert(n <= u64::MAX);
    read_lines_from(data, max_event_bytes, 1, 0)
}

/// The checkpoint of the first `offset` bytes of a file's content, when it
/// has that many.
pub fn checkpoint_for_file(data: &[u8], offset: u64) -> (r: Option<FileCheckpoint>)
    ensures
        r is Some <==> offset <= data@.len(),
        r matches Some(c) ==> c.offset == offset && c.prefix_hash@ == hex_encode(sha256_spec(data@.take(offset as int))),
        r matches Some(c) ==> checkpoint_holds(data@, c),
{
    if offset as u128 > data.len() as u128 {
        return None;
    }
    let prefix = slice_subrange(data, 0, offset as usize);
    assert(data@.subrange(0, offset as int) =~= data@.take(offset as int));
    Some(FileCheckpoint { offset, prefix_hash: sha256_hex(prefix) })
}

/// Whether content starts as a checkpoint recorded: it is at least as
/// long, and its prefix has the recorded hash.
pub open spec fn checkpoint_holds(data: Seq<u8>, checkpoint: FileCheckpoint) -> bool {
    checkpoint.offset <= data.len() && hex_encode(sha256_spec(data.take(checkpoint.offset as int))) == checkpoint.prefix_hash@
}

/// A checkpoint that holds of some content still holds once more content
/// is appended to it.
pub proof fn lemma_checkpoint_append(data: Seq<u8>, more: Seq<u8>, checkpoint: FileCheckpoint)
    requires
        checkpoint_holds(data, checkpoint),
    ensures
        checkpoint_holds(data + more, checkpoint),
{
    assert((data + more).take(checkpoint.offset as int) =~= data.take(checkpoint.offset as int));
}

/// A checkpoint taken of one content holds of another exactly when the
/// other is at least as long and its prefix of that length has the same
/// SHA-256 digest.
pub proof fn lemma_checkpoint_compares_digests(first: Seq<u8>, second: Seq<u8>, checkpoint: FileCheckpoint)
    requires
        checkpoint.offset <= first.len(),
        checkpoint.prefix_hash@ == hex_encode(sha256_spec(first.take(checkpoint.offset as int))),
    ensures
        checkpoint_holds(second, checkpoint) <==> (checkpoint.offset <= second.len() && sha256_spec(
            second.take(checkpoint.offset as int),
        ) == sha256_spec(first.take(checkpoint.offset as int))),
{
    if checkpoint_holds(second, checkpoint) {
        lemma_hex_encode_injective(sha256_spec(second.take(checkpoint.offset as int)), sha256_spec(first.take(checkpoint.offset as int)));
    }
}

/// Whether a file's content still starts as a checkpoint recorded: it is
/// at least as long, and its prefix has the recorded hash.
pub fn verify_checkpoint(data: &[u8], checkpoint: &FileCheckpoint) -> (r: bool)
    ensures
        r == checkpoint_holds(data@, *checkpoint),
{
    match checkpoint_for_file(data, checkpoint.offset) {
        Some(current) => crate::text::string_eq(&current.prefix_hash, &checkpoint.prefix_hash),
        None => false,
    }
}

/// Each record lies inside the data, at or after where reading began.
proof fn lemma_records_bounds(data: Seq<u8>, from: int, line_no: int, max: int)
    requires
        0 <= from,
    ensures
        forall|i: int| 0 <= i < records_from(data, from, line_no, max).len() ==> {
            let r = #[trigger] records_from(data, from, line_no, max)[i];
            from <= r.1 < data.len() && 0 <= r.2 && r.1 + r.2 <= data.len()
        },
    decreases data.len() - from,
{
    if from < data.len() {
        lemma_newline_bounds(data, from);
        if let Some(nl) = newline_from(data, from) {
            lemma_records_bounds(data, nl + 1, line_no + 1, max);
            let rest = records_from(data, nl + 1, line_no + 1, max);
            assert forall|i: int| 0 < i < records_from(data, from, line_no, max).len() implies #[trigger] records_from(
                data,
                from,
                line_no,
                max,
            )[i] == rest[i - 1] by {}
        }
    }
}

/// Reading the bytes from `b` on gives the records that reading the whole
/// data from `b` gives, each `b` bytes earlier.
proof fn lemma_records_shift(all: Seq<u8>, b: int, j: int, line_no: int, max: int)
    requires
        0 <= b <= all.len(),
        0 <= j <= all.len() - b,
    ensures
        records_from(all, b + j, line_no, max) == records_from(all.subrange(b, all.len() as int), j, line_no, max).map_values(
            |r: (int, int, int, LineReadStatus)| (r.0, r.1 + b, r.2, r.3),
        ),
    decreases all.len() - b - j,
{
    let t = all.subrange(b, all.len() as int);
    let f = |r: (int, int, int, LineReadStatus)| (r.0, r.1 + b, r.2, r.3);
    if j < t.len() {
        lemma_newline_offset_from(all, t, b, j);
        lemma_newline_bounds(t, j);
        match newline_from(t, j) {
            Some(nl) => {
                lemma_records_shift(all, b, nl + 1, line_no + 1, max);
                let head = seq![(line_no, j, nl - j, if nl - j > max { LineReadStatus::Oversize } else { LineReadStatus::Complete })];
                let rest = records_from(t, nl + 1, line_no + 1, max);
                assert((head + rest).map_values(f) =~= head.map_values(f) + rest.map_values(f));
            },
            None => {},
        }
    } else {
        assert(records_from(t, j, line_no, max).map_values(f) =~= Seq::<(int, int, int, LineReadStatus)>::empty());
    }
}

/// The records from the `i`-th on are what reading from that record's
/// offset, numbering from its line, gives.
proof fn lemma_records_suffix(data: Seq<u8>, from: int, line_no: int, max: int, i: int)
    requires
        0 <= from,
        0 <= i < records_from(data, from, line_no, max).len(),
    ensures
        records_from(data, from, line_no, max).skip(i) == records_from(
            data,
            records_from(data, from, line_no, max)[i].1,
            records_from(data, from, line_no, max)[i].0,
            max,
        ),
    decreases i,
{
    let all = records_from(data, from, line_no, max);
    lemma_newline_bounds(data, from);
    if i == 0 {
        assert(all.skip(0) =~= all);
    } else {
        let nl = newline_from(data, from)->0;
        let rest = records_from(data, nl + 1, line_no + 1, max);
        lemma_records_suffix(data, nl + 1, line_no + 1, max, i - 1);
        assert(all[i] == rest[i - 1]);
        assert(all.skip(i) =~= rest.skip(i - 1));
    }
}

/// What reading the bytes from offset `offset` on, numbering from line
/// `line_no`, gives: the records of those bytes at their offsets in the file.
pub open spec fn resumed_records(tail: Seq<u8>, line_no: int, offset: int, max: int) -> Seq<(int, int, int, LineReadStatus)> {
    records_from(tail, 0, line_no, max).map_values(|r: (int, int, int, LineReadStatus)| (r.0, r.1 + offset, r.2, r.3))
}

/// Resuming a read at the start of any record, from that record's line and
/// offset, gives exactly the records a read of the whole file gives from
/// there on.
pub proof fn law_resumed_read_matches_full_read(data: Seq<u8>, max: int, i: int)
    requires
        0 <= i < records_from(data, 0, 1, max).len(),
    ensures
        resumed_records(
            data.skip(records_from(data, 0, 1, max)[i].1),
            records_from(data, 0, 1, max)[i].0,
            records_from(data, 0, 1, max)[i].1,
            max,
        ) == records_from(data, 0, 1, max).skip(i),
{
    let r = records_from(data, 0, 1, max)[i];
    lemma_records_bounds(data, 0, 1, max);
    lemma_records_suffix(data, 0, 1, max, i);
    lemma_records_shift(data, r.1, 0, r.0, max);
    assert(data.subrange(r.1, data.len() as int) =~= data.skip(r.1));
}

/// A checkpoint of some content still holds once more bytes are appended
/// to it, so a file that only grew can be read on from its checkpoint.
pub proof fn law_appending_keeps_checkpoints(data: Seq<u8>, more: Seq<u8>, checkpoint: FileCheckpoint)
    requires
        checkpoint_holds(data, checkpoint),
    ensures
        checkpoint_holds(data + more, checkpoint),
{
    assert((data + more).take(checkpoint.offset as int) =~= data.take(checkpoint.offset as int));
}

/// The checkpoint a full read reports holds of the content read.
pub proof fn law_read_checkpoint_holds(data: Seq<u8>, checkpoint: FileCheckpoint)
    requires
        checkpoint.offset == stable_end_from(data, 0),
        checkpoint.prefix_hash@ == hex_encode(sha256_spec(data.take(stable_end_from(data, 0)))),
    ensures
        checkpoint_holds(data, checkpoint),
{
    lemma_stable_end_bounds(data, 0);
}

proof fn lemma_stable_end_bounds(data: Seq<u8>, from: int)
    requires
        0 <= from,
    ensures
        from <= data.len() ==> from <= stable_end_from(data, from) <= data.len(),
        from > data.len() ==> stable_end_from(data, from) == from,
    decreases data.len() - from,
{
    if from < data.len() {
        lemma_newline_bounds(data, from);
        if let Some(nl) = newline_from(data, from) {
            lemma_stable_end_bounds(data, nl + 1);
        }
    }
}

} // verus!
