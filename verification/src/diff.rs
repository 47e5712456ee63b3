//! Change chunks for the side-by-side diff view.
//!
//! A line diff of the two texts (computed by `similar`) is turned into
//! chunks of byte offsets: each chunk covers the changed lines on both
//! sides, from the start of the first changed line to the start of the
//! line after the last.  Offsets past the last line are clamped to the
//! last entry of the offset table.

use vstd::prelude::*;

use crate::models::DiffChunk;

verus! {

/// One operation of a line diff (as `similar::DiffOp`): indexes and
/// lengths count lines.
#[derive(Debug, Clone, Copy, PartialEq, Eq, Structural)]
pub enum DiffOp {
    Equal { old_index: usize, new_index: usize, len: usize },
    Delete { old_index: usize, old_len: usize, new_index: usize },
    Insert { old_index: usize, new_index: usize, new_len: usize },
    Replace { old_index: usize, old_len: usize, new_index: usize, new_len: usize },
}

/// The operations `similar::TextDiff::from_lines(old, new).ops()` yields.
pub uninterp spec fn line_diff(old: Seq<char>, new: Seq<char>) -> Seq<DiffOp>;

/// `similar::TextDiff::from_lines(old, new).ops()`, variant by variant.
#[verifier::external_body]
pub(crate) fn line_diff_ops(old: &str, new: &str) -> (res: Vec<DiffOp>)
    ensures
        res@ == line_diff(old@, new@),
{
    let diff = similar::TextDiff::from_lines(old, new);
    diff.ops().iter().map(|op| match *op {
        similar::DiffOp::Equal { old_index, new_index, len } => DiffOp::Equal { old_index, new_index, len },
        similar::DiffOp::Delete { old_index, old_len, new_index } => DiffOp::Delete { old_index, old_len, new_index },
        similar::DiffOp::Insert { old_index, new_index, new_len } => DiffOp::Insert { old_index, new_index, new_len },
        similar::DiffOp::Replace { old_index, old_len, new_index, new_len } => DiffOp::Replace { old_index, old_len, new_index, new_len },
    }).collect()
}

/// Offsets just after each `\n` among the first `n` bytes.
pub open spec fn newline_ends(b: Seq<u8>, n: int) -> Seq<usize>
    decreases n,
{
    if n <= 0 || n > b.len() {
        seq![]
    } else if b[n - 1] == 10u8 {
        newline_ends(b, n - 1).push(n as usize)
    } else {
        newline_ends(b, n - 1)
    }
}

/// The byte offset where each line starts, and the total length as the
/// last entry (not repeated when the text ends with a newline).  The text
/// is taken as its UTF-8 bytes; a `\n` byte is always a newline character.
pub open spec fn line_offsets_spec(b: Seq<u8>) -> Seq<usize> {
    let o = seq![0usize] + newline_ends(b, b.len() as int);
    if o.last() != b.len() {
        o.push(b.len() as usize)
    } else {
        o
    }
}

/// The offset table starts at 0 and ends with the length of the text, so
/// that any line index can be clamped into it.
pub proof fn law_offsets_span_text(b: Seq<u8>)
    requires
        b.len() <= usize::MAX,
    ensures
        line_offsets_spec(b).len() >= 1,
        line_offsets_spec(b)[0] == 0,
        line_offsets_spec(b).last() == b.len(),
{
    let o = seq![0usize] + newline_ends(b, b.len() as int);
    assert(o[0] == 0);
    if o.last() != b.len() {
        assert(o.push(b.len() as usize)[0] == 0);
    }
}

/// The line-start offsets of a text, ending with its length.
pub fn line_offsets(text: &str) -> (res: Vec<usize>)
    ensures
        res@ == line_offsets_spec(vstd::utf8::encode_utf8(text@)),
        res@.len() >= 1,
{
    let b = text.as_bytes();
    let mut offsets: Vec<usize> = Vec::new();
    offsets.push(0);
    let mut i: usize = 0;
    assert(offsets@ =~= seq![0usize] + newline_ends(b@, 0));
    while i < b.len()
        invariant
            i <= b@.len(),
            offsets@ == seq![0usize] + newline_ends(b@, i as int),
        decreases b@.len() - i,
    {
        if b[i] == 10u8 {
            offsets.push(i + 1);
        }
        i = i + 1;
        assert(offsets@ =~= seq![0usize] + newline_ends(b@, i as int));
    }
    if offsets[offsets.len() - 1] != b.len() {
        offsets.push(b.len());
    }
    offsets
}

/// `min(x, last)`.
pub open spec fn clamp(x: int, last: int) -> int {
    if x < last {
        x
    } else {
        last
    }
}

/// The chunk of one diff operation (none for equal lines).
pub open spec fn chunk_of(op: DiffOp, oo: Seq<usize>, no: Seq<usize>) -> Option<DiffChunk> {
    let lo = oo.len() - 1;
    let ln = no.len() - 1;
    match op {
        DiffOp::Equal { .. } => None,
        DiffOp::Delete { old_index, old_len, new_index } => Some(
            DiffChunk {
                from_a: oo[clamp(old_index as int, lo)],
                to_a: oo[clamp(old_index + old_len, lo)],
                from_b: no[clamp(new_index as int, ln)],
                to_b: no[clamp(new_index as int, ln)],
            },
        ),
        DiffOp::Insert { old_index, new_index, new_len } => Some(
            DiffChunk {
                from_a: oo[clamp(old_index as int, lo)],
                to_a: oo[clamp(old_index as int, lo)],
                from_b: no[clamp(new_index as int, ln)],
                to_b: no[clamp(new_index + new_len, ln)],
            },
        ),
        DiffOp::Replace { old_index, old_len, new_index, new_len } => Some(
            DiffChunk {
                from_a: oo[clamp(old_index as int, lo)],
                to_a: oo[clamp(old_index + old_len, lo)],
                from_b: no[clamp(new_index as int, ln)],
                to_b: no[clamp(new_index + new_len, ln)],
            },
        ),
    }
}

/// The chunks of a sequence of diff operations, in order.
pub open spec fn chunks_spec(ops: Seq<DiffOp>, oo: Seq<usize>, no: Seq<usize>) -> Seq<DiffChunk>
    decreases ops.len(),
{
    if ops.len() == 0 {
        seq![]
    } else {
        let rest = chunks_spec(ops.drop_last(), oo, no);
        match chunk_of(ops.last(), oo, no) {
            Some(c) => rest.push(c),
            None => rest,
        }
    }
}

/// `min(i + len, last)` without overflow.
fn clamp_sum(i: usize, len: usize, last: usize) -> (res: usize)
    ensures
        res as int == clamp(i + len, last as int),
{
    if i >= last || len >= last - i {
        last
    } else {
        i + len
    }
}

fn clamp_one(i: usize, last: usize) -> (res: usize)
    ensures
        res as int == clamp(i as int, last as int),
{
    if i < last {
        i
    } else {
        last
    }
}

/// The chunks for diff operations over the given line-offset tables.
pub fn chunks_from_ops(ops: &[DiffOp], oo: &Vec<usize>, no: &Vec<usize>) -> (res: Vec<DiffChunk>)
    requires
        oo@.len() >= 1,
        no@.len() >= 1,
    ensures
        res@ == chunks_spec(ops@, oo@, no@),
{
    let lo = oo.len() - 1;
    let ln = no.len() - 1;
    let mut chunks: Vec<DiffChunk> = Vec::new();
    let mut k: usize = 0;
    while k < ops.len()
        invariant
            lo == oo@.len() - 1,
            ln == no@.len() - 1,
            k <= ops@.len(),
            chunks@ == chunks_spec(ops@.take(k as int), oo@, no@),
        decreases ops@.len() - k,
    {
        assert(ops@.take(k + 1).drop_last() =~= ops@.take(k as int));
        assert(ops@.take(k + 1).last() == ops@[k as int]);
        match ops[k] {
            DiffOp::Equal { .. } => {},
            DiffOp::Delete { old_index, old_len, new_index } => {
                chunks.push(
                    DiffChunk {
                        from_a: oo[clamp_one(old_index, lo)],
                        to_a: oo[clamp_sum(old_index, old_len, lo)],
                        from_b: no[clamp_one(new_index, ln)],
                        to_b: no[clamp_one(new_index, ln)],
                    },
                );
            },
            DiffOp::Insert { old_index, new_index, new_len } => {
                chunks.push(
                    DiffChunk {
                        from_a: oo[clamp_one(old_index, lo)],
                        to_a: oo[clamp_one(old_index, lo)],
                        from_b: no[clamp_one(new_index, ln)],
                        to_b: no[clamp_sum(new_index, new_len, ln)],
                    },
                );
            },
            DiffOp::Replace { old_index, old_len, new_index, new_len } => {
                chunks.push(
                    DiffChunk {
                        from_a: oo[clamp_one(old_index, lo)],
                        to_a: oo[clamp_sum(old_index, old_len, lo)],
                        from_b: no[clamp_one(new_index, ln)],
                        to_b: no[clamp_sum(new_index, new_len, ln)],
                    },
                );
            },
        }
        k = k + 1;
    }
    assert(ops@.take(ops@.len() as int) =~= ops@);
    chunks
}

/// The change chunks between two texts: a line diff converted to byte
/// ranges of whole lines on both sides.
pub fn diff_chunks(old_text: String, new_text: String) -> (res: Vec<DiffChunk>)
    ensures
        res@ == chunks_spec(
            line_diff(old_text@, new_text@),
            line_offsets_spec(vstd::utf8::encode_utf8(old_text@)),
            line_offsets_spec(vstd::utf8::encode_utf8(new_text@)),
        ),
{
    let old_offsets = line_offsets(old_text.as_str());
    let new_offsets = line_offsets(new_text.as_str());
    let ops = line_diff_ops(old_text.as_str(), new_text.as_str());
    chunks_from_ops(ops.as_slice(), &old_offsets, &new_offsets)
}

// ---------------------------------------------------------------------------
// laws
// ---------------------------------------------------------------------------

/// Where line `i` of a side starts: its entry in the offset table, or the
/// end of the text when `i` is at or past the last line.
pub open spec fn line_start(o: Seq<usize>, i: int) -> usize {
    if 0 <= i < o.len() - 1 {
        o[i]
    } else {
        o[o.len() - 1]
    }
}

/// Chunks are made operation by operation: the chunks of two runs of
/// operations are the chunks of the first followed by those of the second.
pub proof fn law_chunks_concat(a: Seq<DiffOp>, b: Seq<DiffOp>, oo: Seq<usize>, no: Seq<usize>)
    ensures
        chunks_spec(a + b, oo, no) == chunks_spec(a, oo, no) + chunks_spec(b, oo, no),
    decreases b.len(),
{
    if b.len() == 0 {
        assert(a + b =~= a);
        assert(chunks_spec(a, oo, no) + chunks_spec(b, oo, no) =~= chunks_spec(a, oo, no));
    } else {
        assert((a + b).drop_last() =~= a + b.drop_last());
        assert((a + b).last() == b.last());
        law_chunks_concat(a, b.drop_last(), oo, no);
        let l = chunks_spec(a, oo, no) + chunks_spec(b.drop_last(), oo, no);
        match chunk_of(b.last(), oo, no) {
            Some(c) => {
                assert(l.push(c) =~= chunks_spec(a, oo, no) + chunks_spec(b.drop_last(), oo, no).push(c));
            },
            None => {},
        }
    }
}

/// What each operation gives.  Equal lines give no chunk.  Otherwise the
/// old side covers the `old_len` lines from `old_index` (none for an
/// insertion) and the new side the `new_len` lines from `new_index` (none
/// for a deletion): each range runs from the start of its first line to
/// the start of the line after its last, ends past the text clamped to
/// the text's end.
pub proof fn law_chunk_per_op(op: DiffOp, oo: Seq<usize>, no: Seq<usize>)
    requires
        oo.len() >= 1,
        no.len() >= 1,
    ensures
        chunks_spec(seq![op], oo, no) == match op {
            DiffOp::Equal { .. } => Seq::<DiffChunk>::empty(),
            DiffOp::Delete { old_index, old_len, new_index } => seq![
                DiffChunk {
                    from_a: line_start(oo, old_index as int),
                    to_a: line_start(oo, old_index + old_len),
                    from_b: line_start(no, new_index as int),
                    to_b: line_start(no, new_index as int),
                },
            ],
            DiffOp::Insert { old_index, new_index, new_len } => seq![
                DiffChunk {
                    from_a: line_start(oo, old_index as int),
                    to_a: line_start(oo, old_index as int),
                    from_b: line_start(no, new_index as int),
                    to_b: line_start(no, new_index + new_len),
                },
            ],
            DiffOp::Replace { old_index, old_len, new_index, new_len } => seq![
                DiffChunk {
                    from_a: line_start(oo, old_index as int),
                    to_a: line_start(oo, old_index + old_len),
                    from_b: line_start(no, new_index as int),
                    to_b: line_start(no, new_index + new_len),
                },
            ],
        },
{
    let s = seq![op];
    assert(s.drop_last() =~= Seq::<DiffOp>::empty());
    assert(s.last() == op);
    assert(chunks_spec(s.drop_last(), oo, no) =~= Seq::<DiffChunk>::empty());
    match chunk_of(op, oo, no) {
        Some(c) => {
            assert(Seq::<DiffChunk>::empty().push(c) =~= seq![c]);
        },
        None => {},
    }
}

} // verus!
