//! Three-way merge of conflicted files.
//!
//! A conflicted file as written by svn:
//!
//! ```text
//! <<<<<<< .mine      local change
//! (local lines)
//! ||||||| .r3        common ancestor (may be missing)
//! (base lines)
//! =======
//! (remote lines)
//! >>>>>>> .r4        remote version
//! ```
//!
//! A marker line is seven `<`, `|`, `=` or `>` followed by the end of the
//! line or a space and a label.  `=======` only counts inside an open block,
//! so a markdown rule outside a block stays text; an unclosed block is an
//! error.  Lines are split at `\n` with one trailing `\r` removed; the line
//! ending and the final newline are remembered so that assembly writes the
//! file back in the same form.

use vstd::prelude::*;

use crate::models::{ConflictBlock, ConflictBlockModel};
use crate::text::{lossy_string, lossy_text};

verus! {

/// Line ending of a conflicted file.
#[derive(Clone, Copy, PartialEq, Eq, Debug, Structural)]
pub enum LineEnding {
    Lf,
    Crlf,
}

/// Choice for one block: "mine" | "theirs" | "both" | "none" (`Neither`:
/// the block's lines are dropped).
#[derive(Clone, Copy, PartialEq, Eq, Debug, Structural)]
pub enum Choice {
    Mine,
    Theirs,
    Both,
    Neither,
}

/// One conflict block, lines as raw bytes.
#[derive(Debug)]
pub struct ConflictBlockBytes {
    pub mine: Vec<Vec<u8>>,
    pub base: Vec<Vec<u8>>,
    pub theirs: Vec<Vec<u8>>,
}

/// A piece of a conflicted file: plain lines kept as they are, or a block.
#[derive(Debug)]
pub enum ConflictPart {
    Context(Vec<Vec<u8>>),
    Block(ConflictBlockBytes),
}

/// A parsed conflicted file.
#[derive(Debug)]
pub struct ConflictDoc {
    pub parts: Vec<ConflictPart>,
    pub has_markers: bool,
    pub line_ending: LineEnding,
    pub trailing_newline: bool,
}

pub struct BlockModel {
    pub mine: Seq<Seq<u8>>,
    pub base: Seq<Seq<u8>>,
    pub theirs: Seq<Seq<u8>>,
}

pub enum PartModel {
    Context(Seq<Seq<u8>>),
    Block(BlockModel),
}

pub struct DocModel {
    pub parts: Seq<PartModel>,
    pub has_markers: bool,
    pub line_ending: LineEnding,
    pub trailing_newline: bool,
}

impl DeepView for ConflictBlockBytes {
    type V = BlockModel;

    open spec fn deep_view(&self) -> BlockModel {
        BlockModel {
            mine: self.mine.deep_view(),
            base: self.base.deep_view(),
            theirs: self.theirs.deep_view(),
        }
    }
}

impl DeepView for ConflictPart {
    type V = PartModel;

    open spec fn deep_view(&self) -> PartModel {
        match self {
            ConflictPart::Context(ls) => PartModel::Context(ls.deep_view()),
            ConflictPart::Block(b) => PartModel::Block(b.deep_view()),
        }
    }
}

impl DeepView for ConflictDoc {
    type V = DocModel;

    open spec fn deep_view(&self) -> DocModel {
        DocModel {
            parts: self.parts.deep_view(),
            has_markers: self.has_markers,
            line_ending: self.line_ending,
            trailing_newline: self.trailing_newline,
        }
    }
}

// ---------------------------------------------------------------------------
// splitting into lines
// ---------------------------------------------------------------------------

pub open spec fn has_crlf(raw: Seq<u8>) -> bool {
    exists|i: int| 0 <= i && i + 1 < raw.len() && #[trigger] raw[i] == 13u8 && raw[i + 1] == 10u8
}

/// Index of the first `\n`, or the length when there is none.
pub open spec fn find_newline(s: Seq<u8>) -> int
    decreases s.len(),
{
    if s.len() == 0 {
        0
    } else if s[0] == 10u8 {
        0
    } else {
        1 + find_newline(s.drop_first())
    }
}

pub proof fn lemma_find_newline(s: Seq<u8>, k: int)
    requires
        0 <= k <= s.len(),
        forall|j: int| 0 <= j < k ==> s[j] != 10u8,
        k == s.len() || s[k] == 10u8,
    ensures
        find_newline(s) == k,
    decreases k,
{
    if k > 0 {
        lemma_find_newline(s.drop_first(), k - 1);
    }
}

pub proof fn lemma_find_newline_bound(s: Seq<u8>)
    ensures
        0 <= find_newline(s) <= s.len(),
        find_newline(s) < s.len() ==> s[find_newline(s)] == 10u8,
        forall|j: int| 0 <= j < find_newline(s) ==> s[j] != 10u8,
    decreases s.len(),
{
    if s.len() > 0 && s[0] != 10u8 {
        lemma_find_newline_bound(s.drop_first());
        assert forall|j: int| 0 <= j < find_newline(s) implies s[j] != 10u8 by {
            if j > 0 {
                assert(s[j] == s.drop_first()[j - 1]);
            }
        }
    }
}

/// A line without one trailing `\r`.
pub open spec fn strip_cr(l: Seq<u8>) -> Seq<u8> {
    if l.len() > 0 && l.last() == 13u8 {
        l.drop_last()
    } else {
        l
    }
}

/// `raw.split(|b| b == b'\n')`, each piece without one trailing `\r`.
pub open spec fn split_lines(raw: Seq<u8>) -> Seq<Seq<u8>>
    decreases raw.len(),
{
    let k = find_newline(raw);
    if k >= raw.len() {
        seq![strip_cr(raw)]
    } else {
        proof {
            lemma_find_newline_bound(raw);
        }
        seq![strip_cr(raw.take(k))] + split_lines(raw.skip(k + 1))
    }
}

/// The content lines: no line for an empty file, and none for the empty
/// piece after a final `\n`.
pub open spec fn content_lines(raw: Seq<u8>) -> Seq<Seq<u8>> {
    if raw.len() == 0 {
        seq![]
    } else if raw.last() == 10u8 {
        split_lines(raw).drop_last()
    } else {
        split_lines(raw)
    }
}

/// A byte vector's deep view is its view.
pub proof fn lemma_bytes_deep_view(v: Vec<u8>)
    ensures
        v.deep_view() == v@,
{
    assert(v.deep_view() =~= v@);
}

fn copy_bytes(v: &[u8], from: usize, to: usize) -> (res: Vec<u8>)
    requires
        from <= to <= v@.len(),
    ensures
        res@ == v@.subrange(from as int, to as int),
{
    let mut res: Vec<u8> = Vec::new();
    let mut i = from;
    while i < to
        invariant
            from <= i <= to <= v@.len(),
            res@ == v@.subrange(from as int, i as int),
        decreases to - i,
    {
        res.push(v[i]);
        i = i + 1;
        assert(res@ =~= v@.subrange(from as int, i as int));
    }
    res
}

fn strip_cr_exec(v: &mut Vec<u8>)
    ensures
        final(v)@ == strip_cr(old(v)@),
{
    if v.len() > 0 && v[v.len() - 1] == 13u8 {
        v.pop();
        assert(v@ =~= strip_cr(old(v)@));
    }
}

/// The pieces of `raw` between `\n`s, as `split_lines` describes them.
fn split_lines_exec(raw: &[u8]) -> (res: Vec<Vec<u8>>)
    ensures
        res.deep_view() == split_lines(raw@),
{
    let mut res: Vec<Vec<u8>> = Vec::new();
    let mut start: usize = 0;
    let mut i: usize = 0;
    assert(raw@.skip(0) =~= raw@);
    assert(res.deep_view() =~= Seq::<Seq<u8>>::empty());
    while i < raw.len()
        invariant
            start <= i <= raw@.len(),
            forall|j: int| start <= j < i ==> raw@[j] != 10u8,
            res.deep_view() + split_lines(raw@.skip(start as int)) == split_lines(raw@),
        decreases raw@.len() - i,
    {
        if raw[i] == 10u8 {
            let mut piece = copy_bytes(raw, start, i);
            strip_cr_exec(&mut piece);
            proof {
                let rest = raw@.skip(start as int);
                lemma_find_newline(rest, i - start);
                assert(rest.take(i - start) =~= raw@.subrange(start as int, i as int));
                assert(rest.skip(i - start + 1) =~= raw@.skip(i + 1));
            }
            let ghost old_res = res.deep_view();
            proof {
                lemma_bytes_deep_view(piece);
            }
            res.push(piece);
            assert(res.deep_view() =~= old_res.push(piece@));
            start = i + 1;
        }
        i = i + 1;
    }
    let mut piece = copy_bytes(raw, start, raw.len());
    strip_cr_exec(&mut piece);
    proof {
        let rest = raw@.skip(start as int);
        lemma_find_newline(rest, rest.len() as int);
        assert(raw@.subrange(start as int, raw@.len() as int) =~= rest);
    }
    let ghost old_res = res.deep_view();
    proof {
        lemma_bytes_deep_view(piece);
    }
    res.push(piece);
    assert(res.deep_view() =~= old_res.push(piece@));
    assert(res.deep_view() =~= old_res + split_lines(raw@.skip(start as int)));
    res
}

// ---------------------------------------------------------------------------
// markers and the scanner
// ---------------------------------------------------------------------------

/// `line` starts with `prefix`, followed by the end of the line or a space.
pub open spec fn is_marker_spec(line: Seq<u8>, prefix: Seq<u8>) -> bool {
    &&& prefix.len() <= line.len()
    &&& line.take(prefix.len() as int) == prefix
    &&& (line.len() == prefix.len() || line[prefix.len() as int] == 32u8)
}

/// Whether `line` is a marker line for `prefix`.
pub fn is_marker(line: &[u8], prefix: &[u8]) -> (res: bool)
    ensures
        res == is_marker_spec(line@, prefix@),
{
    if prefix.len() > line.len() {
        return false;
    }
    let mut k: usize = 0;
    while k < prefix.len()
        invariant
            prefix@.len() <= line@.len(),
            k <= prefix@.len(),
            forall|j: int| 0 <= j < k ==> line@[j] == prefix@[j],
        decreases prefix@.len() - k,
    {
        if line[k] != prefix[k] {
            assert(line@.take(prefix@.len() as int)[k as int] != prefix@[k as int]);
            return false;
        }
        k = k + 1;
    }
    assert(line@.take(prefix@.len() as int) =~= prefix@);
    line.len() == prefix.len() || line[prefix.len()] == 32u8
}

/// Seven copies of one marker character.
pub open spec fn marker_of(c: u8) -> Seq<u8> {
    Seq::new(7, |i: int| c)
}

/// `<<<<<<<`
pub open spec fn mine_open() -> Seq<u8> {
    marker_of(60u8)
}

/// `|||||||`
pub open spec fn base_sep() -> Seq<u8> {
    marker_of(124u8)
}

/// `=======`
pub open spec fn mid_sep() -> Seq<u8> {
    marker_of(61u8)
}

/// `>>>>>>>`
pub open spec fn theirs_close() -> Seq<u8> {
    marker_of(62u8)
}

fn marker_exec(c: u8) -> (res: Vec<u8>)
    ensures
        res@ == marker_of(c),
{
    let res = vec![c, c, c, c, c, c, c];
    assert(res@ =~= marker_of(c));
    res
}

/// Where the scanner is: outside a block, or in one of its three sections.
#[derive(Clone, Copy, PartialEq, Eq, Debug, Structural)]
pub enum ScanMode {
    Context,
    Mine,
    Base,
    Theirs,
}

/// State of the line scanner.
pub struct ScanModel {
    pub mode: ScanMode,
    pub parts: Seq<PartModel>,
    pub context: Seq<Seq<u8>>,
    pub mine: Seq<Seq<u8>>,
    pub base: Seq<Seq<u8>>,
    pub theirs: Seq<Seq<u8>>,
    pub blocks: nat,
}

pub open spec fn scan_init() -> ScanModel {
    ScanModel {
        mode: ScanMode::Context,
        parts: seq![],
        context: seq![],
        mine: seq![],
        base: seq![],
        theirs: seq![],
        blocks: 0,
    }
}

/// Closing marker: pending context lines become a part, then the block.
pub open spec fn close_block(st: ScanModel) -> ScanModel {
    let parts = if st.context.len() > 0 {
        st.parts.push(PartModel::Context(st.context))
    } else {
        st.parts
    };
    ScanModel {
        mode: ScanMode::Context,
        parts: parts.push(
            PartModel::Block(BlockModel { mine: st.mine, base: st.base, theirs: st.theirs }),
        ),
        context: seq![],
        mine: seq![],
        base: seq![],
        theirs: seq![],
        blocks: st.blocks + 1,
    }
}

/// One line through the scanner.
pub open spec fn scan_step(st: ScanModel, line: Seq<u8>) -> ScanModel {
    match st.mode {
        ScanMode::Context => {
            if is_marker_spec(line, mine_open()) {
                ScanModel { mode: ScanMode::Mine, mine: seq![], base: seq![], theirs: seq![], ..st }
            } else {
                ScanModel { context: st.context.push(line), ..st }
            }
        },
        ScanMode::Mine => {
            if is_marker_spec(line, base_sep()) {
                ScanModel { mode: ScanMode::Base, ..st }
            } else if is_marker_spec(line, mid_sep()) {
                ScanModel { mode: ScanMode::Theirs, ..st }
            } else if is_marker_spec(line, theirs_close()) {
                close_block(st)
            } else {
                ScanModel { mine: st.mine.push(line), ..st }
            }
        },
        ScanMode::Base => {
            if is_marker_spec(line, mid_sep()) {
                ScanModel { mode: ScanMode::Theirs, ..st }
            } else if is_marker_spec(line, theirs_close()) {
                close_block(st)
            } else {
                ScanModel { base: st.base.push(line), ..st }
            }
        },
        ScanMode::Theirs => {
            if is_marker_spec(line, theirs_close()) {
                close_block(st)
            } else {
                ScanModel { theirs: st.theirs.push(line), ..st }
            }
        },
    }
}

/// The scanner after all the given lines.
pub open spec fn scan(lines: Seq<Seq<u8>>) -> ScanModel
    decreases lines.len(),
{
    if lines.len() == 0 {
        scan_init()
    } else {
        scan_step(scan(lines.drop_last()), lines.last())
    }
}

/// What parsing a conflicted file gives: `None` for an unclosed block.
pub open spec fn parse_conflict(raw: Seq<u8>) -> Option<DocModel> {
    let st = scan(content_lines(raw));
    if st.mode != ScanMode::Context {
        None
    } else {
        Some(
            DocModel {
                parts: if st.context.len() > 0 {
                    st.parts.push(PartModel::Context(st.context))
                } else {
                    st.parts
                },
                has_markers: st.blocks > 0,
                line_ending: if has_crlf(raw) {
                    LineEnding::Crlf
                } else {
                    LineEnding::Lf
                },
                trailing_newline: raw.len() > 0 && raw.last() == 10u8,
            },
        )
    }
}

fn has_crlf_exec(raw: &[u8]) -> (res: bool)
    ensures
        res == has_crlf(raw@),
{
    let mut i: usize = 0;
    while i < raw.len()
        invariant
            forall|j: int| 0 <= j < i ==> !(j + 1 < raw@.len() && #[trigger] raw@[j] == 13u8 && raw@[j + 1]
                == 10u8),
        decreases raw@.len() - i,
    {
        if i + 1 < raw.len() && raw[i] == 13u8 && raw[i + 1] == 10u8 {
            return true;
        }
        i = i + 1;
    }
    false
}

/// Moves the lines out of `v`, leaving it empty.
fn take_lines(v: &mut Vec<Vec<u8>>) -> (res: Vec<Vec<u8>>)
    ensures
        res.deep_view() == old(v).deep_view(),
        final(v)@.len() == 0,
{
    let mut res: Vec<Vec<u8>> = Vec::new();
    std::mem::swap(&mut res, v);
    res
}

fn push_line(v: &mut Vec<Vec<u8>>, line: &[u8])
    ensures
        final(v).deep_view() == old(v).deep_view().push(line@),
{
    let copy = copy_bytes(line, 0, line.len());
    assert(copy@ =~= line@);
    proof {
        lemma_bytes_deep_view(copy);
    }
    v.push(copy);
    assert(v.deep_view() =~= old(v).deep_view().push(line@));
}

/// Parses the bytes of a conflicted file.  A file without any marker
/// gives a document with `has_markers == false`, not an error.
pub fn parse_conflict_bytes(raw: &[u8]) -> (res: Result<ConflictDoc, String>)
    ensures
        parse_conflict(raw@) is None <==> res is Err,
        res matches Ok(doc) ==> parse_conflict(raw@) == Some(doc.deep_view()),
        res matches Err(e) ==> e@
            == "冲突标记未闭合：文件以冲突块结尾，缺少 >>>>>>> 结束行（文件可能被外部工具损坏）"@,
{
    let line_ending = if has_crlf_exec(raw) {
        LineEnding::Crlf
    } else {
        LineEnding::Lf
    };
    let mut raw_lines = split_lines_exec(raw);
    if raw.len() > 0 && raw[raw.len() - 1] == 10u8 {
        raw_lines.pop();
        assert(raw_lines.deep_view() =~= split_lines(raw@).drop_last());
    }
    if raw.len() == 0 {
        raw_lines.clear();
    }
    assert(raw_lines.deep_view() =~= content_lines(raw@));
    let trailing_newline = raw.len() > 0 && raw[raw.len() - 1] == 10u8;
    let open = marker_exec(60u8);
    let bsep = marker_exec(124u8);
    let msep = marker_exec(61u8);
    let close = marker_exec(62u8);

    let mut mode = ScanMode::Context;
    let mut parts: Vec<ConflictPart> = Vec::new();
    let mut context: Vec<Vec<u8>> = Vec::new();
    let mut cur_mine: Vec<Vec<u8>> = Vec::new();
    let mut cur_base: Vec<Vec<u8>> = Vec::new();
    let mut cur_theirs: Vec<Vec<u8>> = Vec::new();
    let mut blocks: usize = 0;
    let ghost lines = raw_lines.deep_view();
    let mut i: usize = 0;
    assert(lines.take(0) =~= Seq::<Seq<u8>>::empty());
    assert(parts.deep_view() =~= Seq::<PartModel>::empty());
    assert(context.deep_view() =~= Seq::<Seq<u8>>::empty());
    assert(cur_mine.deep_view() =~= Seq::<Seq<u8>>::empty());
    assert(cur_base.deep_view() =~= Seq::<Seq<u8>>::empty());
    assert(cur_theirs.deep_view() =~= Seq::<Seq<u8>>::empty());
    while i < raw_lines.len()
        invariant
            lines == raw_lines.deep_view(),
            i <= raw_lines@.len(),
            open@ == mine_open(),
            bsep@ == base_sep(),
            msep@ == mid_sep(),
            close@ == theirs_close(),
            blocks <= i,
            scan(lines.take(i as int)) == (ScanModel {
                mode,
                parts: parts.deep_view(),
                context: context.deep_view(),
                mine: cur_mine.deep_view(),
                base: cur_base.deep_view(),
                theirs: cur_theirs.deep_view(),
                blocks: blocks as nat,
            }),
        decreases raw_lines@.len() - i,
    {
        let line = raw_lines[i].as_slice();
        assert(lines.take(i + 1).drop_last() =~= lines.take(i as int));
        assert(lines.take(i + 1).last() == line@);
        let mut closing = false;
        match mode {
            ScanMode::Context => {
                if is_marker(line, open.as_slice()) {
                    mode = ScanMode::Mine;
                    cur_mine.clear();
                    cur_base.clear();
                    cur_theirs.clear();
                    assert(cur_mine.deep_view() =~= Seq::<Seq<u8>>::empty());
                    assert(cur_base.deep_view() =~= Seq::<Seq<u8>>::empty());
                    assert(cur_theirs.deep_view() =~= Seq::<Seq<u8>>::empty());
                } else {
                    push_line(&mut context, line);
                }
            },
            ScanMode::Mine => {
                if is_marker(line, bsep.as_slice()) {
                    mode = ScanMode::Base;
                } else if is_marker(line, msep.as_slice()) {
                    mode = ScanMode::Theirs;
                } else if is_marker(line, close.as_slice()) {
                    closing = true;
                } else {
                    push_line(&mut cur_mine, line);
                }
            },
            ScanMode::Base => {
                if is_marker(line, msep.as_slice()) {
                    mode = ScanMode::Theirs;
                } else if is_marker(line, close.as_slice()) {
                    closing = true;
                } else {
                    push_line(&mut cur_base, line);
                }
            },
            ScanMode::Theirs => {
                if is_marker(line, close.as_slice()) {
                    closing = true;
                } else {
                    push_line(&mut cur_theirs, line);
                }
            },
        }
        if closing {
            let ghost before = ScanModel {
                mode,
                parts: parts.deep_view(),
                context: context.deep_view(),
                mine: cur_mine.deep_view(),
                base: cur_base.deep_view(),
                theirs: cur_theirs.deep_view(),
                blocks: blocks as nat,
            };
            if context.len() > 0 {
                let ctx = take_lines(&mut context);
                let ghost p0 = parts.deep_view();
                parts.push(ConflictPart::Context(ctx));
                assert(parts.deep_view() =~= p0.push(PartModel::Context(before.context)));
            }
            assert(context.deep_view() =~= Seq::<Seq<u8>>::empty());
            let m = take_lines(&mut cur_mine);
            let b = take_lines(&mut cur_base);
            let t = take_lines(&mut cur_theirs);
            let ghost p1 = parts.deep_view();
            parts.push(ConflictPart::Block(ConflictBlockBytes { mine: m, base: b, theirs: t }));
            assert(parts.deep_view() =~= p1.push(
                PartModel::Block(
                    BlockModel { mine: before.mine, base: before.base, theirs: before.theirs },
                ),
            ));
            assert(cur_mine.deep_view() =~= Seq::<Seq<u8>>::empty());
            assert(cur_base.deep_view() =~= Seq::<Seq<u8>>::empty());
            assert(cur_theirs.deep_view() =~= Seq::<Seq<u8>>::empty());
            blocks = blocks + 1;
            mode = ScanMode::Context;
        }
        i = i + 1;
    }
    assert(lines.take(raw_lines@.len() as int) =~= lines);
    if mode != ScanMode::Context {
        return Err(unclosed_message());
    }
    if context.len() > 0 {
        let ghost p0 = parts.deep_view();
        let ghost c0 = context.deep_view();
        parts.push(ConflictPart::Context(context));
        assert(parts.deep_view() =~= p0.push(PartModel::Context(c0)));
    }
    Ok(ConflictDoc { parts, has_markers: blocks > 0, line_ending, trailing_newline })
}

// ---------------------------------------------------------------------------
// assembly
// ---------------------------------------------------------------------------

/// The choice for the block with index `i`; missing choices mean `Mine`.
pub open spec fn choice_at(choices: Seq<Choice>, i: int) -> Choice {
    if 0 <= i < choices.len() {
        choices[i]
    } else {
        Choice::Mine
    }
}

/// The lines a choice keeps from a block.
pub open spec fn chosen_lines(b: BlockModel, c: Choice) -> Seq<Seq<u8>> {
    match c {
        Choice::Mine => b.mine,
        Choice::Theirs => b.theirs,
        Choice::Both => b.mine + b.theirs,
        Choice::Neither => seq![],
    }
}

/// The lines of the result: context lines as they are, each block replaced
/// by the lines its choice keeps; `bi` is the index of the first block.
pub open spec fn assembled_lines(parts: Seq<PartModel>, choices: Seq<Choice>, bi: int) -> Seq<
    Seq<u8>,
>
    decreases parts.len(),
{
    if parts.len() == 0 {
        seq![]
    } else {
        match parts[0] {
            PartModel::Context(ls) => ls + assembled_lines(parts.drop_first(), choices, bi),
            PartModel::Block(b) => chosen_lines(b, choice_at(choices, bi)) + assembled_lines(
                parts.drop_first(),
                choices,
                bi + 1,
            ),
        }
    }
}

/// Lines joined by a separator.
pub open spec fn join_bytes(lines: Seq<Seq<u8>>, sep: Seq<u8>) -> Seq<u8>
    decreases lines.len(),
{
    if lines.len() == 0 {
        seq![]
    } else if lines.len() == 1 {
        lines[0]
    } else {
        lines[0] + sep + join_bytes(lines.drop_first(), sep)
    }
}

/// The bytes of a line ending.
pub open spec fn sep_of(le: LineEnding) -> Seq<u8> {
    match le {
        LineEnding::Lf => seq![10u8],
        LineEnding::Crlf => seq![13u8, 10u8],
    }
}

/// The file written for a document and per-block choices: the assembled
/// lines joined by the file's line ending, with a final line ending when
/// the file had one and there is at least one line.
pub open spec fn assemble_spec(doc: DocModel, choices: Seq<Choice>) -> Seq<u8> {
    let ls = assembled_lines(doc.parts, choices, 0);
    let sep = sep_of(doc.line_ending);
    if doc.trailing_newline && ls.len() > 0 {
        join_bytes(ls, sep) + sep
    } else {
        join_bytes(ls, sep)
    }
}

pub proof fn lemma_join_push(lines: Seq<Seq<u8>>, sep: Seq<u8>, x: Seq<u8>)
    requires
        lines.len() > 0,
    ensures
        join_bytes(lines.push(x), sep) == join_bytes(lines, sep) + sep + x,
    decreases lines.len(),
{
    let p = lines.push(x);
    if lines.len() == 1 {
        assert(p.drop_first() =~= seq![x]);
        assert(join_bytes(p.drop_first(), sep) == x);
        assert(join_bytes(p, sep) == p[0] + sep + x);
        assert(join_bytes(lines, sep) == lines[0]);
    } else {
        assert(p.drop_first() =~= lines.drop_first().push(x));
        lemma_join_push(lines.drop_first(), sep, x);
        assert(join_bytes(p, sep) == lines[0] + sep + (join_bytes(lines.drop_first(), sep) + sep
            + x));
        assert(join_bytes(p, sep) =~= lines[0] + sep + join_bytes(lines.drop_first(), sep) + sep
            + x);
    }
}

fn extend_lines(out: &mut Vec<Vec<u8>>, ls: &Vec<Vec<u8>>)
    ensures
        final(out).deep_view() == old(out).deep_view() + ls.deep_view(),
{
    let mut i: usize = 0;
    while i < ls.len()
        invariant
            i <= ls@.len(),
            out.deep_view() == old(out).deep_view() + ls.deep_view().take(i as int),
        decreases ls@.len() - i,
    {
        push_line(out, ls[i].as_slice());
        proof {
            lemma_bytes_deep_view(ls@[i as int]);
        }
        i = i + 1;
        assert(out.deep_view() =~= old(out).deep_view() + ls.deep_view().take(i as int));
    }
    assert(ls.deep_view().take(ls@.len() as int) =~= ls.deep_view());
}

fn append_bytes(out: &mut Vec<u8>, b: &[u8])
    ensures
        final(out)@ == old(out)@ + b@,
{
    let mut i: usize = 0;
    while i < b.len()
        invariant
            i <= b@.len(),
            out@ == old(out)@ + b@.take(i as int),
        decreases b@.len() - i,
    {
        out.push(b[i]);
        i = i + 1;
        assert(out@ =~= old(out)@ + b@.take(i as int));
    }
    assert(b@.take(b@.len() as int) =~= b@);
}

/// Assembles the file for per-block choices: context lines stay as they
/// are, blocks give the lines of their choice (a missing choice means
/// `Mine`), and the file's line ending is restored.
pub fn assemble_conflict(doc: &ConflictDoc, choices: &[Choice]) -> (res: Vec<u8>)
    ensures
        res@ == assemble_spec(doc.deep_view(), choices@),
{
    let ghost parts = doc.parts.deep_view();
    let mut lines: Vec<Vec<u8>> = Vec::new();
    let mut bi: usize = 0;
    let mut i: usize = 0;
    assert(parts.skip(0) =~= parts);
    assert(lines.deep_view() =~= Seq::<Seq<u8>>::empty());
    while i < doc.parts.len()
        invariant
            parts == doc.parts.deep_view(),
            i <= doc.parts@.len(),
            bi <= i,
            lines.deep_view() + assembled_lines(parts.skip(i as int), choices@, bi as int)
                == assembled_lines(parts, choices@, 0),
        decreases doc.parts@.len() - i,
    {
        assert(parts.skip(i as int).drop_first() =~= parts.skip(i + 1));
        assert(parts.skip(i as int)[0] == parts[i as int]);
        let ghost before = lines.deep_view();
        match &doc.parts[i] {
            ConflictPart::Context(ls) => {
                extend_lines(&mut lines, ls);
                assert(lines.deep_view() + assembled_lines(parts.skip(i + 1), choices@, bi as int)
                    =~= before + assembled_lines(parts.skip(i as int), choices@, bi as int));
            },
            ConflictPart::Block(b) => {
                let ch = if bi < choices.len() {
                    choices[bi]
                } else {
                    Choice::Mine
                };
                assert(ch == choice_at(choices@, bi as int));
                match ch {
                    Choice::Mine => {
                        extend_lines(&mut lines, &b.mine);
                    },
                    Choice::Theirs => {
                        extend_lines(&mut lines, &b.theirs);
                    },
                    Choice::Both => {
                        extend_lines(&mut lines, &b.mine);
                        extend_lines(&mut lines, &b.theirs);
                    },
                    Choice::Neither => {},
                }
                assert(lines.deep_view() =~= before + chosen_lines(b.deep_view(), ch));
                assert(lines.deep_view() + assembled_lines(
                    parts.skip(i + 1),
                    choices@,
                    bi + 1,
                ) =~= before + assembled_lines(parts.skip(i as int), choices@, bi as int));
                bi = bi + 1;
            },
        }
        i = i + 1;
    }
    assert(parts.skip(i as int) =~= Seq::<PartModel>::empty());
    assert(lines.deep_view() =~= assembled_lines(parts, choices@, 0));
    let ghost ls = lines.deep_view();
    let sep: Vec<u8> = match doc.line_ending {
        LineEnding::Lf => vec![10u8],
        LineEnding::Crlf => vec![13u8, 10u8],
    };
    assert(sep@ =~= sep_of(doc.line_ending));
    let mut out: Vec<u8> = Vec::new();
    let mut k: usize = 0;
    while k < lines.len()
        invariant
            ls == lines.deep_view(),
            sep@ == sep_of(doc.line_ending),
            k <= lines@.len(),
            out@ == join_bytes(ls.take(k as int), sep@),
        decreases lines@.len() - k,
    {
        proof {
            lemma_bytes_deep_view(lines@[k as int]);
        }
        if k > 0 {
            append_bytes(&mut out, sep.as_slice());
            proof {
                assert(ls.take(k + 1) =~= ls.take(k as int).push(ls[k as int]));
                lemma_join_push(ls.take(k as int), sep@, ls[k as int]);
            }
        } else {
            assert(ls.take(1) =~= seq![ls[0]]);
        }
        append_bytes(&mut out, lines[k].as_slice());
        k = k + 1;
    }
    assert(ls.take(lines@.len() as int) =~= ls);
    if doc.trailing_newline && lines.len() > 0 {
        append_bytes(&mut out, sep.as_slice());
    }
    out
}

// ---------------------------------------------------------------------------
// blocks for display
// ---------------------------------------------------------------------------

/// Lines decoded for display (`String::from_utf8_lossy`).
pub open spec fn lossy_lines(ls: Seq<Seq<u8>>) -> Seq<Seq<char>> {
    Seq::new(ls.len(), |i: int| lossy_text(ls[i]))
}

/// The blocks of a document, in order, decoded for display.
pub open spec fn ui_blocks_spec(parts: Seq<PartModel>) -> Seq<ConflictBlockModel>
    decreases parts.len(),
{
    if parts.len() == 0 {
        seq![]
    } else {
        match parts[0] {
            PartModel::Context(_) => ui_blocks_spec(parts.drop_first()),
            PartModel::Block(b) => seq![
                ConflictBlockModel {
                    mine: lossy_lines(b.mine),
                    base: lossy_lines(b.base),
                    theirs: lossy_lines(b.theirs),
                },
            ] + ui_blocks_spec(parts.drop_first()),
        }
    }
}

/// The number of blocks among the parts.
pub open spec fn block_count(parts: Seq<PartModel>) -> nat
    decreases parts.len(),
{
    if parts.len() == 0 {
        0
    } else {
        match parts[0] {
            PartModel::Context(_) => block_count(parts.drop_first()),
            PartModel::Block(_) => 1 + block_count(parts.drop_first()),
        }
    }
}

fn lossy_lines_exec(ls: &Vec<Vec<u8>>) -> (res: Vec<String>)
    ensures
        res.deep_view() == lossy_lines(ls.deep_view()),
{
    let mut res: Vec<String> = Vec::new();
    let mut i: usize = 0;
    while i < ls.len()
        invariant
            i <= ls@.len(),
            res.deep_view() == lossy_lines(ls.deep_view().take(i as int)),
        decreases ls@.len() - i,
    {
        let s = lossy_string(ls[i].as_slice());
        proof {
            lemma_bytes_deep_view(ls@[i as int]);
        }
        let ghost before = res.deep_view();
        res.push(s);
        assert(res.deep_view() =~= before.push(s@));
        i = i + 1;
        assert(res.deep_view() =~= lossy_lines(ls.deep_view().take(i as int)));
    }
    assert(ls.deep_view().take(ls@.len() as int) =~= ls.deep_view());
    res
}

impl ConflictDoc {
    /// The blocks, in order, for display (invalid UTF-8 replaced).
    pub fn ui_blocks(&self) -> (res: Vec<ConflictBlock>)
        ensures
            res.deep_view() == ui_blocks_spec(self.parts.deep_view()),
    {
        let ghost parts = self.parts.deep_view();
        let mut res: Vec<ConflictBlock> = Vec::new();
        let mut i: usize = 0;
        assert(parts.skip(0) =~= parts);
        assert(res.deep_view() =~= Seq::<ConflictBlockModel>::empty());
        while i < self.parts.len()
            invariant
                parts == self.parts.deep_view(),
                i <= self.parts@.len(),
                res.deep_view() + ui_blocks_spec(parts.skip(i as int)) == ui_blocks_spec(parts),
            decreases self.parts@.len() - i,
        {
            assert(parts.skip(i as int).drop_first() =~= parts.skip(i + 1));
            assert(parts.skip(i as int)[0] == parts[i as int]);
            match &self.parts[i] {
                ConflictPart::Context(_) => {},
                ConflictPart::Block(b) => {
                    let blk = ConflictBlock {
                        mine: lossy_lines_exec(&b.mine),
                        base: lossy_lines_exec(&b.base),
                        theirs: lossy_lines_exec(&b.theirs),
                    };
                    let ghost before = res.deep_view();
                    res.push(blk);
                    assert(res.deep_view() =~= before.push(blk.deep_view()));
                    assert(res.deep_view() + ui_blocks_spec(parts.skip(i + 1)) =~= before
                        + ui_blocks_spec(parts.skip(i as int)));
                },
            }
            i = i + 1;
        }
        assert(parts.skip(i as int) =~= Seq::<PartModel>::empty());
        assert(res.deep_view() =~= ui_blocks_spec(parts));
        res
    }
}

// ---------------------------------------------------------------------------
// laws
// ---------------------------------------------------------------------------

/// The scanner never loses a block: the count only grows.
proof fn lemma_scan_blocks_grow(lines: Seq<Seq<u8>>)
    requires
        lines.len() > 0,
    ensures
        scan(lines.drop_last()).blocks <= scan(lines).blocks,
{
}

/// Without any block, a scan that ends outside a block has kept every
/// line as context.
proof fn lemma_scan_without_blocks(lines: Seq<Seq<u8>>)
    requires
        scan(lines).mode == ScanMode::Context,
        scan(lines).blocks == 0,
    ensures
        scan(lines).parts == Seq::<PartModel>::empty(),
        scan(lines).context == lines,
    decreases lines.len(),
{
    if lines.len() == 0 {
        assert(lines =~= Seq::<Seq<u8>>::empty());
    } else {
        let prev = scan(lines.drop_last());
        lemma_scan_blocks_grow(lines);
        if prev.mode == ScanMode::Context {
            lemma_scan_without_blocks(lines.drop_last());
            assert(prev.context.push(lines.last()) =~= lines);
        }
    }
}

proof fn lemma_split_final_newline(raw: Seq<u8>)
    requires
        raw.len() > 0,
        raw.last() == 10u8,
    ensures
        split_lines(raw).len() >= 2,
        split_lines(raw).last() == Seq::<u8>::empty(),
    decreases raw.len(),
{
    let k = find_newline(raw);
    lemma_find_newline_bound(raw);
    if k >= raw.len() {
        assert(raw[raw.len() - 1] == 10u8);
    } else {
        let rest = raw.skip(k + 1);
        if rest.len() == 0 {
            assert(strip_cr(rest) =~= Seq::<u8>::empty());
            assert(split_lines(rest) == seq![strip_cr(rest)]);
        } else {
            assert(rest.last() == raw.last());
            lemma_split_final_newline(rest);
        }
        assert(split_lines(raw) == seq![strip_cr(raw.take(k))] + split_lines(rest));
    }
}

/// The line endings of `raw` are those of `le` throughout: with `Lf` no
/// `\n` follows a `\r`, with `Crlf` every `\n` does; and the file does
/// not end in a lone `\r`.
pub open spec fn endings_ok(raw: Seq<u8>, le: LineEnding) -> bool {
    &&& (raw.len() == 0 || raw.last() != 13u8)
    &&& match le {
        LineEnding::Lf => forall|i: int|
            0 <= i && i + 1 < raw.len() ==> !(#[trigger] raw[i] == 13u8 && raw[i + 1] == 10u8),
        LineEnding::Crlf => forall|i: int|
            0 <= i < raw.len() && #[trigger] raw[i] == 10u8 ==> i > 0 && raw[i - 1] == 13u8,
    }
}

/// Splitting a file with consistent line endings and joining the pieces
/// with its line ending gives the file back.
proof fn lemma_split_rejoin(raw: Seq<u8>, le: LineEnding)
    requires
        endings_ok(raw, le),
    ensures
        split_lines(raw).len() >= 1,
        join_bytes(split_lines(raw), sep_of(le)) == raw,
    decreases raw.len(),
{
    let k = find_newline(raw);
    lemma_find_newline_bound(raw);
    let sep = sep_of(le);
    if k >= raw.len() {
        if raw.len() > 0 {
            assert(raw[raw.len() - 1] != 13u8);
        }
        assert(strip_cr(raw) == raw);
    } else {
        let head = raw.take(k);
        let rest = raw.skip(k + 1);
        assert(raw[k] == 10u8);
        assert(endings_ok(rest, le)) by {
            if rest.len() > 0 {
                assert(rest.last() == raw.last());
            }
            match le {
                LineEnding::Lf => {
                    assert forall|i: int| 0 <= i && i + 1 < rest.len() implies !(#[trigger] rest[i]
                        == 13u8 && rest[i + 1] == 10u8) by {
                        assert(rest[i] == raw[i + k + 1]);
                        assert(rest[i + 1] == raw[i + k + 2]);
                    }
                },
                LineEnding::Crlf => {
                    assert forall|i: int| 0 <= i < rest.len() && #[trigger] rest[i] == 10u8 implies i
                        > 0 && rest[i - 1] == 13u8 by {
                        assert(rest[i] == raw[i + k + 1]);
                        assert(raw[i + k] == 13u8);
                        if i == 0 {
                            assert(raw[k] == 10u8);
                        } else {
                            assert(rest[i - 1] == raw[i + k]);
                        }
                    }
                },
            }
        }
        lemma_split_rejoin(rest, le);
        let sp = split_lines(raw);
        assert(sp == seq![strip_cr(head)] + split_lines(rest));
        assert(sp[0] == strip_cr(head));
        assert(sp.drop_first() =~= split_lines(rest));
        assert(join_bytes(sp, sep) == strip_cr(head) + sep + rest);
        match le {
            LineEnding::Lf => {
                if k > 0 {
                    assert(!(raw[k - 1] == 13u8 && raw[k] == 10u8));
                    assert(head[head.len() - 1] == raw[k - 1]);
                }
                assert(strip_cr(head) == head);
                assert(head + sep + rest =~= raw);
            },
            LineEnding::Crlf => {
                assert(k > 0 && raw[k - 1] == 13u8);
                assert(head.last() == 13u8);
                assert(strip_cr(head) =~= raw.take(k - 1));
                assert(raw.take(k - 1) + sep + rest =~= raw);
            },
        }
    }
}

/// A file without conflict markers whose line endings are consistent
/// (all `\n` or all `\r\n`, and no lone `\r` at its end) is written back
/// byte for byte, whatever the choices.
pub proof fn law_unmarked_file_round_trips(raw: Seq<u8>, choices: Seq<Choice>)
    requires
        parse_conflict(raw) is Some,
        !parse_conflict(raw).unwrap().has_markers,
        raw.len() == 0 || raw.last() != 13u8,
        !has_crlf(raw) || forall|i: int|
            0 <= i < raw.len() && #[trigger] raw[i] == 10u8 ==> i > 0 && raw[i - 1] == 13u8,
    ensures
        assemble_spec(parse_conflict(raw).unwrap(), choices) == raw,
{
    let doc = parse_conflict(raw).unwrap();
    let lines = content_lines(raw);
    let st = scan(lines);
    lemma_scan_without_blocks(lines);
    let le = doc.line_ending;
    assert(endings_ok(raw, le)) by {
        if !has_crlf(raw) {
            assert forall|i: int| 0 <= i && i + 1 < raw.len() implies !(#[trigger] raw[i] == 13u8
                && raw[i + 1] == 10u8) by {}
        }
    }
    let ls = assembled_lines(doc.parts, choices, 0);
    if lines.len() > 0 {
        assert(doc.parts == seq![PartModel::Context(lines)]);
        assert(doc.parts[0] == PartModel::Context(lines));
        assert(doc.parts.drop_first() =~= Seq::<PartModel>::empty());
        assert(assembled_lines(doc.parts.drop_first(), choices, 0) == Seq::<Seq<u8>>::empty());
        assert(ls == lines + Seq::<Seq<u8>>::empty());
        assert(ls =~= lines);
    } else {
        assert(doc.parts =~= Seq::<PartModel>::empty());
        assert(ls =~= lines);
    }
    let sep = sep_of(le);
    if raw.len() == 0 {
        assert(raw =~= Seq::<u8>::empty());
    } else if raw.last() == 10u8 {
        lemma_split_rejoin(raw, le);
        lemma_split_final_newline(raw);
        let sp = split_lines(raw);
        assert(sp =~= lines.push(Seq::<u8>::empty()));
        lemma_join_push(lines, sep, Seq::<u8>::empty());
        assert(join_bytes(lines, sep) + sep =~= join_bytes(sp, sep));
    } else {
        lemma_split_rejoin(raw, le);
    }
}

/// The scanner counts exactly the blocks it has emitted.
proof fn lemma_block_count_push(parts: Seq<PartModel>, p: PartModel)
    ensures
        block_count(parts.push(p)) == block_count(parts) + (if p is Block {
            1nat
        } else {
            0nat
        }),
    decreases parts.len(),
{
    assert(parts.push(p).len() > 0);
    if parts.len() == 0 {
        assert(parts.push(p)[0] == p);
        assert(parts.push(p).drop_first() =~= Seq::<PartModel>::empty());
        assert(block_count(Seq::<PartModel>::empty()) == 0);
        assert(block_count(parts) == 0);
        match p {
            PartModel::Context(_) => {
                assert(block_count(parts.push(p)) == block_count(parts.push(p).drop_first()));
            },
            PartModel::Block(_) => {
                assert(block_count(parts.push(p)) == 1 + block_count(parts.push(p).drop_first()));
            },
        }
    } else {
        assert(parts.push(p)[0] == parts[0]);
        assert(parts.push(p).drop_first() =~= parts.drop_first().push(p));
        lemma_block_count_push(parts.drop_first(), p);
    }
}

proof fn lemma_scan_counts_blocks(lines: Seq<Seq<u8>>)
    ensures
        scan(lines).blocks == block_count(scan(lines).parts),
    decreases lines.len(),
{
    if lines.len() > 0 {
        let prev = scan(lines.drop_last());
        lemma_scan_counts_blocks(lines.drop_last());
        let parts1 = if prev.context.len() > 0 {
            prev.parts.push(PartModel::Context(prev.context))
        } else {
            prev.parts
        };
        lemma_block_count_push(prev.parts, PartModel::Context(prev.context));
        lemma_block_count_push(
            parts1,
            PartModel::Block(BlockModel { mine: prev.mine, base: prev.base, theirs: prev.theirs }),
        );
    }
}

proof fn lemma_ui_blocks_len(parts: Seq<PartModel>)
    ensures
        ui_blocks_spec(parts).len() == block_count(parts),
    decreases parts.len(),
{
    if parts.len() > 0 {
        lemma_ui_blocks_len(parts.drop_first());
    }
}

/// A parsed file reports markers exactly when it holds a block, and the
/// display lists one entry per block.
pub proof fn law_markers_iff_blocks(raw: Seq<u8>)
    requires
        parse_conflict(raw) is Some,
    ensures
        parse_conflict(raw).unwrap().has_markers <==> block_count(parse_conflict(raw).unwrap().parts)
            > 0,
        ui_blocks_spec(parse_conflict(raw).unwrap().parts).len() == block_count(
            parse_conflict(raw).unwrap().parts,
        ),
{
    let st = scan(content_lines(raw));
    lemma_scan_counts_blocks(content_lines(raw));
    lemma_block_count_push(st.parts, PartModel::Context(st.context));
    lemma_ui_blocks_len(parse_conflict(raw).unwrap().parts);
}

// ---------------------------------------------------------------------------
// reading a resolved file back
// ---------------------------------------------------------------------------

/// A line without a `\n` byte.
pub open spec fn no_newline(l: Seq<u8>) -> bool {
    forall|i: int| 0 <= i < l.len() ==> l[i] != 10u8
}

/// Lines without `\n` bytes.
pub open spec fn lines_ok(ls: Seq<Seq<u8>>) -> bool {
    forall|i: int| 0 <= i < ls.len() ==> no_newline(#[trigger] ls[i])
}

pub open spec fn part_ok(p: PartModel) -> bool {
    match p {
        PartModel::Context(ls) => lines_ok(ls),
        PartModel::Block(b) => lines_ok(b.mine) && lines_ok(b.base) && lines_ok(b.theirs),
    }
}

pub open spec fn parts_ok(ps: Seq<PartModel>) -> bool {
    forall|i: int| 0 <= i < ps.len() ==> part_ok(#[trigger] ps[i])
}

proof fn lemma_lines_ok_push(ls: Seq<Seq<u8>>, l: Seq<u8>)
    requires
        lines_ok(ls),
        no_newline(l),
    ensures
        lines_ok(ls.push(l)),
{
    assert forall|i: int| 0 <= i < ls.push(l).len() implies no_newline(#[trigger] ls.push(l)[i]) by {
        if i < ls.len() {
            assert(ls.push(l)[i] == ls[i]);
        }
    }
}

proof fn lemma_lines_ok_add(a: Seq<Seq<u8>>, b: Seq<Seq<u8>>)
    requires
        lines_ok(a),
        lines_ok(b),
    ensures
        lines_ok(a + b),
{
    assert forall|i: int| 0 <= i < (a + b).len() implies no_newline(#[trigger] (a + b)[i]) by {
        if i < a.len() {
            assert((a + b)[i] == a[i]);
        } else {
            assert((a + b)[i] == b[i - a.len()]);
        }
    }
}

proof fn lemma_strip_cr_no_newline(l: Seq<u8>)
    requires
        no_newline(l),
    ensures
        no_newline(strip_cr(l)),
{
    assert forall|i: int| 0 <= i < strip_cr(l).len() implies strip_cr(l)[i] != 10u8 by {
        assert(strip_cr(l)[i] == l[i]);
    }
}

/// The pieces of a split hold no `\n`.
proof fn lemma_split_lines_ok(raw: Seq<u8>)
    ensures
        lines_ok(split_lines(raw)),
    decreases raw.len(),
{
    let k = find_newline(raw);
    lemma_find_newline_bound(raw);
    if k >= raw.len() {
        lemma_strip_cr_no_newline(raw);
    } else {
        let head = raw.take(k);
        assert(no_newline(head));
        lemma_strip_cr_no_newline(head);
        lemma_split_lines_ok(raw.skip(k + 1));
        lemma_lines_ok_add(seq![strip_cr(head)], split_lines(raw.skip(k + 1)));
    }
}

proof fn lemma_content_lines_ok(raw: Seq<u8>)
    ensures
        lines_ok(content_lines(raw)),
{
    lemma_split_lines_ok(raw);
    if raw.len() > 0 && raw.last() == 10u8 {
        let sp = split_lines(raw);
        assert forall|i: int| 0 <= i < sp.drop_last().len() implies no_newline(
            #[trigger] sp.drop_last()[i],
        ) by {
            assert(sp.drop_last()[i] == sp[i]);
        }
    }
}

pub open spec fn scan_ok(st: ScanModel) -> bool {
    &&& parts_ok(st.parts)
    &&& lines_ok(st.context)
    &&& lines_ok(st.mine)
    &&& lines_ok(st.base)
    &&& lines_ok(st.theirs)
}

proof fn lemma_parts_ok_push(ps: Seq<PartModel>, p: PartModel)
    requires
        parts_ok(ps),
        part_ok(p),
    ensures
        parts_ok(ps.push(p)),
{
    assert forall|i: int| 0 <= i < ps.push(p).len() implies part_ok(#[trigger] ps.push(p)[i]) by {
        if i < ps.len() {
            assert(ps.push(p)[i] == ps[i]);
        }
    }
}

/// Scanning lines without `\n` keeps every collected line without one.
proof fn lemma_scan_ok(lines: Seq<Seq<u8>>)
    requires
        lines_ok(lines),
    ensures
        scan_ok(scan(lines)),
    decreases lines.len(),
{
    if lines.len() > 0 {
        let prev = lines.drop_last();
        assert(lines_ok(prev)) by {
            assert forall|i: int| 0 <= i < prev.len() implies no_newline(#[trigger] prev[i]) by {
                assert(prev[i] == lines[i]);
            }
        }
        lemma_scan_ok(prev);
        let st = scan(prev);
        let l = lines.last();
        assert(no_newline(l)) by {
            assert(l == lines[lines.len() - 1]);
        }
        lemma_lines_ok_push(st.context, l);
        lemma_lines_ok_push(st.mine, l);
        lemma_lines_ok_push(st.base, l);
        lemma_lines_ok_push(st.theirs, l);
        let parts = if st.context.len() > 0 {
            st.parts.push(PartModel::Context(st.context))
        } else {
            st.parts
        };
        lemma_parts_ok_push(st.parts, PartModel::Context(st.context));
        lemma_parts_ok_push(
            parts,
            PartModel::Block(BlockModel { mine: st.mine, base: st.base, theirs: st.theirs }),
        );
    }
}

/// The lines of an assembled file hold no `\n`.
proof fn lemma_assembled_ok(parts: Seq<PartModel>, choices: Seq<Choice>, bi: int)
    requires
        parts_ok(parts),
    ensures
        lines_ok(assembled_lines(parts, choices, bi)),
    decreases parts.len(),
{
    if parts.len() > 0 {
        let rest = parts.drop_first();
        assert(parts_ok(rest)) by {
            assert forall|i: int| 0 <= i < rest.len() implies part_ok(#[trigger] rest[i]) by {
                assert(rest[i] == parts[i + 1]);
            }
        }
        assert(part_ok(parts[0]));
        match parts[0] {
            PartModel::Context(ls) => {
                lemma_assembled_ok(rest, choices, bi);
                lemma_lines_ok_add(ls, assembled_lines(rest, choices, bi));
            },
            PartModel::Block(b) => {
                lemma_assembled_ok(rest, choices, bi + 1);
                lemma_lines_ok_add(b.mine, b.theirs);
                assert(lines_ok(Seq::<Seq<u8>>::empty()));
                lemma_lines_ok_add(
                    chosen_lines(b, choice_at(choices, bi)),
                    assembled_lines(rest, choices, bi + 1),
                );
            },
        }
    }
}

/// `c` is read back from the line `l`: the line itself or without its
/// trailing `\r`.
pub open spec fn read_back(c: Seq<u8>, l: Seq<u8>) -> bool {
    c == l || c == strip_cr(l)
}

/// Splitting `a`, a `\n`, then `b`.
proof fn lemma_split_at_newline(a: Seq<u8>, b: Seq<u8>)
    requires
        no_newline(a),
    ensures
        split_lines(a + seq![10u8] + b) == seq![strip_cr(a)] + split_lines(b),
{
    let x = a + seq![10u8] + b;
    lemma_find_newline(x, a.len() as int);
    assert(x.take(a.len() as int) =~= a);
    assert(x.skip(a.len() as int + 1) =~= b);
}

/// `sp` reads back `ls` line by line.
pub open spec fn reads_back(sp: Seq<Seq<u8>>, ls: Seq<Seq<u8>>) -> bool {
    sp.len() == ls.len() && forall|i: int| 0 <= i < ls.len() ==> read_back(#[trigger] sp[i], ls[i])
}

/// Splitting a line, a line ending, then more bytes.
proof fn lemma_split_join_step(l: Seq<u8>, y: Seq<u8>, le: LineEnding)
    requires
        no_newline(l),
    ensures
        exists|c: Seq<u8>| read_back(c, l) && split_lines(l + sep_of(le) + y) == seq![c] + split_lines(y),
{
    match le {
        LineEnding::Lf => {
            lemma_split_at_newline(l, y);
            assert(l + sep_of(le) + y =~= l + seq![10u8] + y);
            assert(read_back(strip_cr(l), l));
        },
        LineEnding::Crlf => {
            let l2 = l.push(13u8);
            assert(no_newline(l2)) by {
                assert forall|i: int| 0 <= i < l2.len() implies l2[i] != 10u8 by {
                    if i < l.len() {
                        assert(l2[i] == l[i]);
                    }
                }
            }
            lemma_split_at_newline(l2, y);
            assert(l + sep_of(le) + y =~= l2 + seq![10u8] + y);
            assert(strip_cr(l2) =~= l);
            assert(read_back(strip_cr(l2), l));
        },
    }
}

/// Splitting lines joined by a line ending gives them back, each perhaps
/// without a trailing `\r`.
proof fn lemma_split_join(ls: Seq<Seq<u8>>, le: LineEnding)
    requires
        ls.len() > 0,
        lines_ok(ls),
    ensures
        reads_back(split_lines(join_bytes(ls, sep_of(le))), ls),
    decreases ls.len(),
{
    let sep = sep_of(le);
    if ls.len() == 1 {
        let l = ls[0];
        assert(no_newline(l));
        lemma_find_newline(l, l.len() as int);
        assert(split_lines(join_bytes(ls, sep)) == seq![strip_cr(l)]);
        assert(read_back(strip_cr(l), l));
    } else {
        let rest = ls.drop_first();
        assert(lines_ok(rest)) by {
            assert forall|i: int| 0 <= i < rest.len() implies no_newline(#[trigger] rest[i]) by {
                assert(rest[i] == ls[i + 1]);
            }
        }
        lemma_split_join(rest, le);
        let y = join_bytes(rest, sep);
        let l = ls[0];
        assert(no_newline(l));
        assert(join_bytes(ls, sep) == l + sep + y);
        lemma_split_join_step(l, y, le);
        let c = choose|c: Seq<u8>| read_back(c, l) && split_lines(l + sep + y) == seq![c] + split_lines(y);
        let sp = split_lines(join_bytes(ls, sep));
        assert(sp == seq![c] + split_lines(y));
        assert forall|i: int| 0 <= i < ls.len() implies read_back(#[trigger] sp[i], ls[i]) by {
            if i > 0 {
                assert(sp[i] == split_lines(y)[i - 1]);
                assert(ls[i] == rest[i - 1]);
            }
        }
    }
}

/// Every line of the file written for a document is read back from one
/// of its assembled lines.
proof fn lemma_content_of_assembled(doc: DocModel, choices: Seq<Choice>)
    requires
        lines_ok(assembled_lines(doc.parts, choices, 0)),
    ensures
        ({
            let ls = assembled_lines(doc.parts, choices, 0);
            let cl = content_lines(assemble_spec(doc, choices));
            forall|j: int| 0 <= j < cl.len() ==> exists|i: int| 0 <= i < ls.len() && read_back(#[trigger] cl[j], ls[i])
        }),
{
    let ls = assembled_lines(doc.parts, choices, 0);
    let sep = sep_of(doc.line_ending);
    let out = assemble_spec(doc, choices);
    let cl = content_lines(out);
    if ls.len() == 0 {
        assert(out =~= Seq::<u8>::empty());
    } else if doc.trailing_newline {
        let ls2 = ls.push(Seq::<u8>::empty());
        lemma_join_push(ls, sep, Seq::<u8>::empty());
        assert(out =~= join_bytes(ls2, sep));
        lemma_lines_ok_push(ls, Seq::<u8>::empty());
        lemma_split_join(ls2, doc.line_ending);
        let sp = split_lines(out);
        assert(reads_back(sp, ls2));
        assert(out.last() == 10u8) by {
            match doc.line_ending {
                LineEnding::Lf => {},
                LineEnding::Crlf => {},
            }
        }
        assert forall|j: int| 0 <= j < cl.len() implies exists|i: int|
            0 <= i < ls.len() && read_back(#[trigger] cl[j], ls[i]) by {
            assert(cl[j] == sp[j]);
            assert(read_back(sp[j], ls2[j]));
            assert(ls2[j] == ls[j]);
        }
    } else {
        lemma_split_join(ls, doc.line_ending);
        let sp = split_lines(out);
        assert(reads_back(sp, ls));
        assert forall|j: int| 0 <= j < cl.len() implies exists|i: int|
            0 <= i < ls.len() && read_back(#[trigger] cl[j], ls[i]) by {
            assert(cl[j] == sp[j]);
            assert(read_back(sp[j], ls[j]));
        }
    }
}

/// A line that starts with `<<<<<<<`.
pub open spec fn opens_block(l: Seq<u8>) -> bool {
    l.len() >= 7 && l.take(7) == mine_open()
}

/// Lines none of which opens a block leave the scanner outside any block.
proof fn lemma_scan_plain(lines: Seq<Seq<u8>>)
    requires
        forall|j: int| 0 <= j < lines.len() ==> !is_marker_spec(#[trigger] lines[j], mine_open()),
    ensures
        scan(lines).mode == ScanMode::Context,
        scan(lines).blocks == 0,
    decreases lines.len(),
{
    if lines.len() > 0 {
        let prev = lines.drop_last();
        assert forall|j: int| 0 <= j < prev.len() implies !is_marker_spec(
            #[trigger] prev[j],
            mine_open(),
        ) by {
            assert(prev[j] == lines[j]);
        }
        lemma_scan_plain(prev);
        assert(!is_marker_spec(lines[lines.len() - 1], mine_open()));
    }
}

/// The file written after a resolution has no conflict markers, as long
/// as no kept line itself starts with `<<<<<<<`: reading it back gives a
/// document without blocks.
pub proof fn law_resolution_leaves_no_markers(raw: Seq<u8>, choices: Seq<Choice>)
    requires
        parse_conflict(raw) is Some,
        forall|i: int|
            0 <= i < assembled_lines(parse_conflict(raw).unwrap().parts, choices, 0).len()
                ==> !opens_block(
                #[trigger] assembled_lines(parse_conflict(raw).unwrap().parts, choices, 0)[i],
            ),
    ensures
        parse_conflict(assemble_spec(parse_conflict(raw).unwrap(), choices)) is Some,
        !parse_conflict(assemble_spec(parse_conflict(raw).unwrap(), choices)).unwrap().has_markers,
{
    let doc = parse_conflict(raw).unwrap();
    let st = scan(content_lines(raw));
    lemma_content_lines_ok(raw);
    lemma_scan_ok(content_lines(raw));
    lemma_lines_ok_push(Seq::<Seq<u8>>::empty(), Seq::<u8>::empty());
    lemma_parts_ok_push(st.parts, PartModel::Context(st.context));
    assert(parts_ok(doc.parts));
    let ls = assembled_lines(doc.parts, choices, 0);
    lemma_assembled_ok(doc.parts, choices, 0);
    lemma_content_of_assembled(doc, choices);
    let out = assemble_spec(doc, choices);
    let cl = content_lines(out);
    assert forall|j: int| 0 <= j < cl.len() implies !is_marker_spec(#[trigger] cl[j], mine_open()) by {
        let i = choose|i: int| 0 <= i < ls.len() && read_back(cl[j], ls[i]);
        let l = ls[i];
        if is_marker_spec(cl[j], mine_open()) {
            assert(l.take(7) =~= cl[j].take(7));
            assert(opens_block(l));
        }
    }
    lemma_scan_plain(cl);
}

/// A file none of whose lines opens a conflict block parses without
/// error, as a document without markers.
pub proof fn law_unmarked_file_parses(raw: Seq<u8>)
    requires
        forall|j: int|
            0 <= j < content_lines(raw).len() ==> !is_marker_spec(
                #[trigger] content_lines(raw)[j],
                mine_open(),
            ),
    ensures
        parse_conflict(raw) is Some,
        !parse_conflict(raw).unwrap().has_markers,
{
    lemma_scan_plain(content_lines(raw));
}

/// The error for a file that ends inside a conflict block.
pub fn unclosed_message() -> (res: String)
    ensures
        res@ == "冲突标记未闭合：文件以冲突块结尾，缺少 >>>>>>> 结束行（文件可能被外部工具损坏）"@,
{
    crate::text::lit("冲突标记未闭合：文件以冲突块结尾，缺少 >>>>>>> 结束行（文件可能被外部工具损坏）")
}

// ---------------------------------------------------------------------------
// one conflict block
// ---------------------------------------------------------------------------

/// The scanner after the given lines, from a given state.
pub open spec fn scan_from(st: ScanModel, lines: Seq<Seq<u8>>) -> ScanModel
    decreases lines.len(),
{
    if lines.len() == 0 {
        st
    } else {
        scan_step(scan_from(st, lines.drop_last()), lines.last())
    }
}

proof fn lemma_scan_is_scan_from(lines: Seq<Seq<u8>>)
    ensures
        scan(lines) == scan_from(scan_init(), lines),
    decreases lines.len(),
{
    if lines.len() > 0 {
        lemma_scan_is_scan_from(lines.drop_last());
    }
}

proof fn lemma_scan_from_concat(st: ScanModel, a: Seq<Seq<u8>>, b: Seq<Seq<u8>>)
    ensures
        scan_from(st, a + b) == scan_from(scan_from(st, a), b),
    decreases b.len(),
{
    if b.len() == 0 {
        assert(a + b =~= a);
    } else {
        assert((a + b).drop_last() =~= a + b.drop_last());
        assert((a + b).last() == b.last());
        lemma_scan_from_concat(st, a, b.drop_last());
    }
}

proof fn lemma_scan_from_one(st: ScanModel, l: Seq<u8>)
    ensures
        scan_from(st, seq![l]) == scan_step(st, l),
{
    assert(seq![l].drop_last() =~= Seq::<Seq<u8>>::empty());
    assert(scan_from(st, seq![l].drop_last()) == st);
    assert(seq![l].last() == l);
}

/// Outside a block, lines that open none are kept as context.
proof fn lemma_context_run(st: ScanModel, ls: Seq<Seq<u8>>)
    requires
        st.mode == ScanMode::Context,
        forall|i: int| 0 <= i < ls.len() ==> !is_marker_spec(#[trigger] ls[i], mine_open()),
    ensures
        scan_from(st, ls) == (ScanModel { context: st.context + ls, ..st }),
    decreases ls.len(),
{
    if ls.len() == 0 {
        assert(st.context + ls =~= st.context);
    } else {
        let p = ls.drop_last();
        assert forall|i: int| 0 <= i < p.len() implies !is_marker_spec(#[trigger] p[i], mine_open()) by {
            assert(p[i] == ls[i]);
        }
        lemma_context_run(st, p);
        assert(!is_marker_spec(ls[ls.len() - 1], mine_open()));
        assert((st.context + p).push(ls.last()) =~= st.context + ls);
    }
}

/// In the `mine` section, lines that are no marker of the block are
/// appended to it.
proof fn lemma_mine_run(st: ScanModel, ls: Seq<Seq<u8>>)
    requires
        st.mode == ScanMode::Mine,
        forall|i: int|
            0 <= i < ls.len() ==> !is_marker_spec(#[trigger] ls[i], base_sep()) && !is_marker_spec(
                ls[i],
                mid_sep(),
            ) && !is_marker_spec(ls[i], theirs_close()),
    ensures
        scan_from(st, ls) == (ScanModel { mine: st.mine + ls, ..st }),
    decreases ls.len(),
{
    if ls.len() == 0 {
        assert(st.mine + ls =~= st.mine);
    } else {
        let p = ls.drop_last();
        assert forall|i: int| 0 <= i < p.len() implies !is_marker_spec(#[trigger] p[i], base_sep())
            && !is_marker_spec(p[i], mid_sep()) && !is_marker_spec(p[i], theirs_close()) by {
            assert(p[i] == ls[i]);
        }
        lemma_mine_run(st, p);
        let l = ls[ls.len() - 1];
        assert(!is_marker_spec(l, base_sep()) && !is_marker_spec(l, mid_sep()) && !is_marker_spec(
            l,
            theirs_close(),
        ));
        assert((st.mine + p).push(ls.last()) =~= st.mine + ls);
    }
}

/// In the `theirs` section, lines that do not close the block are
/// appended to it.
proof fn lemma_theirs_run(st: ScanModel, ls: Seq<Seq<u8>>)
    requires
        st.mode == ScanMode::Theirs,
        forall|i: int| 0 <= i < ls.len() ==> !is_marker_spec(#[trigger] ls[i], theirs_close()),
    ensures
        scan_from(st, ls) == (ScanModel { theirs: st.theirs + ls, ..st }),
    decreases ls.len(),
{
    if ls.len() == 0 {
        assert(st.theirs + ls =~= st.theirs);
    } else {
        let p = ls.drop_last();
        assert forall|i: int| 0 <= i < p.len() implies !is_marker_spec(
            #[trigger] p[i],
            theirs_close(),
        ) by {
            assert(p[i] == ls[i]);
        }
        lemma_theirs_run(st, p);
        assert(!is_marker_spec(ls[ls.len() - 1], theirs_close()));
        assert((st.theirs + p).push(ls.last()) =~= st.theirs + ls);
    }
}

/// A line that is a `=======` marker is no `|||||||` marker.
proof fn lemma_mid_not_base(l: Seq<u8>)
    requires
        is_marker_spec(l, mid_sep()),
    ensures
        !is_marker_spec(l, base_sep()),
{
    assert(l.take(7)[0] == mid_sep()[0]);
}

/// A run of context lines as parts: none when there are no lines.
pub open spec fn context_part(ls: Seq<Seq<u8>>) -> Seq<PartModel> {
    if ls.len() > 0 {
        seq![PartModel::Context(ls)]
    } else {
        seq![]
    }
}

/// A file with one conflict block: the lines `pre`, a `<<<<<<<` line, the
/// lines `mine`, a `=======` line, the lines `theirs`, a `>>>>>>>` line and
/// the lines `post` (no line of `pre` or `post` opens a block, no line of
/// `mine` is a marker, no line of `theirs` closes the block).  It parses
/// into the context `pre`, one block whose `mine` and `theirs` sections
/// are exactly those lines, in order, with no base, and the context
/// `post`.
pub proof fn law_one_block_parses(
    raw: Seq<u8>,
    pre: Seq<Seq<u8>>,
    open: Seq<u8>,
    mine: Seq<Seq<u8>>,
    mid: Seq<u8>,
    theirs: Seq<Seq<u8>>,
    close: Seq<u8>,
    post: Seq<Seq<u8>>,
)
    requires
        content_lines(raw) == pre + seq![open] + mine + seq![mid] + theirs + seq![close] + post,
        is_marker_spec(open, mine_open()),
        is_marker_spec(mid, mid_sep()),
        is_marker_spec(close, theirs_close()),
        forall|i: int| 0 <= i < pre.len() ==> !is_marker_spec(#[trigger] pre[i], mine_open()),
        forall|i: int| 0 <= i < post.len() ==> !is_marker_spec(#[trigger] post[i], mine_open()),
        forall|i: int|
            0 <= i < mine.len() ==> !is_marker_spec(#[trigger] mine[i], base_sep())
                && !is_marker_spec(mine[i], mid_sep()) && !is_marker_spec(mine[i], theirs_close()),
        forall|i: int| 0 <= i < theirs.len() ==> !is_marker_spec(#[trigger] theirs[i], theirs_close()),
    ensures
        parse_conflict(raw) is Some,
        parse_conflict(raw).unwrap().has_markers,
        parse_conflict(raw).unwrap().parts == (context_part(pre) + seq![
            PartModel::Block(BlockModel { mine: mine, base: seq![], theirs: theirs }),
        ] + context_part(post)),
{
    let a1 = pre;
    let a2 = a1 + seq![open];
    let a3 = a2 + mine;
    let a4 = a3 + seq![mid];
    let a5 = a4 + theirs;
    let a6 = a5 + seq![close];
    let all = a6 + post;
    assert(content_lines(raw) == all);
    let s0 = scan_init();
    lemma_context_run(s0, pre);
    let s1 = scan_from(s0, a1);
    lemma_scan_from_concat(s0, a1, seq![open]);
    lemma_scan_from_one(s1, open);
    let s2 = scan_from(s0, a2);
    assert(s2 == ScanModel { mode: ScanMode::Mine, context: pre, ..s0 }) by {
        assert(s0.context + pre =~= pre);
    }
    lemma_scan_from_concat(s0, a2, mine);
    lemma_mine_run(s2, mine);
    let s3 = scan_from(s0, a3);
    assert(s3 == ScanModel { mode: ScanMode::Mine, context: pre, mine: mine, ..s0 }) by {
        assert(Seq::<Seq<u8>>::empty() + mine =~= mine);
    }
    lemma_scan_from_concat(s0, a3, seq![mid]);
    lemma_scan_from_one(s3, mid);
    lemma_mid_not_base(mid);
    let s4 = scan_from(s0, a4);
    assert(s4 == ScanModel { mode: ScanMode::Theirs, context: pre, mine: mine, ..s0 });
    lemma_scan_from_concat(s0, a4, theirs);
    lemma_theirs_run(s4, theirs);
    let s5 = scan_from(s0, a5);
    assert(s5 == ScanModel {
        mode: ScanMode::Theirs,
        context: pre,
        mine: mine,
        theirs: theirs,
        ..s0
    }) by {
        assert(Seq::<Seq<u8>>::empty() + theirs =~= theirs);
    }
    lemma_scan_from_concat(s0, a5, seq![close]);
    lemma_scan_from_one(s5, close);
    let blk = PartModel::Block(BlockModel { mine: mine, base: seq![], theirs: theirs });
    let s6 = scan_from(s0, a6);
    assert(s6 == ScanModel { parts: context_part(pre).push(blk), blocks: 1, ..s0 }) by {
        if pre.len() > 0 {
            assert(Seq::<PartModel>::empty().push(PartModel::Context(pre)) =~= context_part(pre));
        } else {
            assert(Seq::<PartModel>::empty() =~= context_part(pre));
        }
    }
    lemma_scan_from_concat(s0, a6, post);
    lemma_context_run(s6, post);
    let s7 = scan_from(s0, all);
    assert(s7 == ScanModel { parts: context_part(pre).push(blk), blocks: 1, context: post, ..s0 }) by {
        assert(Seq::<Seq<u8>>::empty() + post =~= post);
    }
    lemma_scan_is_scan_from(all);
    assert(scan(content_lines(raw)) == s7);
    let d = parse_conflict(raw).unwrap();
    if post.len() > 0 {
        assert(d.parts =~= context_part(pre) + seq![blk] + context_part(post));
    } else {
        assert(d.parts =~= context_part(pre) + seq![blk] + context_part(post));
    }
}

/// Resolving a file with one block: the lines written are the context
/// before it, then the lines of the choice (`mine`, `theirs`, `mine`
/// followed by `theirs`, or none), all of them and in order, then the
/// context after it.
pub proof fn law_one_block_resolves(
    pre: Seq<Seq<u8>>,
    b: BlockModel,
    post: Seq<Seq<u8>>,
    c: Choice,
)
    ensures
        assembled_lines(
            context_part(pre) + seq![PartModel::Block(b)] + context_part(post),
            seq![c],
            0,
        ) == (pre + match c {
            Choice::Mine => b.mine,
            Choice::Theirs => b.theirs,
            Choice::Both => b.mine + b.theirs,
            Choice::Neither => Seq::<Seq<u8>>::empty(),
        } + post),
{
    let kept = match c {
        Choice::Mine => b.mine,
        Choice::Theirs => b.theirs,
        Choice::Both => b.mine + b.theirs,
        Choice::Neither => Seq::<Seq<u8>>::empty(),
    };
    let ps = context_part(pre) + seq![PartModel::Block(b)] + context_part(post);
    let tail = context_part(post);
    assert(assembled_lines(tail, seq![c], 1) == post) by {
        if post.len() > 0 {
            assert(tail.drop_first() =~= Seq::<PartModel>::empty());
            assert(assembled_lines(tail.drop_first(), seq![c], 1) == Seq::<Seq<u8>>::empty());
            assert(tail[0] == PartModel::Context(post));
            assert(post + Seq::<Seq<u8>>::empty() =~= post);
        } else {
            assert(post =~= Seq::<Seq<u8>>::empty());
        }
    }
    let from_block = seq![PartModel::Block(b)] + tail;
    assert(from_block.drop_first() =~= tail);
    assert(assembled_lines(from_block, seq![c], 0) == kept + post);
    if pre.len() > 0 {
        assert(ps.drop_first() =~= from_block);
        assert(ps[0] == PartModel::Context(pre));
        assert(assembled_lines(ps, seq![c], 0) == pre + (kept + post));
        assert(pre + (kept + post) =~= pre + kept + post);
    } else {
        assert(ps =~= from_block);
        assert(pre + kept + post =~= kept + post);
    }
}


/// In the `base` section, lines that neither end it nor close the block
/// are appended to it.
proof fn lemma_base_run(st: ScanModel, ls: Seq<Seq<u8>>)
    requires
        st.mode == ScanMode::Base,
        forall|i: int|
            0 <= i < ls.len() ==> !is_marker_spec(#[trigger] ls[i], mid_sep()) && !is_marker_spec(
                ls[i],
                theirs_close(),
            ),
    ensures
        scan_from(st, ls) == (ScanModel { base: st.base + ls, ..st }),
    decreases ls.len(),
{
    if ls.len() == 0 {
        assert(st.base + ls =~= st.base);
    } else {
        let p = ls.drop_last();
        assert forall|i: int| 0 <= i < p.len() implies !is_marker_spec(#[trigger] p[i], mid_sep())
            && !is_marker_spec(p[i], theirs_close()) by {
            assert(p[i] == ls[i]);
        }
        lemma_base_run(st, p);
        let l = ls[ls.len() - 1];
        assert(!is_marker_spec(l, mid_sep()) && !is_marker_spec(l, theirs_close()));
        assert((st.base + p).push(ls.last()) =~= st.base + ls);
    }
}

/// A file with one three-way conflict block: as for
/// `law_one_block_parses`, with a `|||||||` line and the lines `base`
/// (none of them a `=======` or `>>>>>>>` marker) between `mine` and the
/// `=======` line.  The block's three sections are exactly those lines.
pub proof fn law_one_block_with_base_parses(
    raw: Seq<u8>,
    pre: Seq<Seq<u8>>,
    open: Seq<u8>,
    mine: Seq<Seq<u8>>,
    bsep: Seq<u8>,
    base: Seq<Seq<u8>>,
    mid: Seq<u8>,
    theirs: Seq<Seq<u8>>,
    close: Seq<u8>,
    post: Seq<Seq<u8>>,
)
    requires
        content_lines(raw) == pre + seq![open] + mine + seq![bsep] + base + seq![mid] + theirs
            + seq![close] + post,
        is_marker_spec(open, mine_open()),
        is_marker_spec(bsep, base_sep()),
        is_marker_spec(mid, mid_sep()),
        is_marker_spec(close, theirs_close()),
        forall|i: int| 0 <= i < pre.len() ==> !is_marker_spec(#[trigger] pre[i], mine_open()),
        forall|i: int| 0 <= i < post.len() ==> !is_marker_spec(#[trigger] post[i], mine_open()),
        forall|i: int|
            0 <= i < mine.len() ==> !is_marker_spec(#[trigger] mine[i], base_sep())
                && !is_marker_spec(mine[i], mid_sep()) && !is_marker_spec(mine[i], theirs_close()),
        forall|i: int|
            0 <= i < base.len() ==> !is_marker_spec(#[trigger] base[i], mid_sep())
                && !is_marker_spec(base[i], theirs_close()),
        forall|i: int| 0 <= i < theirs.len() ==> !is_marker_spec(#[trigger] theirs[i], theirs_close()),
    ensures
        parse_conflict(raw) is Some,
        parse_conflict(raw).unwrap().has_markers,
        parse_conflict(raw).unwrap().parts == (context_part(pre) + seq![
            PartModel::Block(BlockModel { mine: mine, base: base, theirs: theirs }),
        ] + context_part(post)),
{
    let a1 = pre;
    let a2 = a1 + seq![open];
    let a3 = a2 + mine;
    let a3b = a3 + seq![bsep];
    let a3c = a3b + base;
    let a4 = a3c + seq![mid];
    let a5 = a4 + theirs;
    let a6 = a5 + seq![close];
    let all = a6 + post;
    assert(content_lines(raw) == all);
    let s0 = scan_init();
    lemma_context_run(s0, pre);
    let s1 = scan_from(s0, a1);
    lemma_scan_from_concat(s0, a1, seq![open]);
    lemma_scan_from_one(s1, open);
    let s2 = scan_from(s0, a2);
    assert(s2 == ScanModel { mode: ScanMode::Mine, context: pre, ..s0 }) by {
        assert(s0.context + pre =~= pre);
    }
    lemma_scan_from_concat(s0, a2, mine);
    lemma_mine_run(s2, mine);
    let s3 = scan_from(s0, a3);
    assert(s3 == ScanModel { mode: ScanMode::Mine, context: pre, mine: mine, ..s0 }) by {
        assert(Seq::<Seq<u8>>::empty() + mine =~= mine);
    }
    lemma_scan_from_concat(s0, a3, seq![bsep]);
    lemma_scan_from_one(s3, bsep);
    let s3b = scan_from(s0, a3b);
    assert(s3b == ScanModel { mode: ScanMode::Base, context: pre, mine: mine, ..s0 });
    lemma_scan_from_concat(s0, a3b, base);
    lemma_base_run(s3b, base);
    let s3c = scan_from(s0, a3c);
    assert(s3c == ScanModel { mode: ScanMode::Base, context: pre, mine: mine, base: base, ..s0 })
        by {
        assert(Seq::<Seq<u8>>::empty() + base =~= base);
    }
    lemma_scan_from_concat(s0, a3c, seq![mid]);
    lemma_scan_from_one(s3c, mid);
    let s4 = scan_from(s0, a4);
    assert(s4 == ScanModel {
        mode: ScanMode::Theirs,
        context: pre,
        mine: mine,
        base: base,
        ..s0
    });
    lemma_scan_from_concat(s0, a4, theirs);
    lemma_theirs_run(s4, theirs);
    let s5 = scan_from(s0, a5);
    assert(s5 == ScanModel {
        mode: ScanMode::Theirs,
        context: pre,
        mine: mine,
        base: base,
        theirs: theirs,
        ..s0
    }) by {
        assert(Seq::<Seq<u8>>::empty() + theirs =~= theirs);
    }
    lemma_scan_from_concat(s0, a5, seq![close]);
    lemma_scan_from_one(s5, close);
    let blk = PartModel::Block(BlockModel { mine: mine, base: base, theirs: theirs });
    let s6 = scan_from(s0, a6);
    assert(s6 == ScanModel { parts: context_part(pre).push(blk), blocks: 1, ..s0 }) by {
        if pre.len() > 0 {
            assert(Seq::<PartModel>::empty().push(PartModel::Context(pre)) =~= context_part(pre));
        } else {
            assert(Seq::<PartModel>::empty() =~= context_part(pre));
        }
    }
    lemma_scan_from_concat(s0, a6, post);
    lemma_context_run(s6, post);
    let s7 = scan_from(s0, all);
    assert(s7 == ScanModel { parts: context_part(pre).push(blk), blocks: 1, context: post, ..s0 }) by {
        assert(Seq::<Seq<u8>>::empty() + post =~= post);
    }
    lemma_scan_is_scan_from(all);
    assert(scan(content_lines(raw)) == s7);
    let d = parse_conflict(raw).unwrap();
    assert(d.parts =~= context_part(pre) + seq![blk] + context_part(post));
}

} // verus!
