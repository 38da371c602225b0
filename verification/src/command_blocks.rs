//! Command blocks: folding the OSC 133 semantic-mark stream of a pane into
//! prompt/command/output/end records, plus the pure helpers the renderer and
//! the block palette use on them (navigation, collapsing, the overlay pass and
//! the replay sanitiser).
//!
//! Malformed streams are tolerated: `B`/`C`/`D` marks before the first `A` are
//! dropped, and a second `A` before `D` flushes the open block as still
//! running.

use vstd::prelude::*;
use crate::text::{trim, chars_of, trim_bounds, string_from_range, lemma_trim_start_at, lemma_trim_end_at, is_ws};

verus! {

/// OSC 133 mark kind.
#[derive(Clone, Copy, Debug, PartialEq, Eq, Structural)]
pub enum SemanticMarkKind {
    /// `A`: prompt start.
    PromptStart,
    /// `B`: command (user input) start.
    CommandStart,
    /// `C`: command output start.
    OutputStart,
    /// `D`: command end, carrying the exit code.
    CommandEnd,
}

/// The kind named by the single-character IPC string, if any.
pub open spec fn spec_kind_from_ipc(kind: Seq<char>) -> Option<SemanticMarkKind> {
    if kind == seq!['A'] {
        Some(SemanticMarkKind::PromptStart)
    } else if kind == seq!['B'] {
        Some(SemanticMarkKind::CommandStart)
    } else if kind == seq!['C'] {
        Some(SemanticMarkKind::OutputStart)
    } else if kind == seq!['D'] {
        Some(SemanticMarkKind::CommandEnd)
    } else {
        None
    }
}

impl SemanticMarkKind {
    /// Decode the single-character kind string received over IPC.
    pub fn from_ipc(kind: &str) -> (r: Option<Self>)
        ensures
            r == spec_kind_from_ipc(kind@),
    {
        let v = chars_of(kind);
        if v.len() != 1 {
            return None;
        }
        let c = v[0];
        assert(v@ =~= seq![c]);
        if c == 'A' {
            Some(SemanticMarkKind::PromptStart)
        } else if c == 'B' {
            Some(SemanticMarkKind::CommandStart)
        } else if c == 'C' {
            Some(SemanticMarkKind::OutputStart)
        } else if c == 'D' {
            Some(SemanticMarkKind::CommandEnd)
        } else {
            None
        }
    }
}

/// One OSC 133 mark of a pane. `row` is the scrollback-absolute row index at
/// which the mark arrived.
#[derive(Clone, Debug, PartialEq, Eq, Structural)]
pub struct SemanticMark {
    pub row: usize,
    pub kind: SemanticMarkKind,
    pub exit_code: Option<i32>,
}

/// Stable identifier of a block: pane id in the high 32 bits, the low 32 bits
/// of the prompt row in the low 32 bits.
pub type BlockId = u64;

/// The block id of `(pane_id, prompt_row)`.
pub open spec fn spec_block_id(pane_id: u32, prompt_row: usize) -> u64 {
    ((pane_id as int) * 0x1_0000_0000 + (prompt_row as u32) as int) as u64
}

/// Construct a block id from its parts.
pub fn make_block_id(pane_id: u32, prompt_row: usize) -> (id: BlockId)
    ensures
        id == spec_block_id(pane_id, prompt_row),
        id as int == (pane_id as int) * 0x1_0000_0000 + (prompt_row as u32) as int,
{
    let lo: u32 = prompt_row as u32;
    let hi: u64 = pane_id as u64;
    assert(hi * 0x1_0000_0000 <= 0xffff_ffffu64 * 0x1_0000_0000) by (nonlinear_arith)
        requires
            hi <= 0xffff_ffffu64,
    ;
    hi * 0x1_0000_0000u64 + lo as u64
}

/// A block id determines its pane and the low 32 bits of its prompt row:
/// two blocks with the same id come from the same pane and from prompt rows
/// that agree modulo 2^32.
pub proof fn lemma_block_id_decodes(pane_id: u32, prompt_row: usize)
    ensures
        spec_block_id(pane_id, prompt_row) / 0x1_0000_0000 == pane_id,
        spec_block_id(pane_id, prompt_row) % 0x1_0000_0000 == (prompt_row as u32),
{
    let lo = (prompt_row as u32) as int;
    let hi = pane_id as int;
    assert(0 <= hi * 0x1_0000_0000 <= 0xffff_ffff * 0x1_0000_0000) by (nonlinear_arith)
        requires
            0 <= hi <= 0xffff_ffff,
    ;
    let id = hi * 0x1_0000_0000 + lo;
    assert(id / 0x1_0000_0000 == hi && id % 0x1_0000_0000 == lo) by (nonlinear_arith)
        requires
            id == hi * 0x1_0000_0000 + lo,
            0 <= lo < 0x1_0000_0000,
            0 <= hi,
    ;
}

/// A logical command block.
///
/// `command_row` / `output_row` default to `prompt_row` when the matching
/// `B` / `C` mark is missing.
#[derive(Clone, Debug, PartialEq, Eq, Structural)]
pub struct CommandBlock {
    pub id: BlockId,
    pub pane_id: u32,
    pub prompt_row: usize,
    pub command_row: usize,
    pub output_row: usize,
    /// `None` while the command is still running or the shell omitted `D`.
    pub end_row: Option<usize>,
    /// `None` until `D` arrives; on `D` the shell-reported exit code.
    pub exit_code: Option<i32>,
    pub collapsed: bool,
}

impl CommandBlock {
    /// True once the closing `D` mark has been observed.
    pub fn is_complete(&self) -> (r: bool)
        ensures
            r == (self.end_row is Some),
    {
        self.end_row.is_some()
    }

    /// True when the block ended with a non-zero exit code.
    pub fn is_failure(&self) -> (r: bool)
        ensures
            r == (self.exit_code matches Some(code) && code != 0),
    {
        match self.exit_code {
            Some(code) => code != 0,
            None => false,
        }
    }
}

/// The block an `A` mark at `row` opens.
pub open spec fn opened_block(pane_id: u32, row: usize) -> CommandBlock {
    CommandBlock {
        id: spec_block_id(pane_id, row),
        pane_id,
        prompt_row: row,
        command_row: row,
        output_row: row,
        end_row: None,
        exit_code: None,
        collapsed: false,
    }
}

/// Folding one mark into `(finished blocks, open block)`.
pub open spec fn fold_step(
    pane_id: u32,
    st: (Seq<CommandBlock>, Option<CommandBlock>),
    m: SemanticMark,
) -> (Seq<CommandBlock>, Option<CommandBlock>) {
    let done = st.0;
    let cur = st.1;
    match m.kind {
        SemanticMarkKind::PromptStart => (
            match cur {
                Some(p) => done.push(p),
                None => done,
            },
            Some(opened_block(pane_id, m.row)),
        ),
        SemanticMarkKind::CommandStart => (
            done,
            match cur {
                Some(b) => Some(CommandBlock { command_row: m.row, output_row: m.row, ..b }),
                None => None,
            },
        ),
        SemanticMarkKind::OutputStart => (
            done,
            match cur {
                Some(b) => Some(CommandBlock { output_row: m.row, ..b }),
                None => None,
            },
        ),
        SemanticMarkKind::CommandEnd => match cur {
            Some(b) => (done.push(CommandBlock { end_row: Some(m.row), exit_code: m.exit_code, ..b }), None),
            None => (done, None),
        },
    }
}

/// The fold state after consuming `marks` in order.
pub open spec fn fold_marks(pane_id: u32, marks: Seq<SemanticMark>) -> (Seq<CommandBlock>, Option<CommandBlock>)
    decreases marks.len(),
{
    if marks.len() == 0 {
        (Seq::empty(), None)
    } else {
        fold_step(pane_id, fold_marks(pane_id, marks.drop_last()), marks.last())
    }
}

/// The blocks of a mark stream: the finished ones, then the still-open one.
pub open spec fn spec_extract(pane_id: u32, marks: Seq<SemanticMark>) -> Seq<CommandBlock> {
    let st = fold_marks(pane_id, marks);
    match st.1 {
        Some(b) => st.0.push(b),
        None => st.0,
    }
}

/// The row of the last `B` mark of `rest`, or `dflt` when it has none.
pub open spec fn last_command_start(rest: Seq<SemanticMark>, dflt: usize) -> usize
    decreases rest.len(),
{
    if rest.len() == 0 {
        dflt
    } else if rest.last().kind == SemanticMarkKind::CommandStart {
        rest.last().row
    } else {
        last_command_start(rest.drop_last(), dflt)
    }
}

/// The row of the last `B` or `C` mark of `rest`, or `dflt` when it has none.
pub open spec fn last_output_start(rest: Seq<SemanticMark>, dflt: usize) -> usize
    decreases rest.len(),
{
    if rest.len() == 0 {
        dflt
    } else if rest.last().kind == SemanticMarkKind::CommandStart || rest.last().kind == SemanticMarkKind::OutputStart {
        rest.last().row
    } else {
        last_output_start(rest.drop_last(), dflt)
    }
}

/// `rest` neither opens (`A`) nor closes (`D`) a block.
pub open spec fn within_block(rest: Seq<SemanticMark>) -> bool {
    forall|i: int|
        0 <= i < rest.len() ==> #[trigger] rest[i].kind != SemanticMarkKind::PromptStart && rest[i].kind
            != SemanticMarkKind::CommandEnd
}

proof fn lemma_fold_open_block(pane_id: u32, before: Seq<SemanticMark>, a: SemanticMark, rest: Seq<SemanticMark>)
    requires
        a.kind == SemanticMarkKind::PromptStart,
        within_block(rest),
    ensures
        fold_marks(pane_id, before.push(a) + rest).0 == fold_marks(pane_id, before.push(a)).0,
        fold_marks(pane_id, before.push(a) + rest).1 == Some(
            CommandBlock {
                command_row: last_command_start(rest, a.row),
                output_row: last_output_start(rest, a.row),
                ..opened_block(pane_id, a.row)
            },
        ),
    decreases rest.len(),
{
    let s = before.push(a) + rest;
    if rest.len() == 0 {
        assert(s =~= before.push(a));
        assert(before.push(a).drop_last() =~= before);
    } else {
        let r = rest.drop_last();
        assert forall|i: int| 0 <= i < r.len() implies #[trigger] r[i].kind != SemanticMarkKind::PromptStart
            && r[i].kind != SemanticMarkKind::CommandEnd by {
            assert(r[i] == rest[i]);
        }
        lemma_fold_open_block(pane_id, before, a, r);
        assert(s.drop_last() =~= before.push(a) + r);
        assert(s.last() == rest.last());
        assert(rest[rest.len() - 1] == rest.last());
        assert(before.push(a).drop_last() =~= before);
    }
}

/// What a prompt's block records while it is open: after an `A` mark
/// followed by marks that neither open nor close a block, the last block
/// extracted is the one that `A` opened, still running, with its prompt on
/// the `A` row, its command on the row of the last `B` mark after it (the
/// prompt row when there is none) and its output on the row of the last `B`
/// or `C` mark after it (likewise).
pub proof fn lemma_open_block_rows(pane_id: u32, before: Seq<SemanticMark>, a: SemanticMark, rest: Seq<SemanticMark>)
    requires
        a.kind == SemanticMarkKind::PromptStart,
        within_block(rest),
    ensures
        spec_extract(pane_id, before.push(a) + rest).len() > 0,
        spec_extract(pane_id, before.push(a) + rest).last().prompt_row == a.row,
        spec_extract(pane_id, before.push(a) + rest).last().command_row == last_command_start(rest, a.row),
        spec_extract(pane_id, before.push(a) + rest).last().output_row == last_output_start(rest, a.row),
        spec_extract(pane_id, before.push(a) + rest).last().end_row is None,
{
    lemma_fold_open_block(pane_id, before, a, rest);
}

/// What a prompt's block records once closed: after an `A` mark, marks that
/// neither open nor close a block, and a `D` mark, the last block extracted
/// is the one that `A` opened, ended on the `D` row with the `D` mark's exit
/// code, its command on the row of the last `B` mark in between (the prompt
/// row when there is none) and its output on the row of the last `B` or `C`
/// mark in between (likewise).
pub proof fn lemma_closed_block_rows(
    pane_id: u32,
    before: Seq<SemanticMark>,
    a: SemanticMark,
    rest: Seq<SemanticMark>,
    d: SemanticMark,
)
    requires
        a.kind == SemanticMarkKind::PromptStart,
        within_block(rest),
        d.kind == SemanticMarkKind::CommandEnd,
    ensures
        spec_extract(pane_id, (before.push(a) + rest).push(d)).len() > 0,
        spec_extract(pane_id, (before.push(a) + rest).push(d)).last().prompt_row == a.row,
        spec_extract(pane_id, (before.push(a) + rest).push(d)).last().command_row == last_command_start(rest, a.row),
        spec_extract(pane_id, (before.push(a) + rest).push(d)).last().output_row == last_output_start(rest, a.row),
        spec_extract(pane_id, (before.push(a) + rest).push(d)).last().end_row == Some(d.row),
        spec_extract(pane_id, (before.push(a) + rest).push(d)).last().exit_code == d.exit_code,
{
    lemma_fold_open_block(pane_id, before, a, rest);
    assert((before.push(a) + rest).push(d).drop_last() =~= before.push(a) + rest);
}

/// A prompt mark starts a new block after the ones already extracted: the
/// blocks of `marks` followed by an `A` are the blocks of `marks` (a block
/// still open stays, as running), then a fresh block whose prompt, command
/// and output rows are the `A` row, with the id of that pane and row, not
/// ended and not collapsed.
pub proof fn lemma_prompt_starts_block(pane_id: u32, marks: Seq<SemanticMark>, a: SemanticMark)
    requires
        a.kind == SemanticMarkKind::PromptStart,
    ensures
        spec_extract(pane_id, marks.push(a)).drop_last() == spec_extract(pane_id, marks),
        spec_extract(pane_id, marks.push(a)).len() == spec_extract(pane_id, marks).len() + 1,
        ({
            let b = spec_extract(pane_id, marks.push(a)).last();
            &&& b.id == spec_block_id(pane_id, a.row)
            &&& b.pane_id == pane_id
            &&& b.prompt_row == a.row && b.command_row == a.row && b.output_row == a.row
            &&& b.end_row is None && b.exit_code is None && !b.collapsed
        }),
{
    assert(marks.push(a).drop_last() =~= marks);
    let st = fold_marks(pane_id, marks);
    match st.1 {
        Some(p) => {
            assert(st.0.push(p).push(opened_block(pane_id, a.row)).drop_last() =~= st.0.push(p));
        },
        None => {
            assert(st.0.push(opened_block(pane_id, a.row)).drop_last() =~= st.0);
        },
    }
}

/// Marks outside a block are ignored: after a `D` mark closes a block (or
/// before any mark), a `B`, `C` or `D` mark changes none of the blocks.
pub proof fn lemma_stray_marks_ignored(pane_id: u32, marks: Seq<SemanticMark>, d: SemanticMark, m: SemanticMark)
    requires
        d.kind == SemanticMarkKind::CommandEnd,
        m.kind != SemanticMarkKind::PromptStart,
    ensures
        spec_extract(pane_id, marks.push(d).push(m)) == spec_extract(pane_id, marks.push(d)),
        spec_extract(pane_id, seq![m]) == Seq::<CommandBlock>::empty(),
{
    assert(marks.push(d).push(m).drop_last() =~= marks.push(d));
    assert(marks.push(d).drop_last() =~= marks);
    assert(seq![m].drop_last() =~= Seq::<SemanticMark>::empty());
    assert(seq![m].last() == m);
    let e = Seq::<SemanticMark>::empty();
    assert(fold_marks(pane_id, e) == (Seq::<CommandBlock>::empty(), None::<CommandBlock>));
    assert(fold_marks(pane_id, seq![m]) == fold_step(pane_id, fold_marks(pane_id, e), m));
    assert(spec_extract(pane_id, seq![m]) =~= Seq::<CommandBlock>::empty());
}

/// Fold a marker stream into command blocks.
///
/// `A` opens a block (flushing a still-open one as running), `B` and `C`
/// move the command/output rows of the open block, `D` closes it with its
/// exit code; marks with no open block are ignored.
pub fn extract_command_blocks(pane_id: u32, marks: &[SemanticMark]) -> (blocks: Vec<CommandBlock>)
    ensures
        blocks@ == spec_extract(pane_id, marks@),
{
    let mut blocks: Vec<CommandBlock> = Vec::new();
    let mut current: Option<CommandBlock> = None;
    let n = marks.len();
    for i in 0..n
        invariant
            n == marks@.len(),
            (blocks@, current) == fold_marks(pane_id, marks@.take(i as int)),
    {
        let m = &marks[i];
        proof {
            assert(marks@.take(i + 1).drop_last() =~= marks@.take(i as int));
            assert(marks@.take(i + 1).last() == marks@[i as int]);
        }
        match m.kind {
            SemanticMarkKind::PromptStart => {
                match current {
                    Some(prev) => {
                        blocks.push(prev);
                    },
                    None => {},
                }
                let id = make_block_id(pane_id, m.row);
                current = Some(
                    CommandBlock {
                        id,
                        pane_id,
                        prompt_row: m.row,
                        command_row: m.row,
                        output_row: m.row,
                        end_row: None,
                        exit_code: None,
                        collapsed: false,
                    },
                );
            },
            SemanticMarkKind::CommandStart => {
                current = match current {
                    Some(b) => Some(CommandBlock { command_row: m.row, output_row: m.row, ..b }),
                    None => None,
                };
            },
            SemanticMarkKind::OutputStart => {
                current = match current {
                    Some(b) => Some(CommandBlock { output_row: m.row, ..b }),
                    None => None,
                };
            },
            SemanticMarkKind::CommandEnd => {
                match current {
                    Some(b) => {
                        blocks.push(CommandBlock { end_row: Some(m.row), exit_code: m.exit_code, ..b });
                    },
                    None => {},
                }
                current = None;
            },
        }
    }
    proof {
        assert(marks@.take(n as int) =~= marks@);
    }
    match current {
        Some(b) => {
            blocks.push(b);
        },
        None => {},
    }
    blocks
}

/// Number of `A` marks in `marks`.
pub open spec fn count_prompts(marks: Seq<SemanticMark>) -> nat
    decreases marks.len(),
{
    if marks.len() == 0 {
        0
    } else {
        count_prompts(marks.drop_last()) + if marks.last().kind == SemanticMarkKind::PromptStart {
            1nat
        } else {
            0nat
        }
    }
}

/// Invariant of the fold: every block (finished or open) was opened by an
/// `A` mark of `pane_id`, so its id is derived from its pane and prompt row,
/// and the finished blocks plus the open one are as many as the `A` marks.
pub open spec fn fold_inv(pane_id: u32, marks: Seq<SemanticMark>) -> bool {
    let st = fold_marks(pane_id, marks);
    &&& st.0.len() + (if st.1 is Some { 1nat } else { 0nat }) == count_prompts(marks)
    &&& forall|i: int| 0 <= i < st.0.len() ==> block_well_formed(pane_id, #[trigger] st.0[i])
    &&& (st.1 matches Some(b) ==> block_well_formed(pane_id, b) && b.end_row is None)
}

/// A block of pane `pane_id` carries that pane and the id of its prompt row,
/// and starts out expanded.
pub open spec fn block_well_formed(pane_id: u32, b: CommandBlock) -> bool {
    &&& b.pane_id == pane_id
    &&& b.id == spec_block_id(pane_id, b.prompt_row)
    &&& !b.collapsed
}

proof fn lemma_fold_inv(pane_id: u32, marks: Seq<SemanticMark>)
    ensures
        fold_inv(pane_id, marks),
    decreases marks.len(),
{
    if marks.len() > 0 {
        lemma_fold_inv(pane_id, marks.drop_last());
        let prev = fold_marks(pane_id, marks.drop_last());
        let st = fold_marks(pane_id, marks);
        assert forall|i: int| 0 <= i < st.0.len() implies block_well_formed(pane_id, #[trigger] st.0[i]) by {
            if i < prev.0.len() {
                assert(st.0[i] == prev.0[i]);
            }
        }
    }
}

/// Extraction yields exactly one block per `A` mark, each tagged with the
/// pane and with the id of its prompt row, none of them collapsed, and only
/// the last one may still be running while later marks were ignored.
pub proof fn lemma_extract_one_block_per_prompt(pane_id: u32, marks: Seq<SemanticMark>)
    ensures
        spec_extract(pane_id, marks).len() == count_prompts(marks),
        forall|i: int|
            0 <= i < spec_extract(pane_id, marks).len() ==> block_well_formed(
                pane_id,
                #[trigger] spec_extract(pane_id, marks)[i],
            ),
{
    lemma_fold_inv(pane_id, marks);
    let st = fold_marks(pane_id, marks);
    let r = spec_extract(pane_id, marks);
    assert forall|i: int| 0 <= i < r.len() implies block_well_formed(pane_id, #[trigger] r[i]) by {
        if i < st.0.len() {
            assert(r[i] == st.0[i]);
        }
    }
}

/// Index of the first block with id `id`, if any.
pub open spec fn spec_position(blocks: Seq<CommandBlock>, id: BlockId) -> Option<int>
    decreases blocks.len(),
{
    if blocks.len() == 0 {
        None
    } else if blocks[0].id == id {
        Some(0)
    } else {
        match spec_position(blocks.drop_first(), id) {
            Some(i) => Some(i + 1),
            None => None,
        }
    }
}

proof fn lemma_position(blocks: Seq<CommandBlock>, id: BlockId)
    ensures
        match spec_position(blocks, id) {
            Some(i) => 0 <= i < blocks.len() && blocks[i].id == id && forall|j: int|
                0 <= j < i ==> #[trigger] blocks[j].id != id,
            None => forall|j: int| 0 <= j < blocks.len() ==> #[trigger] blocks[j].id != id,
        },
    decreases blocks.len(),
{
    if blocks.len() > 0 {
        let t = blocks.drop_first();
        lemma_position(t, id);
        assert forall|j: int| 1 <= j < blocks.len() implies #[trigger] blocks[j] == t[j - 1] by {}
    }
}

/// Position of the first block with id `id`.
fn position_of(blocks: &[CommandBlock], id: BlockId) -> (r: Option<usize>)
    ensures
        match r {
            Some(i) => spec_position(blocks@, id) == Some(i as int),
            None => spec_position(blocks@, id) is None,
        },
        match r {
            Some(i) => i < blocks@.len() && blocks@[i as int].id == id && forall|j: int|
                0 <= j < i ==> #[trigger] blocks@[j].id != id,
            None => forall|j: int| 0 <= j < blocks@.len() ==> #[trigger] blocks@[j].id != id,
        },
{
    proof {
        lemma_position(blocks@, id);
    }
    let n = blocks.len();
    for i in 0..n
        invariant
            n == blocks@.len(),
            forall|j: int| 0 <= j < i ==> #[trigger] blocks@[j].id != id,
            match spec_position(blocks@, id) {
                Some(k) => 0 <= k < blocks@.len() && blocks@[k].id == id && forall|j: int|
                    0 <= j < k ==> #[trigger] blocks@[j].id != id,
                None => forall|j: int| 0 <= j < blocks@.len() ==> #[trigger] blocks@[j].id != id,
            },
    {
        if blocks[i].id == id {
            return Some(i);
        }
    }
    None
}

/// Find the first block with id `id`.
pub fn find_block_by_id(blocks: &[CommandBlock], id: BlockId) -> (r: Option<&CommandBlock>)
    ensures
        match spec_position(blocks@, id) {
            Some(i) => r == Some(&blocks@[i]),
            None => r is None,
        },
        r matches Some(b) ==> b.id == id,
{
    match position_of(blocks, id) {
        Some(i) => Some(&blocks[i]),
        None => None,
    }
}

/// Whether block `b` hides `row` when collapsed: it is collapsed, finished,
/// and `row` lies within its prompt..=end range.
pub open spec fn collapse_covers(b: CommandBlock, row: usize) -> bool {
    &&& b.collapsed
    &&& b.end_row is Some
    &&& b.prompt_row <= row <= b.end_row->0
}

/// The first block covering `row` decides: the row is elided unless it is
/// that block's prompt row or first output row.
pub open spec fn spec_row_collapsed(blocks: Seq<CommandBlock>, row: usize) -> bool
    decreases blocks.len(),
{
    if blocks.len() == 0 {
        false
    } else if collapse_covers(blocks[0], row) {
        row != blocks[0].prompt_row && row != blocks[0].output_row
    } else {
        spec_row_collapsed(blocks.drop_first(), row)
    }
}

/// Whether `abs_row` sits inside a collapsed, finished block and is not its
/// prompt row or first output row.
pub fn is_row_collapsed(blocks: &[CommandBlock], abs_row: usize) -> (r: bool)
    ensures
        r == spec_row_collapsed(blocks@, abs_row),
{
    let n = blocks.len();
    assert(blocks@.skip(0) =~= blocks@);
    for i in 0..n
        invariant
            n == blocks@.len(),
            spec_row_collapsed(blocks@, abs_row) == spec_row_collapsed(blocks@.skip(i as int), abs_row),
    {
        let b = &blocks[i];
        proof {
            let t = blocks@.skip(i as int);
            assert(t[0] == blocks@[i as int]);
            assert(t.drop_first() =~= blocks@.skip(i + 1));
        }
        if b.collapsed {
            match b.end_row {
                Some(end) => {
                    if b.prompt_row <= abs_row && abs_row <= end {
                        return abs_row != b.prompt_row && abs_row != b.output_row;
                    }
                },
                None => {},
            }
        }
    }
    proof {
        assert(blocks@.skip(n as int).len() == 0);
    }
    false
}

/// The block after `current` (`None` means the first), by first position of
/// the id.
pub open spec fn spec_next_block_id(blocks: Seq<CommandBlock>, current: Option<BlockId>) -> Option<BlockId> {
    match current {
        None => if blocks.len() > 0 {
            Some(blocks[0].id)
        } else {
            None
        },
        Some(id) => match spec_position(blocks, id) {
            Some(i) => if i + 1 < blocks.len() {
                Some(blocks[i + 1].id)
            } else {
                None
            },
            None => None,
        },
    }
}

/// The block before `current` (`None` means the last), by first position of
/// the id.
pub open spec fn spec_prev_block_id(blocks: Seq<CommandBlock>, current: Option<BlockId>) -> Option<BlockId> {
    match current {
        None => if blocks.len() > 0 {
            Some(blocks.last().id)
        } else {
            None
        },
        Some(id) => match spec_position(blocks, id) {
            Some(i) => if i > 0 {
                Some(blocks[i - 1].id)
            } else {
                None
            },
            None => None,
        },
    }
}

/// The id of the block after `current` (`None` → the first block), or `None`
/// at the end or when `current` is unknown.
pub fn next_block_id(blocks: &[CommandBlock], current: Option<BlockId>) -> (r: Option<BlockId>)
    ensures
        r == spec_next_block_id(blocks@, current),
{
    match current {
        None => {
            if blocks.len() > 0 {
                Some(blocks[0].id)
            } else {
                None
            }
        },
        Some(id) => {
            match position_of(blocks, id) {
                Some(idx) => {
                    if idx < blocks.len() - 1 {
                        Some(blocks[idx + 1].id)
                    } else {
                        None
                    }
                },
                None => None,
            }
        },
    }
}

/// The id of the block before `current` (`None` → the last block), or `None`
/// at the start or when `current` is unknown.
pub fn prev_block_id(blocks: &[CommandBlock], current: Option<BlockId>) -> (r: Option<BlockId>)
    ensures
        r == spec_prev_block_id(blocks@, current),
{
    match current {
        None => {
            if blocks.len() > 0 {
                Some(blocks[blocks.len() - 1].id)
            } else {
                None
            }
        },
        Some(id) => {
            match position_of(blocks, id) {
                Some(idx) => {
                    if idx == 0 {
                        None
                    } else {
                        Some(blocks[idx - 1].id)
                    }
                },
                None => None,
            }
        },
    }
}

/// Block ids are unique in `blocks`.
pub open spec fn ids_unique(blocks: Seq<CommandBlock>) -> bool {
    forall|i: int, j: int| 0 <= i < j < blocks.len() ==> blocks[i].id != blocks[j].id
}

proof fn lemma_position_unique(blocks: Seq<CommandBlock>, k: int)
    requires
        ids_unique(blocks),
        0 <= k < blocks.len(),
    ensures
        spec_position(blocks, blocks[k].id) == Some(k),
{
    lemma_position(blocks, blocks[k].id);
    match spec_position(blocks, blocks[k].id) {
        Some(i) => {
            if i < k {
                assert(blocks[i].id != blocks[k].id);
            } else if i > k {
                assert(blocks[k].id != blocks[k].id);
            }
        },
        None => {
            assert(blocks[k].id != blocks[k].id);
        },
    }
}

/// With unique ids, stepping forward then back (or back then forward)
/// returns to the starting block, and from no selection the first and last
/// blocks are reached.
pub proof fn lemma_navigation_round_trip(blocks: Seq<CommandBlock>, k: int)
    requires
        ids_unique(blocks),
        0 <= k < blocks.len(),
    ensures
        k + 1 < blocks.len() ==> spec_prev_block_id(
            blocks,
            spec_next_block_id(blocks, Some(blocks[k].id)),
        ) == Some(blocks[k].id),
        k > 0 ==> spec_next_block_id(blocks, spec_prev_block_id(blocks, Some(blocks[k].id)))
            == Some(blocks[k].id),
        spec_next_block_id(blocks, None) == Some(blocks[0].id),
        spec_prev_block_id(blocks, None) == Some(blocks.last().id),
        k + 1 == blocks.len() ==> spec_next_block_id(blocks, Some(blocks[k].id)) is None,
        k == 0 ==> spec_prev_block_id(blocks, Some(blocks[k].id)) is None,
{
    lemma_position_unique(blocks, k);
    if k + 1 < blocks.len() {
        lemma_position_unique(blocks, k + 1);
    }
    if k > 0 {
        lemma_position_unique(blocks, k - 1);
    }
}

/// Visual status of a block.
#[derive(Clone, Copy, Debug, PartialEq, Eq, Structural)]
pub enum BlockStatus {
    /// No `D` mark yet, or `D` arrived without an exit code.
    Running,
    /// Ended with exit code `0`.
    Success,
    /// Ended with a non-zero exit code.
    Failure,
}

pub open spec fn spec_status(block: CommandBlock) -> BlockStatus {
    match (block.end_row, block.exit_code) {
        (None, _) => BlockStatus::Running,
        (Some(_), None) => BlockStatus::Running,
        (Some(_), Some(code)) => if code == 0 {
            BlockStatus::Success
        } else {
            BlockStatus::Failure
        },
    }
}

impl BlockStatus {
    /// Derive the status of a block from its end row and exit code.
    pub fn of(block: &CommandBlock) -> (r: Self)
        ensures
            r == spec_status(*block),
    {
        match (block.end_row, block.exit_code) {
            (None, _) => BlockStatus::Running,
            (Some(_), None) => BlockStatus::Running,
            (Some(_), Some(code)) => if code == 0 {
                BlockStatus::Success
            } else {
                BlockStatus::Failure
            },
        }
    }
}

/// One block's contribution to the renderer overlay pass, in grid rows
/// relative to the top of the viewport (negative when the block starts above
/// it). `visual_row_end` is inclusive.
#[derive(Clone, Debug, PartialEq, Eq, Structural)]
pub struct BlockOverlayLine {
    pub block_id: BlockId,
    pub visual_row_start: i32,
    pub visual_row_end: i32,
    pub status: BlockStatus,
    pub selected: bool,
    /// Grid row of the prompt, `None` when it sits above the viewport.
    pub prompt_visual_row: Option<i32>,
}

/// Last viewport row (inclusive), saturating at both ends.
pub open spec fn viewport_end_inclusive(visible_top: usize, visible_rows: u16) -> usize {
    visible_top.saturating_add(visible_rows as usize).saturating_sub(1)
}

/// A block ends on its `D` row; a running block reaches the viewport bottom.
pub open spec fn overlay_block_end(b: CommandBlock, visible_top: usize, visible_rows: u16) -> usize {
    match b.end_row {
        Some(e) => e,
        None => viewport_end_inclusive(visible_top, visible_rows),
    }
}

/// Whether block `b` overlaps the viewport.
pub open spec fn overlaps_viewport(b: CommandBlock, visible_top: usize, visible_rows: u16) -> bool {
    &&& overlay_block_end(b, visible_top, visible_rows) >= visible_top
    &&& b.prompt_row < visible_top.saturating_add(visible_rows as usize)
}

/// The signed grid row of absolute row `row` (the `as i32` casts truncate).
pub open spec fn grid_row(row: usize, visible_top: usize) -> int {
    (row as i32) - (visible_top as i32)
}

pub open spec fn fits_i32(x: int) -> bool {
    i32::MIN <= x <= i32::MAX
}

/// The grid coordinates of an overlapping block fit in `i32`.
pub open spec fn overlay_fits(b: CommandBlock, visible_top: usize, visible_rows: u16) -> bool {
    &&& fits_i32(grid_row(b.prompt_row, visible_top))
    &&& fits_i32(grid_row(overlay_block_end(b, visible_top, visible_rows), visible_top))
}

/// The overlay line of block `b`.
pub open spec fn overlay_line(
    b: CommandBlock,
    selected_block: Option<BlockId>,
    visible_top: usize,
    visible_rows: u16,
) -> BlockOverlayLine {
    BlockOverlayLine {
        block_id: b.id,
        visual_row_start: grid_row(b.prompt_row, visible_top) as i32,
        visual_row_end: grid_row(overlay_block_end(b, visible_top, visible_rows), visible_top) as i32,
        status: spec_status(b),
        selected: selected_block == Some(b.id),
        prompt_visual_row: if b.prompt_row >= visible_top {
            Some(grid_row(b.prompt_row, visible_top) as i32)
        } else {
            None
        },
    }
}

/// The overlay lines of the blocks that overlap the viewport, in block order.
pub open spec fn overlay_lines(
    blocks: Seq<CommandBlock>,
    selected_block: Option<BlockId>,
    visible_top: usize,
    visible_rows: u16,
) -> Seq<BlockOverlayLine>
    decreases blocks.len(),
{
    if blocks.len() == 0 {
        Seq::empty()
    } else {
        let prev = overlay_lines(blocks.drop_last(), selected_block, visible_top, visible_rows);
        if overlaps_viewport(blocks.last(), visible_top, visible_rows) {
            prev.push(overlay_line(blocks.last(), selected_block, visible_top, visible_rows))
        } else {
            prev
        }
    }
}

/// The overlay of the whole pass: nothing on a zero-row viewport.
pub open spec fn spec_overlay(
    blocks: Seq<CommandBlock>,
    selected_block: Option<BlockId>,
    visible_top: usize,
    visible_rows: u16,
) -> Seq<BlockOverlayLine> {
    if visible_rows == 0 {
        Seq::empty()
    } else {
        overlay_lines(blocks, selected_block, visible_top, visible_rows)
    }
}

/// Map block records onto the visible grid window.
///
/// `visible_top` is the absolute row at the top of the viewport and
/// `visible_rows` its height. Only overlapping blocks produce a line; a
/// running block extends to the bottom of the viewport.
pub fn compute_block_overlay_lines(
    blocks: &[CommandBlock],
    selected_block: Option<BlockId>,
    visible_top: usize,
    visible_rows: u16,
) -> (lines: Vec<BlockOverlayLine>)
    requires
        visible_rows == 0 || forall|i: int|
            0 <= i < blocks@.len() && overlaps_viewport(#[trigger] blocks@[i], visible_top, visible_rows)
                ==> overlay_fits(blocks@[i], visible_top, visible_rows),
    ensures
        lines@ == spec_overlay(blocks@, selected_block, visible_top, visible_rows),
{
    let mut lines: Vec<BlockOverlayLine> = Vec::new();
    if visible_rows == 0 {
        return lines;
    }
    let viewport_end_exclusive = visible_top.saturating_add(visible_rows as usize);
    let viewport_end_incl = viewport_end_exclusive.saturating_sub(1);
    let n = blocks.len();
    for i in 0..n
        invariant
            n == blocks@.len(),
            visible_rows != 0,
            viewport_end_exclusive == visible_top.saturating_add(visible_rows as usize),
            viewport_end_incl == viewport_end_inclusive(visible_top, visible_rows),
            forall|i: int|
                0 <= i < blocks@.len() && overlaps_viewport(#[trigger] blocks@[i], visible_top, visible_rows)
                    ==> overlay_fits(blocks@[i], visible_top, visible_rows),
            lines@ == overlay_lines(blocks@.take(i as int), selected_block, visible_top, visible_rows),
    {
        let b = &blocks[i];
        proof {
            assert(blocks@.take(i + 1).drop_last() =~= blocks@.take(i as int));
            assert(blocks@.take(i + 1).last() == blocks@[i as int]);
        }
        let block_start = b.prompt_row;
        let block_end = match b.end_row {
            Some(e) => e,
            None => viewport_end_incl,
        };
        if block_end < visible_top {
        } else if block_start >= viewport_end_exclusive {
        } else {
            let top_i: i32 = visible_top as i32;
            let start_i: i32 = block_start as i32;
            let end_i: i32 = block_end as i32;
            let visual_row_start = start_i - top_i;
            let visual_row_end = end_i - top_i;
            let prompt_visual_row = if block_start >= visible_top {
                Some(start_i - top_i)
            } else {
                None
            };
            let selected = match selected_block {
                Some(s) => s == b.id,
                None => false,
            };
            lines.push(
                BlockOverlayLine {
                    block_id: b.id,
                    visual_row_start,
                    visual_row_end,
                    status: BlockStatus::of(b),
                    selected,
                    prompt_visual_row,
                },
            );
        }
    }
    proof {
        assert(blocks@.take(n as int) =~= blocks@);
    }
    lines
}

/// A character that may not appear in a replayed command: C0 controls other
/// than tab (so ESC, BEL, CR and LF among them), DEL, and the C1 control CSI
/// (`U+009B`).
pub open spec fn is_unsafe_char(c: char) -> bool {
    let u = c as u32;
    (u < 0x20 && u != 0x09) || u == 0x7f || u == 0x9b
}

/// What replaying `raw` may inject: `raw` trimmed of whitespace, provided it
/// is non-empty and holds no unsafe character.
pub open spec fn spec_sanitize(raw: Seq<char>) -> Option<Seq<char>> {
    let t = trim(raw);
    if t.len() == 0 {
        None
    } else if exists|i: int| 0 <= i < t.len() && is_unsafe_char(#[trigger] t[i]) {
        None
    } else {
        Some(t)
    }
}

/// Strip a candidate replay command of anything unsafe to re-inject into a
/// PTY: trims whitespace and rejects empty results and anything holding ESC,
/// BEL, CSI (`U+009B`), DEL, or another C0 control other than tab (which also
/// rejects embedded newlines). Other text, UTF-8 of any script included,
/// passes.
pub fn sanitize_replay_command(raw: &str) -> (r: Option<String>)
    ensures
        match spec_sanitize(raw@) {
            Some(t) => r matches Some(s) && s@ == t,
            None => r is None,
        },
{
    let v = chars_of(raw);
    let (a, b) = trim_bounds(&v);
    if a == b {
        return None;
    }
    let ghost t = trim(raw@);
    assert(v@.subrange(a as int, b as int) == t);
    let mut i: usize = a;
    while i < b
        invariant
            a <= i <= b,
            b <= v@.len(),
            v@.subrange(a as int, b as int) == t,
            t == trim(raw@),
            forall|j: int| 0 <= j < i - a ==> !is_unsafe_char(#[trigger] t[j]),
        decreases b - i,
    {
        let c = v[i];
        let u = c as u32;
        assert(t[i - a] == c);
        if (u < 0x20 && u != 0x09) || u == 0x7f || u == 0x9b {
            assert(is_unsafe_char(t[i - a]));
            assert(t.len() == b - a);
            return None;
        }
        i = i + 1;
    }
    Some(string_from_range(&v, a, b))
}

/// Sanitising is idempotent: a sanitised command sanitises to itself.
pub proof fn lemma_sanitize_idempotent(raw: Seq<char>)
    requires
        spec_sanitize(raw) is Some,
    ensures
        spec_sanitize(spec_sanitize(raw)->0) == spec_sanitize(raw),
{
    let t = trim(raw);
    lemma_trim_is_fixed_point(raw);
    assert(trim(t) == t);
}

/// Trimming an already trimmed sequence changes nothing.
pub proof fn lemma_trim_is_fixed_point(s: Seq<char>)
    ensures
        trim(trim(s)) == trim(s),
{
    let v = s;
    let t = trim(s);
    lemma_trim_shape(s);
    if t.len() > 0 {
        lemma_trim_start_at(t, 0);
        assert(t.subrange(0, t.len() as int) =~= t);
        lemma_trim_end_at(t, t.len() as int);
    } else {
        assert(trim(t) =~= t);
    }
}

/// The trimmed sequence neither starts nor ends with whitespace.
pub proof fn lemma_trim_shape(s: Seq<char>)
    ensures
        trim(s).len() > 0 ==> !is_ws(trim(s)[0]) && !is_ws(trim(s).last()),
    decreases s.len(),
{
    lemma_trim_start_shape(s);
    lemma_trim_end_shape(crate::text::trim_start(s));
}

proof fn lemma_trim_start_shape(s: Seq<char>)
    ensures
        crate::text::trim_start(s).len() > 0 ==> !is_ws(crate::text::trim_start(s)[0]),
    decreases s.len(),
{
    if s.len() > 0 && is_ws(s[0]) {
        lemma_trim_start_shape(s.drop_first());
    }
}

proof fn lemma_trim_end_shape(s: Seq<char>)
    ensures
        crate::text::trim_end(s).len() > 0 ==> !is_ws(crate::text::trim_end(s).last()),
        crate::text::trim_end(s).len() > 0 && s.len() > 0 && !is_ws(s[0]) ==> !is_ws(
            crate::text::trim_end(s)[0],
        ),
        crate::text::trim_end(s).len() <= s.len(),
        forall|i: int| 0 <= i < crate::text::trim_end(s).len() ==> crate::text::trim_end(s)[i] == s[i],
    decreases s.len(),
{
    if s.len() > 0 && is_ws(s.last()) {
        let d = s.drop_last();
        lemma_trim_end_shape(d);
        let te = crate::text::trim_end(s);
        assert forall|i: int| 0 <= i < te.len() implies te[i] == s[i] by {
            assert(te[i] == d[i]);
        }
    }
}

/// A sanitised replay command is non-empty, already trimmed, and free of C0
/// controls (other than tab), DEL and CSI, so in particular of ESC, BEL, CR
/// and LF.
pub proof fn lemma_sanitized_is_safe(raw: Seq<char>)
    requires
        spec_sanitize(raw) is Some,
    ensures
        ({
            let t = spec_sanitize(raw)->0;
            &&& t.len() > 0
            &&& trim(t) == t
            &&& forall|i: int| 0 <= i < t.len() ==> !is_unsafe_char(#[trigger] t[i])
        }),
{
    lemma_trim_is_fixed_point(raw);
}

} // verus!
