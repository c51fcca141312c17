//! Extracting source code out of a free-form model response.
//!
//! The response is walked line by line. A line whose trimmed form starts
//! with three backticks opens a fenced block and carries an optional
//! language tag; a trimmed line of exactly three backticks closes it.
//! Blocks tagged with the target language are preferred, untagged blocks
//! are the fallback, and a response without usable blocks is returned
//! verbatim.

use vstd::prelude::*;

use crate::model::ci_eq;
use crate::text::{chars_of, spec_lines, spec_trim, split_lines, string_of, trim};

verus! {

/// How a fenced block is tagged: with the target language, with nothing,
/// or with some other language.
#[derive(Debug, Clone, Copy, PartialEq, Eq, Structural)]
pub enum BlockKind {
    Target,
    Plain,
    Other,
}

/// Scanner state: outside any fenced block, or inside one with the
/// content collected so far.
pub enum ScanState {
    Out,
    In(BlockKind, Seq<char>),
}

/// Everything the line scanner has produced: committed target-tagged and
/// untagged blocks, and the state it stopped in.
pub struct ScanEnd {
    pub target: Seq<Seq<char>>,
    pub plain: Seq<Seq<char>>,
    pub st: ScanState,
}

/// Number of leading backticks of `t`.
pub open spec fn leading_backticks(t: Seq<char>) -> int
    decreases t.len(),
{
    if t.len() > 0 && t[0] == '`' {
        1 + leading_backticks(t.drop_first())
    } else {
        0
    }
}

/// The language tag of a fence-opening line: present when the trimmed
/// line starts with three backticks, and holding what follows the
/// leading backticks, trimmed.
pub open spec fn fence_tag(line: Seq<char>) -> Option<Seq<char>> {
    let t = spec_trim(line);
    if t.len() >= 3 && t[0] == '`' && t[1] == '`' && t[2] == '`' {
        Some(spec_trim(t.skip(leading_backticks(t))))
    } else {
        None
    }
}

/// The kind of block a tag opens; the target language is named `rust`
/// or, by its conventional short tag, `rs`, compared case-insensitively.
pub open spec fn kind_of_tag(tag: Seq<char>) -> BlockKind {
    if ci_eq(tag, "rust"@) || ci_eq(tag, "rs"@) {
        BlockKind::Target
    } else if tag.len() == 0 {
        BlockKind::Plain
    } else {
        BlockKind::Other
    }
}

/// A closing fence is a trimmed line of exactly three backticks.
pub open spec fn is_close(line: Seq<char>) -> bool {
    spec_trim(line) == seq!['`', '`', '`']
}

/// Appends a content line to a block: lines are joined with a newline,
/// and a line appended to an empty block leaves no leading newline.
pub open spec fn block_push(acc: Seq<char>, line: Seq<char>) -> Seq<char> {
    if acc.len() == 0 {
        line
    } else {
        acc + seq!['\n'] + line
    }
}

/// The scanner: walks the lines, committing a block when its closing
/// fence arrives.
pub open spec fn scan(
    lines: Seq<Seq<char>>,
    st: ScanState,
    target: Seq<Seq<char>>,
    plain: Seq<Seq<char>>,
) -> ScanEnd
    decreases lines.len(),
{
    if lines.len() == 0 {
        ScanEnd { target, plain, st }
    } else {
        let l = lines[0];
        let rest = lines.drop_first();
        match st {
            ScanState::Out => match fence_tag(l) {
                Some(tag) => scan(rest, ScanState::In(kind_of_tag(tag), Seq::empty()), target, plain),
                None => scan(rest, ScanState::Out, target, plain),
            },
            ScanState::In(k, acc) => if is_close(l) {
                match k {
                    BlockKind::Target => scan(rest, ScanState::Out, target.push(acc), plain),
                    BlockKind::Plain => scan(rest, ScanState::Out, target, plain.push(acc)),
                    BlockKind::Other => scan(rest, ScanState::Out, target, plain),
                }
            } else {
                scan(rest, ScanState::In(k, block_push(acc, l)), target, plain)
            },
        }
    }
}

/// The scan of a whole response.
pub open spec fn scan_response(s: Seq<char>) -> ScanEnd {
    scan(spec_lines(s), ScanState::Out, Seq::empty(), Seq::empty())
}

/// The target-tagged blocks of a response, an unclosed trailing one with
/// content included.
pub open spec fn target_blocks(s: Seq<char>) -> Seq<Seq<char>> {
    let e = scan_response(s);
    match e.st {
        ScanState::In(BlockKind::Target, acc) => if acc.len() > 0 {
            e.target.push(acc)
        } else {
            e.target
        },
        _ => e.target,
    }
}

/// The untagged blocks of a response, an unclosed trailing one with
/// content included.
pub open spec fn plain_blocks(s: Seq<char>) -> Seq<Seq<char>> {
    let e = scan_response(s);
    match e.st {
        ScanState::In(BlockKind::Plain, acc) => if acc.len() > 0 {
            e.plain.push(acc)
        } else {
            e.plain
        },
        _ => e.plain,
    }
}

/// Blocks concatenated in source order, separated by one blank line.
pub open spec fn join_blank(blocks: Seq<Seq<char>>) -> Seq<char>
    decreases blocks.len(),
{
    if blocks.len() == 0 {
        Seq::empty()
    } else if blocks.len() == 1 {
        blocks[0]
    } else {
        join_blank(blocks.drop_last()) + seq!['\n', '\n'] + blocks.last()
    }
}

/// What the extractor returns: the target-tagged blocks when any exist,
/// else the untagged blocks, else the response verbatim.
pub open spec fn spec_extract(s: Seq<char>) -> Seq<char> {
    let target = target_blocks(s);
    let plain = plain_blocks(s);
    if target.len() > 0 {
        join_blank(target)
    } else if plain.len() > 0 {
        join_blank(plain)
    } else {
        s
    }
}

/// Does the trimmed line start with three backticks?
fn is_fence_start(trimmed: &Vec<char>) -> (r: bool)
    ensures
        r == (trimmed@.len() >= 3 && trimmed@[0] == '`' && trimmed@[1] == '`' && trimmed@[2]
            == '`'),
{
    trimmed.len() >= 3 && trimmed[0] == '`' && trimmed[1] == '`' && trimmed[2] == '`'
}

/// The kind of block that a fence-opening line opens.
fn open_kind(trimmed: &Vec<char>) -> (r: BlockKind)
    requires
        trimmed@.len() >= 3,
        trimmed@[0] == '`',
        spec_trim(trimmed@) == trimmed@,
    ensures
        r == kind_of_tag(spec_trim(trimmed@.skip(leading_backticks(trimmed@)))),
{
    let mut i: usize = 0;
    proof {
        assert(trimmed@.skip(0) =~= trimmed@);
    }
    while i < trimmed.len() && trimmed[i] == '`'
        invariant
            i <= trimmed@.len(),
            leading_backticks(trimmed@) == i + leading_backticks(trimmed@.skip(i as int)),
            forall|j: int| 0 <= j < i ==> trimmed@[j] == '`',
        decreases trimmed@.len() - i,
    {
        proof {
            assert(trimmed@.skip(i as int)[0] == trimmed@[i as int]);
            assert(trimmed@.skip(i as int).drop_first() =~= trimmed@.skip(i as int + 1));
        }
        i = i + 1;
    }
    proof {
        if i < trimmed@.len() {
            assert(trimmed@.skip(i as int)[0] == trimmed@[i as int]);
        }
        assert(leading_backticks(trimmed@.skip(i as int)) == 0);
        assert(leading_backticks(trimmed@) == i);
    }
    let mut after: Vec<char> = Vec::new();
    let mut j: usize = i;
    while j < trimmed.len()
        invariant
            i <= j <= trimmed@.len(),
            after@ == trimmed@.subrange(i as int, j as int),
        decreases trimmed@.len() - j,
    {
        after.push(trimmed[j]);
        j = j + 1;
    }
    proof {
        assert(after@ =~= trimmed@.skip(i as int));
    }
    let tag = trim(&after);
    if crate::model::eq_ignore_case(&tag, "rust") || crate::model::eq_ignore_case(&tag, "rs") {
        BlockKind::Target
    } else if tag.len() == 0 {
        BlockKind::Plain
    } else {
        BlockKind::Other
    }
}

/// Is the trimmed line exactly three backticks?
fn is_close_line(trimmed: &Vec<char>) -> (r: bool)
    ensures
        r == (trimmed@ == seq!['`', '`', '`']),
{
    let r = trimmed.len() == 3 && trimmed[0] == '`' && trimmed[1] == '`' && trimmed[2] == '`';
    proof {
        if r {
            assert(trimmed@ =~= seq!['`', '`', '`']);
        }
    }
    r
}

/// Pull the intended source code out of a free-form model response.
///
/// Target-tagged fenced blocks are preferred and concatenated in source
/// order separated by one blank line; untagged blocks are the fallback;
/// a response without usable blocks is returned verbatim. An unclosed
/// trailing block is still captured. Blocks tagged with other languages
/// are ignored.
pub fn extract_code_from_markdown(response: &str) -> (r: String)
    ensures
        r@ == spec_extract(response@),
{
    let chars = chars_of(response);
    let lines = split_lines(&chars);
    let ghost ldv = lines.deep_view();
    let mut target: Vec<Vec<char>> = Vec::new();
    let mut plain: Vec<Vec<char>> = Vec::new();
    let mut in_block = false;
    let mut kind = BlockKind::Other;
    let mut current: Vec<char> = Vec::new();
    let ghost full = scan(ldv, ScanState::Out, Seq::empty(), Seq::empty());
    let mut i: usize = 0;
    proof {
        assert(ldv.skip(0) =~= ldv);
        assert(target.deep_view() =~= Seq::<Seq<char>>::empty());
        assert(plain.deep_view() =~= Seq::<Seq<char>>::empty());
    }
    while i < lines.len()
        invariant
            i <= ldv.len(),
            ldv == lines.deep_view(),
            ldv == spec_lines(response@),
            full == scan(ldv, ScanState::Out, Seq::empty(), Seq::empty()),
            scan(
                ldv.skip(i as int),
                if in_block {
                    ScanState::In(kind, current@)
                } else {
                    ScanState::Out
                },
                target.deep_view(),
                plain.deep_view(),
            ) == full,
            !in_block ==> current@.len() == 0,
        decreases ldv.len() - i,
    {
        let ghost st0 = if in_block {
            ScanState::In(kind, current@)
        } else {
            ScanState::Out
        };
        let ghost t0 = target.deep_view();
        let ghost p0 = plain.deep_view();
        let line = &lines[i];
        proof {
            assert(lines@[i as int].deep_view() =~= lines@[i as int]@);
            assert(ldv[i as int] == line@);
            assert(ldv.skip(i as int)[0] == ldv[i as int]);
            assert(ldv.skip(i as int).drop_first() =~= ldv.skip(i as int + 1));
        }
        let trimmed = trim(line);
        if !in_block {
            if is_fence_start(&trimmed) {
                proof {
                    assert(spec_trim(spec_trim(line@)) == spec_trim(line@)) by {
                        lemma_trim_idempotent(line@);
                    }
                    assert(fence_tag(line@) is Some);
                }
                kind = open_kind(&trimmed);
                in_block = true;
                current = Vec::new();
            } else {
                proof {
                    assert(fence_tag(line@) is None);
                }
            }
        } else {
            if is_close_line(&trimmed) {
                proof {
                    assert(is_close(line@));
                }
                match kind {
                    BlockKind::Target => {
                        let mut done: Vec<char> = Vec::new();
                        core::mem::swap(&mut done, &mut current);
                        target.push(done);
                        proof {
                            assert(target.deep_view() =~~= t0.push(st0->In_1));
                        }
                    },
                    BlockKind::Plain => {
                        let mut done: Vec<char> = Vec::new();
                        core::mem::swap(&mut done, &mut current);
                        plain.push(done);
                        proof {
                            assert(plain.deep_view() =~~= p0.push(st0->In_1));
                        }
                    },
                    BlockKind::Other => {
                        current = Vec::new();
                    },
                }
                in_block = false;
            } else {
                proof {
                    assert(!is_close(line@));
                }
                if current.len() > 0 {
                    current.push('\n');
                }
                let mut j: usize = 0;
                let ghost base = current@;
                while j < line.len()
                    invariant
                        j <= line@.len(),
                        current@ == base + line@.take(j as int),
                    decreases line@.len() - j,
                {
                    current.push(line[j]);
                    j = j + 1;
                }
                proof {
                    assert(current@ =~= base + line@);
                    assert(current@ =~= block_push(st0->In_1, line@));
                }
            }
        }
        i = i + 1;
        proof {
            if !in_block {
                assert(current@.len() == 0);
            }
        }
    }
    proof {
        assert(ldv.skip(i as int) =~= Seq::<Seq<char>>::empty());
    }
    // End of input: an unclosed block with content counts as committed.
    if in_block && current.len() > 0 {
        match kind {
            BlockKind::Target => {
                let mut done: Vec<char> = Vec::new();
                core::mem::swap(&mut done, &mut current);
                target.push(done);
            },
            BlockKind::Plain => {
                let mut done: Vec<char> = Vec::new();
                core::mem::swap(&mut done, &mut current);
                plain.push(done);
            },
            BlockKind::Other => {},
        }
    }
    proof {
        assert(target.deep_view() =~~= target_blocks(response@));
        assert(plain.deep_view() =~~= plain_blocks(response@));
    }
    if target.len() > 0 {
        let joined = join_with_blank(&target);
        string_of(&joined)
    } else if plain.len() > 0 {
        let joined = join_with_blank(&plain);
        string_of(&joined)
    } else {
        string_of(&chars)
    }
}

/// A response containing exactly one target-tagged fenced block returns
/// that block's inner text.
pub proof fn lemma_single_target_block(s: Seq<char>)
    requires
        target_blocks(s).len() == 1,
    ensures
        spec_extract(s) == target_blocks(s)[0],
{
}

/// Multiple target-tagged blocks concatenate in source order separated by
/// one blank line.
pub proof fn lemma_target_blocks_joined(s: Seq<char>)
    requires
        target_blocks(s).len() >= 1,
    ensures
        spec_extract(s) == join_blank(target_blocks(s)),
{
}

/// Untagged blocks are used only when no target-tagged block exists.
pub proof fn lemma_plain_blocks_are_fallback(s: Seq<char>)
    ensures
        target_blocks(s).len() > 0 ==> spec_extract(s) == join_blank(target_blocks(s)),
        target_blocks(s).len() == 0 && plain_blocks(s).len() > 0 ==> spec_extract(s) == join_blank(
            plain_blocks(s),
        ),
{
}

/// An unclosed trailing target-tagged block is still captured: when the
/// scan of a response ends inside a target-tagged block with content, that
/// content stands in the output as the last block.
pub proof fn lemma_unclosed_block_captured(s: Seq<char>)
    requires
        scan_response(s).st matches ScanState::In(BlockKind::Target, acc) && acc.len() > 0,
    ensures
        target_blocks(s) == scan_response(s).target.push(scan_response(s).st->In_1),
        spec_extract(s) == join_blank(target_blocks(s)),
        target_blocks(s).last() == scan_response(s).st->In_1,
{
}

proof fn lemma_scan_no_fences(
    lines: Seq<Seq<char>>,
    target: Seq<Seq<char>>,
    plain: Seq<Seq<char>>,
)
    requires
        forall|i: int| 0 <= i < lines.len() ==> fence_tag(#[trigger] lines[i]) is None,
    ensures
        scan(lines, ScanState::Out, target, plain) == (ScanEnd {
            target,
            plain,
            st: ScanState::Out,
        }),
    decreases lines.len(),
{
    if lines.len() > 0 {
        assert(forall|i: int|
            0 <= i < lines.len() - 1 ==> fence_tag(#[trigger] lines.drop_first()[i]) is None);
        lemma_scan_no_fences(lines.drop_first(), target, plain);
    }
}

/// A response none of whose lines opens a fence is returned verbatim.
pub proof fn lemma_no_fences_verbatim(s: Seq<char>)
    requires
        forall|i: int|
            0 <= i < spec_lines(s).len() ==> fence_tag(#[trigger] spec_lines(s)[i]) is None,
    ensures
        spec_extract(s) == s,
{
    lemma_scan_no_fences(spec_lines(s), Seq::empty(), Seq::empty());
}

proof fn lemma_trim_idempotent(s: Seq<char>)
    ensures
        spec_trim(spec_trim(s)) == spec_trim(s),
    decreases s.len(),
{
    if s.len() == 0 {
    } else if crate::text::is_ws(s[0]) {
        lemma_trim_idempotent(s.drop_first());
    } else if crate::text::is_ws(s.last()) {
        lemma_trim_idempotent(s.drop_last());
    }
}

/// Joins blocks with one blank line between them.
fn join_with_blank(blocks: &Vec<Vec<char>>) -> (r: Vec<char>)
    ensures
        r@ == join_blank(blocks.deep_view()),
{
    let ghost bdv = blocks.deep_view();
    let mut out: Vec<char> = Vec::new();
    let mut i: usize = 0;
    proof {
        assert(bdv.take(0) =~= Seq::<Seq<char>>::empty());
    }
    while i < blocks.len()
        invariant
            i <= bdv.len(),
            bdv == blocks.deep_view(),
            out@ == join_blank(bdv.take(i as int)),
        decreases bdv.len() - i,
    {
        let ghost before = out@;
        if i > 0 {
            out.push('\n');
            out.push('\n');
        }
        let block = &blocks[i];
        proof {
            assert(blocks@[i as int].deep_view() =~= blocks@[i as int]@);
            assert(bdv[i as int] == block@);
        }
        let mut j: usize = 0;
        let ghost base = out@;
        while j < block.len()
            invariant
                j <= block@.len(),
                out@ == base + block@.take(j as int),
            decreases block@.len() - j,
        {
            out.push(block[j]);
            j = j + 1;
        }
        proof {
            assert(out@ =~= base + block@);
            assert(bdv.take(i as int + 1).drop_last() =~= bdv.take(i as int));
            assert(bdv.take(i as int + 1).last() == bdv[i as int]);
            if i == 0 {
                assert(out@ =~= join_blank(bdv.take(i as int + 1)));
            } else {
                assert(out@ =~= join_blank(bdv.take(i as int)) + seq!['\n', '\n'] + bdv[i as int]);
            }
        }
        i = i + 1;
    }
    proof {
        assert(bdv.take(i as int) =~= bdv);
    }
    out
}

} // verus!
