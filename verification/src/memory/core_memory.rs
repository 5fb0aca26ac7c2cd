//! Memory that is always in context: a few labelled blocks of text.

use crate::contained::{
    holds, holds_in_order, lemma_held_by_more, lemma_holds_within, lemma_nothing_held,
    lemma_one_behind_the_other, lemma_single, lemma_then_one_more,
};
use crate::error::{DaimonError, ErrorView, Result};
use crate::text::{cat2, cat4, cat5, decimal, decimal_text, join, joined, owned, same, texts};
use vstd::prelude::*;

verus! {

/// A labelled block of text, with the number of characters that it may hold.
#[derive(Debug, PartialEq)]
pub struct CoreMemoryBlock {
    pub label: String,
    pub value: String,
    pub limit: Option<usize>,
}

/// A block, as contracts speak of it.
pub struct BlockView {
    pub label: Seq<char>,
    pub value: Seq<char>,
    pub limit: Option<usize>,
}

impl View for CoreMemoryBlock {
    type V = BlockView;

    open spec fn view(&self) -> BlockView {
        BlockView { label: self.label@, value: self.value@, limit: self.limit }
    }
}

/// The models of a list of blocks.
pub open spec fn block_views(s: Seq<CoreMemoryBlock>) -> Seq<BlockView> {
    Seq::new(s.len(), |i: int| s[i]@)
}

impl CoreMemoryBlock {
    /// A block without a limit.
    pub fn new(label: &str, value: &str) -> (r: Self)
        ensures
            r@ == (BlockView { label: label@, value: value@, limit: None }),
    {
        CoreMemoryBlock { label: owned(label), value: owned(value), limit: None }
    }

    /// The block with a limit.
    pub fn with_limit(self, limit: usize) -> (r: Self)
        ensures
            r@ == (BlockView { limit: Some(limit), ..self@ }),
    {
        CoreMemoryBlock { limit: Some(limit), ..self }
    }
}

impl Clone for CoreMemoryBlock {
    fn clone(&self) -> (r: Self)
        ensures
            r@ == self@,
    {
        CoreMemoryBlock {
            label: self.label.clone(),
            value: self.value.clone(),
            limit: self.limit,
        }
    }
}

/// Whether a text has more characters than a limit allows.
pub open spec fn over_limit(value: Seq<char>, limit: Option<usize>) -> bool {
    limit matches Some(n) && value.len() > n
}

/// The error for a text that is over its limit.
pub open spec fn limit_error(label: Seq<char>, limit: usize) -> ErrorView {
    ErrorView::Other(
        "core memory block '"@ + label + "' exceeds limit of "@ + decimal(limit as nat)
            + " characters"@,
    )
}

/// Refuses a text that has more characters than a limit allows.
pub fn check_limit(label: &str, value: &str, limit: Option<usize>) -> (r: Result<()>)
    ensures
        match r {
            Ok(_) => !over_limit(value@, limit),
            Err(e) => over_limit(value@, limit) && e@ == limit_error(label@, limit->0),
        },
{
    if let Some(n) = limit {
        if value.unicode_len() > n {
            return Err(
                DaimonError::Other(
                    cat5(
                        "core memory block '",
                        label,
                        "' exceeds limit of ",
                        &decimal_text(n as u64),
                        " characters",
                    ),
                ),
            );
        }
    }
    Ok(())
}

// ---------------------------------------------------------------------
// Blocks by label
// ---------------------------------------------------------------------

/// The position of the first block of a label, or the number of blocks.
pub open spec fn position(blocks: Seq<BlockView>, label: Seq<char>) -> nat
    decreases blocks.len(),
{
    if blocks.len() == 0 || blocks[0].label == label {
        0
    } else {
        1 + position(blocks.skip(1), label)
    }
}

/// Whether there is a block of a label.
pub open spec fn has_label(blocks: Seq<BlockView>, label: Seq<char>) -> bool {
    position(blocks, label) < blocks.len()
}

/// The blocks with one set, in place of the one of its label or behind the
/// others.
pub open spec fn with_block(blocks: Seq<BlockView>, block: BlockView) -> Seq<BlockView> {
    if has_label(blocks, block.label) {
        blocks.update(position(blocks, block.label) as int, block)
    } else {
        blocks.push(block)
    }
}

/// The blocks but those of a label.
pub open spec fn without_label(blocks: Seq<BlockView>, label: Seq<char>) -> Seq<BlockView>
    decreases blocks.len(),
{
    if blocks.len() == 0 {
        blocks
    } else {
        let before = without_label(blocks.drop_last(), label);
        if blocks.last().label == label {
            before
        } else {
            before.push(blocks.last())
        }
    }
}

/// The text of the blocks for a prompt.
pub open spec fn rendered(blocks: Seq<BlockView>) -> Seq<char> {
    joined(blocks.map_values(|b: BlockView| "## "@ + b.label + "\n"@ + b.value), "\n\n"@)
}

/// Whether no label occurs twice.
pub open spec fn labels_distinct(blocks: Seq<BlockView>) -> bool {
    forall|i: int, j: int|
        0 <= i < j < blocks.len() ==> (#[trigger] blocks[i]).label != (#[trigger] blocks[j]).label
}

proof fn lemma_position(blocks: Seq<BlockView>, label: Seq<char>)
    ensures
        position(blocks, label) <= blocks.len(),
        has_label(blocks, label) ==> blocks[position(blocks, label) as int].label == label,
        forall|i: int|
            0 <= i < position(blocks, label) ==> (#[trigger] blocks[i]).label != label,
    decreases blocks.len(),
{
    if blocks.len() > 0 && blocks[0].label != label {
        lemma_position(blocks.skip(1), label);
        assert forall|i: int| 0 <= i < position(blocks, label) implies (#[trigger] blocks[i]).label
            != label by {
            if i > 0 {
                assert(blocks.skip(1)[i - 1] == blocks[i]);
            }
        }
    }
}

proof fn lemma_position_is(blocks: Seq<BlockView>, label: Seq<char>, n: nat)
    requires
        n <= blocks.len(),
        forall|i: int| 0 <= i < n ==> (#[trigger] blocks[i]).label != label,
        n < blocks.len() ==> blocks[n as int].label == label,
    ensures
        position(blocks, label) == n,
{
    lemma_position(blocks, label);
    if position(blocks, label) < n {
        assert(blocks[position(blocks, label) as int].label != label);
    } else if position(blocks, label) > n {
        assert(blocks[n as int].label != label);
    }
}

fn find(blocks: &Vec<CoreMemoryBlock>, label: &str) -> (r: Option<usize>)
    ensures
        match r {
            Some(i) => i < blocks@.len() && i == position(block_views(blocks@), label@)
                && blocks@[i as int].label@ == label@,
            None => !has_label(block_views(blocks@), label@),
        },
{
    let ghost views = block_views(blocks@);
    let mut i: usize = 0;
    while i < blocks.len()
        invariant
            i <= blocks@.len(),
            views == block_views(blocks@),
            forall|j: int| 0 <= j < i ==> (#[trigger] views[j]).label != label@,
        decreases blocks@.len() - i,
    {
        if same(&blocks[i].label, label) {
            proof {
                lemma_position_is(views, label@, i as nat);
            }
            return Some(i);
        }
        i += 1;
    }
    proof {
        lemma_position_is(views, label@, i as nat);
    }
    None
}

fn set_block(blocks: &mut Vec<CoreMemoryBlock>, block: CoreMemoryBlock)
    ensures
        block_views(final(blocks)@) == with_block(block_views(old(blocks)@), block@),
{
    match find(blocks, &block.label) {
        Some(i) => {
            let ghost b = block@;
            blocks.set(i, block);
            assert(block_views(blocks@) =~= block_views(old(blocks)@).update(i as int, b));
        },
        None => {
            let ghost b = block@;
            blocks.push(block);
            assert(block_views(blocks@) =~= block_views(old(blocks)@).push(b));
        },
    }
}

// ---------------------------------------------------------------------
// The store
// ---------------------------------------------------------------------

/// A store of labelled blocks.
pub trait CoreMemory {
    /// The blocks in order.
    spec fn held(&self) -> Seq<BlockView>;

    /// All blocks in order.
    fn blocks(&self) -> (r: Result<Vec<CoreMemoryBlock>>)
        ensures
            r matches Ok(v) ==> block_views(v@) == self.held(),
    ;

    /// Sets a block.
    fn put_block(&mut self, block: CoreMemoryBlock) -> (r: Result<()>);

    /// Appends text to a block, which is made if it is not there.
    fn append_block(&mut self, label: &str, text: &str) -> (r: Result<()>);

    /// Removes a block. Says whether there was one.
    fn remove_block(&mut self, label: &str) -> (r: Result<bool>);

    /// The text of all blocks for a prompt.
    fn render(&self) -> (r: Result<String>)
        ensures
            r matches Ok(s) ==> s@ == rendered(self.held()),
    {
        match self.blocks() {
            Ok(blocks) => Ok(render_blocks(&blocks)),
            Err(e) => Err(e),
        }
    }
}

/// The text of blocks for a prompt.
pub fn render_blocks(blocks: &Vec<CoreMemoryBlock>) -> (r: String)
    ensures
        r@ == rendered(block_views(blocks@)),
{
    let mut parts: Vec<String> = Vec::new();
    let mut i: usize = 0;
    while i < blocks.len()
        invariant
            i <= blocks@.len(),
            parts@.len() == i,
            forall|j: int|
                0 <= j < i ==> (#[trigger] parts@[j])@ == "## "@ + blocks@[j].label@ + "\n"@
                    + blocks@[j].value@,
        decreases blocks@.len() - i,
    {
        parts.push(cat4("## ", &blocks[i].label, "\n", &blocks[i].value));
        i += 1;
    }
    assert(texts(parts@) =~= block_views(blocks@).map_values(
        |b: BlockView| "## "@ + b.label + "\n"@ + b.value,
    ));
    join(&parts, "\n\n")
}

/// In-process store of labelled blocks, in the order in which they were made.
pub struct InMemoryCoreMemory {
    blocks: Vec<CoreMemoryBlock>,
}

impl View for InMemoryCoreMemory {
    type V = Seq<BlockView>;

    closed spec fn view(&self) -> Seq<BlockView> {
        block_views(self.blocks@)
    }
}

/// The first block that is over its limit.
pub open spec fn first_over(blocks: Seq<BlockView>) -> Option<BlockView>
    decreases blocks.len(),
{
    if blocks.len() == 0 {
        None
    } else if over_limit(blocks[0].value, blocks[0].limit) {
        Some(blocks[0])
    } else {
        first_over(blocks.skip(1))
    }
}

/// A store into which blocks were put one after the other.
pub open spec fn seeded(blocks: Seq<BlockView>) -> Seq<BlockView>
    decreases blocks.len(),
{
    if blocks.len() == 0 {
        blocks
    } else {
        with_block(seeded(blocks.drop_last()), blocks.last())
    }
}

impl InMemoryCoreMemory {
    /// An empty store.
    pub fn new() -> (r: Self)
        ensures
            r@ == Seq::<BlockView>::empty(),
    {
        let r = InMemoryCoreMemory { blocks: Vec::new() };
        assert(r@ =~= Seq::<BlockView>::empty());
        r
    }

    /// A store with blocks. A later block takes the place of an earlier one of
    /// its label. Fails if one is over its limit.
    pub fn with_blocks(blocks: Vec<CoreMemoryBlock>) -> (r: Result<Self>)
        ensures
            match r {
                Ok(m) => first_over(block_views(blocks@)) is None && m@ == seeded(
                    block_views(blocks@),
                ),
                Err(e) => first_over(block_views(blocks@)) matches Some(b) && e@ == limit_error(
                    b.label,
                    b.limit->0,
                ),
            },
    {
        let ghost all = block_views(blocks@);
        let mut held: Vec<CoreMemoryBlock> = Vec::new();
        let mut i: usize = 0;
        assert(all.skip(0) =~= all);
        assert(all.take(0) =~= Seq::<BlockView>::empty());
        assert(block_views(held@) =~= seeded(all.take(0)));
        while i < blocks.len()
            invariant
                i <= blocks@.len(),
                all == block_views(blocks@),
                first_over(all.skip(i as int)) == first_over(all),
                block_views(held@) == seeded(all.take(i as int)),
            decreases blocks@.len() - i,
        {
            assert(all.skip(i as int)[0] == blocks@[i as int]@);
            assert(all.skip(i as int).skip(1) =~= all.skip(i + 1));
            assert(all.take(i + 1).drop_last() =~= all.take(i as int));
            if let Err(e) = check_limit(&blocks[i].label, &blocks[i].value, blocks[i].limit) {
                return Err(e);
            }
            set_block(&mut held, blocks[i].clone());
            i += 1;
        }
        assert(all.take(i as int) =~= all);
        Ok(InMemoryCoreMemory { blocks: held })
    }
}

impl CoreMemory for InMemoryCoreMemory {
    open spec fn held(&self) -> Seq<BlockView> {
        self@
    }

    fn blocks(&self) -> (r: Result<Vec<CoreMemoryBlock>>)
        ensures
            r is Ok,
    {
        let mut out: Vec<CoreMemoryBlock> = Vec::new();
        let mut i: usize = 0;
        while i < self.blocks.len()
            invariant
                i <= self.blocks@.len(),
                out@.len() == i,
                forall|j: int| 0 <= j < i ==> (#[trigger] out@[j])@ == self.blocks@[j]@,
            decreases self.blocks@.len() - i,
        {
            out.push(self.blocks[i].clone());
            i += 1;
        }
        assert(block_views(out@) =~= self@);
        Ok(out)
    }

    /// Sets a block. One over its limit is refused and changes nothing.
    fn put_block(&mut self, block: CoreMemoryBlock) -> (r: Result<()>)
        ensures
            match r {
                Ok(_) => !over_limit(block@.value, block@.limit) && final(self)@ == with_block(
                    old(self)@,
                    block@,
                ),
                Err(e) => over_limit(block@.value, block@.limit) && e@ == limit_error(
                    block@.label,
                    block@.limit->0,
                ) && final(self)@ == old(self)@,
            },
    {
        if let Err(e) = check_limit(&block.label, &block.value, block.limit) {
            return Err(e);
        }
        set_block(&mut self.blocks, block);
        Ok(())
    }

    /// Appends text to a block, which is made without a limit if it is not
    /// there. A text that would be over the limit is refused and changes
    /// nothing.
    fn append_block(&mut self, label: &str, text: &str) -> (r: Result<()>)
        ensures
            ({
                let blocks = old(self)@;
                let i = position(blocks, label@) as int;
                if has_label(blocks, label@) {
                    let grown = BlockView { value: blocks[i].value + text@, ..blocks[i] };
                    match r {
                        Ok(_) => !over_limit(grown.value, grown.limit) && final(self)@
                            == blocks.update(i, grown),
                        Err(e) => over_limit(grown.value, grown.limit) && e@ == limit_error(
                            label@,
                            grown.limit->0,
                        ) && final(self)@ == blocks,
                    }
                } else {
                    r is Ok && final(self)@ == blocks.push(
                        BlockView { label: label@, value: text@, limit: None },
                    )
                }
            }),
    {
        match find(&self.blocks, label) {
            Some(i) => {
                let candidate = cat2(&self.blocks[i].value, text);
                let limit = self.blocks[i].limit;
                if let Err(e) = check_limit(label, &candidate, limit) {
                    return Err(e);
                }
                let kept = self.blocks[i].label.clone();
                let ghost before = self@;
                let grown = CoreMemoryBlock { label: kept, value: candidate, limit };
                self.blocks.set(i, grown);
                assert(self@ =~= before.update(i as int, grown@));
                Ok(())
            },
            None => {
                let ghost before = self@;
                let made = CoreMemoryBlock::new(label, text);
                self.blocks.push(made);
                assert(self@ =~= before.push(made@));
                Ok(())
            },
        }
    }

    fn remove_block(&mut self, label: &str) -> (r: Result<bool>)
        ensures
            r == Ok::<bool, DaimonError>(has_label(old(self)@, label@)),
            final(self)@ == without_label(old(self)@, label@),
    {
        let ghost all = self@;
        let mut kept: Vec<CoreMemoryBlock> = Vec::new();
        let mut found = false;
        let mut i: usize = 0;
        assert(all.take(0) =~= Seq::<BlockView>::empty());
        assert(block_views(kept@) =~= without_label(all.take(0), label@));
        while i < self.blocks.len()
            invariant
                i <= self.blocks@.len(),
                self@ == all,
                all == old(self)@,
                block_views(kept@) == without_label(all.take(i as int), label@),
                found == exists|j: int| 0 <= j < i && (#[trigger] all[j]).label == label@,
            decreases self.blocks@.len() - i,
        {
            assert(all.take(i + 1).drop_last() =~= all.take(i as int));
            assert(all[i as int] == self.blocks@[i as int]@);
            if same(&self.blocks[i].label, label) {
                found = true;
            } else {
                let ghost before = block_views(kept@);
                kept.push(self.blocks[i].clone());
                assert(block_views(kept@) =~= before.push(all[i as int]));
            }
            i += 1;
        }
        proof {
            assert(all.take(i as int) =~= all);
            lemma_position(all, label@);
            if found {
                let j = choose|j: int| 0 <= j < all.len() && (#[trigger] all[j]).label == label@;
                if position(all, label@) == all.len() {
                    assert(all[j].label != label@);
                }
            } else if has_label(all, label@) {
                assert(all[position(all, label@) as int].label == label@);
            }
        }
        self.blocks = kept;
        Ok(found)
    }
}

/// Setting a block keeps labels distinct, and the block is then the one of its
/// label.
pub proof fn put_then_get(blocks: Seq<BlockView>, block: BlockView)
    requires
        labels_distinct(blocks),
    ensures
        ({
            let after = with_block(blocks, block);
            &&& labels_distinct(after)
            &&& has_label(after, block.label)
            &&& after[position(after, block.label) as int] == block
        }),
{
    let after = with_block(blocks, block);
    lemma_position(blocks, block.label);
    let p = position(blocks, block.label);
    assert forall|i: int, j: int| 0 <= i < j < after.len() implies (#[trigger] after[i]).label != (
    #[trigger] after[j]).label by {
        if has_label(blocks, block.label) {
            assert(blocks[i].label != blocks[j].label);
        } else if j < blocks.len() {
            assert(blocks[i].label != blocks[j].label);
        } else {
            assert(blocks[i].label != block.label);
        }
    }
    assert forall|i: int| 0 <= i < p implies (#[trigger] after[i]).label != block.label by {
        assert(blocks[i].label != block.label);
    }
    lemma_position_is(after, block.label, p);
}

/// A removed block is gone, and removing keeps labels distinct.
pub proof fn removed_is_gone(blocks: Seq<BlockView>, label: Seq<char>)
    ensures
        !has_label(without_label(blocks, label), label),
        labels_distinct(blocks) ==> labels_distinct(without_label(blocks, label)),
    decreases blocks.len(),
{
    let after = without_label(blocks, label);
    lemma_without(blocks, label);
    lemma_position(after, label);
    if has_label(after, label) {
        assert(after[position(after, label) as int].label == label);
    }
    if blocks.len() > 0 {
        let init = blocks.drop_last();
        removed_is_gone(init, label);
        if labels_distinct(blocks) {
            assert(labels_distinct(init));
            lemma_without(init, label);
            let before = without_label(init, label);
            assert forall|i: int, j: int| 0 <= i < j < after.len() implies (#[trigger] after[i]).label
                != (#[trigger] after[j]).label by {
                if j < before.len() {
                    assert(before[i].label != before[j].label);
                } else {
                    let k = choose|k: int| 0 <= k < init.len() && init[k] == before[i];
                    assert(blocks[k].label != blocks[blocks.len() - 1].label);
                }
            }
        }
    }
}

/// Whether no label occurs twice and no block is over its limit.
pub open spec fn in_order(blocks: Seq<BlockView>) -> bool {
    &&& labels_distinct(blocks)
    &&& forall|i: int|
        0 <= i < blocks.len() ==> !over_limit((#[trigger] blocks[i]).value, blocks[i].limit)
}

/// Blocks that are in order stay so: setting one that is within its limit, removing
/// one, appending within the limit and starting a new one all keep them so.
pub proof fn blocks_stay_in_order(
    blocks: Seq<BlockView>,
    block: BlockView,
    label: Seq<char>,
    text: Seq<char>,
)
    requires
        in_order(blocks),
    ensures
        !over_limit(block.value, block.limit) ==> in_order(with_block(blocks, block)),
        in_order(without_label(blocks, label)),
        has_label(blocks, label) ==> {
            let i = position(blocks, label) as int;
            let grown = BlockView { value: blocks[i].value + text, ..blocks[i] };
            !over_limit(grown.value, grown.limit) ==> in_order(blocks.update(i, grown))
        },
        !has_label(blocks, label) ==> in_order(
            blocks.push(BlockView { label, value: text, limit: None }),
        ),
{
    lemma_put_in_order(blocks, block);
    removed_is_gone(blocks, label);
    lemma_without(blocks, label);
    let after = without_label(blocks, label);
    assert forall|i: int| 0 <= i < after.len() implies !over_limit(
        (#[trigger] after[i]).value,
        after[i].limit,
    ) by {
        let k = choose|k: int| 0 <= k < blocks.len() && blocks[k] == after[i];
        assert(!over_limit(blocks[k].value, blocks[k].limit));
    }
    lemma_position(blocks, label);
    if has_label(blocks, label) {
        let i = position(blocks, label) as int;
        lemma_put_in_order(blocks, BlockView { value: blocks[i].value + text, ..blocks[i] });
    } else {
        lemma_put_in_order(blocks, BlockView { label, value: text, limit: None });
    }
}

/// Blocks to start with are in order, if none of them is over its limit.
pub proof fn seeded_blocks_are_in_order(blocks: Seq<BlockView>)
    requires
        first_over(blocks) is None,
    ensures
        in_order(seeded(blocks)),
    decreases blocks.len(),
{
    if blocks.len() > 0 {
        lemma_first_over(blocks);
        let init = blocks.drop_last();
        lemma_first_over(init);
        assert forall|i: int| 0 <= i < init.len() implies !over_limit(
            (#[trigger] init[i]).value,
            init[i].limit,
        ) by {
            assert(init[i] == blocks[i]);
        }
        seeded_blocks_are_in_order(init);
        lemma_put_in_order(seeded(init), blocks.last());
    }
}

proof fn lemma_first_over(blocks: Seq<BlockView>)
    ensures
        first_over(blocks) is None <==> forall|i: int|
            0 <= i < blocks.len() ==> !over_limit((#[trigger] blocks[i]).value, blocks[i].limit),
    decreases blocks.len(),
{
    if blocks.len() > 0 {
        let rest = blocks.skip(1);
        lemma_first_over(rest);
        if first_over(blocks) is None {
            assert forall|i: int| 0 <= i < blocks.len() implies !over_limit(
                (#[trigger] blocks[i]).value,
                blocks[i].limit,
            ) by {
                if i > 0 {
                    assert(rest[i - 1] == blocks[i]);
                }
            }
        } else if !over_limit(blocks[0].value, blocks[0].limit) {
            let i = choose|i: int|
                0 <= i < rest.len() && over_limit((#[trigger] rest[i]).value, rest[i].limit);
            assert(blocks[i + 1] == rest[i]);
        }
    }
}

proof fn lemma_put_in_order(blocks: Seq<BlockView>, block: BlockView)
    requires
        in_order(blocks),
    ensures
        !over_limit(block.value, block.limit) ==> in_order(with_block(blocks, block)),
{
    put_then_get(blocks, block);
    let after = with_block(blocks, block);
    if !over_limit(block.value, block.limit) {
        assert forall|i: int| 0 <= i < after.len() implies !over_limit(
            (#[trigger] after[i]).value,
            after[i].limit,
        ) by {
            if i < blocks.len() {
                assert(!over_limit(blocks[i].value, blocks[i].limit));
            }
        }
    }
}

proof fn lemma_without(blocks: Seq<BlockView>, label: Seq<char>)
    ensures
        forall|i: int|
            0 <= i < without_label(blocks, label).len() ==> (#[trigger] without_label(
                blocks,
                label,
            )[i]).label != label && exists|k: int|
                0 <= k < blocks.len() && blocks[k] == without_label(blocks, label)[i],
    decreases blocks.len(),
{
    if blocks.len() > 0 {
        let init = blocks.drop_last();
        lemma_without(init, label);
        let before = without_label(init, label);
        let after = without_label(blocks, label);
        assert forall|i: int| 0 <= i < after.len() implies (#[trigger] after[i]).label != label
            && exists|k: int| 0 <= k < blocks.len() && blocks[k] == after[i] by {
            if i < before.len() {
                assert(before[i].label != label);
                let k = choose|k: int| 0 <= k < init.len() && init[k] == before[i];
                assert(blocks[k] == after[i]);
            } else {
                assert(blocks[blocks.len() - 1] == after[i]);
            }
        }
    }
}

/// Setting a block touches no other block: each stays where it is, and a block of a
/// new label comes behind them.
pub proof fn other_blocks_stay(blocks: Seq<BlockView>, block: BlockView, i: int)
    requires
        0 <= i < blocks.len(),
        blocks[i].label != block.label,
    ensures
        with_block(blocks, block)[i] == blocks[i],
        with_block(blocks, block).len() == blocks.len() || with_block(blocks, block)
            == blocks.push(block),
{
    lemma_position(blocks, block.label);
}

/// A label is that of some block exactly if there is such a block, and its place is
/// the first of these.
pub proof fn labels_are_found(blocks: Seq<BlockView>, label: Seq<char>)
    ensures
        has_label(blocks, label) <==> exists|i: int|
            0 <= i < blocks.len() && (#[trigger] blocks[i]).label == label,
        has_label(blocks, label) ==> blocks[position(blocks, label) as int].label == label,
{
    lemma_position(blocks, label);
}

/// Removing a label takes its blocks and leaves all others, in order.
pub proof fn removing_takes_one_label(a: Seq<BlockView>, b: Seq<BlockView>, label: Seq<char>)
    ensures
        without_label(a + b, label) == without_label(a, label) + without_label(b, label),
        forall|block: BlockView| #[trigger]
            without_label(seq![block], label) == if block.label == label {
                Seq::empty()
            } else {
                seq![block]
            },
    decreases b.len(),
{
    assert forall|block: BlockView| #[trigger]
        without_label(seq![block], label) == if block.label == label {
            Seq::empty()
        } else {
            seq![block]
        } by {
        assert(seq![block].drop_last() =~= Seq::<BlockView>::empty());
        reveal_with_fuel(without_label, 2);
        assert(without_label(seq![block], label) =~= if block.label == label {
            Seq::empty()
        } else {
            seq![block]
        });
    }
    if b.len() == 0 {
        assert(a + b =~= a);
        assert(without_label(a, label) + without_label(b, label) =~= without_label(a, label));
    } else {
        removing_takes_one_label(a, b.drop_last(), label);
        assert((a + b).drop_last() =~= a + b.drop_last());
        assert(without_label(a + b, label) =~= without_label(a, label) + without_label(b, label));
    }
}

/// The labels and values of blocks, in order.
pub open spec fn block_parts(blocks: Seq<BlockView>) -> Seq<Seq<char>>
    decreases blocks.len(),
{
    if blocks.len() == 0 {
        Seq::empty()
    } else {
        block_parts(blocks.drop_last()) + seq![blocks.last().label, blocks.last().value]
    }
}

/// The text for a prompt holds the label and the whole value of every block, in
/// order.
pub proof fn every_block_is_rendered(blocks: Seq<BlockView>)
    ensures
        holds_in_order(rendered(blocks), block_parts(blocks)),
    decreases blocks.len(),
{
    let texts = blocks.map_values(|b: BlockView| "## "@ + b.label + "\n"@ + b.value);
    if blocks.len() == 0 {
        lemma_nothing_held(rendered(blocks));
    } else {
        let init = blocks.drop_last();
        let b = blocks.last();
        every_block_is_rendered(init);
        let first = "## "@ + b.label + "\n"@;
        lemma_holds_within("## "@, b.label, "\n"@);
        lemma_single(first, b.label);
        lemma_holds_within(Seq::empty(), b.value, Seq::empty());
        assert(Seq::<char>::empty() + b.value + Seq::<char>::empty() =~= b.value);
        lemma_then_one_more(first, seq![b.label], b.value, b.value);
        assert(seq![b.label].push(b.value) =~= seq![b.label, b.value]);
        let one = "## "@ + b.label + "\n"@ + b.value;
        assert(texts.last() == one);
        assert(texts.drop_last() =~= init.map_values(
            |b: BlockView| "## "@ + b.label + "\n"@ + b.value,
        ));
        if init.len() == 0 {
            assert(block_parts(blocks) =~= seq![b.label, b.value]);
        } else {
            lemma_held_by_more(Seq::empty(), rendered(init), "\n\n"@, block_parts(init));
            assert(Seq::<char>::empty() + rendered(init) + "\n\n"@ =~= rendered(init) + "\n\n"@);
            lemma_one_behind_the_other(
                rendered(init) + "\n\n"@,
                block_parts(init),
                one,
                seq![b.label, b.value],
            );
        }
    }
}

/// Blocks to start with are refused exactly if one of them is over its limit, and it
/// is the first such one that is named.
pub proof fn the_first_over_its_limit_is_named(blocks: Seq<BlockView>)
    ensures
        first_over(blocks) is None <==> forall|i: int|
            0 <= i < blocks.len() ==> ((#[trigger] blocks[i]).limit matches Some(n)
                ==> blocks[i].value.len() <= n),
        first_over(blocks) matches Some(b) ==> exists|i: int|
            {
                &&& 0 <= i < blocks.len()
                &&& #[trigger] blocks[i] == b
                &&& b.limit matches Some(n) && b.value.len() > n
                &&& forall|j: int|
                    0 <= j < i ==> ((#[trigger] blocks[j]).limit matches Some(n)
                        ==> blocks[j].value.len() <= n)
            },
    decreases blocks.len(),
{
    if blocks.len() > 0 {
        let rest = blocks.skip(1);
        the_first_over_its_limit_is_named(rest);
        assert(forall|i: int| 0 <= i < rest.len() ==> rest[i] == #[trigger] blocks[i + 1]);
        if over_limit(blocks[0].value, blocks[0].limit) {
            assert(blocks[0] == first_over(blocks)->0);
        } else {
            if first_over(rest) is None {
                assert forall|i: int| 0 <= i < blocks.len() implies ((
                #[trigger] blocks[i]).limit matches Some(n) ==> blocks[i].value.len() <= n) by {
                    if i > 0 {
                        assert(rest[i - 1] == blocks[i]);
                    }
                }
            } else {
                let b = first_over(rest)->0;
                let i = choose|i: int|
                    {
                        &&& 0 <= i < rest.len()
                        &&& #[trigger] rest[i] == b
                        &&& b.limit matches Some(n) && b.value.len() > n
                        &&& forall|j: int|
                            0 <= j < i ==> ((#[trigger] rest[j]).limit matches Some(n)
                                ==> rest[j].value.len() <= n)
                    };
                assert(blocks[i + 1] == b);
                assert forall|j: int| 0 <= j < i + 1 implies ((
                #[trigger] blocks[j]).limit matches Some(n) ==> blocks[j].value.len() <= n) by {
                    if j > 0 {
                        assert(rest[j - 1] == blocks[j]);
                    }
                }
            }
        }
    }
}

/// The error for a block that is too long names it and says how long it may be.
pub proof fn limit_errors_name_the_block(label: Seq<char>, limit: usize)
    ensures
        limit_error(label, limit) matches ErrorView::Other(words) && holds(words, label) && holds(
            words,
            decimal(limit as nat),
        ),
{
    let a = "core memory block '"@;
    let b = "' exceeds limit of "@;
    let n = decimal(limit as nat);
    let c = " characters"@;
    lemma_holds_within(a, label, b + n + c);
    assert(a + label + (b + n + c) =~= a + label + b + n + c);
    lemma_holds_within(a + label + b, n, c);
}

} // verus!
