//! What happens to the progress bars of a download.

use vstd::prelude::*;

verus! {

/// A change of a progress bar.
#[derive(Debug, Clone, Copy, PartialEq, Eq, Structural)]
pub enum BarChange {
    /// Its length gets smaller.
    Shorten(u64),
    /// Its length gets larger.
    Lengthen(u64),
    /// Its position moves forward.
    Advance(u64),
    /// Its position moves back.
    Back(u64),
    /// The estimate of the time that is left starts anew.
    ResetEta,
}

/// The changes for bytes that are on disk already and do not count.
pub open spec fn exclusion(amount: u64) -> Seq<BarChange> {
    if amount == 0 {
        Seq::empty()
    } else {
        seq![BarChange::Shorten(amount), BarChange::ResetEta]
    }
}

/// The changes for bytes that were on disk and count again.
pub open spec fn restoration(amount: u64) -> Seq<BarChange> {
    if amount == 0 {
        Seq::empty()
    } else {
        seq![BarChange::Lengthen(amount), BarChange::ResetEta]
    }
}

/// The changes for bytes that are fetched again.
pub open spec fn retreat(amount: u64) -> Seq<BarChange> {
    if amount == 0 {
        Seq::empty()
    } else {
        seq![BarChange::Back(amount)]
    }
}

/// The changes for bytes that were fetched.
pub open spec fn advance(amount: u64) -> Seq<BarChange> {
    seq![BarChange::Advance(amount)]
}

/// The changes when a download in chunks has failed.
pub open spec fn undoing(excluded: u64, attempted: u64) -> Seq<BarChange> {
    restoration(excluded) + retreat(attempted)
}

/// The changes for bytes that were fetched.
pub fn inc_bars(amount: u64) -> (out: Vec<BarChange>)
    ensures
        out@ == advance(amount),
{
    let mut out: Vec<BarChange> = Vec::new();
    out.push(BarChange::Advance(amount));
    out
}

/// The changes for bytes that are fetched again.
pub fn dec_bars(amount: u64) -> (out: Vec<BarChange>)
    ensures
        out@ == retreat(amount),
{
    let mut out: Vec<BarChange> = Vec::new();
    if amount > 0 {
        out.push(BarChange::Back(amount));
    }
    out
}

/// The changes for bytes that are on disk already.
pub fn exclude_existing_bytes(amount: u64) -> (out: Vec<BarChange>)
    ensures
        out@ == exclusion(amount),
{
    let mut out: Vec<BarChange> = Vec::new();
    if amount > 0 {
        out.push(BarChange::Shorten(amount));
        out.push(BarChange::ResetEta);
    }
    out
}

/// The changes for bytes that were on disk and count again.
pub fn restore_existing_bytes(amount: u64) -> (out: Vec<BarChange>)
    ensures
        out@ == restoration(amount),
{
    let mut out: Vec<BarChange> = Vec::new();
    if amount > 0 {
        out.push(BarChange::Lengthen(amount));
        out.push(BarChange::ResetEta);
    }
    out
}

/// The changes when a download in chunks has failed, for which `excluded` bytes did not
/// count and `attempted` bytes were fetched.
pub fn restore_range_progress(excluded: u64, attempted: u64) -> (out: Vec<BarChange>)
    ensures
        out@ == undoing(excluded, attempted),
{
    let mut out = restore_existing_bytes(excluded);
    let mut back = dec_bars(attempted);
    out.append(&mut back);
    out
}

/// A progress bar.
pub ghost struct Bar {
    pub length: int,
    pub position: int,
}

/// A bar after a change. No bar is shorter than nothing.
pub open spec fn changed(bar: Bar, change: BarChange) -> Bar {
    match change {
        BarChange::Shorten(amount) => Bar {
            length: if amount <= bar.length {
                bar.length - amount
            } else {
                0
            },
            ..bar
        },
        BarChange::Lengthen(amount) => Bar { length: bar.length + amount, ..bar },
        BarChange::Advance(amount) => Bar { position: bar.position + amount, ..bar },
        BarChange::Back(amount) => Bar { position: bar.position - amount, ..bar },
        BarChange::ResetEta => bar,
    }
}

/// A bar after a list of changes.
pub open spec fn after_changes(bar: Bar, changes: Seq<BarChange>) -> Bar
    decreases changes.len(),
{
    if changes.len() == 0 {
        bar
    } else {
        changed(after_changes(bar, changes.drop_last()), changes.last())
    }
}

/// The changes for blocks of bytes that were fetched one after the other.
pub open spec fn advances(blocks: Seq<u64>) -> Seq<BarChange> {
    Seq::new(blocks.len(), |i: int| BarChange::Advance(blocks[i]))
}

/// Fetched blocks move the position of a bar by their sum, and nothing else.
proof fn lemma_advances(bar: Bar, blocks: Seq<u64>)
    ensures
        after_changes(bar, advances(blocks)) == (Bar {
            position: bar.position + crate::download::preflight::sum(blocks),
            ..bar
        }),
    decreases blocks.len(),
{
    if blocks.len() > 0 {
        lemma_advances(bar, blocks.drop_last());
        assert(advances(blocks).drop_last() =~= advances(blocks.drop_last()));
    }
}

/// The changes of two lists one after the other.
proof fn lemma_after_both(bar: Bar, a: Seq<BarChange>, b: Seq<BarChange>)
    ensures
        after_changes(bar, a + b) == after_changes(after_changes(bar, a), b),
    decreases b.len(),
{
    if b.len() == 0 {
        assert(a + b =~= a);
    } else {
        assert((a + b).drop_last() =~= a + b.drop_last());
        lemma_after_both(bar, a, b.drop_last());
    }
}

/// A download in chunks that failed leaves no trace on a bar: what did not count counts
/// again, and what was fetched is taken back.
pub proof fn failed_ranges_leave_no_trace(
    bar: Bar,
    excluded: u64,
    blocks: Seq<u64>,
    attempted: u64,
)
    requires
        excluded <= bar.length,
        crate::download::preflight::sum(blocks) == attempted,
    ensures
        after_changes(
            bar,
            exclusion(excluded) + advances(blocks) + undoing(excluded, attempted),
        ) == bar,
{
    let (out, back) = (exclusion(excluded), undoing(excluded, attempted));
    lemma_after_both(bar, out + advances(blocks), back);
    lemma_after_both(bar, out, advances(blocks));
    let shorter = after_changes(bar, out);
    lemma_advances(shorter, blocks);
    let moved = after_changes(shorter, advances(blocks));
    lemma_after_both(moved, restoration(excluded), retreat(attempted));
    reveal_with_fuel(after_changes, 3);
    assert(shorter == (Bar { length: bar.length - excluded, ..bar })) by {
        if excluded > 0 {
            assert(out.drop_last() =~= seq![BarChange::Shorten(excluded)]);
            assert(out.drop_last().drop_last() =~= Seq::<BarChange>::empty());
        }
    }
    let longer = after_changes(moved, restoration(excluded));
    assert(longer == (Bar { length: moved.length + excluded, ..moved })) by {
        if excluded > 0 {
            let list = restoration(excluded);
            assert(list.drop_last() =~= seq![BarChange::Lengthen(excluded)]);
            assert(list.drop_last().drop_last() =~= Seq::<BarChange>::empty());
        }
    }
    assert(after_changes(longer, retreat(attempted)) == (Bar {
        position: longer.position - attempted,
        ..longer
    })) by {
        if attempted > 0 {
            assert(retreat(attempted).drop_last() =~= Seq::<BarChange>::empty());
        }
    }
}

/// Bytes that do not count shorten a bar by their number, those that count again lengthen it by
/// theirs, and bytes that are fetched again move it back by theirs; nothing else changes.
pub proof fn bars_change_by_the_amount(bar: Bar, amount: u64)
    ensures
        amount <= bar.length ==> after_changes(bar, exclusion(amount)) == (Bar {
            length: bar.length - amount,
            position: bar.position,
        }),
        after_changes(bar, restoration(amount)) == (Bar {
            length: bar.length + amount,
            position: bar.position,
        }),
        after_changes(bar, retreat(amount)) == (Bar {
            length: bar.length,
            position: bar.position - amount,
        }),
        after_changes(bar, advance(amount)) == (Bar {
            length: bar.length,
            position: bar.position + amount,
        }),
{
    reveal_with_fuel(after_changes, 3);
    let none = Seq::<BarChange>::empty();
    assert(advance(amount).drop_last() =~= none);
    if amount > 0 {
        let (out, back, again) = (exclusion(amount), restoration(amount), retreat(amount));
        assert(out.drop_last().drop_last() =~= none);
        assert(back.drop_last().drop_last() =~= none);
        assert(again.drop_last() =~= none);
    }
}

/// A bar is full exactly when all is there: of a download of `bar.length` bytes of which
/// `existing` are on disk, the blocks that are fetched fill the bar when they make up the rest.
pub proof fn full_bars_mean_all_bytes(bar: Bar, existing: u64, blocks: Seq<u64>)
    requires
        bar.position == 0,
        existing <= bar.length,
    ensures
        ({
            let end = after_changes(bar, exclusion(existing) + advances(blocks));
            end.position == end.length <==> existing + crate::download::preflight::sum(blocks)
                == bar.length
        }),
{
    bars_change_by_the_amount(bar, existing);
    lemma_after_both(bar, exclusion(existing), advances(blocks));
    lemma_advances(after_changes(bar, exclusion(existing)), blocks);
}

} // verus!
