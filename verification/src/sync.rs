//! The block ranges that the index asks the chain for: the historical sync
//! in batches from the start block to the latest one, then each poll.

use vstd::prelude::*;

verus! {

/// The number of blocks asked for per batch during the historical sync.
pub const SYNC_BATCH_SIZE: u64 = 10_000;

/// The batches `(from, to)` that cover blocks `from..=latest`, each at most
/// [`SYNC_BATCH_SIZE`] blocks long.
pub open spec fn spec_sync_batches(from: int, latest: int) -> Seq<(int, int)>
    decreases latest - from + 1,
{
    if from > latest {
        seq![]
    } else {
        let to = if from + SYNC_BATCH_SIZE - 1 < latest {
            from + SYNC_BATCH_SIZE - 1
        } else {
            latest
        };
        seq![(from, to)] + spec_sync_batches(to + 1, latest)
    }
}

/// The batch arithmetic stays in 64 bits: `from + SYNC_BATCH_SIZE` and
/// `to + 1` of every batch.
pub open spec fn sync_fits(start: u64, latest: u64) -> bool {
    let b = spec_sync_batches(start as int, latest as int);
    forall|i: int|
        0 <= i < b.len() ==> #[trigger] b[i].0 + SYNC_BATCH_SIZE <= u64::MAX && b[i].1 + 1
            <= u64::MAX
}

/// The batches of the historical sync from `start` to `latest`.
pub fn sync_batches(start: u64, latest: u64) -> (plan: Vec<(u64, u64)>)
    requires
        sync_fits(start, latest),
    ensures
        plan@.map_values(|p: (u64, u64)| (p.0 as int, p.1 as int)) == spec_sync_batches(
            start as int,
            latest as int,
        ),
{
    let ghost all = spec_sync_batches(start as int, latest as int);
    let mut plan: Vec<(u64, u64)> = Vec::new();
    let mut from = start;
    while from <= latest
        invariant
            all == spec_sync_batches(start as int, latest as int),
            sync_fits(start, latest),
            all == plan@.map_values(|p: (u64, u64)| (p.0 as int, p.1 as int))
                + spec_sync_batches(from as int, latest as int),
        decreases latest - from + 1,
    {
        let ghost rest = spec_sync_batches(from as int, latest as int);
        let ghost k = plan@.len() as int;
        assert(all[k] == rest[0]);
        assert(all[k].0 + SYNC_BATCH_SIZE <= u64::MAX && all[k].1 + 1 <= u64::MAX);
        let end = from + SYNC_BATCH_SIZE - 1;
        let to = if end < latest {
            end
        } else {
            latest
        };
        let ghost before = plan@;
        plan.push((from, to));
        assert(plan@.map_values(|p: (u64, u64)| (p.0 as int, p.1 as int)) =~= before.map_values(
            |p: (u64, u64)| (p.0 as int, p.1 as int),
        ).push((from as int, to as int)));
        assert(all =~= plan@.map_values(|p: (u64, u64)| (p.0 as int, p.1 as int))
            + spec_sync_batches(to + 1, latest as int));
        from = to + 1;
    }
    assert(spec_sync_batches(from as int, latest as int) =~= Seq::<(int, int)>::empty());
    assert(all =~= plan@.map_values(|p: (u64, u64)| (p.0 as int, p.1 as int)));
    plan
}

/// Whether the batch arithmetic of a sync from `start` to `latest` stays in
/// 64 bits, that is whether [`sync_batches`] may be asked for that range.
pub fn sync_plan_fits(start: u64, latest: u64) -> (ok: bool)
    ensures
        ok == sync_fits(start, latest),
{
    let ghost all = spec_sync_batches(start as int, latest as int);
    let ghost mut k: int = 0;
    let mut from = start;
    assert(all.subrange(0, all.len() as int) =~= all);
    while from <= latest
        invariant
            all == spec_sync_batches(start as int, latest as int),
            0 <= k <= all.len(),
            all.subrange(k, all.len() as int) == spec_sync_batches(from as int, latest as int),
            forall|i: int|
                0 <= i < k ==> #[trigger] all[i].0 + SYNC_BATCH_SIZE <= u64::MAX && all[i].1 + 1
                    <= u64::MAX,
        decreases latest - from + 1,
    {
        let ghost rest = spec_sync_batches(from as int, latest as int);
        assert(rest.len() > 0);
        assert(all[k] == all.subrange(k, all.len() as int)[0]);
        assert(all[k].0 == from);
        if from > u64::MAX - SYNC_BATCH_SIZE {
            assert(!(all[k].0 + SYNC_BATCH_SIZE <= u64::MAX));
            return false;
        }
        let end = from + SYNC_BATCH_SIZE - 1;
        let to = if end < latest {
            end
        } else {
            latest
        };
        assert(rest == seq![(from as int, to as int)] + spec_sync_batches(to + 1, latest as int));
        if to == u64::MAX {
            return false;
        }
        proof {
            assert(all.subrange(k + 1, all.len() as int) =~= all.subrange(k, all.len() as int).subrange(
                1,
                rest.len() as int,
            ));
            assert(rest.subrange(1, rest.len() as int) =~= spec_sync_batches(to + 1, latest as int));
            k = k + 1;
        }
        from = to + 1;
    }
    assert(spec_sync_batches(from as int, latest as int).len() == 0);
    true
}

/// The blocks that a polling round asks for: those after the last synced
/// block up to the latest one, if there are any.
pub open spec fn spec_poll_range(latest: u64, last_synced: u64) -> Option<(u64, u64)> {
    if latest > last_synced {
        Some(((last_synced + 1) as u64, latest))
    } else {
        None
    }
}

/// The last synced block after a polling round: the end of the range it
/// asked for, or the one before where it asked for nothing.
pub open spec fn spec_after_poll(latest: u64, last_synced: u64) -> u64 {
    match spec_poll_range(latest, last_synced) {
        Some((_, to)) => to,
        None => last_synced,
    }
}

/// The ranges that polling rounds ask for, from `last_synced` on, with the
/// latest block that each round sees.
pub open spec fn spec_poll_rounds(last_synced: u64, latests: Seq<u64>) -> Seq<(u64, u64)>
    decreases latests.len(),
{
    if latests.len() == 0 {
        seq![]
    } else {
        let before = spec_poll_rounds(last_synced, latests.drop_last());
        let last = spec_last_after(last_synced, latests.drop_last());
        match spec_poll_range(latests.last(), last) {
            Some(r) => before.push(r),
            None => before,
        }
    }
}

/// The last synced block after polling rounds.
pub open spec fn spec_last_after(last_synced: u64, latests: Seq<u64>) -> u64
    decreases latests.len(),
{
    if latests.len() == 0 {
        last_synced
    } else {
        spec_after_poll(latests.last(), spec_last_after(last_synced, latests.drop_last()))
    }
}

/// The blocks that a poll asks for: those after the last synced block up
/// to the latest one, if there are any.
pub fn poll_range(latest: u64, last_synced: u64) -> (r: Option<(u64, u64)>)
    ensures
        r == spec_poll_range(latest, last_synced),
{
    if latest > last_synced {
        Some((last_synced + 1, latest))
    } else {
        None
    }
}

/// The batches of a sync cover its range exactly: none where the range is
/// empty; otherwise the first starts at `from`, the last ends at `latest`,
/// each is non-empty and at most [`SYNC_BATCH_SIZE`] blocks long, and each
/// starts just after the previous one ends.
pub proof fn lemma_sync_batches_cover(from: int, latest: int)
    ensures
        ({
            let b = spec_sync_batches(from, latest);
            &&& (b.len() == 0 <==> from > latest)
            &&& b.len() > 0 ==> b[0].0 == from && b.last().1 == latest
            &&& forall|i: int|
                0 <= i < b.len() ==> #[trigger] b[i].0 <= b[i].1 && b[i].1 - b[i].0 < SYNC_BATCH_SIZE
            &&& forall|i: int| 0 <= i < b.len() - 1 ==> #[trigger] b[i + 1].0 == b[i].1 + 1
        }),
    decreases latest - from + 1,
{
    if from <= latest {
        let to = if from + SYNC_BATCH_SIZE - 1 < latest {
            from + SYNC_BATCH_SIZE - 1
        } else {
            latest
        };
        lemma_sync_batches_cover(to + 1, latest);
        let b = spec_sync_batches(from, latest);
        let rest = spec_sync_batches(to + 1, latest);
        assert(b == seq![(from, to)] + rest);
        assert forall|i: int| 0 <= i < b.len() implies #[trigger] b[i].0 <= b[i].1 && b[i].1 - b[i].0
            < SYNC_BATCH_SIZE by {
            if i > 0 {
                assert(b[i] == rest[i - 1]);
            }
        }
        assert forall|i: int| 0 <= i < b.len() - 1 implies #[trigger] b[i + 1].0 == b[i].1 + 1 by {
            assert(b[i + 1] == rest[i]);
            if i > 0 {
                assert(b[i] == rest[i - 1]);
                let k = i - 1;
                assert(0 <= k < rest.len() - 1);
                assert(rest[k + 1].0 == rest[k].1 + 1);
            } else {
                assert(rest[0].0 == to + 1);
            }
        }
        if rest.len() > 0 {
            assert(b.last() == rest.last());
        }
    }
}

/// Polling never lowers the last synced block and skips no block: over any
/// number of rounds, the ranges asked for are non-empty, the first starts
/// just after the block synced before, each starts just after the previous
/// one ends, and the last ends at the block synced after them (which is
/// the one before where no range was asked for).
pub proof fn lemma_polling_covers(last_synced: u64, latests: Seq<u64>)
    ensures
        ({
            let rs = spec_poll_rounds(last_synced, latests);
            let last = spec_last_after(last_synced, latests);
            &&& last >= last_synced
            &&& (rs.len() == 0 <==> last == last_synced)
            &&& rs.len() > 0 ==> rs[0].0 == last_synced + 1 && rs.last().1 == last
            &&& forall|i: int| 0 <= i < rs.len() ==> #[trigger] rs[i].0 <= rs[i].1
            &&& forall|i: int| 0 <= i < rs.len() - 1 ==> #[trigger] rs[i + 1].0 == rs[i].1 + 1
        }),
    decreases latests.len(),
{
    if latests.len() > 0 {
        let prev = latests.drop_last();
        lemma_polling_covers(last_synced, prev);
        let before = spec_poll_rounds(last_synced, prev);
        let l0 = spec_last_after(last_synced, prev);
        let rs = spec_poll_rounds(last_synced, latests);
        match spec_poll_range(latests.last(), l0) {
            Some(r) => {
                assert(rs == before.push(r));
                assert forall|i: int| 0 <= i < rs.len() - 1 implies #[trigger] rs[i + 1].0 == rs[i].1
                    + 1 by {
                    if i + 1 < before.len() {
                        assert(rs[i] == before[i] && rs[i + 1] == before[i + 1]);
                    } else {
                        assert(rs[i + 1] == r);
                        if before.len() > 0 {
                            assert(rs[i] == before.last());
                        }
                    }
                }
                assert forall|i: int| 0 <= i < rs.len() implies #[trigger] rs[i].0 <= rs[i].1 by {
                    if i < before.len() {
                        assert(rs[i] == before[i]);
                    }
                }
                if before.len() > 0 {
                    assert(rs[0] == before[0]);
                }
            },
            None => {},
        }
    }
}

} // verus!
