//! What a rotating file keeps record of.
use crate::limits::Limits;
use crate::order::{path_lt, Parts};
use crate::path::LogPath;
use crate::rotating_file::RotatingFile;
use crate::state::{listing_is_unique, paths_of, State};
use crate::time::TimeDelta;
use crate::work::{Work, WorkId};
use vstd::prelude::*;

verus! {

/// A file that was found is listed, besides those listed before; each file comes before those
/// behind it, and so none is listed twice.
pub proof fn found_file_is_listed(state: &mut State, path: LogPath)
    requires
        call_ensures(State::found_file, (state, path), ()),
    ensures
        final(state)@.contains(path@),
        forall|other: Parts|
            other != path@
                ==> (#[trigger] final(state)@.contains(other) <==> old(state)@.contains(other)),
        forall|i: int, j: int|
            #![trigger final(state)@[i], final(state)@[j]]
            0 <= i < j < final(state)@.len() ==> path_lt(final(state)@[i], final(state)@[j]),
        old(state)@.contains(path@) ==> final(state)@.len() == old(state)@.len(),
        !old(state)@.contains(path@) ==> final(state)@.len() == old(state)@.len() + 1,
{
}

/// A file that is forgotten is no longer listed; all others are, in the same order.
pub proof fn forgotten_file_is_not_listed(state: &mut State, path: LogPath)
    requires
        call_ensures(State::remove, (state, &path), ()),
    ensures
        !final(state)@.contains(path@),
        forall|other: Parts|
            other != path@
                ==> (#[trigger] final(state)@.contains(other) <==> old(state)@.contains(other)),
        forall|i: int, j: int|
            #![trigger final(state)@[i], final(state)@[j]]
            0 <= i < j < final(state)@.len() ==> path_lt(final(state)@[i], final(state)@[j]),
{
}

/// To forget a file that has just been found is to undo that.
pub proof fn forgetting_undoes_finding(found: &mut State, forgotten: &mut State, path: LogPath)
    requires
        call_ensures(State::found_file, (found, path), ()),
        *old(forgotten) == *final(found),
        call_ensures(State::remove, (forgotten, &path), ()),
        old(found).is_valid(),
        !old(found)@.contains(path@),
    ensures
        final(forgotten)@ == old(found)@,
{
    let before = old(found)@;
    let after = final(forgotten)@;
    assert forall|other: Parts| before.contains(other) <==> after.contains(other) by {}
    listing_is_unique(before, after);
}

/// In whatever order two files are found, the listing is the same.
pub proof fn finding_order_does_not_matter(
    a: &mut State,
    b: &mut State,
    c: &mut State,
    d: &mut State,
    x: LogPath,
    y: LogPath,
)
    requires
        *old(a) == *old(c),
        call_ensures(State::found_file, (a, x), ()),
        *old(b) == *final(a),
        call_ensures(State::found_file, (b, y), ()),
        call_ensures(State::found_file, (c, y), ()),
        *old(d) == *final(c),
        call_ensures(State::found_file, (d, x), ()),
    ensures
        final(b)@ == final(d)@,
{
    let p = final(b)@;
    let q = final(d)@;
    assert forall|other: Parts| p.contains(other) <==> q.contains(other) by {}
    listing_is_unique(p, q);
}

/// A file that was compressed is listed under its new name and not under its old one.
pub proof fn compressed_file_is_listed_anew(state: &mut State, old_path: LogPath, new_path: LogPath)
    requires
        call_ensures(State::file_compressed, (state, old_path, new_path), ()),
        old_path@ != new_path@,
    ensures
        final(state)@.contains(new_path@),
        !final(state)@.contains(old_path@),
        forall|other: Parts|
            other != old_path@ && other != new_path@ ==> (#[trigger] final(state)@.contains(other)
                <==> old(state)@.contains(other)),
        forall|i: int, j: int|
            #![trigger final(state)@[i], final(state)@[j]]
            0 <= i < j < final(state)@.len() ==> path_lt(final(state)@[i], final(state)@[j]),
{
}

/// The listing is handed out whole and in order; its length is the number of files, and its first
/// file the first of the listing.
pub proof fn listing_is_handed_out_whole(
    state: State,
    files: Vec<LogPath>,
    len: usize,
    first: Option<LogPath>,
)
    requires
        call_ensures(State::files, (&state,), files),
        call_ensures(State::len, (&state,), len),
        call_ensures(State::first, (&state,), first),
    ensures
        files@.len() == len,
        state@.len() == len,
        forall|i: int| 0 <= i < files@.len() ==> (#[trigger] files@[i])@ == state@[i],
        first is None <==> len == 0,
        first matches Some(path) ==> path@ == files@[0]@,
{
    assert(paths_of(files@).len() == files@.len());
    assert forall|i: int| 0 <= i < files@.len() implies (#[trigger] files@[i])@ == state@[i] by {
        assert(paths_of(files@)[i] == files@[i]@);
    }
}

/// Nothing is listed at first.
pub proof fn nothing_is_listed_at_first(state: State)
    requires
        call_ensures(<State as Default>::default, (), state),
    ensures
        state@.len() == 0,
{
}

/// A compression that is recorded runs besides the others, behind them and under an id that none of
/// them has.
pub proof fn recorded_work_runs<H>(work: &mut Work<H>, next: WorkId, handle: H, id: WorkId)
    requires
        call_ensures(Work::<H>::next_id, (&*old(work),), next),
        call_ensures(Work::<H>::enqueue_compression, (work, handle), id),
        old(work).is_valid(),
    ensures
        id == next,
        final(work)@.len() == old(work)@.len() + 1,
        final(work)@.drop_last() == old(work)@,
        final(work)@.last() == (id, handle),
        forall|i: int| 0 <= i < old(work)@.len() ==> (#[trigger] old(work)@[i]).0 != id,
{
    assert(final(work)@.drop_last() =~= old(work)@);
}

/// A compression that has finished no longer runs; the others do, in the same order.
pub proof fn finished_work_is_forgotten<H>(work: &mut Work<H>, id: WorkId)
    requires
        call_ensures(Work::<H>::compression_finished, (work, id), ()),
    ensures
        forall|i: int|
            0 <= i < old(work)@.len()
                && (#[trigger] old(work)@[i]).0 == id ==> final(work)@ == old(work)@.remove(i),
        (forall|i: int| 0 <= i < old(work)@.len() ==> (#[trigger] old(work)@[i]).0 != id)
            ==> final(work)@ == old(work)@,
{
}

/// A compression that is recorded and finished leaves no trace.
pub proof fn finishing_undoes_recording<H>(
    recorded: &mut Work<H>,
    finished: &mut Work<H>,
    handle: H,
    id: WorkId,
)
    requires
        call_ensures(Work::<H>::enqueue_compression, (recorded, handle), id),
        *old(finished) == *final(recorded),
        call_ensures(Work::<H>::compression_finished, (finished, id), ()),
    ensures
        final(finished)@ == old(recorded)@,
{
    let before = old(recorded)@;
    let during = final(recorded)@;
    assert(during[before.len() as int].0 == id);
    assert(during.remove(before.len() as int) =~= before);
}

/// The id of a compression is never given to another: the next id grows by one with every
/// compression that is recorded, and stays when one has finished or all are handed over.
pub proof fn ids_are_not_given_twice<H>(
    recorded: &mut Work<H>,
    finished: &mut Work<H>,
    drained: &mut Work<H>,
    handle: H,
    id: WorkId,
    finished_id: WorkId,
    handles: Vec<H>,
    a: WorkId,
    b: WorkId,
    c: WorkId,
    d: WorkId,
)
    requires
        call_ensures(Work::<H>::next_id, (&*old(recorded),), a),
        call_ensures(Work::<H>::enqueue_compression, (recorded, handle), id),
        call_ensures(Work::<H>::next_id, (&*final(recorded),), b),
        *old(finished) == *final(recorded),
        call_ensures(Work::<H>::compression_finished, (finished, finished_id), ()),
        call_ensures(Work::<H>::next_id, (&*final(finished),), c),
        *old(drained) == *final(recorded),
        call_ensures(Work::<H>::drain_handles, (drained,), handles),
        call_ensures(Work::<H>::next_id, (&*final(drained),), d),
    ensures
        id == a,
        b.0 == a.0 + 1,
        c == b,
        d == b,
{
}

/// All handles are handed over, in order, and nothing runs afterwards.
pub proof fn handles_are_handed_over<H>(work: &mut Work<H>, len: usize, handles: Vec<H>)
    requires
        call_ensures(Work::<H>::len, (&*old(work),), len),
        call_ensures(Work::<H>::drain_handles, (work,), handles),
    ensures
        final(work)@.len() == 0,
        handles@.len() == len,
        old(work)@.len() == len,
        forall|i: int| 0 <= i < handles@.len() ==> #[trigger] handles@[i] == old(work)@[i].1,
{
}

/// Nothing runs at first.
pub proof fn nothing_runs_at_first<H>(work: Work<H>)
    requires
        call_ensures(Work::<H>::new, (), work),
    ensures
        work@.len() == 0,
{
}

/// Nothing is limited at first, and to set a limit is to leave the others as they are.
pub proof fn limits_are_set_one_by_one(
    none: Limits,
    limits: Limits,
    bytes: usize,
    max_age: TimeDelta,
    max_files: usize,
    sized: Limits,
    aged: Limits,
    counted: Limits,
)
    requires
        call_ensures(<Limits as Default>::default, (), none),
        call_ensures(Limits::size, (limits, bytes), sized),
        call_ensures(Limits::age, (limits, max_age), aged),
        call_ensures(Limits::files, (limits, max_files), counted),
    ensures
        none.size is None && none.age is None && none.files is None,
        sized.size == Some(bytes) && sized.age == limits.age && sized.files == limits.files,
        aged.age == Some(max_age) && aged.size == limits.size && aged.files == limits.files,
        counted.files == Some(max_files) && counted.size == limits.size && counted.age
            == limits.age,
{
}

/// A compression that is recorded with the rotating file runs; nothing else changes.
pub proof fn recorded_compression_runs<H>(file: &mut RotatingFile<H>, handle: H, id: WorkId)
    requires
        call_ensures(RotatingFile::<H>::enqueue_compression, (file, handle), id),
        old(file).work.is_valid(),
    ensures
        final(file).storage == old(file).storage,
        final(file).limits == old(file).limits,
        final(file).current == old(file).current,
        final(file).state == old(file).state,
        final(file).work@.len() == old(file).work@.len() + 1,
        final(file).work@.drop_last() == old(file).work@,
        final(file).work@.last() == (id, handle),
        forall|i: int| 0 <= i < old(file).work@.len() ==> (#[trigger] old(file).work@[i]).0 != id,
{
    assert(final(file).work@.drop_last() =~= old(file).work@);
}

} // verus!
