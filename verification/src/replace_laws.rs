//! What the replacement of a file by a clone does to the files.

use crate::path;
use crate::replace;
use crate::replace::{CloneActionView, CloneEvent, CloneState};
use crate::text;
use vstd::prelude::*;
use vstd::utf8::*;

verus! {

/// A file with its metadata.
pub struct FileState {
    pub data: Seq<u8>,
    pub mode: u32,
    pub owner: (u32, u32),
    pub times: (int, int),
    pub xattrs: Map<Seq<u8>, Seq<u8>>,
    pub flags: u32,
}

/// The files under their paths.
pub type Files = Map<Seq<u8>, FileState>;

/// The bits of a mode that make a program run with the rights of its owner or group.
pub const SET_ID: u32 = 0o6000;

/// The mode can become another by losing bits for setting the user or group on execution.
pub open spec fn can_lose_set_id(before: u32, after: u32) -> bool {
    &&& after & !SET_ID == before & !SET_ID
    &&& after & SET_ID & !before == 0
}

/// An action that ended with `event` can turn `before` into `after`. Of a clone it is known that
/// it holds the data of its origin, and its flags unless it has none. A change of owner can clear
/// the bits for setting the user or group on execution.
pub open spec fn can_turn(
    before: Files,
    action: CloneActionView,
    event: CloneEvent,
    after: Files,
) -> bool {
    match action {
        CloneActionView::Stat { path } => {
            &&& after == before
            &&& event matches CloneEvent::Stat(facts) ==> before.dom().contains(path)
                && before[path].data.len() == facts.size && before[path].flags == facts.flags
        },
        CloneActionView::MakeClone { from, to } => if event is Done {
            &&& before.dom().contains(from)
            &&& !before.dom().contains(to)
            &&& after == before.insert(to, after[to])
            &&& after[to].data == before[from].data
            &&& after[to].flags == before[from].flags || after[to].flags == 0
        } else {
            after == before
        },
        CloneActionView::CopyXattrs { from, to } => if event is Done {
            after == before.insert(to, FileState { xattrs: before[from].xattrs, ..before[to] })
        } else {
            after == before.insert(to, FileState { xattrs: after[to].xattrs, ..before[to] })
        },
        CloneActionView::SetPermissions { from, to } => if event is Done {
            after == before.insert(to, FileState { mode: before[from].mode, ..before[to] })
        } else {
            after == before
        },
        CloneActionView::SetOwnership { from, to } => if event is Done {
            &&& after == before.insert(
                to,
                FileState { owner: before[from].owner, mode: after[to].mode, ..before[to] },
            )
            &&& can_lose_set_id(before[to].mode, after[to].mode)
        } else {
            after == before
        },
        CloneActionView::SetTimes { from, to } => if event is Done {
            after == before.insert(to, FileState { times: before[from].times, ..before[to] })
        } else {
            after == before
        },
        CloneActionView::Rename { from, to } => if event is Done {
            after == before.remove(from).insert(to, before[from])
        } else {
            after == before
        },
        CloneActionView::SetFlags { path, flags } => if event is Done {
            after == before.insert(path, FileState { flags, ..before[path] })
        } else {
            after == before
        },
        CloneActionView::Remove { path } => if event is Done {
            after == before.remove(path)
        } else {
            after == before
        },
        CloneActionView::Finish { .. } => after == before,
    }
}

/// A replacement of `target` by a clone of `source` by way of `temp`, from its start: the states
/// and the files before each event and after the last.
pub open spec fn is_run(
    states: Seq<CloneState>,
    worlds: Seq<Files>,
    events: Seq<CloneEvent>,
    source: Seq<u8>,
    target: Seq<u8>,
    temp: Seq<u8>,
) -> bool {
    &&& states.len() == events.len() + 1
    &&& worlds.len() == events.len() + 1
    &&& states[0] == CloneState::StatSource
    &&& forall|i: int|
        0 <= i < events.len() ==> #[trigger] run_step(
            states,
            worlds,
            events,
            source,
            target,
            temp,
            i,
        )
}

/// The step of a run at position `i`.
pub open spec fn run_step(
    states: Seq<CloneState>,
    worlds: Seq<Files>,
    events: Seq<CloneEvent>,
    source: Seq<u8>,
    target: Seq<u8>,
    temp: Seq<u8>,
    i: int,
) -> bool {
    &&& replace::event_fits(states[i], events[i])
    &&& states[i + 1] == replace::next_state(states[i], events[i])
    &&& can_turn(
        worlds[i],
        replace::action_of(states[i], source, target, temp),
        events[i],
        worlds[i + 1],
    )
}

/// Up to position `n`, copying the extended attributes did not fail.
pub open spec fn xattrs_copied(states: Seq<CloneState>, events: Seq<CloneEvent>, n: int) -> bool {
    forall|i: int| 0 <= i < n && (#[trigger] states[i]) is CopyXattrs ==> !(events[i] is Failed)
}

/// Up to position `n`, setting the flags did not fail.
pub open spec fn flags_set(states: Seq<CloneState>, events: Seq<CloneEvent>, n: int) -> bool {
    forall|i: int| 0 <= i < n && (#[trigger] states[i]) is SetFlags ==> !(events[i] is Failed)
}

/// `file` is a clone of `source` that has got the metadata of `target`, as far as the arguments
/// tell.
spec fn is_dressed(
    file: FileState,
    source: FileState,
    target: FileState,
    xattrs: bool,
    owner: bool,
    mode: bool,
    times: bool,
) -> bool {
    &&& file.data == source.data
    &&& file.flags == source.flags || file.flags == 0
    &&& xattrs ==> file.xattrs == target.xattrs
    &&& owner ==> file.owner == target.owner
    &&& mode ==> file.mode == target.mode
    &&& times ==> file.times == target.times
}

/// What holds in each state of a run that began with the files `start`: `copied` tells that
/// copying the extended attributes did not fail so far, `flagged` that setting the flags did not.
spec fn run_invariant(
    state: CloneState,
    files: Files,
    start: Files,
    source: Seq<u8>,
    target: Seq<u8>,
    temp: Seq<u8>,
    copied: bool,
    flagged: bool,
) -> bool {
    let s = start[source];
    let t = start[target];
    let known = |sf: replace::StatFacts, tf: replace::StatFacts|
        {
            &&& start.dom().contains(source)
            &&& start.dom().contains(target)
            &&& sf.flags == s.flags
            &&& tf.flags == t.flags
            &&& tf.size == t.data.len()
        };
    let cloned = {
        &&& start.dom().contains(source)
        &&& start.dom().contains(target)
        &&& !start.dom().contains(temp)
        &&& files == start.insert(temp, files[temp])
    };
    match state {
        CloneState::StatSource => files == start,
        CloneState::StatTarget { source: sf } => files == start && start.dom().contains(source)
            && sf.flags == s.flags,
        CloneState::MakeClone { source: sf, target: tf } => files == start && known(sf, tf),
        CloneState::CopyXattrs { source: sf, target: tf } => {
            &&& known(sf, tf)
            &&& cloned
            &&& is_dressed(files[temp], s, t, false, false, false, false)
        },
        CloneState::SetOwnership { source: sf, target: tf } => {
            &&& known(sf, tf)
            &&& cloned
            &&& is_dressed(files[temp], s, t, copied, false, false, false)
        },
        CloneState::SetPermissions { source: sf, target: tf } => {
            &&& known(sf, tf)
            &&& cloned
            &&& is_dressed(files[temp], s, t, copied, true, false, false)
        },
        CloneState::SetTimes { source: sf, target: tf } => {
            &&& known(sf, tf)
            &&& cloned
            &&& is_dressed(files[temp], s, t, copied, true, true, false)
        },
        CloneState::Rename { source: sf, target: tf } => {
            &&& known(sf, tf)
            &&& cloned
            &&& is_dressed(files[temp], s, t, copied, true, true, true)
        },
        CloneState::SetFlags { target: tf } => {
            &&& start.dom().contains(source)
            &&& start.dom().contains(target)
            &&& tf.flags == t.flags
            &&& tf.size == t.data.len()
            &&& !start.dom().contains(temp)
            &&& files == start.insert(target, files[target])
            &&& is_dressed(files[target], s, t, copied, true, true, true)
        },
        CloneState::RemoveTemp { .. } => cloned,
        CloneState::Finished { outcome } => match outcome {
            Ok(size) => {
                &&& start.dom().contains(source)
                &&& start.dom().contains(target)
                &&& size == t.data.len()
                &&& !start.dom().contains(temp)
                &&& files == start.insert(target, files[target])
                &&& is_dressed(
                    FileState { flags: s.flags, ..files[target] },
                    s,
                    t,
                    copied,
                    true,
                    true,
                    true,
                )
                &&& flagged ==> files[target].flags == t.flags
            },
            Err(_) => files == start || cloned,
        },
    }
}

proof fn lemma_run_step(
    state: CloneState,
    event: CloneEvent,
    before: Files,
    after: Files,
    start: Files,
    source: Seq<u8>,
    target: Seq<u8>,
    temp: Seq<u8>,
    copied: bool,
    flagged: bool,
)
    requires
        source != target,
        run_invariant(state, before, start, source, target, temp, copied, flagged),
        replace::event_fits(state, event),
        can_turn(before, replace::action_of(state, source, target, temp), event, after),
    ensures
        run_invariant(
            replace::next_state(state, event),
            after,
            start,
            source,
            target,
            temp,
            copied && !(state is CopyXattrs && event is Failed),
            flagged && !(state is SetFlags && event is Failed),
        ),
{
    match state {
        CloneState::MakeClone { .. } => {
            if event is Done {
                assert(after =~= start.insert(temp, after[temp]));
            }
        },
        CloneState::CopyXattrs { .. } => {
            assert(after =~= start.insert(temp, after[temp]));
        },
        CloneState::SetPermissions { .. } | CloneState::SetOwnership { .. }
        | CloneState::SetTimes { .. } => {
            assert(after =~= start.insert(temp, after[temp]));
        },
        CloneState::Rename { .. } => {
            if event is Done {
                assert(after =~= start.insert(target, after[target]));
            }
        },
        CloneState::SetFlags { .. } => {
            assert(after =~= start.insert(target, after[target]));
        },
        CloneState::RemoveTemp { .. } => {
            if event is Done {
                assert(after =~= start);
            }
        },
        _ => {},
    }
}

proof fn lemma_run(
    states: Seq<CloneState>,
    worlds: Seq<Files>,
    events: Seq<CloneEvent>,
    source: Seq<u8>,
    target: Seq<u8>,
    temp: Seq<u8>,
    n: int,
)
    requires
        source != target,
        is_run(states, worlds, events, source, target, temp),
        0 <= n <= events.len(),
    ensures
        run_invariant(
            states[n],
            worlds[n],
            worlds[0],
            source,
            target,
            temp,
            xattrs_copied(states, events, n),
            flags_set(states, events, n),
        ),
    decreases n,
{
    if n > 0 {
        lemma_run(states, worlds, events, source, target, temp, n - 1);
        assert(run_step(states, worlds, events, source, target, temp, n - 1));
        lemma_run_step(
            states[n - 1],
            events[n - 1],
            worlds[n - 1],
            worlds[n],
            worlds[0],
            source,
            target,
            temp,
            xattrs_copied(states, events, n - 1),
            flags_set(states, events, n - 1),
        );
        let failed = events[n - 1] is Failed;
        assert(xattrs_copied(states, events, n) == (xattrs_copied(states, events, n - 1) && !(
        states[n - 1] is CopyXattrs && failed)));
        assert(flags_set(states, events, n) == (flags_set(states, events, n - 1) && !(states[n - 1]
            is SetFlags && failed)));
    }
}

/// A replacement that succeeds changes the target and no other file, and leaves nothing at the
/// temporary path. The target then has the data of the source and its own permissions, owner and
/// times, and the bytes reported are those that it held. Its extended attributes are its own too
/// where copying them did not fail, and so are its flags where setting them did not fail.
pub proof fn law_success_keeps_metadata(
    states: Seq<CloneState>,
    worlds: Seq<Files>,
    events: Seq<CloneEvent>,
    source: Seq<u8>,
    target: Seq<u8>,
    temp: Seq<u8>,
    saved: u64,
)
    requires
        source != target,
        is_run(states, worlds, events, source, target, temp),
        states.last() == (CloneState::Finished { outcome: Ok(saved) }),
    ensures
        ({
            let start = worlds[0];
            let end = worlds.last();
            let n = events.len() as int;
            &&& end == start.insert(target, end[target])
            &&& end[target].data == start[source].data
            &&& end[target].mode == start[target].mode
            &&& end[target].owner == start[target].owner
            &&& end[target].times == start[target].times
            &&& saved == start[target].data.len()
            &&& !end.dom().contains(temp)
            &&& xattrs_copied(states, events, n) ==> end[target].xattrs == start[target].xattrs
            &&& flags_set(states, events, n) ==> end[target].flags == start[target].flags
        }),
{
    lemma_run(states, worlds, events, source, target, temp, events.len() as int);
}

/// A replacement that fails leaves every file as it was, but for the temporary one.
pub proof fn law_failure_keeps_files(
    states: Seq<CloneState>,
    worlds: Seq<Files>,
    events: Seq<CloneEvent>,
    source: Seq<u8>,
    target: Seq<u8>,
    temp: Seq<u8>,
    error: replace::CloneError,
)
    requires
        source != target,
        is_run(states, worlds, events, source, target, temp),
        states.last() == (CloneState::Finished { outcome: Err(error) }),
    ensures
        worlds.last().remove(temp) == worlds[0].remove(temp),
        worlds[0].dom().contains(temp) ==> worlds.last() == worlds[0],
{
    lemma_run(states, worlds, events, source, target, temp, events.len() as int);
    assert(worlds.last().remove(temp) =~= worlds[0].remove(temp));
}

/// Where a replacement fails and the temporary file could be removed, nothing is left of it.
pub proof fn law_failure_removes_temp(
    states: Seq<CloneState>,
    worlds: Seq<Files>,
    events: Seq<CloneEvent>,
    source: Seq<u8>,
    target: Seq<u8>,
    temp: Seq<u8>,
    error: replace::CloneError,
    i: int,
)
    requires
        source != target,
        is_run(states, worlds, events, source, target, temp),
        0 <= i < events.len(),
        states[i] == (CloneState::RemoveTemp { error }),
        events[i] is Done,
    ensures
        worlds[i + 1] == worlds[0],
        states[i + 1] == (CloneState::Finished { outcome: Err(error) }),
{
    lemma_run(states, worlds, events, source, target, temp, i);
    assert(run_step(states, worlds, events, source, target, temp, i));
    assert(worlds[i + 1] =~= worlds[0]);
}

/// At every moment of a replacement the source is as it was, and the target is as it was until
/// it is replaced by the renaming.
pub proof fn law_source_never_changes(
    states: Seq<CloneState>,
    worlds: Seq<Files>,
    events: Seq<CloneEvent>,
    source: Seq<u8>,
    target: Seq<u8>,
    temp: Seq<u8>,
    n: int,
)
    requires
        source != target,
        is_run(states, worlds, events, source, target, temp),
        0 <= n <= events.len(),
    ensures
        worlds[n].dom().contains(source) == worlds[0].dom().contains(source),
        worlds[n].dom().contains(source) ==> worlds[n][source] == worlds[0][source],
        !(states[n] is SetFlags) && !(states[n] is Finished && states[n]->outcome is Ok) ==> (
        worlds[n].dom().contains(target) == worlds[0].dom().contains(target) && (
        worlds[n].dom().contains(target) ==> worlds[n][target] == worlds[0][target])),
{
    lemma_run(states, worlds, events, source, target, temp, n);
}

/// The paths that an action writes to.
pub open spec fn written_paths(action: CloneActionView) -> Set<Seq<u8>> {
    match action {
        CloneActionView::Stat { .. } => Set::empty(),
        CloneActionView::MakeClone { to, .. } => set![to],
        CloneActionView::CopyXattrs { to, .. } => set![to],
        CloneActionView::SetPermissions { to, .. } => set![to],
        CloneActionView::SetOwnership { to, .. } => set![to],
        CloneActionView::SetTimes { to, .. } => set![to],
        CloneActionView::Rename { from, to } => set![from, to],
        CloneActionView::SetFlags { path, .. } => set![path],
        CloneActionView::Remove { path } => set![path],
        CloneActionView::Finish { .. } => Set::empty(),
    }
}

/// No action writes to a path other than those of the target and the temporary file.
pub proof fn law_only_target_and_temp_are_written(
    state: CloneState,
    source: Seq<u8>,
    target: Seq<u8>,
    temp: Seq<u8>,
    written: Seq<u8>,
)
    requires
        written_paths(replace::action_of(state, source, target, temp)).contains(written),
    ensures
        written == target || written == temp,
{
}

/// How many events a replacement is away from its end at most.
pub open spec fn events_left(state: CloneState) -> nat {
    match state {
        CloneState::StatSource => 9,
        CloneState::StatTarget { .. } => 8,
        CloneState::MakeClone { .. } => 7,
        CloneState::CopyXattrs { .. } => 6,
        CloneState::SetOwnership { .. } => 5,
        CloneState::SetPermissions { .. } => 4,
        CloneState::SetTimes { .. } => 3,
        CloneState::Rename { .. } => 2,
        CloneState::SetFlags { .. } => 1,
        CloneState::RemoveTemp { .. } => 1,
        CloneState::Finished { .. } => 0,
    }
}

/// Every event brings a replacement nearer to its end.
pub proof fn law_replacement_ends(state: CloneState, event: CloneEvent)
    requires
        replace::event_fits(state, event),
    ensures
        events_left(replace::next_state(state, event)) < events_left(state),
{
}

proof fn lemma_encode_add(a: Seq<char>, b: Seq<char>)
    ensures
        encode_utf8(a + b) == encode_utf8(a) + encode_utf8(b),
    decreases a.len(),
{
    if a.len() == 0 {
        assert(a + b =~= b);
        assert(encode_utf8(a) =~= Seq::empty());
        assert(encode_utf8(a) + encode_utf8(b) =~= encode_utf8(b));
    } else {
        lemma_encode_add(a.drop_first(), b);
        assert((a + b).drop_first() =~= a.drop_first() + b);
        assert((a + b)[0] == a[0]);
        assert(encode_utf8(a + b) =~= encode_utf8(a) + encode_utf8(b));
    }
}

proof fn lemma_digits(n: int)
    requires
        n >= 0,
    ensures
        text::decimal_text(n).len() > 0,
        forall|i: int|
            0 <= i < text::decimal_text(n).len() ==> 48 <= (#[trigger] text::decimal_text(n)[i])
                as int <= 57,
    decreases n,
{
    if n >= 10 {
        lemma_digits(n / 10);
    }
}

/// Where the name of the target is UTF-8, its clone is made in the same directory under another
/// name: that of the target with an addition.
pub proof fn law_temp_is_next_to_target(target: Seq<u8>, process_id: u32)
    requires
        path::file_name(target) is Some,
        valid_utf8(path::file_name(target)->0),
        text::reads_exactly(path::file_name(target)->0),
    ensures
        ({
            let temp = replace::temp_path_of(target, process_id);
            let temp_name = path::file_name(target)->0 + encode_utf8(
                ".mdd_tmp_"@ + text::decimal_text(process_id as int),
            );
            &&& path::components(temp) == path::components(target).drop_last().push(
                path::ComponentView::Normal(temp_name),
            )
            &&& path::components(temp) != path::components(target)
            &&& temp != target
        }),
{
    reveal_strlit(".mdd_tmp_");
    let name = decode_utf8(path::file_name(target)->0);
    decode_utf8_encode_utf8(path::file_name(target)->0);
    let digits = text::decimal_text(process_id as int);
    let addition = ".mdd_tmp_"@ + digits;
    let full = encode_utf8(replace::temp_name(name, process_id));
    lemma_digits(process_id as int);
    assert(replace::temp_name(name, process_id) =~= name + addition);
    lemma_encode_add(name, addition);
    assert forall|i: int| 0 <= i < addition.len() implies 46 <= (#[trigger] addition[i]) as int
        <= 122 && addition[i] as int != 47 by {
        if i >= 9 {
            assert(addition[i] == digits[i - 9]);
        }
    }
    assert(is_ascii_chars(addition));
    is_ascii_chars_encode_utf8(addition);
    let tail = encode_utf8(addition);
    assert(tail.len() == addition.len());
    assert forall|i: int| 0 <= i < full.len() implies full[i] != path::SEPARATOR by {
        if i < encode_utf8(name).len() {
            path::law_file_name_holds_no_separator(target, i);
        } else {
            let k = i - encode_utf8(name).len();
            assert(full[i] == tail[k]);
            assert(tail[k] == addition[k] as u8);
        }
    }
    assert(path::is_plain_name(full));
    path::law_new_name_same_directory(target, full);
    let comps = path::components(target);
    assert(comps.last() == path::ComponentView::Normal(encode_utf8(name)));
    let temp_comps = comps.drop_last().push(path::ComponentView::Normal(full));
    assert(temp_comps.last() == path::ComponentView::Normal(full));
    assert(full.len() != encode_utf8(name).len());
}

// ---------------------------------------------------------------------------
// The course of a replacement
// ---------------------------------------------------------------------------

/// Once both files could be read, only their devices decide whether the clone is made: whatever
/// their sizes and flags, it is made on one device, and the volumes are blamed on two.
pub proof fn law_only_devices_decide(
    source: replace::StatFacts,
    target: replace::StatFacts,
    source_path: Seq<u8>,
    target_path: Seq<u8>,
    temp: Seq<u8>,
)
    ensures
        ({
            let read = replace::next_state(CloneState::StatSource, CloneEvent::Stat(source));
            let next = replace::next_state(read, CloneEvent::Stat(target));
            let action = replace::action_of(next, source_path, target_path, temp);
            &&& source.device == target.device ==> action == (CloneActionView::MakeClone {
                from: source_path,
                to: temp,
            })
            &&& source.device != target.device ==> action == (CloneActionView::Finish {
                outcome: Err(
                    "source and target are on different volumes (APFS clones must be on the same volume)"@,
                ),
            })
            &&& source.device != target.device <==> next == (CloneState::Finished {
                outcome: Err(replace::CloneError::DifferentVolumes),
            })
        }),
{
}

/// The volumes are blamed after the target could be read and at no other time.
pub proof fn law_volumes_are_blamed_for_devices_only(state: CloneState, event: CloneEvent)
    requires
        replace::event_fits(state, event),
        replace::next_state(state, event) == (CloneState::Finished {
            outcome: Err(replace::CloneError::DifferentVolumes),
        }),
        state != (CloneState::RemoveTemp { error: replace::CloneError::DifferentVolumes }),
    ensures
        state is StatTarget && event is Stat && state->StatTarget_source.device != event->0.device,
{
}

/// The actions of a replacement on one device in which nothing fails, in their order, up to the
/// bytes of the target. Where a file has flags, those of the target are set after the renaming.
/// Neither a failure to copy extended attributes nor one to set flags changes the course.
pub proof fn law_course_of_a_replacement(
    source: replace::StatFacts,
    target: replace::StatFacts,
    source_path: Seq<u8>,
    target_path: Seq<u8>,
    temp: Seq<u8>,
    copied: CloneEvent,
    flagged: CloneEvent,
)
    requires
        source.device == target.device,
        copied is Done || copied is Failed,
        flagged is Done || flagged is Failed,
    ensures
        ({
            let act = |state: CloneState|
                replace::action_of(state, source_path, target_path, temp);
            let s0 = CloneState::StatSource;
            let s1 = replace::next_state(s0, CloneEvent::Stat(source));
            let s2 = replace::next_state(s1, CloneEvent::Stat(target));
            let s3 = replace::next_state(s2, CloneEvent::Done);
            let s4 = replace::next_state(s3, copied);
            let s5 = replace::next_state(s4, CloneEvent::Done);
            let s6 = replace::next_state(s5, CloneEvent::Done);
            let s7 = replace::next_state(s6, CloneEvent::Done);
            let s8 = replace::next_state(s7, CloneEvent::Done);
            let s9 = replace::next_state(s8, flagged);
            let end = CloneActionView::Finish { outcome: Ok(target.size) };
            &&& act(s0) == (CloneActionView::Stat { path: source_path })
            &&& act(s1) == (CloneActionView::Stat { path: target_path })
            &&& act(s2) == (CloneActionView::MakeClone { from: source_path, to: temp })
            &&& act(s3) == (CloneActionView::CopyXattrs { from: target_path, to: temp })
            &&& act(s4) == (CloneActionView::SetOwnership { from: target_path, to: temp })
            &&& act(s5) == (CloneActionView::SetPermissions { from: target_path, to: temp })
            &&& act(s6) == (CloneActionView::SetTimes { from: target_path, to: temp })
            &&& act(s7) == (CloneActionView::Rename { from: temp, to: target_path })
            &&& source.flags == 0 && target.flags == 0 ==> act(s8) == end
            &&& source.flags != 0 || target.flags != 0 ==> {
                &&& act(s8) == (CloneActionView::SetFlags {
                    path: target_path,
                    flags: target.flags,
                })
                &&& act(s9) == end
            }
        }),
{
}

/// A run between files on one device in which no action fails ends with the bytes of the target.
pub proof fn law_undisturbed_run_ends_well(
    states: Seq<CloneState>,
    worlds: Seq<Files>,
    events: Seq<CloneEvent>,
    source: Seq<u8>,
    target: Seq<u8>,
    temp: Seq<u8>,
    source_facts: replace::StatFacts,
    target_facts: replace::StatFacts,
)
    requires
        is_run(states, worlds, events, source, target, temp),
        events.len() >= 2,
        events[0] == CloneEvent::Stat(source_facts),
        events[1] == CloneEvent::Stat(target_facts),
        source_facts.device == target_facts.device,
        forall|i: int| 2 <= i < events.len() ==> !((#[trigger] events[i]) is Failed),
        states.last() is Finished,
    ensures
        states.last()->outcome == Ok::<u64, replace::CloneError>(target_facts.size),
        8 <= events.len() <= 9,
{
    lemma_undisturbed(
        states,
        worlds,
        events,
        source,
        target,
        temp,
        source_facts,
        target_facts,
        events.len() as int,
    );
}

proof fn lemma_undisturbed(
    states: Seq<CloneState>,
    worlds: Seq<Files>,
    events: Seq<CloneEvent>,
    source: Seq<u8>,
    target: Seq<u8>,
    temp: Seq<u8>,
    sf: replace::StatFacts,
    tf: replace::StatFacts,
    n: int,
)
    requires
        is_run(states, worlds, events, source, target, temp),
        2 <= n <= events.len(),
        events[0] == CloneEvent::Stat(sf),
        events[1] == CloneEvent::Stat(tf),
        sf.device == tf.device,
        forall|i: int| 2 <= i < events.len() ==> !((#[trigger] events[i]) is Failed),
    ensures
        n <= 9,
        match states[n] {
            CloneState::MakeClone { source: a, target: b } => n == 2 && a == sf && b == tf,
            CloneState::CopyXattrs { source: a, target: b } => n == 3 && a == sf && b == tf,
            CloneState::SetOwnership { source: a, target: b } => n == 4 && a == sf && b == tf,
            CloneState::SetPermissions { source: a, target: b } => n == 5 && a == sf && b == tf,
            CloneState::SetTimes { source: a, target: b } => n == 6 && a == sf && b == tf,
            CloneState::Rename { source: a, target: b } => n == 7 && a == sf && b == tf,
            CloneState::SetFlags { target: b } => n == 8 && b == tf,
            CloneState::Finished { outcome } => n >= 8 && outcome
                == Ok::<u64, replace::CloneError>(tf.size),
            _ => false,
        },
    decreases n,
{
    if n == 2 {
        assert(run_step(states, worlds, events, source, target, temp, 0));
        assert(run_step(states, worlds, events, source, target, temp, 1));
    } else {
        lemma_undisturbed(states, worlds, events, source, target, temp, sf, tf, n - 1);
        assert(run_step(states, worlds, events, source, target, temp, n - 1));
        assert(!(events[n - 1] is Failed));
    }
}

/// What follows when an action fails: before a clone is made the replacement ends, and after that
/// the clone is removed first. The words say which action it was. `after` is how the removal goes.
pub proof fn law_failures_are_told(
    source: replace::StatFacts,
    target: replace::StatFacts,
    source_path: Seq<u8>,
    target_path: Seq<u8>,
    temp: Seq<u8>,
    after: CloneEvent,
)
    requires
        after is Done || after is Failed,
    ensures
        ({
            let fail = |state: CloneState| replace::next_state(state, CloneEvent::Failed);
            let act = |state: CloneState|
                replace::action_of(state, source_path, target_path, temp);
            let cleaned = |state: CloneState| act(replace::next_state(fail(state), after));
            let told = |words: Seq<char>|
                CloneActionView::Finish { outcome: Err::<u64, Seq<char>>(words) };
            let remove = CloneActionView::Remove { path: temp };
            let owner = CloneState::SetOwnership { source, target };
            let mode = CloneState::SetPermissions { source, target };
            let times = CloneState::SetTimes { source, target };
            let rename = CloneState::Rename { source, target };
            &&& act(fail(CloneState::StatSource)) == told(
                "Cannot stat source: "@ + text::lossy_text(source_path),
            )
            &&& act(fail(CloneState::StatTarget { source })) == told(
                "Cannot stat target: "@ + text::lossy_text(target_path),
            )
            &&& act(fail(CloneState::MakeClone { source, target })) == told(
                "APFS clonefile failed: "@ + text::lossy_text(source_path) + " -> "@
                    + text::lossy_text(temp),
            )
            &&& act(fail(owner)) == remove && cleaned(owner) == told("set ownership"@)
            &&& act(fail(mode)) == remove && cleaned(mode) == told("set permissions"@)
            &&& act(fail(times)) == remove && cleaned(times) == told("set timestamps"@)
            &&& act(fail(rename)) == remove && cleaned(rename) == told(
                "rename "@ + text::lossy_text(temp) + " -> "@ + text::lossy_text(target_path),
            )
        }),
{
}

/// Every action but the last can fail, reading a file can bring any facts, and every other action
/// can succeed.
pub proof fn law_every_outcome_is_taken(state: CloneState, facts: replace::StatFacts)
    requires
        !(state is Finished),
    ensures
        replace::event_fits(state, CloneEvent::Failed),
        state is StatSource || state is StatTarget ==> replace::event_fits(
            state,
            CloneEvent::Stat(facts),
        ),
        !(state is StatSource || state is StatTarget) ==> replace::event_fits(
            state,
            CloneEvent::Done,
        ),
{
}

/// The temporary path is that of the target with an addition to the name, which tells the
/// process.
pub proof fn law_name_of_the_temporary_file(target: Seq<u8>, process_id: u32)
    ensures
        path::file_name(target) matches Some(name) ==> replace::temp_path_of(target, process_id)
            == path::with_name(
            target,
            encode_utf8(
                text::lossy_text(name) + ".mdd_tmp_"@ + text::decimal_text(process_id as int),
            ),
        ),
        path::file_name(target) is None ==> replace::temp_path_of(target, process_id)
            == path::with_name(
            target,
            encode_utf8(".mdd_tmp_"@ + text::decimal_text(process_id as int)),
        ),
{
    assert(Seq::<char>::empty() + ".mdd_tmp_"@ =~= ".mdd_tmp_"@);
}

} // verus!
