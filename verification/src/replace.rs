//! Replacing one file by a clone of another.
//!
//! The clone is made next to the target, gets the metadata of the target, and is then renamed
//! over it. The owner is set before the permissions, because a change of owner can clear the bits
//! for setting the user or group on execution. The flags of the target are read before the
//! renaming and set after it, so that they cannot stand in its way. [`CloneJob`] decides what is
//! done in which order and what follows when a step fails; the caller performs each
//! [`CloneAction`] and reports how it went.

use crate::path;
use crate::path::FilePath;
use crate::text;
use vstd::prelude::*;
use vstd::utf8::*;

verus! {

/// Why a target was not replaced.
#[derive(Debug, Clone, Copy, PartialEq, Eq, Structural)]
pub enum CloneError {
    StatSource,
    StatTarget,
    DifferentVolumes,
    MakeClone,
    SetPermissions,
    SetOwnership,
    SetTimes,
    Rename,
}

/// What is read of a file before anything is changed.
#[derive(Debug, Clone, Copy, PartialEq, Eq, Structural)]
pub struct StatFacts {
    pub device: u64,
    pub size: u64,
    pub flags: u32,
}

/// How far a replacement has come: what is to be done next, with what is needed later.
#[derive(Debug, Clone, Copy, PartialEq, Eq)]
pub enum CloneState {
    StatSource,
    StatTarget { source: StatFacts },
    MakeClone { source: StatFacts, target: StatFacts },
    CopyXattrs { source: StatFacts, target: StatFacts },
    SetOwnership { source: StatFacts, target: StatFacts },
    SetPermissions { source: StatFacts, target: StatFacts },
    SetTimes { source: StatFacts, target: StatFacts },
    Rename { source: StatFacts, target: StatFacts },
    SetFlags { target: StatFacts },
    RemoveTemp { error: CloneError },
    Finished { outcome: Result<u64, CloneError> },
}

/// How an action went.
#[derive(Debug, Clone, Copy, PartialEq, Eq, Structural)]
pub enum CloneEvent {
    /// The metadata could be read.
    Stat(StatFacts),
    /// The action succeeded.
    Done,
    /// The action failed.
    Failed,
}

/// The events that can follow the action of a state.
pub open spec fn event_fits(state: CloneState, event: CloneEvent) -> bool {
    match state {
        CloneState::StatSource | CloneState::StatTarget { .. } => event is Stat || event is Failed,
        CloneState::Finished { .. } => false,
        _ => event is Done || event is Failed,
    }
}

/// The state after the clone has been made and one of the steps before the renaming failed.
pub open spec fn cleaned_up(error: CloneError) -> CloneState {
    CloneState::RemoveTemp { error }
}

/// The state after an event.
pub open spec fn next_state(state: CloneState, event: CloneEvent) -> CloneState {
    let failed = event is Failed;
    match state {
        CloneState::StatSource => if failed {
            CloneState::Finished { outcome: Err(CloneError::StatSource) }
        } else {
            CloneState::StatTarget { source: event->0 }
        },
        CloneState::StatTarget { source } => if failed {
            CloneState::Finished { outcome: Err(CloneError::StatTarget) }
        } else if source.device != event->0.device {
            CloneState::Finished { outcome: Err(CloneError::DifferentVolumes) }
        } else {
            CloneState::MakeClone { source, target: event->0 }
        },
        CloneState::MakeClone { source, target } => if failed {
            CloneState::Finished { outcome: Err(CloneError::MakeClone) }
        } else {
            CloneState::CopyXattrs { source, target }
        },
        CloneState::CopyXattrs { source, target } => CloneState::SetOwnership { source, target },
        CloneState::SetOwnership { source, target } => if failed {
            cleaned_up(CloneError::SetOwnership)
        } else {
            CloneState::SetPermissions { source, target }
        },
        CloneState::SetPermissions { source, target } => if failed {
            cleaned_up(CloneError::SetPermissions)
        } else {
            CloneState::SetTimes { source, target }
        },
        CloneState::SetTimes { source, target } => if failed {
            cleaned_up(CloneError::SetTimes)
        } else {
            CloneState::Rename { source, target }
        },
        CloneState::Rename { source, target } => if failed {
            cleaned_up(CloneError::Rename)
        } else if source.flags != 0 || target.flags != 0 {
            CloneState::SetFlags { target }
        } else {
            CloneState::Finished { outcome: Ok(target.size) }
        },
        CloneState::SetFlags { target } => CloneState::Finished { outcome: Ok(target.size) },
        CloneState::RemoveTemp { error } => CloneState::Finished { outcome: Err(error) },
        CloneState::Finished { outcome } => CloneState::Finished { outcome },
    }
}

/// The words for an error in the replacement of `target` by a clone of `source` by way of `temp`.
pub open spec fn error_text(
    error: CloneError,
    source: Seq<u8>,
    target: Seq<u8>,
    temp: Seq<u8>,
) -> Seq<char> {
    match error {
        CloneError::StatSource => "Cannot stat source: "@ + text::lossy_text(source),
        CloneError::StatTarget => "Cannot stat target: "@ + text::lossy_text(target),
        CloneError::DifferentVolumes =>
            "source and target are on different volumes (APFS clones must be on the same volume)"@,
        CloneError::MakeClone => "APFS clonefile failed: "@ + text::lossy_text(source) + " -> "@
            + text::lossy_text(temp),
        CloneError::SetPermissions => "set permissions"@,
        CloneError::SetOwnership => "set ownership"@,
        CloneError::SetTimes => "set timestamps"@,
        CloneError::Rename => "rename "@ + text::lossy_text(temp) + " -> "@ + text::lossy_text(
            target,
        ),
    }
}

/// Something to do in the file system.
#[derive(Debug)]
pub enum CloneAction {
    /// Read the metadata of a file.
    Stat { path: FilePath },
    /// Make a clone at a path that does not exist yet.
    MakeClone { from: FilePath, to: FilePath },
    /// Replace the extended attributes of `to` by those of `from`.
    CopyXattrs { from: FilePath, to: FilePath },
    /// Give `to` the permissions that were read of `from`.
    SetPermissions { from: FilePath, to: FilePath },
    /// Give `to` the owner and group that were read of `from`.
    SetOwnership { from: FilePath, to: FilePath },
    /// Give `to` the times of access and modification that were read of `from`.
    SetTimes { from: FilePath, to: FilePath },
    /// Move a file over another.
    Rename { from: FilePath, to: FilePath },
    /// Set the BSD flags of a file.
    SetFlags { path: FilePath, flags: u32 },
    /// Remove a file.
    Remove { path: FilePath },
    /// Nothing is left to do: the number of bytes saved, or what went wrong.
    Finish { outcome: Result<u64, String> },
}

/// The mathematical value of a [`CloneAction`].
pub enum CloneActionView {
    Stat { path: Seq<u8> },
    MakeClone { from: Seq<u8>, to: Seq<u8> },
    CopyXattrs { from: Seq<u8>, to: Seq<u8> },
    SetPermissions { from: Seq<u8>, to: Seq<u8> },
    SetOwnership { from: Seq<u8>, to: Seq<u8> },
    SetTimes { from: Seq<u8>, to: Seq<u8> },
    Rename { from: Seq<u8>, to: Seq<u8> },
    SetFlags { path: Seq<u8>, flags: u32 },
    Remove { path: Seq<u8> },
    Finish { outcome: Result<u64, Seq<char>> },
}

impl View for CloneAction {
    type V = CloneActionView;

    open spec fn view(&self) -> CloneActionView {
        match self {
            CloneAction::Stat { path } => CloneActionView::Stat { path: path@ },
            CloneAction::MakeClone { from, to } => CloneActionView::MakeClone {
                from: from@,
                to: to@,
            },
            CloneAction::CopyXattrs { from, to } => CloneActionView::CopyXattrs {
                from: from@,
                to: to@,
            },
            CloneAction::SetPermissions { from, to } => CloneActionView::SetPermissions {
                from: from@,
                to: to@,
            },
            CloneAction::SetOwnership { from, to } => CloneActionView::SetOwnership {
                from: from@,
                to: to@,
            },
            CloneAction::SetTimes { from, to } => CloneActionView::SetTimes {
                from: from@,
                to: to@,
            },
            CloneAction::Rename { from, to } => CloneActionView::Rename { from: from@, to: to@ },
            CloneAction::SetFlags { path, flags } => CloneActionView::SetFlags {
                path: path@,
                flags: *flags,
            },
            CloneAction::Remove { path } => CloneActionView::Remove { path: path@ },
            CloneAction::Finish { outcome } => CloneActionView::Finish {
                outcome: match outcome {
                    Ok(saved) => Ok(*saved),
                    Err(message) => Err(message@),
                },
            },
        }
    }
}

/// The action of a state in the replacement of `target` by a clone of `source` by way of `temp`.
pub open spec fn action_of(
    state: CloneState,
    source: Seq<u8>,
    target: Seq<u8>,
    temp: Seq<u8>,
) -> CloneActionView {
    match state {
        CloneState::StatSource => CloneActionView::Stat { path: source },
        CloneState::StatTarget { .. } => CloneActionView::Stat { path: target },
        CloneState::MakeClone { .. } => CloneActionView::MakeClone { from: source, to: temp },
        CloneState::CopyXattrs { .. } => CloneActionView::CopyXattrs { from: target, to: temp },
        CloneState::SetPermissions { .. } => CloneActionView::SetPermissions {
            from: target,
            to: temp,
        },
        CloneState::SetOwnership { .. } => CloneActionView::SetOwnership { from: target, to: temp },
        CloneState::SetTimes { .. } => CloneActionView::SetTimes { from: target, to: temp },
        CloneState::Rename { .. } => CloneActionView::Rename { from: temp, to: target },
        CloneState::SetFlags { target: facts } => CloneActionView::SetFlags {
            path: target,
            flags: facts.flags,
        },
        CloneState::RemoveTemp { .. } => CloneActionView::Remove { path: temp },
        CloneState::Finished { outcome } => CloneActionView::Finish {
            outcome: match outcome {
                Ok(saved) => Ok(saved),
                Err(error) => Err(error_text(error, source, target, temp)),
            },
        },
    }
}

/// The name of the temporary file for a target of this name.
pub open spec fn temp_name(name: Seq<char>, process_id: u32) -> Seq<char> {
    name + ".mdd_tmp_"@ + text::decimal_text(process_id as int)
}

/// The path of the temporary file for a target.
pub open spec fn temp_path_of(target: Seq<u8>, process_id: u32) -> Seq<u8> {
    let name = match path::file_name(target) {
        Some(name) => text::lossy_text(name),
        None => Seq::empty(),
    };
    path::with_name(target, encode_utf8(temp_name(name, process_id)))
}

/// The path next to `target` with a file name made from `name`, the name of the target as text.
pub fn temp_path_named(target: &FilePath, name: &str, process_id: u32) -> (temp: FilePath)
    ensures
        temp@ == path::with_name(target@, encode_utf8(temp_name(name@, process_id))),
{
    let mut temp = name.to_string();
    temp.append(".mdd_tmp_");
    let id = text::decimal(process_id as u64);
    temp.append(id.as_str());
    target.with_file_name(temp.as_str().as_bytes())
}

/// Where the clone that is to replace `target` is made: next to it, under a name that tells the
/// process.
pub fn temp_path(target: &FilePath, process_id: u32) -> (temp: FilePath)
    ensures
        temp@ == temp_path_of(target@, process_id),
        path::file_name(target@) matches Some(bytes) ==> text::reads_exactly(bytes),
{
    let name = match target.file_name() {
        Some(name) => text::from_utf8_lossy(name.as_slice()),
        None => String::new(),
    };
    temp_path_named(target, name.as_str(), process_id)
}

fn arrow_text(start: &str, from: &FilePath, to: &FilePath) -> (shown: String)
    ensures
        shown@ == start@ + text::lossy_text(from@) + " -> "@ + text::lossy_text(to@),
{
    let mut shown = start.to_string();
    shown.append(from.display().as_str());
    shown.append(" -> ");
    shown.append(to.display().as_str());
    shown
}

/// The replacement of one file by a clone of another.
#[derive(Debug)]
pub struct CloneJob {
    pub source: FilePath,
    pub target: FilePath,
    pub temp: FilePath,
    pub state: CloneState,
}

impl CloneJob {
    /// Before the first action.
    pub fn new(source: &FilePath, target: &FilePath, process_id: u32) -> (job: CloneJob)
        ensures
            job.source@ == source@,
            job.target@ == target@,
            job.temp@ == temp_path_of(target@, process_id),
            path::file_name(target@) matches Some(bytes) ==> text::reads_exactly(bytes),
            job.state == CloneState::StatSource,
    {
        CloneJob {
            source: source.clone(),
            target: target.clone(),
            temp: temp_path(target, process_id),
            state: CloneState::StatSource,
        }
    }

    /// The words for an error.
    pub fn error_message(&self, error: CloneError) -> (message: String)
        ensures
            message@ == error_text(error, self.source@, self.target@, self.temp@),
    {
        match error {
            CloneError::StatSource => {
                let mut message = "Cannot stat source: ".to_string();
                message.append(self.source.display().as_str());
                message
            },
            CloneError::StatTarget => {
                let mut message = "Cannot stat target: ".to_string();
                message.append(self.target.display().as_str());
                message
            },
            CloneError::DifferentVolumes =>
                "source and target are on different volumes (APFS clones must be on the same volume)".to_string(),
            CloneError::MakeClone => arrow_text(
                "APFS clonefile failed: ",
                &self.source,
                &self.temp,
            ),
            CloneError::SetPermissions => "set permissions".to_string(),
            CloneError::SetOwnership => "set ownership".to_string(),
            CloneError::SetTimes => "set timestamps".to_string(),
            CloneError::Rename => arrow_text("rename ", &self.temp, &self.target),
        }
    }

    /// What is to be done next.
    pub fn action(&self) -> (action: CloneAction)
        ensures
            action@ == action_of(self.state, self.source@, self.target@, self.temp@),
    {
        match self.state {
            CloneState::StatSource => CloneAction::Stat { path: self.source.clone() },
            CloneState::StatTarget { .. } => CloneAction::Stat { path: self.target.clone() },
            CloneState::MakeClone { .. } => CloneAction::MakeClone {
                from: self.source.clone(),
                to: self.temp.clone(),
            },
            CloneState::CopyXattrs { .. } => CloneAction::CopyXattrs {
                from: self.target.clone(),
                to: self.temp.clone(),
            },
            CloneState::SetPermissions { .. } => CloneAction::SetPermissions {
                from: self.target.clone(),
                to: self.temp.clone(),
            },
            CloneState::SetOwnership { .. } => CloneAction::SetOwnership {
                from: self.target.clone(),
                to: self.temp.clone(),
            },
            CloneState::SetTimes { .. } => CloneAction::SetTimes {
                from: self.target.clone(),
                to: self.temp.clone(),
            },
            CloneState::Rename { .. } => CloneAction::Rename {
                from: self.temp.clone(),
                to: self.target.clone(),
            },
            CloneState::SetFlags { target } => CloneAction::SetFlags {
                path: self.target.clone(),
                flags: target.flags,
            },
            CloneState::RemoveTemp { .. } => CloneAction::Remove { path: self.temp.clone() },
            CloneState::Finished { outcome } => CloneAction::Finish {
                outcome: match outcome {
                    Ok(saved) => Ok(saved),
                    Err(error) => Err(self.error_message(error)),
                },
            },
        }
    }

    /// Takes in how the action went.
    pub fn advance(&mut self, event: CloneEvent)
        requires
            event_fits(old(self).state, event),
        ensures
            final(self).source@ == old(self).source@,
            final(self).target@ == old(self).target@,
            final(self).temp@ == old(self).temp@,
            final(self).state == next_state(old(self).state, event),
    {
        let failed: bool = match event {
            CloneEvent::Failed => true,
            _ => false,
        };
        self.state = match self.state {
            CloneState::StatSource => match event {
                CloneEvent::Stat(source) => CloneState::StatTarget { source },
                _ => CloneState::Finished { outcome: Err(CloneError::StatSource) },
            },
            CloneState::StatTarget { source } => match event {
                CloneEvent::Stat(target) => if source.device != target.device {
                    CloneState::Finished { outcome: Err(CloneError::DifferentVolumes) }
                } else {
                    CloneState::MakeClone { source, target }
                },
                _ => CloneState::Finished { outcome: Err(CloneError::StatTarget) },
            },
            CloneState::MakeClone { source, target } => if failed {
                CloneState::Finished { outcome: Err(CloneError::MakeClone) }
            } else {
                CloneState::CopyXattrs { source, target }
            },
            CloneState::CopyXattrs { source, target } => CloneState::SetOwnership {
                source,
                target,
            },
            CloneState::SetOwnership { source, target } => if failed {
                CloneState::RemoveTemp { error: CloneError::SetOwnership }
            } else {
                CloneState::SetPermissions { source, target }
            },
            CloneState::SetPermissions { source, target } => if failed {
                CloneState::RemoveTemp { error: CloneError::SetPermissions }
            } else {
                CloneState::SetTimes { source, target }
            },
            CloneState::SetTimes { source, target } => if failed {
                CloneState::RemoveTemp { error: CloneError::SetTimes }
            } else {
                CloneState::Rename { source, target }
            },
            CloneState::Rename { source, target } => if failed {
                CloneState::RemoveTemp { error: CloneError::Rename }
            } else if source.flags != 0 || target.flags != 0 {
                CloneState::SetFlags { target }
            } else {
                CloneState::Finished { outcome: Ok(target.size) }
            },
            CloneState::SetFlags { target } => CloneState::Finished { outcome: Ok(target.size) },
            CloneState::RemoveTemp { error } => CloneState::Finished { outcome: Err(error) },
            CloneState::Finished { outcome } => CloneState::Finished { outcome },
        };
    }
}

} // verus!
