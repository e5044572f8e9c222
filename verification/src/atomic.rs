//! Writing a new container out so that the old one is replaced at once or
//! not at all.
//!
//! The library touches no file. It decides the order of the steps: write a
//! temporary file beside the target, flush it to the disk, rename it over the
//! target; after any failure remove the temporary file and report the
//! failure. The caller performs each step and reports whether it succeeded.
//!
//! The guarantee is stated over a model of the two files, [`Disk`], in which
//! a rename replaces the target in one step or leaves it alone.

use vstd::prelude::*;

use crate::error::VaultError;

verus! {

/// One step for the caller to perform.
#[derive(Clone, Copy, Debug, PartialEq, Eq, Structural)]
pub enum SaveAction {
    /// Write the new container's bytes to the temporary file.
    WriteTemp,
    /// Flush the temporary file to the disk.
    SyncTemp,
    /// Rename the temporary file over the target.
    RenameTemp,
    /// Remove the temporary file.
    RemoveTemp,
}

/// How far a save has come. Each state but the last two awaits the outcome
/// of one step.
#[derive(Clone, Copy, Debug, PartialEq, Eq, Structural)]
pub enum SaveProgress {
    /// The temporary file is being written.
    Writing,
    /// The temporary file is being flushed.
    Syncing,
    /// The temporary file is being renamed over the target.
    Renaming,
    /// A step has failed and the temporary file is being removed.
    Cleaning,
    /// The new container is in place.
    Saved,
    /// The save has failed and the target is as it was.
    Failed,
}

/// The target file and the temporary file, each absent or holding bytes.
pub ghost struct Disk {
    pub target: Option<Seq<u8>>,
    pub temp: Option<Seq<u8>>,
}

impl SaveProgress {
    /// The state that follows when the awaited step succeeded or failed.
    pub open spec fn next(self, succeeded: bool) -> SaveProgress {
        match self {
            SaveProgress::Writing => if succeeded {
                SaveProgress::Syncing
            } else {
                SaveProgress::Cleaning
            },
            SaveProgress::Syncing => if succeeded {
                SaveProgress::Renaming
            } else {
                SaveProgress::Cleaning
            },
            SaveProgress::Renaming => if succeeded {
                SaveProgress::Saved
            } else {
                SaveProgress::Cleaning
            },
            SaveProgress::Cleaning => SaveProgress::Failed,
            SaveProgress::Saved => SaveProgress::Saved,
            SaveProgress::Failed => SaveProgress::Failed,
        }
    }

    /// The step that a state awaits, if any.
    pub open spec fn awaited(self) -> Option<SaveAction> {
        match self {
            SaveProgress::Writing => Some(SaveAction::WriteTemp),
            SaveProgress::Syncing => Some(SaveAction::SyncTemp),
            SaveProgress::Renaming => Some(SaveAction::RenameTemp),
            SaveProgress::Cleaning => Some(SaveAction::RemoveTemp),
            SaveProgress::Saved => None,
            SaveProgress::Failed => None,
        }
    }

    /// The disk after the awaited step, performed with `bytes` as the new
    /// container. A write that fails leaves anything or nothing in the
    /// temporary file (`debris`); a rename that fails changes nothing; a
    /// removal that fails leaves the temporary file.
    pub open spec fn effect(
        self,
        disk: Disk,
        succeeded: bool,
        bytes: Seq<u8>,
        debris: Option<Seq<u8>>,
    ) -> Disk {
        match self {
            SaveProgress::Writing => Disk {
                target: disk.target,
                temp: if succeeded {
                    Some(bytes)
                } else {
                    debris
                },
            },
            SaveProgress::Syncing => disk,
            SaveProgress::Renaming => if succeeded {
                Disk { target: disk.temp, temp: None }
            } else {
                disk
            },
            SaveProgress::Cleaning => Disk {
                target: disk.target,
                temp: if succeeded {
                    None
                } else {
                    disk.temp
                },
            },
            SaveProgress::Saved => disk,
            SaveProgress::Failed => disk,
        }
    }

    /// What holds of the disk in each state of a save that found `earlier`
    /// at the target and writes `bytes`: the target is untouched until the
    /// save is done, and the temporary file is complete before it is renamed.
    pub open spec fn consistent(
        self,
        disk: Disk,
        earlier: Option<Seq<u8>>,
        bytes: Seq<u8>,
    ) -> bool {
        match self {
            SaveProgress::Writing => disk.target == earlier,
            SaveProgress::Syncing => disk.target == earlier && disk.temp == Some(bytes),
            SaveProgress::Renaming => disk.target == earlier && disk.temp == Some(bytes),
            SaveProgress::Cleaning => disk.target == earlier,
            SaveProgress::Saved => disk.target == Some(bytes),
            SaveProgress::Failed => disk.target == earlier,
        }
    }

    /// A save begins by writing the temporary file.
    pub fn start() -> (progress: SaveProgress)
        ensures
            progress == SaveProgress::Writing,
    {
        SaveProgress::Writing
    }

    /// The step to perform now, or none when the save is over.
    pub fn action(&self) -> (action: Option<SaveAction>)
        ensures
            action == self.awaited(),
    {
        match self {
            SaveProgress::Writing => Some(SaveAction::WriteTemp),
            SaveProgress::Syncing => Some(SaveAction::SyncTemp),
            SaveProgress::Renaming => Some(SaveAction::RenameTemp),
            SaveProgress::Cleaning => Some(SaveAction::RemoveTemp),
            SaveProgress::Saved => None,
            SaveProgress::Failed => None,
        }
    }

    /// Takes the outcome of the step that was performed and moves on.
    pub fn advance(self, succeeded: bool) -> (progress: SaveProgress)
        ensures
            progress == self.next(succeeded),
    {
        match self {
            SaveProgress::Writing => if succeeded {
                SaveProgress::Syncing
            } else {
                SaveProgress::Cleaning
            },
            SaveProgress::Syncing => if succeeded {
                SaveProgress::Renaming
            } else {
                SaveProgress::Cleaning
            },
            SaveProgress::Renaming => if succeeded {
                SaveProgress::Saved
            } else {
                SaveProgress::Cleaning
            },
            SaveProgress::Cleaning => SaveProgress::Failed,
            SaveProgress::Saved => SaveProgress::Saved,
            SaveProgress::Failed => SaveProgress::Failed,
        }
    }

    /// How the save ended, once it is over: saved, or failed with `IoError`.
    pub fn outcome(&self) -> (outcome: Option<Result<(), VaultError>>)
        ensures
            outcome is Some <==> self.awaited() is None,
            *self == SaveProgress::Saved <==> outcome == Some(Ok::<(), VaultError>(())),
            *self == SaveProgress::Failed <==> outcome == Some(
                Err::<(), VaultError>(VaultError::IoError),
            ),
    {
        match self {
            SaveProgress::Saved => Some(Ok(())),
            SaveProgress::Failed => Some(Err(VaultError::IoError)),
            _ => None,
        }
    }

    /// The state after a run of steps with the given outcomes.
    pub open spec fn after_run(self, outcomes: Seq<bool>) -> SaveProgress
        decreases outcomes.len(),
    {
        if outcomes.len() == 0 {
            self
        } else {
            self.next(outcomes[0]).after_run(outcomes.drop_first())
        }
    }

    /// The disk after a run of steps with the given outcomes, where every
    /// failed write leaves `debris`.
    pub open spec fn disk_after_run(
        self,
        disk: Disk,
        outcomes: Seq<bool>,
        bytes: Seq<u8>,
        debris: Option<Seq<u8>>,
    ) -> Disk
        decreases outcomes.len(),
    {
        if outcomes.len() == 0 {
            disk
        } else {
            self.next(outcomes[0]).disk_after_run(
                self.effect(disk, outcomes[0], bytes, debris),
                outcomes.drop_first(),
                bytes,
                debris,
            )
        }
    }
}

/// Every step keeps the disk consistent with the state of the save.
pub proof fn lemma_step_consistent(
    progress: SaveProgress,
    disk: Disk,
    earlier: Option<Seq<u8>>,
    bytes: Seq<u8>,
    succeeded: bool,
    debris: Option<Seq<u8>>,
)
    requires
        progress.consistent(disk, earlier, bytes),
    ensures
        progress.next(succeeded).consistent(
            progress.effect(disk, succeeded, bytes, debris),
            earlier,
            bytes,
        ),
{
}

/// A save is atomic. Stop it after any number of steps, whatever their
/// outcomes: the target holds the new container if the save has reached
/// `Saved`, and otherwise exactly what it held before the save began. It
/// never holds anything else.
pub proof fn lemma_save_is_atomic(
    earlier: Option<Seq<u8>>,
    bytes: Seq<u8>,
    temp: Option<Seq<u8>>,
    outcomes: Seq<bool>,
    debris: Option<Seq<u8>>,
)
    ensures
        ({
            let begun = Disk { target: earlier, temp };
            let progress = SaveProgress::Writing.after_run(outcomes);
            let disk = SaveProgress::Writing.disk_after_run(begun, outcomes, bytes, debris);
            if progress == SaveProgress::Saved {
                disk.target == Some(bytes)
            } else {
                disk.target == earlier
            }
        }),
{
    let begun = Disk { target: earlier, temp };
    lemma_run_consistent(SaveProgress::Writing, begun, earlier, bytes, outcomes, debris);
}

/// A run of steps keeps the disk consistent with the state of the save.
pub proof fn lemma_run_consistent(
    progress: SaveProgress,
    disk: Disk,
    earlier: Option<Seq<u8>>,
    bytes: Seq<u8>,
    outcomes: Seq<bool>,
    debris: Option<Seq<u8>>,
)
    requires
        progress.consistent(disk, earlier, bytes),
    ensures
        progress.after_run(outcomes).consistent(
            progress.disk_after_run(disk, outcomes, bytes, debris),
            earlier,
            bytes,
        ),
    decreases outcomes.len(),
{
    if outcomes.len() > 0 {
        lemma_step_consistent(progress, disk, earlier, bytes, outcomes[0], debris);
        lemma_run_consistent(
            progress.next(outcomes[0]),
            progress.effect(disk, outcomes[0], bytes, debris),
            earlier,
            bytes,
            outcomes.drop_first(),
            debris,
        );
    }
}

/// A save ends as `Saved` exactly when writing, flushing and renaming all
/// succeeded, and it is over after at most four steps.
pub proof fn lemma_save_ends(first: bool, second: bool, third: bool, fourth: bool)
    ensures
        ({
            let end = SaveProgress::Writing.next(first).next(second).next(third).next(fourth);
            &&& end.awaited() is None
            &&& end == SaveProgress::Saved <==> first && second && third
        }),
{
}

} // verus!
