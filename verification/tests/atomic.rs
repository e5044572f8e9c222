use passvault::atomic::SaveAction;
use passvault::atomic::SaveProgress;
use passvault::error::VaultError;

struct Files {
    target: Option<Vec<u8>>,
    temp: Option<Vec<u8>>,
}

fn perform(files: &mut Files, action: SaveAction, succeeds: bool, bytes: &[u8]) {
    match action {
        SaveAction::WriteTemp => {
            files.temp = Some(if succeeds { bytes.to_vec() } else { bytes[..1].to_vec() });
        }
        SaveAction::SyncTemp => {}
        SaveAction::RenameTemp => {
            if succeeds {
                files.target = files.temp.take();
            }
        }
        SaveAction::RemoveTemp => {
            if succeeds {
                files.temp = None;
            }
        }
    }
}

fn run(outcomes: &[bool]) -> (SaveProgress, Vec<SaveAction>) {
    let mut progress = SaveProgress::start();
    let mut actions = Vec::new();
    for outcome in outcomes {
        match progress.action() {
            Some(action) => actions.push(action),
            None => break,
        }
        progress = progress.advance(*outcome);
    }
    (progress, actions)
}

#[test]
fn a_save_writes_flushes_and_renames() {
    let (end, actions) = run(&[true, true, true]);
    assert_eq!(actions, vec![SaveAction::WriteTemp, SaveAction::SyncTemp, SaveAction::RenameTemp]);
    assert_eq!(end, SaveProgress::Saved);
    assert_eq!(end.action(), None);
    assert_eq!(end.outcome(), Some(Ok(())));
}

#[test]
fn a_failed_write_is_cleaned_up_and_reported() {
    let (end, actions) = run(&[false, true]);
    assert_eq!(actions, vec![SaveAction::WriteTemp, SaveAction::RemoveTemp]);
    assert_eq!(end, SaveProgress::Failed);
    assert_eq!(end.outcome(), Some(Err(VaultError::IoError)));
}

#[test]
fn a_failed_flush_is_cleaned_up_and_reported() {
    let (end, actions) = run(&[true, false, true]);
    assert_eq!(actions, vec![SaveAction::WriteTemp, SaveAction::SyncTemp, SaveAction::RemoveTemp]);
    assert_eq!(end.outcome(), Some(Err(VaultError::IoError)));
}

#[test]
fn a_failed_rename_is_cleaned_up_and_reported() {
    let (end, actions) = run(&[true, true, false, false]);
    assert_eq!(
        actions,
        vec![
            SaveAction::WriteTemp,
            SaveAction::SyncTemp,
            SaveAction::RenameTemp,
            SaveAction::RemoveTemp
        ]
    );
    assert_eq!(end.outcome(), Some(Err(VaultError::IoError)));
}

#[test]
fn a_save_under_way_has_no_outcome() {
    assert_eq!(SaveProgress::start(), SaveProgress::Writing);
    for progress in [
        SaveProgress::Writing,
        SaveProgress::Syncing,
        SaveProgress::Renaming,
        SaveProgress::Cleaning,
    ] {
        assert_eq!(progress.outcome(), None);
        assert!(progress.action().is_some());
    }
}

#[test]
fn a_finished_save_stays_finished() {
    for outcome in [true, false] {
        assert_eq!(SaveProgress::Saved.advance(outcome), SaveProgress::Saved);
        assert_eq!(SaveProgress::Failed.advance(outcome), SaveProgress::Failed);
    }
}

#[test]
fn a_save_stopped_anywhere_leaves_the_target_whole() {
    let earlier = b"the old container".to_vec();
    let bytes = b"the new container".to_vec();
    for pattern in 0..16u32 {
        let outcomes: Vec<bool> = (0..4).map(|i| pattern & (1 << i) != 0).collect();
        for stop in 0..=4usize {
            for start in [Some(earlier.clone()), None] {
                let mut files = Files { target: start.clone(), temp: None };
                let mut progress = SaveProgress::start();
                for outcome in &outcomes[..stop] {
                    if let Some(action) = progress.action() {
                        perform(&mut files, action, *outcome, &bytes);
                    }
                    progress = progress.advance(*outcome);
                }
                if progress == SaveProgress::Saved {
                    assert_eq!(files.target, Some(bytes.clone()));
                } else {
                    assert_eq!(files.target, start);
                }
            }
        }
    }
}

#[test]
fn a_stop_between_write_and_rename_leaves_the_original() {
    let earlier = b"the old container".to_vec();
    let bytes = b"the new container".to_vec();
    let mut files = Files { target: Some(earlier.clone()), temp: None };
    let mut progress = SaveProgress::start();
    perform(&mut files, progress.action().unwrap(), true, &bytes);
    progress = progress.advance(true);
    assert_eq!(files.target, Some(earlier.clone()));
    perform(&mut files, progress.action().unwrap(), true, &bytes);
    progress = progress.advance(true);
    assert_eq!(progress.action(), Some(SaveAction::RenameTemp));
    assert_eq!(files.target, Some(earlier));
    assert_eq!(files.temp, Some(bytes));
}
