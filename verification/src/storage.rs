//! How the authentication is kept on disk.
use vstd::prelude::*;

use crate::errors::{CliError, ErrorModel};

verus! {

/// The name of the file that holds the authentication.
pub const AUTH_FILE: &'static str = "auth.json";

/// The extension of the file that is written before it takes the place of
/// [`AUTH_FILE`].
pub const AUTH_TEMP_EXTENSION: &'static str = "json.tmp";

/// The permissions that the file is created with: those of its owner alone.
pub const AUTH_FILE_MODE: u32 = 0o600;

/// A step of saving.
#[derive(Debug, Clone, Copy, PartialEq, Eq, Structural)]
pub enum SaveStep {
    /// Create the directory that the file is in.
    CreateDirectory,
    /// Turn the authentication into text.
    Encode,
    /// Create the temporary file with the given permissions. One that is there
    /// is emptied and keeps the permissions that it has.
    CreateTemp { mode: u32 },
    /// Write the text to the temporary file that was created.
    Write,
    /// Make sure that the temporary file is on disk.
    Sync,
    /// Create the temporary file and write the text to it.
    WriteTemp,
    /// Let the temporary file take the place of the stored one.
    Rename,
}

/// The steps of saving, in order.
pub open spec fn save_steps(has_parent: bool, unix: bool) -> Seq<SaveStep> {
    (if has_parent {
        seq![SaveStep::CreateDirectory]
    } else {
        Seq::<SaveStep>::empty()
    }) + seq![SaveStep::Encode] + (if unix {
        seq![SaveStep::CreateTemp { mode: AUTH_FILE_MODE }, SaveStep::Write, SaveStep::Sync]
    } else {
        seq![SaveStep::WriteTemp]
    }) + seq![SaveStep::Rename]
}

/// The steps of saving, in order; the first one that fails ends it. The text is
/// written to a temporary file which then takes the place of the stored one.
pub fn save_plan(has_parent: bool, unix: bool) -> (r: Vec<SaveStep>)
    ensures
        r@ == save_steps(has_parent, unix),
{
    let mut steps: Vec<SaveStep> = Vec::new();
    if has_parent {
        steps.push(SaveStep::CreateDirectory);
    }
    steps.push(SaveStep::Encode);
    if unix {
        steps.push(SaveStep::CreateTemp { mode: AUTH_FILE_MODE });
        steps.push(SaveStep::Write);
        steps.push(SaveStep::Sync);
    } else {
        steps.push(SaveStep::WriteTemp);
    }
    steps.push(SaveStep::Rename);
    assert(steps@ =~= save_steps(has_parent, unix));
    steps
}

/// A file: what it holds, and its permissions where the platform has them.
pub struct FileModel {
    pub data: Seq<u8>,
    pub mode: Option<u32>,
}

/// The stored file and the temporary one, where they exist, and the permissions
/// that the system takes away from every file that is created.
pub struct Disk {
    pub stored: Option<FileModel>,
    pub temp: Option<FileModel>,
    pub umask: u32,
}

/// The permissions of the temporary file after it has been opened for writing:
/// those that it has, or of a new one the given ones without those that the
/// system takes away.
pub open spec fn opened_mode(disk: Disk, mode: Option<u32>) -> Option<u32> {
    match disk.temp {
        Some(t) => t.mode,
        None => match mode {
            Some(m) => Some(m & !disk.umask),
            None => None,
        },
    }
}

/// What a step of saving `data` does to the files.
pub open spec fn after_step(disk: Disk, step: SaveStep, data: Seq<u8>) -> Disk {
    match step {
        SaveStep::CreateDirectory => disk,
        SaveStep::Encode => disk,
        SaveStep::CreateTemp { mode } => Disk {
            temp: Some(
                FileModel { data: Seq::<u8>::empty(), mode: opened_mode(disk, Some(mode)) },
            ),
            ..disk
        },
        SaveStep::Write => Disk {
            temp: match disk.temp {
                Some(t) => Some(FileModel { data: t.data + data, mode: t.mode }),
                None => None,
            },
            ..disk
        },
        SaveStep::Sync => disk,
        SaveStep::WriteTemp => Disk {
            temp: Some(FileModel { data, mode: opened_mode(disk, None) }),
            ..disk
        },
        SaveStep::Rename => Disk { stored: disk.temp, temp: None, ..disk },
    }
}

/// What the given steps of saving `data` do to the files.
pub open spec fn after_steps(disk: Disk, steps: Seq<SaveStep>, data: Seq<u8>) -> Disk
    decreases steps.len(),
{
    if steps.len() == 0 {
        disk
    } else {
        after_step(after_steps(disk, steps.drop_last(), data), steps.last(), data)
    }
}

/// The permissions that the stored file has after saving on the given disk.
pub open spec fn saved_mode(disk: Disk, unix: bool) -> Option<u32> {
    opened_mode(
        disk,
        if unix {
            Some(AUTH_FILE_MODE)
        } else {
            None
        },
    )
}

proof fn lemma_prefix_keeps_stored(disk: Disk, steps: Seq<SaveStep>, data: Seq<u8>)
    requires
        forall|i: int| 0 <= i < steps.len() ==> (#[trigger] steps[i]) !is Rename,
    ensures
        after_steps(disk, steps, data).stored == disk.stored,
    decreases steps.len(),
{
    if steps.len() > 0 {
        assert(steps[steps.len() - 1] !is Rename);
        let less = steps.drop_last();
        assert forall|i: int| 0 <= i < less.len() implies (#[trigger] less[i]) !is Rename by {
            assert(less[i] == steps[i]);
        }
        lemma_prefix_keeps_stored(disk, less, data);
    }
}

proof fn lemma_encode_changes_nothing(disk: Disk, has_parent: bool, data: Seq<u8>)
    ensures
        after_steps(
            disk,
            if has_parent {
                seq![SaveStep::CreateDirectory, SaveStep::Encode]
            } else {
                seq![SaveStep::Encode]
            },
            data,
        ) == disk,
{
    reveal_with_fuel(after_steps, 3);
    assert(seq![SaveStep::CreateDirectory, SaveStep::Encode].drop_last() =~= seq![
        SaveStep::CreateDirectory,
    ]);
    assert(seq![SaveStep::CreateDirectory].drop_last() =~= Seq::<SaveStep>::empty());
    assert(seq![SaveStep::Encode].drop_last() =~= Seq::<SaveStep>::empty());
}

proof fn lemma_saved(disk: Disk, has_parent: bool, unix: bool, data: Seq<u8>)
    ensures
        after_steps(disk, save_steps(has_parent, unix), data) == (Disk {
            stored: Some(FileModel { data, mode: saved_mode(disk, unix) }),
            temp: None,
            umask: disk.umask,
        }),
{
    let steps = save_steps(has_parent, unix);
    let ready = steps.drop_last();
    let encoded = if has_parent {
        seq![SaveStep::CreateDirectory, SaveStep::Encode]
    } else {
        seq![SaveStep::Encode]
    };
    lemma_encode_changes_nothing(disk, has_parent, data);
    assert(steps.last() == SaveStep::Rename);
    if unix {
        let written = ready.drop_last();
        let created = written.drop_last();
        assert(ready.last() == SaveStep::Sync);
        assert(written.last() == SaveStep::Write);
        assert(created.last() == (SaveStep::CreateTemp { mode: AUTH_FILE_MODE }));
        assert(created.drop_last() =~= encoded);
        assert(Seq::<u8>::empty() + data =~= data);
        assert(after_steps(disk, created, data) == after_step(disk, created.last(), data));
        assert(after_steps(disk, written, data).temp == Some(
            FileModel { data, mode: saved_mode(disk, unix) },
        ));
        assert(after_steps(disk, ready, data) == after_steps(disk, written, data));
    } else {
        assert(ready.last() == SaveStep::WriteTemp);
        assert(ready.drop_last() =~= encoded);
        assert(after_steps(disk, ready, data) == after_step(disk, ready.last(), data));
    }
    assert(after_steps(disk, steps, data) == after_step(
        after_steps(disk, ready, data),
        SaveStep::Rename,
        data,
    ));
}

/// Wherever saving is cut short, the stored file is the one from before; when
/// it is done, the stored file is the new one, whole, and no temporary file is
/// left.
pub proof fn saving_replaces_at_once(
    disk: Disk,
    has_parent: bool,
    unix: bool,
    data: Seq<u8>,
    done: int,
)
    requires
        0 <= done <= save_steps(has_parent, unix).len(),
    ensures
        done < save_steps(has_parent, unix).len() ==> after_steps(
            disk,
            save_steps(has_parent, unix).take(done),
            data,
        ).stored == disk.stored,
        done == save_steps(has_parent, unix).len() ==> {
            let after = after_steps(disk, save_steps(has_parent, unix).take(done), data);
            &&& after.stored == Some(FileModel { data, mode: saved_mode(disk, unix) })
            &&& after.temp is None
        },
{
    let steps = save_steps(has_parent, unix);
    if done < steps.len() {
        lemma_prefix_keeps_stored(disk, steps.take(done), data);
    } else {
        assert(steps.take(done) =~= steps);
        lemma_saved(disk, has_parent, unix, data);
    }
}

/// On Unix, where no temporary file is left from before, the stored file is its
/// owner's alone once it has been saved, whatever permissions the old one had:
/// nobody else has any, and the owner can read and write it unless the system
/// takes just that away from every new file.
pub proof fn saving_is_private(disk: Disk, has_parent: bool, data: Seq<u8>)
    requires
        disk.temp is None,
    ensures
        ({
            let after = after_steps(disk, save_steps(has_parent, true), data);
            &&& after.stored matches Some(file) && file.mode matches Some(mode) && {
                &&& mode & 0o177 == 0
                &&& disk.umask & 0o600 == 0 ==> mode == 0o600
            }
        }),
{
    lemma_saved(disk, has_parent, true, data);
    let umask = disk.umask;
    assert((0o600u32 & !umask) & 0o177 == 0) by (bit_vector);
    assert(umask & 0o600 == 0 ==> 0o600u32 & !umask == 0o600) by (bit_vector);
}

/// Whether there is an authentication to load.
pub fn require_auth_file(exists_on_disk: bool) -> (r: Result<(), CliError>)
    ensures
        match r {
            Ok(_) => exists_on_disk,
            Err(e) => !exists_on_disk && e@ == ErrorModel::AuthMissing,
        },
{
    if exists_on_disk {
        Ok(())
    } else {
        Err(CliError::AuthMissing)
    }
}

/// The error for a file that does not hold an authentication.
pub fn corrupt_auth_file(detail: &str) -> (r: CliError)
    ensures
        r@ == ErrorModel::Config("corrupt auth file: "@ + detail@),
{
    let mut m = "corrupt auth file: ".to_owned();
    m.append(detail);
    CliError::Config(m)
}

/// The last step of saving, and no other, puts a file in the place of the stored
/// one; what is written is encoded before, is the whole text, and on Unix is on
/// disk by then.
pub proof fn saving_goes_in_order(has_parent: bool, r: Seq<SaveStep>, unix: bool)
    requires
        r == save_steps(has_parent, unix),
    ensures
        has_parent <==> r[0] is CreateDirectory,
        ({
            let at = if has_parent {
                1int
            } else {
                0int
            };
            &&& r[at] is Encode
            &&& unix ==> {
                &&& r.len() == at + 5
                &&& r[at + 1] == (SaveStep::CreateTemp { mode: 0o600 })
                &&& r[at + 2] is Write
                &&& r[at + 3] is Sync
                &&& r[at + 4] is Rename
            }
            &&& !unix ==> {
                &&& r.len() == at + 3
                &&& r[at + 1] is WriteTemp
                &&& r[at + 2] is Rename
            }
        }),
{
}

} // verus!
