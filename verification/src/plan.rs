//! What a run does with its action mask: the checks on the options, and the
//! work each input file gets.

use vstd::prelude::*;
use crate::args::{REMOVE_BIT, ALBUM_BIT, ALBUM_DIR_BIT, SET_TRACK_BIT, SET_ALBUM_BIT, HELP_BIT};
use crate::text::same_text;

verus! {

/// The work done on each input file.
#[derive(Clone, Copy, PartialEq, Eq, Structural, Debug)]
pub enum Mode {
    /// Write the given gain as the track gain (peak 1).
    SetTrackGain,
    /// Write the given gain as the album gain (peak 1).
    SetAlbumGain,
    /// Remove the replay-gain tags.
    RemoveTags,
    /// Measure each file and write its track gain.
    TrackGain,
    /// Group the files by their album tag, then measure and write album gains.
    AlbumGainByTag,
    /// Take all files as one album, then measure and write album gains.
    AlbumGainByFolder,
}

/// Options that cannot go together.
#[derive(Clone, Copy, PartialEq, Eq, Structural, Debug)]
pub enum PlanError {
    /// Both `-st` and `-sa`.
    BothGainSettings,
    /// `-r` together with `-st` or `-sa`.
    RemoveWithSet,
    /// Both `-a` and `-ad`.
    BothAlbumModes,
}

/// How a run goes.
#[derive(Clone, Copy, PartialEq, Eq, Structural, Debug)]
pub struct RunPlan {
    /// Only print the help text.
    pub help: bool,
    /// Copy the inputs into the output folder first and work on the copies.
    pub copy_to_output: bool,
    /// The work on each file.
    pub mode: Mode,
}

/// Whether `bit` is set in `actions`.
pub open spec fn has_bit(actions: i32, bit: i32) -> bool {
    actions & bit != 0
}

/// The plan for an action mask and an output folder (`$$$` for none), or the
/// first conflict among the options, checked in this order: both gains to
/// set, removal with a gain to set, both album modes.
pub open spec fn spec_plan(actions: i32, dest: Seq<char>) -> Result<RunPlan, PlanError> {
    let set_track = has_bit(actions, SET_TRACK_BIT);
    let set_album = has_bit(actions, SET_ALBUM_BIT);
    let remove = has_bit(actions, REMOVE_BIT);
    let album = has_bit(actions, ALBUM_BIT);
    let album_dir = has_bit(actions, ALBUM_DIR_BIT);
    if set_track && set_album {
        Err(PlanError::BothGainSettings)
    } else if remove && (set_track || set_album) {
        Err(PlanError::RemoveWithSet)
    } else if album && album_dir {
        Err(PlanError::BothAlbumModes)
    } else {
        Ok(
            RunPlan {
                help: has_bit(actions, HELP_BIT),
                copy_to_output: dest != "$$$"@,
                mode: if set_track {
                    Mode::SetTrackGain
                } else if set_album {
                    Mode::SetAlbumGain
                } else if remove {
                    Mode::RemoveTags
                } else if album {
                    Mode::AlbumGainByTag
                } else if album_dir {
                    Mode::AlbumGainByFolder
                } else {
                    Mode::TrackGain
                },
            },
        )
    }
}

/// Plans a run from its action mask and output folder.
pub fn plan_run(actions: i32, dest: &str) -> (plan: Result<RunPlan, PlanError>)
    ensures
        plan == spec_plan(actions, dest@),
{
    let set_track = actions & SET_TRACK_BIT != 0;
    let set_album = actions & SET_ALBUM_BIT != 0;
    let remove = actions & REMOVE_BIT != 0;
    let album = actions & ALBUM_BIT != 0;
    let album_dir = actions & ALBUM_DIR_BIT != 0;
    if set_track && set_album {
        return Err(PlanError::BothGainSettings);
    }
    if remove && (set_track || set_album) {
        return Err(PlanError::RemoveWithSet);
    }
    if album && album_dir {
        return Err(PlanError::BothAlbumModes);
    }
    let mode = if set_track {
        Mode::SetTrackGain
    } else if set_album {
        Mode::SetAlbumGain
    } else if remove {
        Mode::RemoveTags
    } else if album {
        Mode::AlbumGainByTag
    } else if album_dir {
        Mode::AlbumGainByFolder
    } else {
        Mode::TrackGain
    };
    Ok(RunPlan {
        help: actions & HELP_BIT != 0,
        copy_to_output: !same_text(dest, "$$$"),
        mode,
    })
}

/// The album under which a file is grouped: its album tag (or `__None__`
/// where it has none) when grouping by tag, and one shared empty name when
/// all files form one album.
pub open spec fn spec_album_key(by_folder: bool, album: Option<Seq<char>>) -> Seq<char> {
    if by_folder {
        Seq::empty()
    } else {
        match album {
            Some(a) => a,
            None => "__None__"@,
        }
    }
}

/// The album under which a file is grouped.
pub fn album_key(by_folder: bool, album: Option<String>) -> (key: String)
    ensures
        key@ == spec_album_key(
            by_folder,
            match album {
                Some(a) => Some(a@),
                None => None,
            },
        ),
{
    if by_folder {
        String::new()
    } else {
        match album {
            Some(a) => a,
            None => "__None__".to_owned(),
        }
    }
}

/// What to do with an input when copying it into the output folder.
#[derive(Clone, Copy, PartialEq, Eq, Structural, Debug)]
pub enum CopyStep {
    /// Nothing is there under its name: copy it and work on the copy.
    Copy,
    /// A file of that name is there already: leave it.
    SkipExistingFile,
    /// Something other than a file is there: leave it.
    SkipOther,
}

/// What to do with an input given what its name in the output folder points
/// at: nothing (`None`), a file (`Some(true)`) or something else.
pub fn copy_step(existing: Option<bool>) -> (step: CopyStep)
    ensures
        step == match existing {
            None => CopyStep::Copy,
            Some(true) => CopyStep::SkipExistingFile,
            Some(false) => CopyStep::SkipOther,
        },
{
    match existing {
        None => CopyStep::Copy,
        Some(true) => CopyStep::SkipExistingFile,
        Some(false) => CopyStep::SkipOther,
    }
}

/// The work mode follows the documented bits of the action mask (removal 16,
/// album 32, album as one folder 64, set track gain 128, set album gain 256):
/// a gain to set decides first, then removal, then the album modes; with none
/// of these bits the files get track gains. Copying happens exactly when an
/// output folder other than `$$$` was given, help exactly with bit 512.
pub proof fn law_plan_follows_the_bits(actions: i32, dest: Seq<char>)
    ensures
        ({
            let set_track = actions & 128 != 0;
            let set_album = actions & 256 != 0;
            let remove = actions & 16 != 0;
            let album = actions & 32 != 0;
            let album_dir = actions & 64 != 0;
            let conflict = (set_track && set_album) || (remove && (set_track || set_album)) || (
            album && album_dir);
            &&& spec_plan(actions, dest) is Err <==> conflict
            &&& !conflict ==> (spec_plan(actions, dest) matches Ok(p) && {
                &&& p.help == (actions & 512 != 0)
                &&& p.copy_to_output == (dest != "$$$"@)
                &&& (p.mode == Mode::SetTrackGain <==> set_track)
                &&& (p.mode == Mode::SetAlbumGain <==> set_album)
                &&& (p.mode == Mode::RemoveTags <==> remove)
                &&& (p.mode == Mode::AlbumGainByTag <==> (album && !remove && !set_track
                    && !set_album))
                &&& (p.mode == Mode::AlbumGainByFolder <==> (album_dir && !remove && !set_track
                    && !set_album))
                &&& (p.mode == Mode::TrackGain <==> (!remove && !set_track && !set_album && !album
                    && !album_dir))
            })
        }),
{
}

/// Grouping as one folder album puts every file under the same name, whatever
/// its album tag. Grouping by tag puts two files under the same name exactly
/// when their album tags agree, where both have one; a file without an album
/// tag goes under `__None__`, with the files of no other album.
pub proof fn law_album_keys_group_by_tag(a: Option<Seq<char>>, b: Option<Seq<char>>)
    ensures
        spec_album_key(true, a) == spec_album_key(true, b),
        (a is Some && b is Some) ==> (spec_album_key(false, a) == spec_album_key(false, b) <==> a
            == b),
        spec_album_key(false, None) == "__None__"@,
        (a matches Some(t) && t != "__None__"@) ==> spec_album_key(false, a) != spec_album_key(
            false,
            None,
        ),
{
}

} // verus!
