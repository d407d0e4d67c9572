//! Startup loading: building the sprite-sheet registry and the animation
//! catalog from configuration records.
//!
//! The host reads and deserializes the configuration file and loads each
//! sheet's texture and grid layout, handing this module the records and the
//! resulting handle pairs in the same order.  Everything the records decide —
//! logical names, frame sequences, catalog contents — is computed and proved
//! here.  A missing or malformed configuration is fatal at startup: the host
//! aborts instead of calling in.

use vstd::prelude::*;
use crate::anim::{anim_of_record, Animation, AnimationResource, AnimationView, AnimRecord,
    AnimRecordView, frames_from_range};
use crate::names::{trim_extension, trim_extension_spec};
use crate::sheets::{SpriteSheetHandle, SpriteSheetResource};

verus! {

/// One sheet's configuration record: the sheet's file name and the
/// animations defined on it.  The grid geometry of the record (tile size,
/// rows, columns) is consumed by the host when it builds the layout handle.
pub struct SheetRecord {
    pub file_name: String,
    pub animations: Vec<AnimRecord>,
}

/// Model of a sheet record.
pub struct SheetRecordView {
    pub file_name: Seq<char>,
    pub animations: Seq<AnimRecordView>,
}

impl View for SheetRecord {
    type V = SheetRecordView;

    open spec fn view(&self) -> SheetRecordView {
        SheetRecordView {
            file_name: self.file_name@,
            animations: self.animations@.map_values(|a: AnimRecord| a@),
        }
    }
}

/// The records of a configuration, as models.
pub open spec fn records_view(c: Seq<SheetRecord>) -> Seq<SheetRecordView> {
    c.map_values(|r: SheetRecord| r@)
}

/// An animation record that yields a well-formed definition: a non-empty
/// ascending frame range that stays within `usize`, and a positive frame
/// duration.
pub open spec fn anim_record_valid(a: AnimRecordView) -> bool {
    &&& a.start <= a.end
    &&& a.end < usize::MAX
    &&& a.frame_micros > 0
}

pub open spec fn sheet_record_valid(r: SheetRecordView) -> bool {
    forall|i: int| 0 <= i < r.animations.len() ==> anim_record_valid(#[trigger] r.animations[i])
}

pub open spec fn config_valid_spec(c: Seq<SheetRecordView>) -> bool {
    forall|i: int| 0 <= i < c.len() ==> sheet_record_valid(#[trigger] c[i])
}

/// Checks that every animation record of every sheet yields a well-formed
/// definition.  Loading requires this; the host treats a failure as fatal.
pub fn config_valid(config: &Vec<SheetRecord>) -> (r: bool)
    ensures
        r == config_valid_spec(records_view(config@)),
{
    let n = config.len();
    let mut i: usize = 0;
    while i < n
        invariant
            i <= n,
            n == config@.len(),
            forall|j: int| 0 <= j < i ==> sheet_record_valid(#[trigger] records_view(config@)[j]),
        decreases n - i,
    {
        let rec = &config[i];
        assert(rec@ == records_view(config@)[i as int]);
        let m = rec.animations.len();
        let mut j: usize = 0;
        while j < m
            invariant
                j <= m,
                m == rec.animations@.len(),
                0 <= i < config@.len(),
                rec@ == records_view(config@)[i as int],
                forall|l: int| 0 <= l < j ==> anim_record_valid(#[trigger] rec@.animations[l]),
            decreases m - j,
        {
            let a = &rec.animations[j];
            if !(a.start <= a.end && a.end < usize::MAX && a.frame_micros > 0) {
                assert(!anim_record_valid(rec@.animations[j as int]));
                assert(!sheet_record_valid(records_view(config@)[i as int]));
                return false;
            }
            j = j + 1;
        }
        assert(sheet_record_valid(records_view(config@)[i as int]));
        i = i + 1;
    }
    true
}

/// The handle pair the registry maps `k` to after loading: the handle of the
/// last record whose trimmed file name is `k`.
pub open spec fn loaded_sheet_spec(
    recs: Seq<SheetRecordView>,
    handles: Seq<SpriteSheetHandle>,
    k: Seq<char>,
) -> Option<SpriteSheetHandle>
    decreases recs.len(),
{
    if recs.len() == 0 {
        None
    } else if trim_extension_spec(recs.last().file_name) == k {
        Some(handles[recs.len() - 1])
    } else {
        loaded_sheet_spec(recs.drop_last(), handles, k)
    }
}

/// The definition one sheet's records map `k` to: the definition derived from
/// the last of its animation records named `k`.
pub open spec fn record_anim_spec(
    sheet_file: Seq<char>,
    anims: Seq<AnimRecordView>,
    k: Seq<char>,
) -> Option<AnimationView>
    decreases anims.len(),
{
    if anims.len() == 0 {
        None
    } else if anims.last().name == k {
        Some(anim_of_record(sheet_file, anims.last()))
    } else {
        record_anim_spec(sheet_file, anims.drop_last(), k)
    }
}

/// The definition the catalog maps `k` to after loading: later records win.
pub open spec fn loaded_anim_spec(recs: Seq<SheetRecordView>, k: Seq<char>) -> Option<AnimationView>
    decreases recs.len(),
{
    if recs.len() == 0 {
        None
    } else if record_anim_spec(recs.last().file_name, recs.last().animations, k) is Some {
        record_anim_spec(recs.last().file_name, recs.last().animations, k)
    } else {
        loaded_anim_spec(recs.drop_last(), k)
    }
}

/// Builds the sprite-sheet registry and the animation catalog from the
/// configuration records and the handle pairs the host loaded for them, one
/// pair per record in the same order.  Each sheet is registered under its file
/// name with the extension stripped; each animation is registered under its
/// own name, with the frame sequence derived from its closed `[start, end]`
/// range.
pub fn load_sprite_sheets(config: &Vec<SheetRecord>, handles: &Vec<SpriteSheetHandle>) -> (r: (
    SpriteSheetResource,
    AnimationResource,
))
    requires
        handles@.len() == config@.len(),
        config_valid_spec(records_view(config@)),
    ensures
        forall|k: Seq<char>| r.0.spec_get(k) == loaded_sheet_spec(
            records_view(config@),
            handles@,
            k,
        ),
        forall|k: Seq<char>| r.1.spec_get(k) == loaded_anim_spec(records_view(config@), k),
        r.1.wf(),
{
    let ghost recs = records_view(config@);
    let mut sheets = SpriteSheetResource::new();
    let mut anims = AnimationResource::new();
    let n = config.len();
    proof {
        assert(recs.take(0) =~= Seq::<SheetRecordView>::empty());
    }
    let mut i: usize = 0;
    while i < n
        invariant
            i <= n,
            n == config@.len(),
            handles@.len() == config@.len(),
            recs == records_view(config@),
            config_valid_spec(recs),
            forall|k: Seq<char>| sheets.spec_get(k) == loaded_sheet_spec(
                recs.take(i as int),
                handles@,
                k,
            ),
            forall|k: Seq<char>| anims.spec_get(k) == loaded_anim_spec(recs.take(i as int), k),
            anims.wf(),
        decreases n - i,
    {
        let rec = &config[i];
        assert(rec@ == recs[i as int]);

        // register the sheet under its trimmed name
        let name = trim_extension(rec.file_name.as_str());
        sheets.insert(name, handles[i]);
        proof {
            assert(recs.take(i + 1).drop_last() =~= recs.take(i as int));
            assert(recs.take(i + 1).last() == recs[i as int]);
            assert forall|k: Seq<char>| sheets.spec_get(k) == loaded_sheet_spec(
                recs.take(i + 1),
                handles@,
                k,
            ) by {
                assert(loaded_sheet_spec(recs.take(i + 1), handles@, k) == if trim_extension_spec(
                    recs[i as int].file_name,
                ) == k {
                    Some(handles@[i as int])
                } else {
                    loaded_sheet_spec(recs.take(i as int), handles@, k)
                });
            }
        }

        // register the sheet's animations
        let m = rec.animations.len();
        proof {
            assert(rec@.animations.take(0) =~= Seq::<AnimRecordView>::empty());
        }
        let mut j: usize = 0;
        while j < m
            invariant
                j <= m,
                m == rec.animations@.len(),
                rec@ == recs[i as int],
                0 <= i < recs.len(),
                config_valid_spec(recs),
                forall|k: Seq<char>| anims.spec_get(k) == (match record_anim_spec(
                    rec@.file_name,
                    rec@.animations.take(j as int),
                    k,
                ) {
                    Some(a) => Some(a),
                    None => loaded_anim_spec(recs.take(i as int), k),
                }),
                anims.wf(),
            decreases m - j,
        {
            let ar = &rec.animations[j];
            assert(ar@ == rec@.animations[j as int]);
            assert(anim_record_valid(ar@));
            let frames = frames_from_range(ar.start, ar.end);
            let animation = Animation::new(
                rec.file_name.clone(),
                frames,
                ar.frame_micros,
                ar.animation_type,
            );
            proof {
                assert(animation@.frames =~= anim_of_record(rec@.file_name, ar@).frames);
                assert(animation@ == anim_of_record(rec@.file_name, ar@));
            }
            anims.insert(ar.name.clone(), animation);
            proof {
                assert(rec@.animations.take(j + 1).drop_last() =~= rec@.animations.take(j as int));
                assert(rec@.animations.take(j + 1).last() == rec@.animations[j as int]);
                assert forall|k: Seq<char>| anims.spec_get(k) == (match record_anim_spec(
                    rec@.file_name,
                    rec@.animations.take(j + 1),
                    k,
                ) {
                    Some(a) => Some(a),
                    None => loaded_anim_spec(recs.take(i as int), k),
                }) by {
                    assert(record_anim_spec(rec@.file_name, rec@.animations.take(j + 1), k)
                        == if rec@.animations[j as int].name == k {
                        Some(anim_of_record(rec@.file_name, rec@.animations[j as int]))
                    } else {
                        record_anim_spec(rec@.file_name, rec@.animations.take(j as int), k)
                    });
                }
            }
            j = j + 1;
        }
        proof {
            assert(rec@.animations.take(m as int) =~= rec@.animations);
            assert(recs.take(i + 1).drop_last() =~= recs.take(i as int));
            assert(recs.take(i + 1).last() == recs[i as int]);
            assert forall|k: Seq<char>| anims.spec_get(k) == loaded_anim_spec(
                recs.take(i + 1),
                k,
            ) by {
                assert(loaded_anim_spec(recs.take(i + 1), k) == if record_anim_spec(
                    recs[i as int].file_name,
                    recs[i as int].animations,
                    k,
                ) is Some {
                    record_anim_spec(recs[i as int].file_name, recs[i as int].animations, k)
                } else {
                    loaded_anim_spec(recs.take(i as int), k)
                });
            }
        }
        i = i + 1;
    }
    proof {
        assert(recs.take(n as int) =~= recs);
    }
    (sheets, anims)
}

} // verus!
