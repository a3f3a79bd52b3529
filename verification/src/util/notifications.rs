//! The notification sounds shipped with the app, which one a saved setting
//! plays, and the texts of the desktop notifications.
use vstd::prelude::*;
use crate::text::{chars_of, dec, index_of, push_dec, push_str, str_eq, string_of, trim, trim_exec};

verus! {

/// A notification sound bundled with the app. Its audio ships beside it.
pub struct BundledSound {
    /// Stable identifier stored in settings.
    pub id: &'static str,
    /// Human-friendly label shown in the settings dropdown.
    pub label: &'static str,
}

/// The identifiers of the bundled sounds, in dropdown order.
pub open spec fn sound_ids() -> Seq<Seq<char>> {
    seq![
        "sound1"@, "sound2"@, "sound3"@, "sound4"@, "sound5"@, "sound6"@,
        "sound7"@, "sound8"@, "sound9"@, "sound10"@, "sound11"@, "sound12"@,
        "sound13"@, "sound14"@, "sound15"@, "sound16"@, "sound17"@, "sound18"@,
    ]
}

/// The labels of the bundled sounds, in dropdown order.
pub open spec fn sound_labels() -> Seq<Seq<char>> {
    seq![
        "Sound 1"@, "Sound 2"@, "Sound 3"@, "Sound 4"@, "Sound 5"@, "Sound 6"@,
        "Sound 7"@, "Sound 8"@, "Sound 9"@, "Sound 10"@, "Sound 11"@, "Sound 12"@,
        "Sound 13"@, "Sound 14"@, "Sound 15"@, "Sound 16"@, "Sound 17"@, "Sound 18"@,
    ]
}

/// The sound played when the saved identifier names none of the bundled ones.
pub const DEFAULT_SOUND_ID: &'static str = "sound1";

/// The identifiers of a list of sounds.
pub open spec fn ids_of(v: Seq<BundledSound>) -> Seq<Seq<char>> {
    v.map_values(|s: BundledSound| s.id@)
}

/// The labels of a list of sounds.
pub open spec fn labels_of(v: Seq<BundledSound>) -> Seq<Seq<char>> {
    v.map_values(|s: BundledSound| s.label@)
}

fn sound(id: &'static str, label: &'static str) -> (r: BundledSound)
    ensures
        r.id@ == id@,
        r.label@ == label@,
{
    BundledSound { id, label }
}

/// The bundled sounds, in dropdown order.
pub fn bundled_sounds() -> (r: Vec<BundledSound>)
    ensures
        ids_of(r@) == sound_ids(),
        labels_of(r@) == sound_labels(),
{
    let mut v: Vec<BundledSound> = Vec::new();
    v.push(sound("sound1", "Sound 1"));
    v.push(sound("sound2", "Sound 2"));
    v.push(sound("sound3", "Sound 3"));
    v.push(sound("sound4", "Sound 4"));
    v.push(sound("sound5", "Sound 5"));
    v.push(sound("sound6", "Sound 6"));
    v.push(sound("sound7", "Sound 7"));
    v.push(sound("sound8", "Sound 8"));
    v.push(sound("sound9", "Sound 9"));
    v.push(sound("sound10", "Sound 10"));
    v.push(sound("sound11", "Sound 11"));
    v.push(sound("sound12", "Sound 12"));
    v.push(sound("sound13", "Sound 13"));
    v.push(sound("sound14", "Sound 14"));
    v.push(sound("sound15", "Sound 15"));
    v.push(sound("sound16", "Sound 16"));
    v.push(sound("sound17", "Sound 17"));
    v.push(sound("sound18", "Sound 18"));
    assert(ids_of(v@) =~= sound_ids());
    assert(labels_of(v@) =~= sound_labels());
    v
}

/// Which bundled sound a saved identifier plays: the one it names once
/// trimmed, else the default one.
pub open spec fn resolve_sound_spec(saved: Seq<char>) -> int {
    match index_of(sound_ids(), trim(saved)) {
        Some(i) => i,
        None => match index_of(sound_ids(), DEFAULT_SOUND_ID@) {
            Some(i) => i,
            None => 0,
        },
    }
}

/// The place of `id` in a list of sounds.
fn position_of_id(sounds: &Vec<BundledSound>, id: &str) -> (r: Option<usize>)
    ensures
        match r {
            Some(i) => index_of(ids_of(sounds@), id@) == Some(i as int) && i < sounds@.len(),
            None => index_of(ids_of(sounds@), id@) is None,
        },
{
    let ghost v = ids_of(sounds@);
    let mut k: usize = 0;
    while k < sounds.len()
        invariant
            k <= sounds@.len(),
            v == ids_of(sounds@),
            forall|m: int| 0 <= m < k ==> v[m] != id@,
        decreases sounds@.len() - k,
    {
        if str_eq(sounds[k].id, id) {
            proof {
                crate::text::lemma_index_of(v, id@, k as int);
            }
            return Some(k);
        }
        k = k + 1;
    }
    proof {
        crate::text::lemma_index_of(v, id@, k as int);
    }
    None
}

/// The position, among the bundled sounds, of the one a saved identifier plays.
pub fn resolve_sound(saved: &str) -> (r: usize)
    ensures
        r == resolve_sound_spec(saved@),
        r < sound_ids().len(),
{
    let sounds = bundled_sounds();
    let chars = chars_of(saved);
    let trimmed = string_of(trim_exec(chars.as_slice()).as_slice());
    match position_of_id(&sounds, trimmed.as_str()) {
        Some(i) => i,
        None => match position_of_id(&sounds, DEFAULT_SOUND_ID) {
            Some(i) => i,
            None => 0,
        },
    }
}

/// The saved identifier of a bundled sound plays that sound, and any other
/// identifier plays the default one, the first of the list.
pub proof fn law_saved_sound_resolves(saved: Seq<char>)
    ensures
        sound_ids().contains(trim(saved)) ==> sound_ids()[resolve_sound_spec(saved)] == trim(saved),
        !sound_ids().contains(trim(saved)) ==> resolve_sound_spec(saved) == 0,
{
    reveal_strlit("sound1");
    crate::text::lemma_index_of(sound_ids(), DEFAULT_SOUND_ID@, 0);
    lemma_index_of_contains(sound_ids(), trim(saved));
}

/// `index_of` finds exactly the names the list contains.
pub proof fn lemma_index_of_contains(names: Seq<Seq<char>>, name: Seq<char>)
    ensures
        match index_of(names, name) {
            Some(i) => 0 <= i < names.len() && names[i] == name,
            None => !names.contains(name),
        },
    decreases names.len(),
{
    if names.len() > 0 {
        lemma_index_of_contains(names.drop_last(), name);
        if !names.drop_last().contains(name) && names.last() != name {
            assert forall|j: int| 0 <= j < names.len() implies names[j] != name by {
                if j < names.len() - 1 {
                    assert(names[j] == names.drop_last()[j]);
                }
            }
        }
        if index_of(names.drop_last(), name) is None && names.last() == name {
            assert(names[names.len() - 1] == name);
        }
    }
}

// ---------------------------------------------------------------- settings choices

/// The dropdown position showing a saved sound: its place among the
/// bundled sounds, or the first one.
pub open spec fn sound_combo_index_spec(saved: Seq<char>) -> u32 {
    match index_of(sound_ids(), saved) {
        Some(i) => i as u32,
        None => 0,
    }
}

/// The dropdown position showing the saved sound `saved`.
pub fn sound_combo_index(saved: &str) -> (r: u32)
    ensures
        r == sound_combo_index_spec(saved@),
{
    let sounds = bundled_sounds();
    match position_of_id(&sounds, saved) {
        Some(i) => i as u32,
        None => 0,
    }
}

/// The sound a dropdown position selects, if there is one there.
pub fn sound_at(index: u32) -> (r: Option<&'static str>)
    ensures
        match r {
            Some(id) => index < sound_ids().len() && id@ == sound_ids()[index as int],
            None => index >= sound_ids().len(),
        },
{
    let sounds = bundled_sounds();
    if (index as usize) < sounds.len() {
        assert(ids_of(sounds@)[index as int] == sounds@[index as int].id@);
        Some(sounds[index as usize].id)
    } else {
        None
    }
}

/// The position in a per-agent dropdown, whose first entry is "use the
/// default sound": a known saved sound sits one after its place.
pub open spec fn agent_combo_index_spec(saved: Option<Seq<char>>) -> u32 {
    match saved {
        Some(id) => match index_of(sound_ids(), id) {
            Some(i) => (i + 1) as u32,
            None => 0,
        },
        None => 0,
    }
}

/// The position in a per-agent dropdown showing the saved override.
pub fn agent_combo_index(saved: Option<&str>) -> (r: u32)
    ensures
        r == agent_combo_index_spec(
            match saved {
                Some(s) => Some(s@),
                None => None,
            },
        ),
{
    match saved {
        Some(id) => {
            let sounds = bundled_sounds();
            match position_of_id(&sounds, id) {
                Some(i) => (i + 1) as u32,
                None => 0,
            }
        },
        None => 0,
    }
}

/// The override a per-agent dropdown position selects: none for the first
/// entry (or past the end), else the sound one before it.
pub fn agent_sound_at(index: u32) -> (r: Option<&'static str>)
    ensures
        match r {
            Some(id) => 1 <= index <= sound_ids().len() && id@ == sound_ids()[index - 1],
            None => index == 0 || index > sound_ids().len(),
        },
{
    if index == 0 {
        None
    } else {
        sound_at(index - 1)
    }
}

/// Choosing a bundled sound in either dropdown and reading the dropdown
/// back gives that sound.
pub proof fn law_sound_choices_round_trip(i: int)
    requires
        0 <= i < sound_ids().len(),
    ensures
        sound_combo_index_spec(sound_ids()[i]) == i,
        agent_combo_index_spec(Some(sound_ids()[i])) == i + 1,
{
    lemma_sound_ids_distinct();
    crate::text::lemma_index_of(sound_ids(), sound_ids()[i], i);
}

proof fn lemma_sound_ids_distinct()
    ensures
        forall|a: int, b: int|
            0 <= a < b < sound_ids().len() ==> (#[trigger] sound_ids()[a]) != (#[trigger] sound_ids()[b]),
{
    reveal_strlit("sound1");
    reveal_strlit("sound2");
    reveal_strlit("sound3");
    reveal_strlit("sound4");
    reveal_strlit("sound5");
    reveal_strlit("sound6");
    reveal_strlit("sound7");
    reveal_strlit("sound8");
    reveal_strlit("sound9");
    reveal_strlit("sound10");
    reveal_strlit("sound11");
    reveal_strlit("sound12");
    reveal_strlit("sound13");
    reveal_strlit("sound14");
    reveal_strlit("sound15");
    reveal_strlit("sound16");
    reveal_strlit("sound17");
    reveal_strlit("sound18");
    assert forall|a: int, b: int|
        0 <= a < b < sound_ids().len() implies (#[trigger] sound_ids()[a]) != (
        #[trigger] sound_ids()[b]) by {
        if sound_ids()[a].len() == sound_ids()[b].len() {
            if sound_ids()[a].len() == 6 {
                assert(sound_ids()[a][5] != sound_ids()[b][5]);
            } else {
                assert(sound_ids()[a][6] != sound_ids()[b][6]);
            }
        }
    }
}

/// The file name a bundled sound is cached under.
pub fn cached_file_name(id: &str) -> (r: String)
    ensures
        r@ == id@ + ".ogg"@,
{
    let mut out = chars_of(id);
    push_str(&mut out, ".ogg");
    string_of(out.as_slice())
}

// ---------------------------------------------------------------- texts

/// The body of the notification that a process crashed.
pub fn crash_body(process_name: &str) -> (r: String)
    ensures
        r@ == process_name@ + ": crashed"@,
{
    let mut out = chars_of(process_name);
    push_str(&mut out, ": crashed");
    string_of(out.as_slice())
}

/// The body of the notification that a process restarts, with the attempt.
pub fn restart_body(process_name: &str, attempt: u32) -> (r: String)
    ensures
        r@ == process_name@ + ": restarting (attempt "@ + dec(attempt as nat) + ")"@,
{
    let mut out = chars_of(process_name);
    push_str(&mut out, ": restarting (attempt ");
    push_dec(&mut out, attempt as u64);
    push_str(&mut out, ")");
    string_of(out.as_slice())
}

/// The body of the notification that a process finished.
pub fn finish_body(process_name: &str) -> (r: String)
    ensures
        r@ == process_name@ + ": finished"@,
{
    let mut out = chars_of(process_name);
    push_str(&mut out, ": finished");
    string_of(out.as_slice())
}

/// The body of the notification that a file change restarted a process.
pub fn file_watch_restart_body(process_name: &str) -> (r: String)
    ensures
        r@ == process_name@ + ": file change \u{2192} restart"@,
{
    let mut out = chars_of(process_name);
    push_str(&mut out, ": file change \u{2192} restart");
    string_of(out.as_slice())
}

} // verus!
