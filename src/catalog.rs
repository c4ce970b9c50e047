use vstd::prelude::*;
use vstd::string::*;
use crate::sound::{Sound, SoundView};

verus! {

/// Level of a sound whose file name mentions a binaural tone or noise.
pub const QUIET_LEVEL: u32 = 200;

/// Level of every other sound.
pub const DEFAULT_LEVEL: u32 = 500;

/// Position of the last `/` of `s`, or -1 where there is none.
pub open spec fn last_slash(s: Seq<char>) -> int
    decreases s.len(),
{
    if s.len() == 0 {
        -1
    } else if s.last() == '/' {
        s.len() - 1
    } else {
        last_slash(s.drop_last())
    }
}

/// The last segment of a path: what follows its last `/`.
pub open spec fn file_name(s: Seq<char>) -> Seq<char> {
    s.subrange(last_slash(s) + 1, s.len() as int)
}

/// The segment before the last one: the folder that holds the file.
pub open spec fn folder_name(s: Seq<char>) -> Seq<char> {
    file_name(s.subrange(0, last_slash(s)))
}

/// Whether `t` occurs in `s`.
pub open spec fn contains_seq(s: Seq<char>, t: Seq<char>) -> bool {
    exists|i: int| 0 <= i && i + t.len() <= s.len() && #[trigger] s.subrange(i, i + t.len()) == t
}

/// The starting level of a sound, by its file name.
pub open spec fn default_level(name: Seq<char>) -> nat {
    if contains_seq(name, "binaural"@) || contains_seq(name, "noise"@) {
        QUIET_LEVEL as nat
    } else {
        DEFAULT_LEVEL as nat
    }
}

/// The catalog entry a path describes: named after its file, in the
/// category of its folder.
pub open spec fn sound_view_of(path: Seq<char>) -> SoundView {
    SoundView {
        name: file_name(path),
        path,
        category: folder_name(path),
        volume: default_level(file_name(path)),
    }
}

/// The catalog entries of the paths that hold a `/`, in order.
pub open spec fn catalog_of(paths: Seq<Seq<char>>) -> Seq<SoundView>
    decreases paths.len(),
{
    if paths.len() == 0 {
        seq![]
    } else if last_slash(paths.last()) >= 0 {
        catalog_of(paths.drop_last()).push(sound_view_of(paths.last()))
    } else {
        catalog_of(paths.drop_last())
    }
}

/// Position of the last `/` among the first `end` characters of `s`.
fn last_slash_before(s: &str, end: usize) -> (r: Option<usize>)
    requires
        end <= s@.len(),
    ensures
        match r {
            Some(i) => i < end && i == last_slash(s@.subrange(0, end as int)),
            None => last_slash(s@.subrange(0, end as int)) == -1,
        },
{
    let mut e: usize = end;
    while e > 0
        invariant
            e <= end <= s@.len(),
            last_slash(s@.subrange(0, end as int)) == last_slash(s@.subrange(0, e as int)),
        decreases e,
    {
        assert(s@.subrange(0, e as int).drop_last() =~= s@.subrange(0, e - 1));
        if s.get_char(e - 1) == '/' {
            return Some(e - 1);
        }
        e -= 1;
    }
    None
}

/// Whether `needle` occurs in `hay` at position `i`.
fn matches_at(hay: &str, needle: &str, i: usize) -> (r: bool)
    requires
        i + needle@.len() <= hay@.len(),
    ensures
        r == (hay@.subrange(i as int, i + needle@.len()) == needle@),
{
    let n = needle.unicode_len();
    let _h = hay.unicode_len();
    let mut j: usize = 0;
    while j < n
        invariant
            n == needle@.len(),
            hay@.len() <= usize::MAX,
            i + n <= hay@.len(),
            j <= n,
            forall|x: int| 0 <= x < j ==> hay@[i + x] == needle@[x],
        decreases n - j,
    {
        if hay.get_char(i + j) != needle.get_char(j) {
            assert(hay@.subrange(i as int, i + n)[j as int] != needle@[j as int]);
            return false;
        }
        j += 1;
    }
    assert(hay@.subrange(i as int, i + n) =~= needle@);
    true
}

/// Whether `needle` occurs in `hay`.
pub fn contains_str(hay: &str, needle: &str) -> (r: bool)
    ensures
        r == contains_seq(hay@, needle@),
{
    let h = hay.unicode_len();
    let n = needle.unicode_len();
    if n > h {
        return false;
    }
    if n == 0 {
        assert(hay@.subrange(0, 0 + needle@.len() as int) =~= needle@);
        return true;
    }
    let mut i: usize = 0;
    while i <= h - n
        invariant
            h == hay@.len(),
            n == needle@.len(),
            1 <= n <= h,
            i <= h - n + 1,
            forall|x: int| 0 <= x < i ==> #[trigger] hay@.subrange(x, x + n) != needle@,
        decreases h - n + 1 - i,
    {
        if matches_at(hay, needle, i) {
            return true;
        }
        i += 1;
    }
    false
}

/// The catalog entry that `path` describes; `None` where the path has no
/// folder.
pub fn sound_from_path(path: &str) -> (r: Option<Sound>)
    ensures
        match r {
            Some(s) => last_slash(path@) >= 0 && s@ == sound_view_of(path@),
            None => last_slash(path@) < 0,
        },
{
    let len = path.unicode_len();
    assert(path@.subrange(0, len as int) =~= path@);
    let slash = match last_slash_before(path, len) {
        Some(i) => i,
        None => return None,
    };
    let name = path.substring_char(slash + 1, len);
    let folder_start = match last_slash_before(path, slash) {
        Some(i) => i + 1,
        None => 0,
    };
    proof {
        let d = path@.subrange(0, slash as int);
        assert(d.subrange(0, slash as int) =~= d);
        assert(d.subrange(folder_start as int, d.len() as int) =~= path@.subrange(folder_start as int, slash as int));
    }
    let category = path.substring_char(folder_start, slash);
    let volume = if contains_str(name, "binaural") || contains_str(name, "noise") {
        QUIET_LEVEL
    } else {
        DEFAULT_LEVEL
    };
    Some(Sound::new(name, path, category, volume))
}

/// The catalog entries that `paths` describe, in order; a path without a
/// folder is left out.
pub fn sounds_from_paths(paths: &Vec<String>) -> (r: Vec<Sound>)
    ensures
        crate::sound_manager::views_of(r@) == catalog_of(paths@.map_values(|p: String| p@)),
        forall|j: int| 0 <= j < r@.len() ==> (#[trigger] r@[j])@.volume <= crate::volume::FULL_VOLUME,
{
    let ghost pv = paths@.map_values(|p: String| p@);
    let mut out: Vec<Sound> = Vec::new();
    let mut k: usize = 0;
    while k < paths.len()
        invariant
            k <= paths@.len(),
            pv == paths@.map_values(|p: String| p@),
            crate::sound_manager::views_of(out@) == catalog_of(pv.subrange(0, k as int)),
            forall|j: int| 0 <= j < out@.len() ==> (#[trigger] out@[j])@.volume <= crate::volume::FULL_VOLUME,
        decreases paths@.len() - k,
    {
        assert(pv.subrange(0, k + 1).drop_last() =~= pv.subrange(0, k as int));
        assert(pv.subrange(0, k + 1).last() == paths@[k as int]@);
        let ghost before = crate::sound_manager::views_of(out@);
        match sound_from_path(paths[k].as_str()) {
            Some(s) => {
                out.push(s);
                assert(crate::sound_manager::views_of(out@) =~= before.push(sound_view_of(paths@[k as int]@)));
            },
            None => {},
        }
        k += 1;
    }
    assert(pv.subrange(0, paths@.len() as int) =~= pv);
    out
}

/// The paths of the sounds shipped with the mixer, grouped by folder.
pub open spec fn default_path_list() -> Seq<Seq<char>> {
    seq![
        "./sounds/animals/birds.mp3"@,
        "./sounds/animals/cat-purring.mp3"@,
        "./sounds/animals/crickets.mp3"@,
        "./sounds/animals/crows.mp3"@,
        "./sounds/animals/dog-barking.mp3"@,
        "./sounds/animals/frog.mp3"@,
        "./sounds/animals/horse-galopp.mp3"@,
        "./sounds/animals/owl.mp3"@,
        "./sounds/animals/seagulls.mp3"@,
        "./sounds/animals/whale.mp3"@,
        "./sounds/animals/wolf.mp3"@,
        "./sounds/binaural/binaural-alpha.wav"@,
        "./sounds/binaural/binaural-beta.wav"@,
        "./sounds/binaural/binaural-delta.wav"@,
        "./sounds/binaural/binaural-gamma.wav"@,
        "./sounds/binaural/binaural-theta.wav"@,
        "./sounds/nature/campfire.mp3"@,
        "./sounds/nature/droplets.mp3"@,
        "./sounds/nature/jungle.mp3"@,
        "./sounds/nature/river.mp3"@,
        "./sounds/nature/walk-in-snow.mp3"@,
        "./sounds/nature/walk-on-leaves.mp3"@,
        "./sounds/nature/waterfall.mp3"@,
        "./sounds/nature/waves.mp3"@,
        "./sounds/nature/wind.mp3"@,
        "./sounds/nature/wind-in-trees.mp3"@,
        "./sounds/noise/brown-noise.wav"@,
        "./sounds/noise/pink-noise.wav"@,
        "./sounds/noise/white-noise.wav"@,
        "./sounds/places/airport.mp3"@,
        "./sounds/places/cafe.mp3"@,
        "./sounds/places/carousel.mp3"@,
        "./sounds/places/church.mp3"@,
        "./sounds/places/construction-site.mp3"@,
        "./sounds/places/crowded-bar.mp3"@,
        "./sounds/places/laboratory.mp3"@,
        "./sounds/places/laundry-room.mp3"@,
        "./sounds/places/night-village.mp3"@,
        "./sounds/places/office.mp3"@,
        "./sounds/places/subway-station.mp3"@,
        "./sounds/places/supermarket.mp3"@,
        "./sounds/places/temple.mp3"@,
        "./sounds/places/underwater.mp3"@,
        "./sounds/rain/heavy-rain.mp3"@,
        "./sounds/rain/light-rain.mp3"@,
        "./sounds/rain/rain-on-leaves.mp3"@,
        "./sounds/rain/rain-on-tent.mp3"@,
        "./sounds/rain/rain-on-umbrella.mp3"@,
        "./sounds/rain/rain-on-window.mp3"@,
        "./sounds/rain/thunder.mp3"@,
        "./sounds/things/boiling-water.mp3"@,
        "./sounds/things/bubbles.mp3"@,
        "./sounds/things/ceiling-fan.mp3"@,
        "./sounds/things/clock.mp3"@,
        "./sounds/things/dryer.mp3"@,
        "./sounds/things/keyboard.mp3"@,
        "./sounds/things/morse-code.mp3"@,
        "./sounds/things/paper.mp3"@,
        "./sounds/things/slide-projector.mp3"@,
        "./sounds/things/singing-bowl.mp3"@,
        "./sounds/things/tuning-radio.mp3"@,
        "./sounds/things/typewriter.mp3"@,
        "./sounds/things/washing-machine.mp3"@,
        "./sounds/things/wind-chimes.mp3"@,
        "./sounds/transport/airplane.mp3"@,
        "./sounds/transport/inside-a-train.mp3"@,
        "./sounds/transport/rowing-boat.mp3"@,
        "./sounds/transport/sailboat.mp3"@,
        "./sounds/transport/submarine.mp3"@,
        "./sounds/transport/train.mp3"@,
        "./sounds/urban/ambulance-siren.mp3"@,
        "./sounds/urban/busy-street.mp3"@,
        "./sounds/urban/crowd.mp3"@,
        "./sounds/urban/fireworks.mp3"@,
        "./sounds/urban/highway.mp3"@,
        "./sounds/urban/road.mp3"@,
        "./sounds/urban/traffic.mp3"@,
        "./sounds/alarm.mp3"@,
    ]
}

/// The paths of the sounds shipped with the mixer.
pub fn default_paths() -> (r: Vec<String>)
    ensures
        crate::sound_manager::string_views(r@) == default_path_list(),
        r@.len() == 78,
{
    let mut v: Vec<String> = Vec::new();
    v.push("./sounds/animals/birds.mp3".to_owned());
    v.push("./sounds/animals/cat-purring.mp3".to_owned());
    v.push("./sounds/animals/crickets.mp3".to_owned());
    v.push("./sounds/animals/crows.mp3".to_owned());
    v.push("./sounds/animals/dog-barking.mp3".to_owned());
    v.push("./sounds/animals/frog.mp3".to_owned());
    v.push("./sounds/animals/horse-galopp.mp3".to_owned());
    v.push("./sounds/animals/owl.mp3".to_owned());
    v.push("./sounds/animals/seagulls.mp3".to_owned());
    v.push("./sounds/animals/whale.mp3".to_owned());
    v.push("./sounds/animals/wolf.mp3".to_owned());
    v.push("./sounds/binaural/binaural-alpha.wav".to_owned());
    v.push("./sounds/binaural/binaural-beta.wav".to_owned());
    v.push("./sounds/binaural/binaural-delta.wav".to_owned());
    v.push("./sounds/binaural/binaural-gamma.wav".to_owned());
    v.push("./sounds/binaural/binaural-theta.wav".to_owned());
    v.push("./sounds/nature/campfire.mp3".to_owned());
    v.push("./sounds/nature/droplets.mp3".to_owned());
    v.push("./sounds/nature/jungle.mp3".to_owned());
    v.push("./sounds/nature/river.mp3".to_owned());
    v.push("./sounds/nature/walk-in-snow.mp3".to_owned());
    v.push("./sounds/nature/walk-on-leaves.mp3".to_owned());
    v.push("./sounds/nature/waterfall.mp3".to_owned());
    v.push("./sounds/nature/waves.mp3".to_owned());
    v.push("./sounds/nature/wind.mp3".to_owned());
    v.push("./sounds/nature/wind-in-trees.mp3".to_owned());
    v.push("./sounds/noise/brown-noise.wav".to_owned());
    v.push("./sounds/noise/pink-noise.wav".to_owned());
    v.push("./sounds/noise/white-noise.wav".to_owned());
    v.push("./sounds/places/airport.mp3".to_owned());
    v.push("./sounds/places/cafe.mp3".to_owned());
    v.push("./sounds/places/carousel.mp3".to_owned());
    v.push("./sounds/places/church.mp3".to_owned());
    v.push("./sounds/places/construction-site.mp3".to_owned());
    v.push("./sounds/places/crowded-bar.mp3".to_owned());
    v.push("./sounds/places/laboratory.mp3".to_owned());
    v.push("./sounds/places/laundry-room.mp3".to_owned());
    v.push("./sounds/places/night-village.mp3".to_owned());
    v.push("./sounds/places/office.mp3".to_owned());
    v.push("./sounds/places/subway-station.mp3".to_owned());
    v.push("./sounds/places/supermarket.mp3".to_owned());
    v.push("./sounds/places/temple.mp3".to_owned());
    v.push("./sounds/places/underwater.mp3".to_owned());
    v.push("./sounds/rain/heavy-rain.mp3".to_owned());
    v.push("./sounds/rain/light-rain.mp3".to_owned());
    v.push("./sounds/rain/rain-on-leaves.mp3".to_owned());
    v.push("./sounds/rain/rain-on-tent.mp3".to_owned());
    v.push("./sounds/rain/rain-on-umbrella.mp3".to_owned());
    v.push("./sounds/rain/rain-on-window.mp3".to_owned());
    v.push("./sounds/rain/thunder.mp3".to_owned());
    v.push("./sounds/things/boiling-water.mp3".to_owned());
    v.push("./sounds/things/bubbles.mp3".to_owned());
    v.push("./sounds/things/ceiling-fan.mp3".to_owned());
    v.push("./sounds/things/clock.mp3".to_owned());
    v.push("./sounds/things/dryer.mp3".to_owned());
    v.push("./sounds/things/keyboard.mp3".to_owned());
    v.push("./sounds/things/morse-code.mp3".to_owned());
    v.push("./sounds/things/paper.mp3".to_owned());
    v.push("./sounds/things/slide-projector.mp3".to_owned());
    v.push("./sounds/things/singing-bowl.mp3".to_owned());
    v.push("./sounds/things/tuning-radio.mp3".to_owned());
    v.push("./sounds/things/typewriter.mp3".to_owned());
    v.push("./sounds/things/washing-machine.mp3".to_owned());
    v.push("./sounds/things/wind-chimes.mp3".to_owned());
    v.push("./sounds/transport/airplane.mp3".to_owned());
    v.push("./sounds/transport/inside-a-train.mp3".to_owned());
    v.push("./sounds/transport/rowing-boat.mp3".to_owned());
    v.push("./sounds/transport/sailboat.mp3".to_owned());
    v.push("./sounds/transport/submarine.mp3".to_owned());
    v.push("./sounds/transport/train.mp3".to_owned());
    v.push("./sounds/urban/ambulance-siren.mp3".to_owned());
    v.push("./sounds/urban/busy-street.mp3".to_owned());
    v.push("./sounds/urban/crowd.mp3".to_owned());
    v.push("./sounds/urban/fireworks.mp3".to_owned());
    v.push("./sounds/urban/highway.mp3".to_owned());
    v.push("./sounds/urban/road.mp3".to_owned());
    v.push("./sounds/urban/traffic.mp3".to_owned());
    v.push("./sounds/alarm.mp3".to_owned());
    assert(crate::sound_manager::string_views(v@) =~= default_path_list());
    v
}

/// The catalog of the sounds shipped with the mixer.
pub fn default_catalog() -> (r: Vec<Sound>)
    ensures
        crate::sound_manager::views_of(r@) == catalog_of(default_path_list()),
        forall|j: int| 0 <= j < r@.len() ==> (#[trigger] r@[j])@.volume <= crate::volume::FULL_VOLUME,
{
    let paths = default_paths();
    proof {
        assert(paths@.map_values(|p: String| p@) =~= crate::sound_manager::string_views(paths@));
    }
    sounds_from_paths(&paths)
}

} // verus!
