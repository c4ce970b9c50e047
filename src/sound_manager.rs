use vstd::prelude::*;
use vstd::set_lib::{lemma_int_range, lemma_len_subset, set_int_range};
use crate::sink_handle::{SinkHandle, SinkView};
use crate::sound::{Sound, SoundView};
use crate::volume::{clamp_spec, offset_level, FULL_VOLUME, MASTER_FLOOR};

verus! {

/// Number of output channels a manager built by `new` owns.
pub const MAX_SOUNDS: usize = 8;

#[derive(Debug, PartialEq, Eq, Structural)]
pub enum SoundManagerError {
    /// Every channel was busy: the sound on the highest channel was dropped
    /// to make room. The requested sound plays all the same.
    NoAvailableSound,
    AlreadyPlaying,
    AlreadyStopped,
    SoundDoesNotExists,
}

/// One persisted record: a playing sound's path and its level.
pub struct SoundData {
    pub source: String,
    pub volume: u32,
}

/// The records as (path, level) pairs.
pub open spec fn record_views(v: Seq<SoundData>) -> Seq<(Seq<char>, nat)> {
    v.map_values(|d: SoundData| (d.source@, d.volume as nat))
}

/// The (path, channel) pairs of accepted records.
pub open spec fn slots_of(acc: Seq<(Seq<char>, int, nat)>) -> Seq<(Seq<char>, int)> {
    acc.map_values(|t: (Seq<char>, int, nat)| (t.0, t.1))
}

/// The records that restoring keeps, as (path, channel, level): the record
/// at position `k` goes to channel `k` when `k` is below the capacity, its
/// path is in the catalog and no earlier record was kept for that path; its
/// level is bounded to `FULL_VOLUME`.
pub open spec fn accepted(recs: Seq<(Seq<char>, nat)>, sounds: Seq<SoundView>, cap: int) -> Seq<
    (Seq<char>, int, nat),
>
    decreases recs.len(),
{
    if recs.len() == 0 {
        seq![]
    } else {
        let prev = accepted(recs.drop_last(), sounds, cap);
        let k = recs.len() - 1;
        let p = recs.last().0;
        if k < cap && has_path(sounds, p) && !has_key(slots_of(prev), p) {
            let v = if recs.last().1 > FULL_VOLUME { FULL_VOLUME as nat } else { recs.last().1 };
            prev.push((p, k, v))
        } else {
            prev
        }
    }
}

/// The positions, among the first `n` catalog entries, of those of
/// category `cat`, in increasing order.
pub open spec fn category_positions(sounds: Seq<SoundView>, cat: Seq<char>, n: int) -> Seq<int>
    decreases n,
{
    if n <= 0 {
        seq![]
    } else {
        let prev = category_positions(sounds, cat, n - 1);
        if sounds[n - 1].category == cat {
            prev.push(n - 1)
        } else {
            prev
        }
    }
}

/// The positions among the first `n` entries begin the positions among
/// the first `m`.
proof fn lemma_positions_prefix(sounds: Seq<SoundView>, cat: Seq<char>, n: int, m: int)
    requires
        0 <= n <= m,
    ensures
        category_positions(sounds, cat, n).len() <= category_positions(sounds, cat, m).len(),
        forall|x: int|
            0 <= x < category_positions(sounds, cat, n).len() ==> (#[trigger] category_positions(
                sounds,
                cat,
                m,
            )[x]) == category_positions(sounds, cat, n)[x],
    decreases m - n,
{
    if n < m {
        lemma_positions_prefix(sounds, cat, n, m - 1);
    }
}

/// Whether `j` is the first catalog position named `name`.
pub open spec fn is_first_named(sounds: Seq<SoundView>, name: Seq<char>, j: int) -> bool {
    &&& 0 <= j < sounds.len()
    &&& sounds[j].name == name
    &&& forall|g: int| 0 <= g < j ==> (#[trigger] sounds[g]).name != name
}

/// Whether some catalog entry has the display name `name`.
pub open spec fn has_name(sounds: Seq<SoundView>, name: Seq<char>) -> bool {
    exists|j: int| 0 <= j < sounds.len() && (#[trigger] sounds[j]).name == name
}

/// Whether some loaded channel is playing unpaused.
pub open spec fn any_active(chs: Seq<SinkView>) -> bool {
    exists|i: int| 0 <= i < chs.len() && (#[trigger] chs[i]).source.is_some() && !chs[i].paused
}

/// Whether some catalog entry has path `p`.
pub open spec fn has_path(sounds: Seq<SoundView>, p: Seq<char>) -> bool {
    exists|j: int| 0 <= j < sounds.len() && (#[trigger] sounds[j]).path == p
}

/// The position of the catalog entry with path `p`.
pub open spec fn index_of_path(sounds: Seq<SoundView>, p: Seq<char>) -> int {
    choose|j: int| 0 <= j < sounds.len() && (#[trigger] sounds[j]).path == p
}

/// The stored volume level of the catalog entry with path `p`.
pub open spec fn volume_in(sounds: Seq<SoundView>, p: Seq<char>) -> int {
    sounds[index_of_path(sounds, p)].volume as int
}

/// Whether no two catalog entries share a path.
pub open spec fn unique_paths(sounds: Seq<SoundView>) -> bool {
    forall|a: int, b: int|
        0 <= a < sounds.len() && 0 <= b < sounds.len() && a != b ==> (#[trigger] sounds[a]).path
            != (#[trigger] sounds[b]).path
}

/// The input entries with every path kept at its first occurrence only.
pub open spec fn distinct_paths(input: Seq<SoundView>) -> Seq<SoundView>
    decreases input.len(),
{
    if input.len() == 0 {
        seq![]
    } else {
        let prev = distinct_paths(input.drop_last());
        if has_path(prev, input.last().path) {
            prev
        } else {
            prev.push(input.last())
        }
    }
}

/// The distinct categories of the catalog, in the order first seen.
pub open spec fn category_index(sounds: Seq<SoundView>) -> Seq<Seq<char>>
    decreases sounds.len(),
{
    if sounds.len() == 0 {
        seq![]
    } else {
        let prev = category_index(sounds.drop_last());
        if prev.contains(sounds.last().category) {
            prev
        } else {
            prev.push(sounds.last().category)
        }
    }
}

/// Whether the registry has an entry for `p`.
pub open spec fn has_key(reg: Seq<(Seq<char>, int)>, p: Seq<char>) -> bool {
    exists|k: int| 0 <= k < reg.len() && (#[trigger] reg[k]).0 == p
}

/// Whether `i` is the lowest free channel.
pub open spec fn is_lowest_free(chs: Seq<SinkView>, i: int) -> bool {
    &&& 0 <= i < chs.len()
    &&& chs[i].source.is_none()
    &&& forall|j: int| 0 <= j < i ==> (#[trigger] chs[j]).source.is_some()
}

/// Whether some channel is free.
pub open spec fn has_free(chs: Seq<SinkView>) -> bool {
    exists|i: int| 0 <= i < chs.len() && (#[trigger] chs[i]).source.is_none()
}

/// A channel that plays `p` at level `v`.
pub open spec fn playing_view(p: Seq<char>, v: int) -> SinkView {
    SinkView { source: Some(p), paused: false, volume: v as nat }
}

/// The views of a list of sounds.
pub open spec fn views_of(v: Seq<Sound>) -> Seq<SoundView> {
    v.map_values(|s: Sound| s@)
}

/// The position of the entry of `sounds` with path `path`, if any.
fn position_of_path(sounds: &Vec<Sound>, path: &String) -> (r: Option<usize>)
    ensures
        match r {
            Some(j) => j < sounds@.len() && views_of(sounds@)[j as int].path == path@,
            None => !has_path(views_of(sounds@), path@),
        },
{
    let mut j: usize = 0;
    while j < sounds.len()
        invariant
            j <= sounds@.len(),
            forall|x: int| 0 <= x < j ==> (#[trigger] views_of(sounds@)[x]).path != path@,
        decreases sounds@.len() - j,
    {
        if sounds[j].path_string().eq(path) {
            return Some(j);
        }
        j += 1;
    }
    None
}

/// The views of a list of strings.
pub open spec fn string_views(v: Seq<String>) -> Seq<Seq<char>> {
    v.map_values(|c: String| c@)
}

/// Whether `names` holds a string equal to `s`.
fn contains_string(names: &Vec<String>, s: &String) -> (r: bool)
    ensures
        r == string_views(names@).contains(s@),
{
    let mut k: usize = 0;
    while k < names.len()
        invariant
            k <= names@.len(),
            forall|x: int| 0 <= x < k ==> (#[trigger] names@[x])@ != s@,
        decreases names@.len() - k,
    {
        if names[k].eq(s) {
            assert(string_views(names@)[k as int] == s@);
            return true;
        }
        k += 1;
    }
    assert forall|x: int| 0 <= x < names@.len() implies #[trigger] string_views(names@)[x] != s@ by {
        assert(names@[x]@ != s@);
    }
    false
}

/// A registry whose channels are distinct, below `n`, and other than `skip`
/// has at most `n - 1` entries.
proof fn lemma_registry_bound(reg: Seq<(Seq<char>, int)>, n: int, skip: int)
    requires
        0 <= skip < n,
        forall|k: int| 0 <= k < reg.len() ==> 0 <= (#[trigger] reg[k]).1 < n && reg[k].1 != skip,
        forall|a: int, b: int|
            0 <= a < reg.len() && 0 <= b < reg.len() && a != b ==> (#[trigger] reg[a]).1 != (
            #[trigger] reg[b]).1,
    ensures
        reg.len() <= n - 1,
{
    let chans = reg.map_values(|e: (Seq<char>, int)| e.1);
    assert(chans.no_duplicates()) by {
        assert forall|a: int, b: int| 0 <= a < chans.len() && 0 <= b < chans.len() && a != b implies chans[a] != chans[b] by {
            assert(reg[a].1 != reg[b].1);
        }
    }
    chans.unique_seq_to_set();
    let range = set_int_range(0, n).remove(skip);
    lemma_int_range(0, n);
    assert(chans.to_set().subset_of(range)) by {
        assert forall|c: int| chans.to_set().contains(c) implies range.contains(c) by {
            let k = choose|k: int| 0 <= k < chans.len() && chans[k] == c;
            assert(reg[k].1 == c);
        }
    }
    lemma_len_subset(chans.to_set(), range);
}

/// The category list does not depend on levels.
proof fn lemma_category_index_volume(sounds: Seq<SoundView>, j: int, v: nat)
    requires
        0 <= j < sounds.len(),
    ensures
        category_index(sounds.update(j, SoundView { volume: v, ..sounds[j] })) == category_index(sounds),
    decreases sounds.len(),
{
    let upd = sounds.update(j, SoundView { volume: v, ..sounds[j] });
    if j == sounds.len() - 1 {
        assert(upd.drop_last() =~= sounds.drop_last());
    } else {
        assert(upd.drop_last() =~= sounds.drop_last().update(j, SoundView { volume: v, ..sounds[j] }));
        lemma_category_index_volume(sounds.drop_last(), j, v);
    }
}

/// Two catalogs with the same paths, unique, find a path at the same place.
pub proof fn lemma_same_index(s1: Seq<SoundView>, s2: Seq<SoundView>, p: Seq<char>)
    requires
        unique_paths(s1),
        s1.len() == s2.len(),
        forall|j: int| 0 <= j < s1.len() ==> (#[trigger] s1[j]).path == s2[j].path,
        has_path(s1, p),
    ensures
        has_path(s2, p),
        index_of_path(s1, p) == index_of_path(s2, p),
        0 <= index_of_path(s1, p) < s1.len(),
        s1[index_of_path(s1, p)].path == p,
{
    let a = index_of_path(s1, p);
    assert(s1[a].path == p);
    assert(s2[a].path == p);
    let b = index_of_path(s2, p);
    assert(s2[b].path == p);
    assert(s1[b].path == p);
}

/// The catalog, a pool of output channels, and the registry that records
/// which sound plays on which channel.
pub struct SoundManager {
    available_sounds: Vec<Sound>,
    sinks: Vec<SinkHandle>,
    playing_sounds: Vec<(String, usize)>,
    categories: Vec<String>,
}

impl SoundManager {
    /// The catalog entries, in catalog order.
    pub closed spec fn sounds(&self) -> Seq<SoundView> {
        views_of(self.available_sounds@)
    }

    /// The channel pool, by channel index.
    pub closed spec fn channels(&self) -> Seq<SinkView> {
        self.sinks@.map_values(|s: SinkHandle| s@)
    }

    /// The registry: for each playing sound, its path and its channel.
    pub closed spec fn registry(&self) -> Seq<(Seq<char>, int)> {
        self.playing_sounds@.map_values(|e: (String, usize)| (e.0@, e.1 as int))
    }

    pub closed spec fn category_list(&self) -> Seq<Seq<char>> {
        string_views(self.categories@)
    }

    pub open spec fn capacity(&self) -> int {
        self.channels().len() as int
    }

    pub open spec fn catalog_has(&self, p: Seq<char>) -> bool {
        has_path(self.sounds(), p)
    }

    pub open spec fn volume_of(&self, p: Seq<char>) -> int {
        volume_in(self.sounds(), p)
    }

    pub open spec fn is_registered(&self, p: Seq<char>) -> bool {
        has_key(self.registry(), p)
    }

    /// The manager's invariant. Each registry entry names a catalog sound,
    /// whose source is loaded on the entry's channel at the sound's stored
    /// level; no path and no channel occurs in two entries; every loaded
    /// channel has its entry; catalog paths are unique and levels at most
    /// full; the category list is derived from the catalog.
    pub open spec fn wf(&self) -> bool {
        let reg = self.registry();
        let chs = self.channels();
        &&& chs.len() >= 1
        &&& reg.len() <= chs.len()
        &&& forall|k: int|
            0 <= k < reg.len() ==> {
                &&& 0 <= (#[trigger] reg[k]).1 < chs.len()
                &&& chs[reg[k].1].source == Some(reg[k].0)
                &&& chs[reg[k].1].volume == self.volume_of(reg[k].0)
                &&& self.catalog_has(reg[k].0)
            }
        &&& forall|a: int, b: int|
            0 <= a < reg.len() && 0 <= b < reg.len() && a != b ==> (#[trigger] reg[a]).1 != (
            #[trigger] reg[b]).1 && reg[a].0 != reg[b].0
        &&& forall|i: int|
            0 <= i < chs.len() && (#[trigger] chs[i]).source.is_some() ==> exists|k: int|
                0 <= k < reg.len() && (#[trigger] reg[k]).1 == i
        &&& unique_paths(self.sounds())
        &&& forall|j: int| 0 <= j < self.sounds().len() ==> (#[trigger] self.sounds()[j]).volume <= FULL_VOLUME
        &&& self.category_list() == category_index(self.sounds())
    }

    /// A manager over the catalog `sounds` (a path that occurs again is
    /// kept at its first occurrence only) with `capacity` free channels and
    /// nothing playing.
    pub fn with_capacity(sounds: Vec<Sound>, capacity: usize) -> (r: SoundManager)
        requires
            capacity >= 1,
            forall|j: int| 0 <= j < sounds@.len() ==> (#[trigger] sounds@[j])@.volume <= FULL_VOLUME,
        ensures
            r.wf(),
            r.sounds() == distinct_paths(views_of(sounds@)),
            r.capacity() == capacity,
            r.registry().len() == 0,
            forall|i: int| 0 <= i < capacity ==> (#[trigger] r.channels()[i]) == (SinkView {
                source: None,
                paused: false,
                volume: FULL_VOLUME as nat,
            }),
    {
        let ghost input = views_of(sounds@);
        let mut catalog: Vec<Sound> = Vec::new();
        let mut categories: Vec<String> = Vec::new();
        let mut i: usize = 0;
        while i < sounds.len()
            invariant
                i <= sounds@.len(),
                input == views_of(sounds@),
                forall|j: int| 0 <= j < sounds@.len() ==> (#[trigger] sounds@[j])@.volume <= FULL_VOLUME,
                views_of(catalog@) == distinct_paths(input.subrange(0, i as int)),
                unique_paths(views_of(catalog@)),
                forall|j: int| 0 <= j < catalog@.len() ==> (#[trigger] views_of(catalog@)[j]).volume <= FULL_VOLUME,
                string_views(categories@) == category_index(views_of(catalog@)),
            decreases sounds@.len() - i,
        {
            let s = &sounds[i];
            let ghost before = views_of(catalog@);
            let ghost cats_before = string_views(categories@);
            assert(input.subrange(0, i + 1).drop_last() =~= input.subrange(0, i as int));
            assert(input.subrange(0, i + 1).last() == s@);
            match position_of_path(&catalog, s.path_string()) {
                Some(_) => {},
                None => {
                    let copy = Sound::new(s.name(), s.path(), s.category(), s.volume());
                    catalog.push(copy);
                    assert(views_of(catalog@) =~= before.push(s@));
                    assert(views_of(catalog@).drop_last() =~= before);
                    let cat = s.category_string();
                    if !contains_string(&categories, cat) {
                        categories.push(cat.clone());
                        assert(string_views(categories@) =~= cats_before.push(s@.category));
                    }
                    assert(unique_paths(views_of(catalog@))) by {
                        assert forall|a: int, b: int|
                            0 <= a < views_of(catalog@).len() && 0 <= b < views_of(catalog@).len() && a != b
                            implies (#[trigger] views_of(catalog@)[a]).path != (#[trigger] views_of(catalog@)[b]).path by {
                            if a == before.len() {
                                assert(before[b].path != s@.path);
                            } else if b == before.len() {
                                assert(before[a].path != s@.path);
                            }
                        }
                    }
                },
            }
            i += 1;
        }
        assert(input.subrange(0, sounds@.len() as int) =~= input);
        let mut sinks: Vec<SinkHandle> = Vec::new();
        let mut n: usize = 0;
        while n < capacity
            invariant
                n <= capacity,
                sinks@.len() == n,
                forall|x: int| 0 <= x < n ==> (#[trigger] sinks@[x])@ == (SinkView {
                    source: None,
                    paused: false,
                    volume: FULL_VOLUME as nat,
                }),
            decreases capacity - n,
        {
            sinks.push(SinkHandle::new());
            n += 1;
        }
        let r = SoundManager {
            available_sounds: catalog,
            sinks,
            playing_sounds: Vec::new(),
            categories,
        };
        assert(r.registry() =~= seq![]);
        r
    }

    /// A manager over the catalog `sounds` with `MAX_SOUNDS` free channels.
    pub fn new(sounds: Vec<Sound>) -> (r: SoundManager)
        requires
            forall|j: int| 0 <= j < sounds@.len() ==> (#[trigger] sounds@[j])@.volume <= FULL_VOLUME,
        ensures
            r.wf(),
            r.sounds() == distinct_paths(views_of(sounds@)),
            r.capacity() == MAX_SOUNDS,
            r.registry().len() == 0,
            forall|i: int| 0 <= i < MAX_SOUNDS ==> (#[trigger] r.channels()[i]) == (SinkView {
                source: None,
                paused: false,
                volume: FULL_VOLUME as nat,
            }),
    {
        Self::with_capacity(sounds, MAX_SOUNDS)
    }

    /// What `add_sound(p)` does from state `pre`: the result `r` and the
    /// state `post` after it.
    pub open spec fn added(
        pre: SoundManager,
        p: Seq<char>,
        r: Result<(), SoundManagerError>,
        post: SoundManager,
    ) -> bool {
        let reg = pre.registry();
        let chs = pre.channels();
        let last = pre.capacity() - 1;
        &&& !pre.catalog_has(p) ==> r == Err::<(), _>(SoundManagerError::SoundDoesNotExists)
            && post == pre
        &&& pre.catalog_has(p) && pre.is_registered(p) ==> r == Err::<(), _>(
            SoundManagerError::AlreadyPlaying,
        ) && post == pre
        &&& pre.catalog_has(p) && !pre.is_registered(p) && has_free(chs) ==> {
            &&& r == Ok::<(), SoundManagerError>(())
            &&& post.sounds() == pre.sounds()
            &&& exists|i: int|
                #[trigger] is_lowest_free(chs, i) && post.registry() == reg.push((p, i))
                    && post.channels() == chs.update(i, playing_view(p, pre.volume_of(p)))
        }
        &&& pre.catalog_has(p) && !pre.is_registered(p) && !has_free(chs) ==> {
            &&& r == Err::<(), _>(SoundManagerError::NoAvailableSound)
            &&& post.sounds() == pre.sounds()
            &&& exists|k: int|
                0 <= k < reg.len() && (#[trigger] reg[k]).1 == last && post.registry() == reg.remove(
                    k,
                ).push((p, last)) && post.channels() == chs.update(
                    last,
                    playing_view(p, pre.volume_of(p)),
                )
        }
    }

    /// What `remove_sound(p)` does from state `pre`: the result `r` and the
    /// state `post` after it.
    pub open spec fn removed(
        pre: SoundManager,
        p: Seq<char>,
        r: Result<(), SoundManagerError>,
        post: SoundManager,
    ) -> bool {
        let reg = pre.registry();
        let chs = pre.channels();
        &&& !pre.catalog_has(p) ==> r == Err::<(), _>(SoundManagerError::SoundDoesNotExists)
            && post == pre
        &&& pre.catalog_has(p) && !pre.is_registered(p) ==> r == Err::<(), _>(
            SoundManagerError::AlreadyStopped,
        ) && post == pre
        &&& pre.catalog_has(p) && pre.is_registered(p) ==> {
            &&& r == Ok::<(), SoundManagerError>(())
            &&& post.sounds() == pre.sounds()
            &&& exists|k: int|
                0 <= k < reg.len() && (#[trigger] reg[k]).0 == p && post.registry() == reg.remove(k)
                    && post.channels() == chs.update(
                    reg[k].1,
                    SinkView { source: None, paused: false, ..chs[reg[k].1] },
                )
        }
    }

    /// `post` is `pre` with the level of the catalog entry `p` set to `v`,
    /// on the entry and on the channel that plays it.
    pub open spec fn level_moved(pre: SoundManager, p: Seq<char>, v: int, post: SoundManager) -> bool {
        let j = index_of_path(pre.sounds(), p);
        &&& post.sounds() == pre.sounds().update(j, SoundView { volume: v as nat, ..pre.sounds()[j] })
        &&& post.channels().len() == pre.channels().len()
        &&& forall|i: int|
            0 <= i < pre.channels().len() ==> (#[trigger] post.channels()[i]) == if pre.channels()[i].source
                == Some(p) {
                SinkView { volume: v as nat, ..pre.channels()[i] }
            } else {
                pre.channels()[i]
            }
    }

    /// What saving yields: for each registry entry, in order, its path and
    /// the stored level of its sound.
    pub open spec fn saved(&self) -> Seq<(Seq<char>, nat)> {
        Seq::new(
            self.registry().len(),
            |k: int| (self.registry()[k].0, self.volume_of(self.registry()[k].0) as nat),
        )
    }

    /// What `load_records(recs)` leaves from state `pre`: the accepted
    /// records play on their channels, each sound of an accepted record has
    /// the record's level, every other sound keeps its level, and nothing
    /// is paused.
    pub open spec fn restored(pre: SoundManager, recs: Seq<(Seq<char>, nat)>, post: SoundManager) -> bool {
        let acc = accepted(recs, pre.sounds(), pre.capacity());
        &&& post.registry() == slots_of(acc)
        &&& post.sounds().len() == pre.sounds().len()
        &&& forall|j: int|
            0 <= j < pre.sounds().len() ==> (#[trigger] post.sounds()[j]) == (SoundView {
                volume: post.sounds()[j].volume,
                ..pre.sounds()[j]
            })
        &&& forall|x: int| 0 <= x < acc.len() ==> post.volume_of((#[trigger] acc[x]).0) == acc[x].2
        &&& forall|j: int|
            0 <= j < pre.sounds().len() && !has_key(slots_of(acc), pre.sounds()[j].path) ==> (
            #[trigger] post.sounds()[j]) == pre.sounds()[j]
        &&& post.channels().len() == pre.channels().len()
        &&& forall|i: int| 0 <= i < post.channels().len() ==> !(#[trigger] post.channels()[i]).paused
        &&& forall|i: int|
            0 <= i < post.channels().len() && (#[trigger] post.channels()[i]).source.is_none()
                ==> post.channels()[i].volume == pre.channels()[i].volume
    }

    /// `mid` and `r` are what toggling `p` gives from `pre`, and `post` is
    /// `mid` with the level of `p` moved by `offset` within
    /// `[0, FULL_VOLUME]`.
    pub open spec fn preset_applied(
        pre: SoundManager,
        p: Seq<char>,
        offset: int,
        mid: SoundManager,
        r: Result<(), SoundManagerError>,
        post: SoundManager,
    ) -> bool {
        &&& mid.wf()
        &&& pre.is_registered(p) ==> Self::removed(pre, p, r, mid)
        &&& !pre.is_registered(p) ==> Self::added(pre, p, r, mid)
        &&& mid.catalog_has(p)
        &&& Self::level_moved(mid, p, clamp_spec(mid.volume_of(p) + offset, 0, FULL_VOLUME as int), post)
    }

    /// What `play_preset(name, offset)` does from `pre`: an unknown name
    /// changes nothing; otherwise the first sound of that name is toggled
    /// (giving `mid`), then its level moved by `offset` within
    /// `[0, FULL_VOLUME]`.
    pub open spec fn preset_step(pre: SoundManager, name: Seq<char>, offset: int, post: SoundManager) -> bool {
        &&& post.wf()
        &&& post.capacity() == pre.capacity()
        &&& !has_name(pre.sounds(), name) ==> post == pre
        &&& has_name(pre.sounds(), name) ==> exists|j: int, mid: SoundManager, r: Result<(), SoundManagerError>|
            is_first_named(pre.sounds(), name, j) && #[trigger] Self::preset_applied(
                pre,
                pre.sounds()[j].path,
                offset,
                mid,
                r,
                post,
            )
    }

    /// The catalog position of `path`, if the catalog has it.
    fn find_sound(&self, path: &String) -> (r: Option<usize>)
        ensures
            match r {
                Some(j) => j < self.sounds().len() && self.sounds()[j as int].path == path@,
                None => !self.catalog_has(path@),
            },
    {
        position_of_path(&self.available_sounds, path)
    }

    /// The registry position of `path`, if it is registered.
    fn find_entry(&self, path: &String) -> (r: Option<usize>)
        ensures
            match r {
                Some(k) => k < self.registry().len() && self.registry()[k as int].0 == path@,
                None => !self.is_registered(path@),
            },
    {
        let mut k: usize = 0;
        while k < self.playing_sounds.len()
            invariant
                k <= self.playing_sounds@.len(),
                forall|x: int| 0 <= x < k ==> (#[trigger] self.registry()[x]).0 != path@,
            decreases self.playing_sounds@.len() - k,
        {
            if self.playing_sounds[k].0.eq(path) {
                return Some(k);
            }
            k += 1;
        }
        None
    }

    /// The level stored for the catalog entry at `j` is the level of its path.
    proof fn lemma_volume_at(&self, j: int)
        requires
            self.wf(),
            0 <= j < self.sounds().len(),
        ensures
            index_of_path(self.sounds(), self.sounds()[j].path) == j,
            self.volume_of(self.sounds()[j].path) == self.sounds()[j].volume,
            self.catalog_has(self.sounds()[j].path),
    {
        let p = self.sounds()[j].path;
        assert(has_path(self.sounds(), p));
        let c = index_of_path(self.sounds(), p);
        assert(self.sounds()[c].path == p);
        assert(c == j);
    }

    /// Loading a sound that is not registered on a free channel, at its
    /// stored level, and registering it there keeps the invariant.
    proof fn lemma_wf_after_play(pre: SoundManager, post: SoundManager, p: Seq<char>, i: int)
        requires
            pre.wf(),
            0 <= i < pre.capacity(),
            pre.channels()[i].source.is_none(),
            !pre.is_registered(p),
            pre.catalog_has(p),
            post.channels() == pre.channels().update(i, playing_view(p, pre.volume_of(p))),
            post.registry() == pre.registry().push((p, i)),
            post.sounds() == pre.sounds(),
            post.category_list() == pre.category_list(),
        ensures
            post.wf(),
    {
        let reg = pre.registry();
        let chs = pre.channels();
        let reg2 = post.registry();
        let chs2 = post.channels();
        assert forall|k: int| 0 <= k < reg.len() implies (#[trigger] reg[k]).1 != i && reg[k].0 != p by {}
        lemma_registry_bound(reg, chs.len() as int, i);
        assert forall|x: int| 0 <= x < chs2.len() && (#[trigger] chs2[x]).source.is_some()
            implies exists|k: int| 0 <= k < reg2.len() && (#[trigger] reg2[k]).1 == x by {
            if x == i {
                assert(reg2[reg.len() as int].1 == x);
            } else {
                assert(chs[x].source.is_some());
                let k = choose|k: int| 0 <= k < reg.len() && (#[trigger] reg[k]).1 == x;
                assert(reg2[k].1 == x);
            }
        }
    }

    /// Loads `path` on channel `i` at level `volume`, playing, and records
    /// it in the registry.
    fn play_on(&mut self, i: usize, path: String, volume: u32)
        requires
            i < old(self).channels().len(),
        ensures
            final(self).channels() == old(self).channels().update(i as int, playing_view(path@, volume as int)),
            final(self).registry() == old(self).registry().push((path@, i as int)),
            final(self).sounds() == old(self).sounds(),
            final(self).category_list() == old(self).category_list(),
    {
        self.sinks[i].set_volume(volume);
        self.sinks[i].set_source(&path);
        self.sinks[i].play();
        self.playing_sounds.push((path, i));
        assert(self.channels() =~= old(self).channels().update(i as int, playing_view(path@, volume as int)));
        assert(self.registry() =~= old(self).registry().push((path@, i as int)));
    }

    /// The registry position of the entry on channel `i`, if any.
    fn entry_on_channel(&self, i: usize) -> (r: Option<usize>)
        ensures
            match r {
                Some(k) => k < self.registry().len() && self.registry()[k as int].1 == i,
                None => forall|k: int| 0 <= k < self.registry().len() ==> (#[trigger] self.registry()[k]).1 != i,
            },
    {
        let mut k: usize = 0;
        while k < self.playing_sounds.len()
            invariant
                k <= self.playing_sounds@.len(),
                forall|x: int| 0 <= x < k ==> (#[trigger] self.registry()[x]).1 != i,
            decreases self.playing_sounds@.len() - k,
        {
            if self.playing_sounds[k].1 == i {
                return Some(k);
            }
            k += 1;
        }
        None
    }

    /// The channel given up when a sound must play and none is free: always
    /// the highest channel of the pool.
    fn choose_victim(&self) -> (r: usize)
        requires
            self.wf(),
        ensures
            r == self.capacity() - 1,
    {
        self.sinks.len() - 1
    }

    /// Starts `path` on the lowest free channel at its stored level. Where
    /// every channel is busy, the sound on the highest channel is stopped
    /// and dropped from the registry, `path` takes its channel, and the
    /// result is `Err(NoAvailableSound)`.
    pub fn add_sound(&mut self, path: &str) -> (r: Result<(), SoundManagerError>)
        requires
            old(self).wf(),
        ensures
            final(self).wf(),
            Self::added(*old(self), path@, r, *final(self)),
            final(self).capacity() == old(self).capacity(),
    {
        let p = path.to_owned();
        let j = match self.find_sound(&p) {
            Some(j) => j,
            None => return Err(SoundManagerError::SoundDoesNotExists),
        };
        if self.find_entry(&p).is_some() {
            return Err(SoundManagerError::AlreadyPlaying);
        }
        let volume = self.available_sounds[j].volume();
        proof {
            self.lemma_volume_at(j as int);
        }
        let ghost pre = *self;
        let ghost reg = self.registry();
        let ghost chs = self.channels();
        match self.find_available() {
            Some(i) => {
                let ghost pv = p@;
                self.play_on(i, p, volume);
                proof {
                    Self::lemma_wf_after_play(pre, *self, pv, i as int);
                    assert(is_lowest_free(chs, i as int));
                }
                Ok(())
            },
            None => {
                let last = self.choose_victim();
                proof {
                    assert(chs[last as int].source.is_some());
                }
                let victim = self.entry_on_channel(last);
                let k = match victim {
                    Some(k) => k,
                    None => {
                        proof {
                            assert(false);
                        }
                        0
                    },
                };
                let _ = self.playing_sounds.remove(k);
                let ghost reg1 = reg.remove(k as int);
                proof {
                    assert(self.registry() =~= reg1);
                }
                self.play_on(last, p, volume);
                proof {
                    let post = *self;
                    let reg2 = post.registry();
                    let chs2 = post.channels();
                    assert forall|x: int| 0 <= x < reg1.len() implies (#[trigger] reg1[x]).1 != last by {
                        if x < k {
                            assert(reg1[x] == reg[x]);
                        } else {
                            assert(reg1[x] == reg[x + 1]);
                        }
                    }
                    assert forall|x: int| 0 <= x < chs2.len() && (#[trigger] chs2[x]).source.is_some()
                        implies exists|k2: int| 0 <= k2 < reg2.len() && (#[trigger] reg2[k2]).1 == x by {
                        if x == last {
                            assert(reg2[reg1.len() as int].1 == x);
                        } else {
                            assert(chs[x].source.is_some());
                            let k1 = choose|k1: int| 0 <= k1 < reg.len() && (#[trigger] reg[k1]).1 == x;
                            if k1 < k {
                                assert(reg2[k1].1 == x);
                            } else {
                                assert(reg2[k1 - 1].1 == x);
                            }
                        }
                    }
                    assert forall|x: int| 0 <= x < reg1.len() implies (#[trigger] reg1[x]).0 != p@ by {
                        if x < k {
                            assert(reg1[x] == reg[x]);
                        } else {
                            assert(reg1[x] == reg[x + 1]);
                        }
                    }
                }
                Err(SoundManagerError::NoAvailableSound)
            },
        }
    }

    /// Stops `path` and frees its channel.
    pub fn remove_sound(&mut self, path: &str) -> (r: Result<(), SoundManagerError>)
        requires
            old(self).wf(),
        ensures
            final(self).wf(),
            Self::removed(*old(self), path@, r, *final(self)),
            final(self).capacity() == old(self).capacity(),
    {
        let p = path.to_owned();
        if self.find_sound(&p).is_none() {
            return Err(SoundManagerError::SoundDoesNotExists);
        }
        let k = match self.find_entry(&p) {
            Some(k) => k,
            None => return Err(SoundManagerError::AlreadyStopped),
        };
        let ghost reg = self.registry();
        let ghost chs = self.channels();
        let i = self.playing_sounds[k].1;
        self.sinks[i].stop();
        let _ = self.playing_sounds.remove(k);
        proof {
            let reg2 = self.registry();
            let chs2 = self.channels();
            assert(reg2 =~= reg.remove(k as int));
            assert(chs2 =~= chs.update(i as int, SinkView { source: None, paused: false, ..chs[i as int] }));
            assert forall|x: int| 0 <= x < reg2.len() implies (#[trigger] reg2[x]).1 != i by {
                if x < k {
                    assert(reg2[x] == reg[x]);
                } else {
                    assert(reg2[x] == reg[x + 1]);
                }
            }
            assert forall|x: int| 0 <= x < chs2.len() && (#[trigger] chs2[x]).source.is_some()
                implies exists|k2: int| 0 <= k2 < reg2.len() && (#[trigger] reg2[k2]).1 == x by {
                assert(chs[x].source.is_some());
                let k1 = choose|k1: int| 0 <= k1 < reg.len() && (#[trigger] reg[k1]).1 == x;
                if k1 < k {
                    assert(reg2[k1].1 == x);
                } else {
                    assert(reg2[k1 - 1].1 == x);
                }
            }
        }
        Ok(())
    }

    /// Stops `path` if it is playing, starts it otherwise.
    pub fn toggle_sound(&mut self, path: &str) -> (r: Result<(), SoundManagerError>)
        requires
            old(self).wf(),
        ensures
            final(self).wf(),
            final(self).capacity() == old(self).capacity(),
            old(self).is_registered(path@) ==> Self::removed(*old(self), path@, r, *final(self)),
            !old(self).is_registered(path@) ==> Self::added(*old(self), path@, r, *final(self)),
    {
        if self.is_sound_playing(path) {
            self.remove_sound(path)
        } else {
            self.add_sound(path)
        }
    }

    /// Whether `path` is playing: it has a registry entry (paused or not).
    pub fn is_sound_playing(&self, path: &str) -> (r: bool)
        requires
            self.wf(),
        ensures
            r == self.is_registered(path@),
    {
        let p = path.to_owned();
        match self.find_entry(&p) {
            Some(k) => self.sinks[self.playing_sounds[k].1].is_playing(),
            None => false,
        }
    }

    /// Whether `path` is playing on a paused channel.
    pub fn is_sound_paused(&self, path: &str) -> (r: bool)
        requires
            self.wf(),
        ensures
            r == exists|k: int|
                0 <= k < self.registry().len() && (#[trigger] self.registry()[k]).0 == path@
                    && self.channels()[self.registry()[k].1].paused,
    {
        let p = path.to_owned();
        match self.find_entry(&p) {
            Some(k) => {
                let r = self.sinks[self.playing_sounds[k].1].is_paused();
                proof {
                    if !r {
                        assert forall|k2: int|
                            0 <= k2 < self.registry().len() && (#[trigger] self.registry()[k2]).0 == path@
                            implies !self.channels()[self.registry()[k2].1].paused by {
                            if k2 != k {
                                assert(self.registry()[k2].0 != self.registry()[k as int].0);
                            }
                        }
                    }
                }
                r
            },
            None => false,
        }
    }

    /// Sets the level of the catalog entry at `j` to `volume`, and the live
    /// level of the channel that plays it, if any.
    fn set_level(&mut self, j: usize, volume: u32)
        requires
            old(self).wf(),
            j < old(self).sounds().len(),
            volume <= FULL_VOLUME,
        ensures
            final(self).wf(),
            final(self).registry() == old(self).registry(),
            final(self).sounds() == old(self).sounds().update(
                j as int,
                SoundView { volume: volume as nat, ..old(self).sounds()[j as int] },
            ),
            final(self).channels().len() == old(self).channels().len(),
            forall|i: int|
                0 <= i < old(self).channels().len() ==> (#[trigger] final(self).channels()[i]) == if old(
                    self,
                ).channels()[i].source == Some(old(self).sounds()[j as int].path) {
                    SinkView { volume: volume as nat, ..old(self).channels()[i] }
                } else {
                    old(self).channels()[i]
                },
            forall|q: Seq<char>|
                #[trigger] has_path(old(self).sounds(), q) ==> final(self).volume_of(q) == if q
                    == old(self).sounds()[j as int].path {
                    volume as int
                } else {
                    old(self).volume_of(q)
                },
    {
        let ghost pre = *self;
        let ghost p = self.sounds()[j as int].path;
        proof {
            self.lemma_volume_at(j as int);
        }
        self.available_sounds[j].set_volume(volume);
        assert(self.sounds() =~= pre.sounds().update(
            j as int,
            SoundView { volume: volume as nat, ..pre.sounds()[j as int] },
        ));
        let path = self.available_sounds[j].path_string();
        let found = self.find_entry(path);
        match found {
            Some(k) => {
                let i = self.playing_sounds[k].1;
                self.sinks[i].set_volume(volume);
            },
            None => {},
        }
        proof {
            let post = *self;
            assert(post.registry() == pre.registry());
            assert forall|q: Seq<char>| #[trigger] has_path(pre.sounds(), q) implies post.volume_of(q)
                == if q == p { volume as int } else { pre.volume_of(q) } by {
                let c = index_of_path(pre.sounds(), q);
                assert(pre.sounds()[c].path == q);
                pre.lemma_volume_at(c);
                assert(post.sounds()[c].path == q);
                assert(has_path(post.sounds(), q));
                let c2 = index_of_path(post.sounds(), q);
                assert(post.sounds()[c2].path == q);
                assert(pre.sounds()[c2].path == q);
            }
            assert forall|i: int| 0 <= i < pre.channels().len() implies (#[trigger] post.channels()[i])
                == if pre.channels()[i].source == Some(p) {
                    SinkView { volume: volume as nat, ..pre.channels()[i] }
                } else {
                    pre.channels()[i]
                } by {
                if pre.channels()[i].source.is_some() {
                    let k2 = choose|k2: int| 0 <= k2 < pre.registry().len() && (#[trigger] pre.registry()[k2]).1 == i;
                    match found {
                        Some(k) => {
                            if k2 != k {
                                assert(pre.registry()[k2].0 != pre.registry()[k as int].0);
                            }
                        },
                        None => {},
                    }
                }
            }
            assert(unique_paths(post.sounds())) by {
                assert forall|a: int, b: int|
                    0 <= a < post.sounds().len() && 0 <= b < post.sounds().len() && a != b
                    implies (#[trigger] post.sounds()[a]).path != (#[trigger] post.sounds()[b]).path by {
                    assert(pre.sounds()[a].path != pre.sounds()[b].path);
                }
            }
            assert forall|k: int| 0 <= k < post.registry().len() implies {
                &&& 0 <= (#[trigger] post.registry()[k]).1 < post.channels().len()
                &&& post.channels()[post.registry()[k].1].source == Some(post.registry()[k].0)
                &&& post.channels()[post.registry()[k].1].volume == post.volume_of(post.registry()[k].0)
                &&& post.catalog_has(post.registry()[k].0)
            } by {
                let q = pre.registry()[k].0;
                let c = index_of_path(pre.sounds(), q);
                assert(pre.sounds()[c].path == q);
                assert(post.sounds()[c].path == q);
            }
            assert(category_index(post.sounds()) == category_index(pre.sounds())) by {
                lemma_category_index_volume(pre.sounds(), j as int, volume as nat);
            }
        }
    }

    /// Adds `offset` to the level of the catalog entry `path`, bounded to
    /// `[floor, FULL_VOLUME]`; the channel that plays it follows.
    fn adjust_volume(&mut self, path: &String, offset: i32, floor: u32)
        requires
            old(self).wf(),
            floor <= FULL_VOLUME,
        ensures
            final(self).wf(),
            final(self).registry() == old(self).registry(),
            !old(self).catalog_has(path@) ==> *final(self) == *old(self),
            old(self).catalog_has(path@) ==> Self::level_moved(
                *old(self),
                path@,
                clamp_spec(old(self).volume_of(path@) + offset, floor as int, FULL_VOLUME as int),
                *final(self),
            ),
    {
        match self.find_sound(path) {
            Some(j) => {
                proof {
                    self.lemma_volume_at(j as int);
                }
                let v = offset_level(self.available_sounds[j].volume(), offset, floor);
                self.set_level(j, v);
            },
            None => {},
        }
    }

    /// Adds `offset` to the level of `path`, bounded to `[0, FULL_VOLUME]`;
    /// the channel that plays it, if any, follows. An unknown path changes
    /// nothing.
    pub fn adjust_sound_volume(&mut self, path: &str, volume_offset: i32)
        requires
            old(self).wf(),
        ensures
            final(self).wf(),
            final(self).registry() == old(self).registry(),
            !old(self).catalog_has(path@) ==> *final(self) == *old(self),
            old(self).catalog_has(path@) ==> Self::level_moved(
                *old(self),
                path@,
                clamp_spec(old(self).volume_of(path@) + volume_offset, 0, FULL_VOLUME as int),
                *final(self),
            ),
    {
        let p = path.to_owned();
        self.adjust_volume(&p, volume_offset, 0);
    }

    /// Adds `offset` to the level of every playing sound, bounded to
    /// `[MASTER_FLOOR, FULL_VOLUME]`: turning the master down never silences
    /// a sound. Sounds that are not playing keep their level.
    pub fn adjust_master_volume(&mut self, volume_offset: i32)
        requires
            old(self).wf(),
        ensures
            final(self).wf(),
            final(self).registry() == old(self).registry(),
            final(self).sounds().len() == old(self).sounds().len(),
            forall|j: int|
                0 <= j < old(self).sounds().len() ==> (#[trigger] final(self).sounds()[j]) == if old(
                    self,
                ).is_registered(old(self).sounds()[j].path) {
                    SoundView {
                        volume: clamp_spec(
                            old(self).sounds()[j].volume + volume_offset,
                            MASTER_FLOOR as int,
                            FULL_VOLUME as int,
                        ) as nat,
                        ..old(self).sounds()[j]
                    }
                } else {
                    old(self).sounds()[j]
                },
            final(self).channels().len() == old(self).channels().len(),
            forall|i: int|
                0 <= i < old(self).channels().len() ==> (#[trigger] final(self).channels()[i]) == if old(
                    self,
                ).channels()[i].source.is_some() {
                    SinkView {
                        volume: clamp_spec(
                            old(self).channels()[i].volume + volume_offset,
                            MASTER_FLOOR as int,
                            FULL_VOLUME as int,
                        ) as nat,
                        ..old(self).channels()[i]
                    }
                } else {
                    old(self).channels()[i]
                },
    {
        let ghost pre = *self;
        let ghost reg0 = self.registry();
        let ghost s0 = self.sounds();
        let ghost c0 = self.channels();
        let n = self.playing_sounds.len();
        let mut k: usize = 0;
        while k < n
            invariant
                0 <= k <= n,
                n == reg0.len(),
                pre.wf(),
                pre.registry() == reg0,
                pre.sounds() == s0,
                pre.channels() == c0,
                self.wf(),
                self.registry() == reg0,
                self.sounds().len() == s0.len(),
                self.channels().len() == c0.len(),
                forall|i: int|
                    0 <= i < c0.len() ==> (#[trigger] self.channels()[i]).source == c0[i].source
                        && self.channels()[i].paused == c0[i].paused && (c0[i].source.is_none()
                        ==> self.channels()[i] == c0[i]),
                forall|j: int|
                    0 <= j < s0.len() ==> (#[trigger] self.sounds()[j]) == if has_key(
                        reg0.subrange(0, k as int),
                        s0[j].path,
                    ) {
                        SoundView {
                            volume: clamp_spec(
                                s0[j].volume + volume_offset,
                                MASTER_FLOOR as int,
                                FULL_VOLUME as int,
                            ) as nat,
                            ..s0[j]
                        }
                    } else {
                        s0[j]
                    },
            decreases n - k,
        {
            let path = self.playing_sounds[k].0.clone();
            let ghost cur = *self;
            let ghost p = path@;
            proof {
                assert(reg0[k as int].0 == p);
                assert(pre.catalog_has(p));
                lemma_same_index(s0, cur.sounds(), p);
                let j0 = index_of_path(s0, p);
                assert(!has_key(reg0.subrange(0, k as int), p)) by {
                    if has_key(reg0.subrange(0, k as int), p) {
                        let x = choose|x: int| 0 <= x < k && (#[trigger] reg0.subrange(0, k as int)[x]).0 == p;
                        assert(reg0[x].0 == reg0[k as int].0);
                    }
                }
                assert(cur.sounds()[j0] == s0[j0]);
            }
            self.adjust_volume(&path, volume_offset, MASTER_FLOOR);
            proof {
                let j0 = index_of_path(s0, p);
                let sub0 = reg0.subrange(0, k as int);
                let sub1 = reg0.subrange(0, k + 1);
                assert forall|q: Seq<char>| has_key(sub1, q) <==> (has_key(sub0, q) || q == p) by {
                    if has_key(sub1, q) {
                        let x = choose|x: int| 0 <= x < sub1.len() && (#[trigger] sub1[x]).0 == q;
                        if x < k {
                            assert(sub0[x].0 == q);
                        }
                    }
                    if has_key(sub0, q) {
                        let x = choose|x: int| 0 <= x < sub0.len() && (#[trigger] sub0[x]).0 == q;
                        assert(sub1[x].0 == q);
                    }
                    if q == p {
                        assert(sub1[k as int].0 == q);
                    }
                }
                assert forall|j: int| 0 <= j < s0.len() && j != j0 implies (#[trigger] s0[j]).path != p by {
                    assert(s0[j0].path == p);
                }
            }
            k += 1;
        }
        proof {
            assert(reg0.subrange(0, n as int) =~= reg0);
            let post = *self;
            assert forall|i: int| 0 <= i < c0.len() implies (#[trigger] post.channels()[i]) == if c0[i].source.is_some() {
                SinkView {
                    volume: clamp_spec(c0[i].volume + volume_offset, MASTER_FLOOR as int, FULL_VOLUME as int) as nat,
                    ..c0[i]
                }
            } else {
                c0[i]
            } by {
                if c0[i].source.is_some() {
                    let k2 = choose|k2: int| 0 <= k2 < reg0.len() && (#[trigger] reg0[k2]).1 == i;
                    let q = reg0[k2].0;
                    assert(has_key(reg0, q));
                    lemma_same_index(s0, post.sounds(), q);
                    let jq = index_of_path(s0, q);
                    assert(post.sounds()[jq] == SoundView {
                        volume: clamp_spec(s0[jq].volume + volume_offset, MASTER_FLOOR as int, FULL_VOLUME as int) as nat,
                        ..s0[jq]
                    });
                }
            }
        }
    }

    /// Pauses every loaded channel if one of them plays unpaused; resumes
    /// every loaded channel otherwise.
    pub fn toggle_pause_play(&mut self)
        requires
            old(self).wf(),
        ensures
            final(self).wf(),
            final(self).registry() == old(self).registry(),
            final(self).sounds() == old(self).sounds(),
            final(self).channels().len() == old(self).channels().len(),
            forall|i: int|
                0 <= i < old(self).channels().len() ==> (#[trigger] final(self).channels()[i]) == if old(
                    self,
                ).channels()[i].source.is_some() {
                    SinkView { paused: any_active(old(self).channels()), ..old(self).channels()[i] }
                } else {
                    old(self).channels()[i]
                },
    {
        let ghost c0 = self.channels();
        let pause = !self.is_paused_inner();
        let mut i: usize = 0;
        while i < self.sinks.len()
            invariant
                i <= self.sinks@.len(),
                self.channels().len() == c0.len(),
                pause == any_active(c0),
                self.registry() == old(self).registry(),
                self.sounds() == old(self).sounds(),
                self.category_list() == old(self).category_list(),
                forall|x: int|
                    0 <= x < c0.len() ==> (#[trigger] self.channels()[x]) == if x < i && c0[x].source.is_some() {
                        SinkView { paused: pause, ..c0[x] }
                    } else {
                        c0[x]
                    },
            decreases self.sinks@.len() - i,
        {
            let ghost prev = self.channels();
            assert(prev[i as int] == c0[i as int]);
            if self.sinks[i].is_playing() {
                if pause {
                    self.sinks[i].pause();
                } else {
                    self.sinks[i].play();
                }
                assert(self.channels() =~= prev.update(i as int, SinkView { paused: pause, ..c0[i as int] }));
            }
            i += 1;
        }
        proof {
            let chs = self.channels();
            let reg = self.registry();
            assert forall|x: int| 0 <= x < chs.len() && (#[trigger] chs[x]).source.is_some()
                implies exists|k: int| 0 <= k < reg.len() && (#[trigger] reg[k]).1 == x by {
                assert(c0[x].source.is_some());
            }
        }
    }

    fn is_paused_inner(&self) -> (r: bool)
        ensures
            r == !any_active(self.channels()),
    {
        let mut i: usize = 0;
        while i < self.sinks.len()
            invariant
                i <= self.sinks@.len(),
                forall|x: int| 0 <= x < i ==> !((#[trigger] self.channels()[x]).source.is_some() && !self.channels()[x].paused),
            decreases self.sinks@.len() - i,
        {
            if self.sinks[i].is_playing() && !self.sinks[i].is_paused() {
                assert(self.channels()[i as int].source.is_some() && !self.channels()[i as int].paused);
                return false;
            }
            i += 1;
        }
        true
    }

    /// Whether playback is paused: some channel is loaded and every loaded
    /// channel is paused.
    pub fn is_paused(&self) -> (r: bool)
        requires
            self.wf(),
        ensures
            r == (self.registry().len() > 0 && !any_active(self.channels())),
    {
        self.playing_sounds.len() > 0 && self.is_paused_inner()
    }

    /// One record per registry entry, in registry order: the path and the
    /// stored level of the sound.
    pub fn save_records(&self) -> (r: Vec<SoundData>)
        requires
            self.wf(),
        ensures
            record_views(r@) == self.saved(),
    {
        let mut out: Vec<SoundData> = Vec::new();
        let mut k: usize = 0;
        while k < self.playing_sounds.len()
            invariant
                self.wf(),
                k <= self.playing_sounds@.len(),
                record_views(out@) == self.saved().subrange(0, k as int),
            decreases self.playing_sounds@.len() - k,
        {
            let path = &self.playing_sounds[k].0;
            let ghost e = self.registry()[k as int];
            match self.find_sound(path) {
                Some(j) => {
                    proof {
                        self.lemma_volume_at(j as int);
                    }
                    let ghost before = record_views(out@);
                    let d = SoundData { source: path.clone(), volume: self.available_sounds[j].volume() };
                    assert((d.source@, d.volume as nat) == self.saved()[k as int]);
                    out.push(d);
                    assert(record_views(out@) =~= before.push(self.saved()[k as int]));
                },
                None => {
                    proof {
                        assert(self.catalog_has(e.0));
                    }
                },
            }
            assert(record_views(out@) =~= self.saved().subrange(0, k + 1));
            k += 1;
        }
        assert(self.saved().subrange(0, k as int) =~= self.saved());
        out
    }

    /// Replaces what plays by the records: every channel is released, then
    /// the record at position `k` plays on channel `k` at its level (bounded
    /// to `FULL_VOLUME`), which becomes the sound's stored level. A record
    /// past the last channel, of a path not in the catalog, or of a path an
    /// earlier record already placed, is dropped.
    pub fn load_records(&mut self, records: &Vec<SoundData>)
        requires
            old(self).wf(),
        ensures
            final(self).wf(),
            Self::restored(*old(self), record_views(records@), *final(self)),
    {
        let ghost pre = *self;
        let ghost s0 = self.sounds();
        let ghost c0 = self.channels();
        let ghost rv = record_views(records@);
        let mut i: usize = 0;
        while i < self.sinks.len()
            invariant
                i <= self.sinks@.len(),
                self.channels().len() == c0.len(),
                self.sounds() == s0,
                self.category_list() == pre.category_list(),
                forall|x: int|
                    0 <= x < c0.len() ==> (#[trigger] self.channels()[x]) == if x < i {
                        SinkView { source: None, paused: false, ..c0[x] }
                    } else {
                        c0[x]
                    },
            decreases self.sinks@.len() - i,
        {
            let ghost prev = self.channels();
            assert(prev[i as int] == c0[i as int]);
            self.sinks[i].stop();
            assert(self.channels() =~= prev.update(i as int, SinkView { source: None, paused: false, ..c0[i as int] }));
            i += 1;
        }
        self.playing_sounds.clear();
        assert(self.registry() =~= seq![]);
        assert(slots_of(accepted(rv.subrange(0, 0), s0, c0.len() as int)) =~= seq![]);
        let cap = self.sinks.len();
        let mut k: usize = 0;
        while k < records.len()
            invariant
                k <= records@.len(),
                rv == record_views(records@),
                cap == c0.len(),
                pre.wf(),
                s0 == pre.sounds(),
                c0 == pre.channels(),
                self.wf(),
                self.sounds().len() == s0.len(),
                forall|j: int|
                    0 <= j < s0.len() ==> (#[trigger] self.sounds()[j]) == (SoundView {
                        volume: self.sounds()[j].volume,
                        ..s0[j]
                    }),
                self.channels().len() == cap,
                self.registry() == slots_of(accepted(rv.subrange(0, k as int), s0, cap as int)),
                forall|x: int|
                    0 <= x < accepted(rv.subrange(0, k as int), s0, cap as int).len() ==> (#[trigger] accepted(
                        rv.subrange(0, k as int),
                        s0,
                        cap as int,
                    )[x]).1 < k,
                forall|x: int|
                    0 <= x < accepted(rv.subrange(0, k as int), s0, cap as int).len() ==> self.volume_of(
                        (#[trigger] accepted(rv.subrange(0, k as int), s0, cap as int)[x]).0,
                    ) == accepted(rv.subrange(0, k as int), s0, cap as int)[x].2,
                forall|j: int|
                    0 <= j < s0.len() && !has_key(
                        slots_of(accepted(rv.subrange(0, k as int), s0, cap as int)),
                        s0[j].path,
                    ) ==> (#[trigger] self.sounds()[j]) == s0[j],
                forall|x: int| 0 <= x < cap ==> !(#[trigger] self.channels()[x]).paused,
                forall|x: int|
                    0 <= x < cap && (#[trigger] self.channels()[x]).source.is_none()
                        ==> self.channels()[x].volume == c0[x].volume,
                forall|x: int| k <= x < cap ==> (#[trigger] self.channels()[x]).source.is_none(),
            decreases records@.len() - k,
        {
            let ghost acc0 = accepted(rv.subrange(0, k as int), s0, cap as int);
            let ghost acc1 = accepted(rv.subrange(0, k + 1), s0, cap as int);
            let ghost cur = *self;
            let ghost p = records@[k as int].source@;
            proof {
                assert(rv.subrange(0, k + 1).drop_last() =~= rv.subrange(0, k as int));
                assert(rv.subrange(0, k + 1).last() == rv[k as int]);
                assert(rv[k as int].0 == p);
                assert forall|j: int| 0 <= j < s0.len() implies (#[trigger] s0[j]).path == cur.sounds()[j].path by {
                    assert(cur.sounds()[j] == SoundView { volume: cur.sounds()[j].volume, ..s0[j] });
                }
                assert forall|j: int| 0 <= j < s0.len() implies (#[trigger] cur.sounds()[j]).path == s0[j].path by {
                    assert(cur.sounds()[j] == SoundView { volume: cur.sounds()[j].volume, ..s0[j] });
                }
                if has_path(s0, p) {
                    lemma_same_index(s0, cur.sounds(), p);
                }
                if has_path(cur.sounds(), p) {
                    lemma_same_index(cur.sounds(), s0, p);
                }
            }
            let rec = &records[k];
            if k < cap {
                match self.find_sound(&rec.source) {
                    Some(j) => {
                        if self.find_entry(&rec.source).is_none() {
                            let level = if rec.volume > FULL_VOLUME {
                                FULL_VOLUME
                            } else {
                                rec.volume
                            };
                            proof {
                                assert(acc1 == acc0.push((p, k as int, level as nat)));
                                assert forall|x: int| 0 <= x < acc0.len() implies (#[trigger] acc0[x]).0 != p by {
                                    assert(slots_of(acc0)[x].0 == acc0[x].0);
                                }
                            }
                            self.set_level(j, level);
                            let ghost mid = *self;
                            proof {
                                assert forall|x: int| 0 <= x < mid.registry().len() implies (#[trigger] mid.registry()[x]).1 < k
                                    && mid.registry()[x].0 != p by {
                                    assert(mid.registry()[x] == slots_of(acc0)[x]);
                                    assert(acc0[x].1 < k);
                                    assert(acc0[x].0 != p);
                                }
                                assert(mid.sounds()[j as int].path == p);
                                assert(mid.catalog_has(p));
                                assert(mid.volume_of(p) == level);
                                assert(!mid.is_registered(p));
                            }
                            self.play_on(k, rec.source.clone(), level);
                            proof {
                                let post = *self;
                                Self::lemma_wf_after_play(mid, post, p, k as int);
                                assert(post.registry() =~= slots_of(acc1));
                                assert forall|x: int| 0 <= x < acc1.len() implies post.volume_of((#[trigger] acc1[x]).0) == acc1[x].2 by {
                                    if x < acc0.len() {
                                        assert(acc1[x] == acc0[x]);
                                        assert(has_key(slots_of(acc0), acc0[x].0)) by {
                                            assert(slots_of(acc0)[x].0 == acc0[x].0);
                                        }
                                        assert(cur.catalog_has(acc0[x].0));
                                    }
                                }
                                assert forall|j: int|
                                    0 <= j < s0.len() && !has_key(slots_of(acc1), s0[j].path)
                                    implies (#[trigger] post.sounds()[j]) == s0[j] by {
                                    assert(slots_of(acc1)[acc0.len() as int].0 == p);
                                    if has_key(slots_of(acc0), s0[j].path) {
                                        let x = choose|x: int| 0 <= x < slots_of(acc0).len() && (#[trigger] slots_of(acc0)[x]).0 == s0[j].path;
                                        assert(slots_of(acc1)[x].0 == s0[j].path);
                                    }
                                }
                            }
                        } else {
                            proof {
                                assert(acc1 == acc0);
                            }
                        }
                    },
                    None => {
                        proof {
                            assert(acc1 == acc0);
                        }
                    },
                }
            } else {
                proof {
                    assert(acc1 == acc0);
                }
            }
            k += 1;
        }
        assert(rv.subrange(0, records@.len() as int) =~= rv);
    }

    pub fn get_sound_list(&self) -> (r: &Vec<Sound>)
        ensures
            views_of(r@) == self.sounds(),
    {
        &self.available_sounds
    }

    /// The channel pool, by channel index.
    pub fn get_sinks(&self) -> (r: &Vec<SinkHandle>)
        ensures
            r@.map_values(|c: SinkHandle| c@) == self.channels(),
    {
        &self.sinks
    }

    /// The registry: (path, channel) for each playing sound.
    pub fn playing_sounds(&self) -> (r: &Vec<(String, usize)>)
        ensures
            r@.len() == self.registry().len(),
            forall|k: int|
                0 <= k < r@.len() ==> ((#[trigger] r@[k]).0@, r@[k].1 as int) == self.registry()[k],
    {
        &self.playing_sounds
    }

    /// The distinct categories of the catalog, in the order first seen.
    pub fn categories(&self) -> (r: &Vec<String>)
        requires
            self.wf(),
        ensures
            string_views(r@) == category_index(self.sounds()),
    {
        &self.categories
    }

    pub fn get_sound_by_path(&self, path: &str) -> (r: Option<&Sound>)
        requires
            self.wf(),
        ensures
            match r {
                Some(s) => self.catalog_has(path@) && s@ == self.sounds()[index_of_path(self.sounds(), path@)],
                None => !self.catalog_has(path@),
            },
    {
        let p = path.to_owned();
        match self.find_sound(&p) {
            Some(j) => {
                proof {
                    self.lemma_volume_at(j as int);
                }
                Some(&self.available_sounds[j])
            },
            None => None,
        }
    }

    pub fn get_sound_path_by_index(&self, index: usize) -> (r: &str)
        requires
            index < self.sounds().len(),
        ensures
            r@ == self.sounds()[index as int].path,
    {
        self.available_sounds[index].path()
    }

    /// The path of the `index`-th sound (counting from 0) of the category
    /// at `category_index`, or of the whole catalog with `None`. `None`
    /// where the category does not exist or has no such sound.
    pub fn get_sound_path_by_index_and_category(
        &self,
        index: usize,
        category_index: Option<usize>,
    ) -> (r: Option<&str>)
        requires
            self.wf(),
        ensures
            category_index.is_none() ==> match r {
                Some(v) => index < self.sounds().len() && v@ == self.sounds()[index as int].path,
                None => index >= self.sounds().len(),
            },
            category_index.is_some() && category_index.unwrap() >= self.category_list().len()
                ==> r.is_none(),
            category_index.is_some() && category_index.unwrap() < self.category_list().len() ==> {
                let pos = category_positions(
                    self.sounds(),
                    self.category_list()[category_index.unwrap() as int],
                    self.sounds().len() as int,
                );
                match r {
                    Some(v) => index < pos.len() && v@ == self.sounds()[pos[index as int]].path,
                    None => index >= pos.len(),
                }
            },
    {
        match category_index {
            None => {
                if index < self.available_sounds.len() {
                    Some(self.available_sounds[index].path())
                } else {
                    None
                }
            },
            Some(c) => {
                if c >= self.categories.len() {
                    return None;
                }
                proof {
                    assert(self.category_list()[c as int] == self.categories@[c as int]@);
                }
                self.nth_of_category(&self.categories[c], index)
            },
        }
    }

    /// The path of the `index`-th catalog sound of category `cat`, if any.
    fn nth_of_category(&self, cat: &String, index: usize) -> (r: Option<&str>)
        ensures
            ({
                let pos = category_positions(self.sounds(), cat@, self.sounds().len() as int);
                match r {
                    Some(v) => index < pos.len() && v@ == self.sounds()[pos[index as int]].path,
                    None => index >= pos.len(),
                }
            }),
    {
        let ghost n = self.sounds().len() as int;
        let mut count: usize = 0;
        let mut j: usize = 0;
        while j < self.available_sounds.len()
            invariant
                j <= self.available_sounds@.len(),
                n == self.sounds().len(),
                count == category_positions(self.sounds(), cat@, j as int).len(),
                count <= index,
            decreases self.available_sounds@.len() - j,
        {
            if self.available_sounds[j].category_string().eq(cat) {
                if count == index {
                    proof {
                        lemma_positions_prefix(self.sounds(), cat@, j + 1, n);
                        assert(category_positions(self.sounds(), cat@, j + 1) == category_positions(
                            self.sounds(),
                            cat@,
                            j as int,
                        ).push(j as int));
                    }
                    return Some(self.available_sounds[j].path());
                }
                count += 1;
            }
            j += 1;
        }
        None
    }

    /// The catalog position of the first entry named `name`, if any.
    fn position_of_name(&self, name: &String) -> (r: Option<usize>)
        ensures
            match r {
                Some(j) => is_first_named(self.sounds(), name@, j as int),
                None => !has_name(self.sounds(), name@),
            },
    {
        let mut j: usize = 0;
        while j < self.available_sounds.len()
            invariant
                j <= self.available_sounds@.len(),
                forall|x: int| 0 <= x < j ==> (#[trigger] self.sounds()[x]).name != name@,
            decreases self.available_sounds@.len() - j,
        {
            if name.eq(&self.available_sounds[j].name().to_owned()) {
                return Some(j);
            }
            j += 1;
        }
        None
    }

    /// Toggles the first catalog sound named `name`, then moves its level
    /// by `volume_offset` as `adjust_sound_volume` does. An unknown name
    /// changes nothing.
    pub fn play_preset(&mut self, name: &str, volume_offset: i32)
        requires
            old(self).wf(),
        ensures
            final(self).wf(),
            Self::preset_step(*old(self), name@, volume_offset as int, *final(self)),
    {
        let n = name.to_owned();
        if let Some(j) = self.position_of_name(&n) {
            let path = self.available_sounds[j].path().to_owned();
            let ghost pre = *self;
            let ghost p = path@;
            let r = self.toggle_sound(path.as_str());
            let ghost mid = *self;
            proof {
                assert(pre.catalog_has(p)) by {
                    assert(pre.sounds()[j as int].path == p);
                }
                assert(mid.sounds() == pre.sounds());
                assert(mid.catalog_has(p));
            }
            self.adjust_sound_volume(path.as_str(), volume_offset);
            assert(Self::preset_applied(pre, p, volume_offset as int, mid, r, *self));
        }
    }

    /// Starts the demo mix: the sounds named `waves.mp3`, `birds.mp3`,
    /// `wind-chimes.mp3` and `binaural-alpha.wav` are toggled in turn, each
    /// level then moved by -300, -400, -600 and -150.
    pub fn demo(&mut self)
        requires
            old(self).wf(),
        ensures
            final(self).wf(),
            final(self).capacity() == old(self).capacity(),
            exists|a: SoundManager, b: SoundManager, c: SoundManager|
                #[trigger] Self::preset_step(*old(self), "waves.mp3"@, -300, a)
                    && #[trigger] Self::preset_step(a, "birds.mp3"@, -400, b)
                    && #[trigger] Self::preset_step(b, "wind-chimes.mp3"@, -600, c)
                    && Self::preset_step(c, "binaural-alpha.wav"@, -150, *final(self)),
    {
        let ghost s0 = *self;
        self.play_preset("waves.mp3", -300);
        let ghost a = *self;
        self.play_preset("birds.mp3", -400);
        let ghost b = *self;
        self.play_preset("wind-chimes.mp3", -600);
        let ghost c = *self;
        self.play_preset("binaural-alpha.wav", -150);
        assert(Self::preset_step(s0, "waves.mp3"@, -300, a));
        assert(Self::preset_step(a, "birds.mp3"@, -400, b));
        assert(Self::preset_step(b, "wind-chimes.mp3"@, -600, c));
    }

    /// The lowest channel with nothing loaded, if any.
    fn find_available(&self) -> (r: Option<usize>)
        ensures
            match r {
                Some(i) => is_lowest_free(self.channels(), i as int),
                None => !has_free(self.channels()),
            },
    {
        let mut i: usize = 0;
        while i < self.sinks.len()
            invariant
                i <= self.sinks@.len(),
                forall|x: int| 0 <= x < i ==> (#[trigger] self.channels()[x]).source.is_some(),
            decreases self.sinks@.len() - i,
        {
            if !self.sinks[i].is_playing() {
                return Some(i);
            }
            i += 1;
        }
        None
    }
}

} // verus!
