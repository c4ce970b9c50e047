use vstd::prelude::*;
use crate::sink_handle::SinkView;
use crate::sound_manager::{
    accepted, has_free, has_key, index_of_path, lemma_same_index, slots_of, SoundManager,
    SoundManagerError,
};
use crate::volume::{clamp_spec, FULL_VOLUME, MASTER_FLOOR};

verus! {

/// In every well-formed state, each registry entry's channel has the
/// entry's sound loaded (so it plays), and no path and no channel is named
/// by two entries. Every operation of `SoundManager` keeps its state
/// well formed.
pub proof fn lemma_registry_matches_channels(m: SoundManager)
    requires
        m.wf(),
    ensures
        forall|k: int|
            0 <= k < m.registry().len() ==> 0 <= (#[trigger] m.registry()[k]).1 < m.capacity()
                && m.channels()[m.registry()[k].1].source == Some(m.registry()[k].0),
        forall|a: int, b: int|
            0 <= a < m.registry().len() && 0 <= b < m.registry().len() && a != b ==> (
            #[trigger] m.registry()[a]).1 != (#[trigger] m.registry()[b]).1,
        m.registry().len() <= m.capacity(),
{
}

/// Toggling a path twice leaves it playing exactly when it played before.
/// Where the first toggle started it on a free channel, the second gives
/// back the registry as it was.
pub proof fn lemma_toggle_twice(
    m0: SoundManager,
    m1: SoundManager,
    m2: SoundManager,
    p: Seq<char>,
    r1: Result<(), SoundManagerError>,
    r2: Result<(), SoundManagerError>,
)
    requires
        m0.wf(),
        m1.wf(),
        m2.wf(),
        m0.is_registered(p) ==> SoundManager::removed(m0, p, r1, m1),
        !m0.is_registered(p) ==> SoundManager::added(m0, p, r1, m1),
        m1.is_registered(p) ==> SoundManager::removed(m1, p, r2, m2),
        !m1.is_registered(p) ==> SoundManager::added(m1, p, r2, m2),
    ensures
        m2.is_registered(p) == m0.is_registered(p),
        !m0.is_registered(p) && r1 == Ok::<(), SoundManagerError>(()) ==> m2.registry()
            == m0.registry(),
{
    let reg0 = m0.registry();
    if !m0.catalog_has(p) {
        assert(m1 == m0);
        assert(m2 == m1);
    } else if m0.is_registered(p) {
        let k = choose|k: int|
            0 <= k < reg0.len() && (#[trigger] reg0[k]).0 == p && m1.registry() == reg0.remove(k)
                && m1.channels() == m0.channels().update(
                reg0[k].1,
                SinkView { source: None, paused: false, ..m0.channels()[reg0[k].1] },
            );
        assert(!m1.is_registered(p)) by {
            if m1.is_registered(p) {
                let x = choose|x: int| 0 <= x < m1.registry().len() && (#[trigger] m1.registry()[x]).0 == p;
                if x < k {
                    assert(reg0[x].0 == p);
                } else {
                    assert(reg0[x + 1].0 == p);
                }
            }
        }
        assert(m1.catalog_has(p));
        let reg1 = m1.registry();
        if has_free(m1.channels()) {
            let i = choose|i: int|
                #[trigger] crate::sound_manager::is_lowest_free(m1.channels(), i) && m2.registry()
                    == reg1.push((p, i)) && m2.channels() == m1.channels().update(
                    i,
                    crate::sound_manager::playing_view(p, m1.volume_of(p)),
                );
            assert(m2.registry()[reg1.len() as int].0 == p);
        } else {
            let last = m1.capacity() - 1;
            let k1 = choose|k1: int|
                0 <= k1 < reg1.len() && (#[trigger] reg1[k1]).1 == last && m2.registry()
                    == reg1.remove(k1).push((p, last)) && m2.channels() == m1.channels().update(
                    last,
                    crate::sound_manager::playing_view(p, m1.volume_of(p)),
                );
            assert(m2.registry()[reg1.len() - 1].0 == p);
        }
    } else {
        let cap = m0.capacity();
        if has_free(m0.channels()) {
            let i = choose|i: int|
                #[trigger] crate::sound_manager::is_lowest_free(m0.channels(), i) && m1.registry()
                    == reg0.push((p, i)) && m1.channels() == m0.channels().update(
                    i,
                    crate::sound_manager::playing_view(p, m0.volume_of(p)),
                );
            assert(m1.registry()[reg0.len() as int].0 == p);
            let reg1 = m1.registry();
            let k = choose|k: int|
                0 <= k < reg1.len() && (#[trigger] reg1[k]).0 == p && m2.registry() == reg1.remove(k)
                    && m2.channels() == m1.channels().update(
                    reg1[k].1,
                    SinkView { source: None, paused: false, ..m1.channels()[reg1[k].1] },
                );
            assert(k == reg0.len()) by {
                if k != reg0.len() {
                    assert(reg1[k] == reg0[k]);
                }
            }
            assert(m2.registry() =~= reg0);
        } else {
            let k0 = choose|k0: int|
                0 <= k0 < reg0.len() && (#[trigger] reg0[k0]).1 == cap - 1 && m1.registry()
                    == reg0.remove(k0).push((p, cap - 1)) && m1.channels() == m0.channels().update(
                    cap - 1,
                    crate::sound_manager::playing_view(p, m0.volume_of(p)),
                );
            let reg1 = m1.registry();
            assert(reg1[reg1.len() - 1].0 == p);
            let k = choose|k: int|
                0 <= k < reg1.len() && (#[trigger] reg1[k]).0 == p && m2.registry() == reg1.remove(k)
                    && m2.channels() == m1.channels().update(
                    reg1[k].1,
                    SinkView { source: None, paused: false, ..m1.channels()[reg1[k].1] },
                );
            assert(k == reg1.len() - 1) by {
                if k != reg1.len() - 1 {
                    assert(reg1[k].0 != reg1[reg1.len() - 1].0);
                }
            }
            assert(!m2.is_registered(p)) by {
                if m2.is_registered(p) {
                    let x = choose|x: int| 0 <= x < m2.registry().len() && (#[trigger] m2.registry()[x]).0 == p;
                    assert(m2.registry()[x] == reg1[x]);
                    assert(x != reg1.len() - 1);
                }
            }
        }
    }
}

/// Starting a new sound while every channel is busy keeps the registry at
/// its size, which never exceeds the capacity: exactly the sound on the
/// highest channel stops, every other one keeps playing, and the new one
/// plays.
pub proof fn lemma_full_pool_evicts_highest(
    m0: SoundManager,
    m1: SoundManager,
    p: Seq<char>,
    r: Result<(), SoundManagerError>,
)
    requires
        m0.wf(),
        m1.wf(),
        SoundManager::added(m0, p, r, m1),
        m0.catalog_has(p),
        !m0.is_registered(p),
        !has_free(m0.channels()),
    ensures
        r == Err::<(), _>(SoundManagerError::NoAvailableSound),
        m1.registry().len() == m0.registry().len(),
        m1.registry().len() <= m1.capacity(),
        m1.is_registered(p),
        exists|k: int|
            0 <= k < m0.registry().len() && (#[trigger] m0.registry()[k]).1 == m0.capacity() - 1
                && !m1.is_registered(m0.registry()[k].0) && forall|x: int|
                0 <= x < m0.registry().len() && x != k ==> m1.is_registered(
                    (#[trigger] m0.registry()[x]).0,
                ),
{
    let reg0 = m0.registry();
    let last = m0.capacity() - 1;
    let k = choose|k: int|
        0 <= k < reg0.len() && (#[trigger] reg0[k]).1 == last && m1.registry() == reg0.remove(
            k,
        ).push((p, last)) && m1.channels() == m0.channels().update(
            last,
            crate::sound_manager::playing_view(p, m0.volume_of(p)),
        );
    let reg1 = m1.registry();
    assert(reg1[reg1.len() - 1].0 == p);
    assert(!m1.is_registered(reg0[k].0)) by {
        if m1.is_registered(reg0[k].0) {
            let x = choose|x: int| 0 <= x < reg1.len() && (#[trigger] reg1[x]).0 == reg0[k].0;
            if x == reg1.len() - 1 {
                assert(reg0[k].0 == p);
                assert(has_key(reg0, p));
            } else if x < k {
                assert(reg1[x] == reg0[x]);
            } else {
                assert(reg1[x] == reg0[x + 1]);
            }
        }
    }
    assert forall|x: int| 0 <= x < reg0.len() && x != k implies m1.is_registered(
        (#[trigger] reg0[x]).0,
    ) by {
        if x < k {
            assert(reg1[x] == reg0[x]);
        } else {
            assert(reg1[x - 1] == reg0[x]);
        }
    }
}

/// A per-sound adjustment leaves the sound's level within
/// `[0, FULL_VOLUME]`, whatever the offset.
pub proof fn lemma_sound_volume_in_range(m0: SoundManager, m1: SoundManager, p: Seq<char>, offset: int)
    requires
        m0.wf(),
        m0.catalog_has(p),
        SoundManager::level_moved(
            m0,
            p,
            clamp_spec(m0.volume_of(p) + offset, 0, FULL_VOLUME as int),
            m1,
        ),
    ensures
        0 <= m1.volume_of(p) <= FULL_VOLUME,
{
    lemma_same_index(m0.sounds(), m1.sounds(), p);
}

/// A master adjustment leaves every playing sound's level within
/// `[MASTER_FLOOR, FULL_VOLUME]`, whatever the offset.
pub proof fn lemma_master_volume_in_range(m0: SoundManager, m1: SoundManager, offset: int)
    requires
        m0.wf(),
        m1.sounds().len() == m0.sounds().len(),
        forall|j: int|
            0 <= j < m0.sounds().len() ==> (#[trigger] m1.sounds()[j]) == if m0.is_registered(
                m0.sounds()[j].path,
            ) {
                crate::sound::SoundView {
                    volume: clamp_spec(
                        m0.sounds()[j].volume + offset,
                        MASTER_FLOOR as int,
                        FULL_VOLUME as int,
                    ) as nat,
                    ..m0.sounds()[j]
                }
            } else {
                m0.sounds()[j]
            },
    ensures
        forall|p: Seq<char>|
            #[trigger] m0.is_registered(p) ==> MASTER_FLOOR <= m1.volume_of(p) <= FULL_VOLUME,
{
    assert forall|p: Seq<char>| #[trigger] m0.is_registered(p) implies MASTER_FLOOR <= m1.volume_of(p)
        <= FULL_VOLUME by {
        let k = choose|k: int| 0 <= k < m0.registry().len() && (#[trigger] m0.registry()[k]).0 == p;
        assert(m0.catalog_has(m0.registry()[k].0));
        assert forall|j: int| 0 <= j < m0.sounds().len() implies (#[trigger] m0.sounds()[j]).path
            == m1.sounds()[j].path by {}
        lemma_same_index(m0.sounds(), m1.sounds(), p);
    }
}

/// What restoring the saved records of a state keeps: every saved record,
/// on the channel of its position, at its level.
proof fn lemma_accepted_saved(m: SoundManager, s: Seq<crate::sound::SoundView>, cap: int, n: int)
    requires
        m.wf(),
        0 <= n <= m.registry().len(),
        cap == m.capacity(),
        s.len() == m.sounds().len(),
        forall|j: int| 0 <= j < s.len() ==> (#[trigger] s[j]).path == m.sounds()[j].path,
    ensures
        accepted(m.saved().subrange(0, n), s, cap) == Seq::new(
            n as nat,
            |x: int| (m.registry()[x].0, x, m.volume_of(m.registry()[x].0) as nat),
        ),
    decreases n,
{
    let recs = m.saved().subrange(0, n);
    let want = Seq::new(
        n as nat,
        |x: int| (m.registry()[x].0, x, m.volume_of(m.registry()[x].0) as nat),
    );
    if n == 0 {
        assert(accepted(recs, s, cap) =~= want);
    } else {
        lemma_accepted_saved(m, s, cap, n - 1);
        assert(recs.drop_last() =~= m.saved().subrange(0, n - 1));
        let prev = accepted(recs.drop_last(), s, cap);
        let p = m.registry()[n - 1].0;
        assert(recs.last().0 == p);
        assert(m.catalog_has(p));
        lemma_same_index(m.sounds(), s, p);
        assert(!has_key(slots_of(prev), p)) by {
            if has_key(slots_of(prev), p) {
                let x = choose|x: int| 0 <= x < slots_of(prev).len() && (#[trigger] slots_of(prev)[x]).0 == p;
                assert(m.registry()[x].0 == m.registry()[n - 1].0);
            }
        }
        let j = index_of_path(m.sounds(), p);
        assert(m.sounds()[j].volume <= FULL_VOLUME);
        assert(accepted(recs, s, cap) =~= want);
    }
}

/// Saving a state and restoring its records into a manager over the same
/// catalog, with as many channels, plays the same sounds at the same levels.
pub proof fn lemma_save_load_round_trip(
    m: SoundManager,
    fresh: SoundManager,
    loaded: SoundManager,
)
    requires
        m.wf(),
        fresh.wf(),
        loaded.wf(),
        fresh.sounds().len() == m.sounds().len(),
        forall|j: int| 0 <= j < m.sounds().len() ==> (#[trigger] fresh.sounds()[j]).path == m.sounds()[j].path,
        fresh.capacity() == m.capacity(),
        SoundManager::restored(fresh, m.saved(), loaded),
    ensures
        forall|p: Seq<char>| #[trigger] loaded.is_registered(p) == m.is_registered(p),
        forall|p: Seq<char>| #[trigger] m.is_registered(p) ==> loaded.volume_of(p) == m.volume_of(p),
{
    let n = m.registry().len() as int;
    lemma_accepted_saved(m, fresh.sounds(), m.capacity(), n);
    assert(m.saved().subrange(0, n) =~= m.saved());
    let acc = accepted(m.saved(), fresh.sounds(), fresh.capacity());
    assert forall|p: Seq<char>| #[trigger] loaded.is_registered(p) == m.is_registered(p) by {
        if loaded.is_registered(p) {
            let x = choose|x: int| 0 <= x < loaded.registry().len() && (#[trigger] loaded.registry()[x]).0 == p;
            assert(m.registry()[x].0 == p);
        }
        if m.is_registered(p) {
            let x = choose|x: int| 0 <= x < m.registry().len() && (#[trigger] m.registry()[x]).0 == p;
            assert(loaded.registry()[x].0 == p);
        }
    }
    assert forall|p: Seq<char>| #[trigger] m.is_registered(p) implies loaded.volume_of(p) == m.volume_of(p) by {
        let x = choose|x: int| 0 <= x < m.registry().len() && (#[trigger] m.registry()[x]).0 == p;
        assert(acc[x].0 == p);
    }
}

} // verus!
