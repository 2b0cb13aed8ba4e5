//! The wave store.
//!
//! Every wave + its latest state, in the shape of the `wave.v1.WaveStore`
//! message. Reading and writing the file is the caller's: it opens the store on
//! what was stored, and writes [`Store::snapshot`] after each
//! [`Store::upsert`].
use vstd::prelude::*;
use vstd::string::*;

use crate::pb::{self, copy_waves, WaveStoreView, WaveView};

verus! {

/// The version of the stored shape.
pub const SCHEMA_VERSION: u32 = 1;

/// The waves, as they are stored.
#[derive(Debug)]
pub struct Store {
    inner: pb::WaveStore,
}

impl DeepView for Store {
    type V = WaveStoreView;

    closed spec fn deep_view(&self) -> WaveStoreView {
        self.inner.deep_view()
    }
}

/// The first wave with the given id.
pub open spec fn wave_by_id(waves: Seq<WaveView>, id: Seq<char>) -> Option<WaveView>
    decreases waves.len(),
{
    if waves.len() == 0 {
        None
    } else if waves[0].id == id {
        Some(waves[0])
    } else {
        wave_by_id(waves.skip(1), id)
    }
}

/// The waves with the first one of the same id replaced by `w`; with `w` behind
/// them where there is none.
pub open spec fn with_wave(waves: Seq<WaveView>, w: WaveView) -> Seq<WaveView>
    decreases waves.len(),
{
    if waves.len() == 0 {
        seq![w]
    } else if waves[0].id == w.id {
        seq![w] + waves.skip(1)
    } else {
        seq![waves[0]] + with_wave(waves.skip(1), w)
    }
}

/// Does no id occur twice?
pub open spec fn ids_differ(waves: Seq<WaveView>) -> bool {
    forall|i: int, j: int|
        #![trigger waves[i], waves[j]]
        0 <= i < j < waves.len() ==> waves[i].id != waves[j].id
}

impl Store {
    /// Open the store on what was stored, or initialize it where nothing was.
    pub fn open(stored: Option<pb::WaveStore>) -> (r: Self)
        ensures
            r.deep_view() == (WaveStoreView {
                schema_version: SCHEMA_VERSION,
                waves: match stored.deep_view() {
                    Some(s) => s.waves,
                    None => seq![],
                },
            }),
    {
        match stored {
            Some(s) => Store {
                inner: pb::WaveStore { schema_version: SCHEMA_VERSION, waves: s.waves },
            },
            None => {
                let waves: Vec<pb::Wave> = Vec::new();
                assert(waves.deep_view() =~= seq![]);
                Store { inner: pb::WaveStore { schema_version: SCHEMA_VERSION, waves } }
            },
        }
    }

    /// All waves, newest-state.
    pub fn waves(&self) -> (r: Vec<pb::Wave>)
        ensures
            r.deep_view() == self.deep_view().waves,
    {
        copy_waves(&self.inner.waves)
    }

    /// One wave by id.
    pub fn get(&self, id: &str) -> (r: Option<pb::Wave>)
        ensures
            r.deep_view() == wave_by_id(self.deep_view().waves, id@),
    {
        let ghost ws = self.deep_view().waves;
        let key = id.to_owned();
        let waves = &self.inner.waves;
        let mut i: usize = 0;
        assert(ws.skip(0) =~= ws);
        while i < waves.len()
            invariant
                ws == waves.deep_view(),
                key@ == id@,
                ws == self.deep_view().waves,
                i <= waves@.len() == ws.len(),
                wave_by_id(ws, id@) == wave_by_id(ws.skip(i as int), id@),
            decreases waves@.len() - i,
        {
            assert(ws.skip(i as int)[0] == waves@[i as int].deep_view());
            if waves[i].id == key {
                return Some(waves[i].clone());
            }
            assert(ws.skip(i as int).skip(1) =~= ws.skip(i + 1));
            i = i + 1;
        }
        None
    }

    /// Insert or replace a wave by id.
    pub fn upsert(&mut self, wave: pb::Wave)
        ensures
            final(self).deep_view() == (WaveStoreView {
                schema_version: SCHEMA_VERSION,
                waves: with_wave(old(self).deep_view().waves, wave.deep_view()),
            }),
    {
        let ghost ws = self.deep_view().waves;
        let ghost w = wave.deep_view();
        let mut i: usize = 0;
        assert(ws.take(0) + with_wave(ws.skip(0), w) =~= with_wave(ws, w)) by {
            assert(ws.skip(0) =~= ws);
        }
        self.inner.schema_version = SCHEMA_VERSION;
        while i < self.inner.waves.len()
            invariant
                self.inner.schema_version == SCHEMA_VERSION,
                ws == self.inner.waves.deep_view(),
                ws == old(self).deep_view().waves,
                w == wave.deep_view(),
                i <= self.inner.waves@.len() == ws.len(),
                with_wave(ws, w) == ws.take(i as int) + with_wave(ws.skip(i as int), w),
            decreases self.inner.waves@.len() - i,
        {
            let ghost rest = ws.skip(i as int);
            assert(rest[0] == self.inner.waves@[i as int].deep_view());
            if self.inner.waves[i].id == wave.id {
                self.inner.waves.set(i, wave);
                assert(self.inner.waves.deep_view() =~= ws.take(i as int) + (seq![w] + rest.skip(
                    1,
                )));
                return ;
            }
            assert(rest.skip(1) =~= ws.skip(i + 1));
            assert(ws.take(i as int) + (seq![rest[0]] + with_wave(rest.skip(1), w)) =~= ws.take(
                i + 1,
            ) + with_wave(ws.skip(i + 1), w));
            i = i + 1;
        }
        self.inner.waves.push(wave);
        assert(self.inner.waves.deep_view() =~= ws.take(i as int) + seq![w]);
    }

    /// What to store.
    pub fn snapshot(&self) -> (r: &pb::WaveStore)
        ensures
            r.deep_view() == self.deep_view(),
    {
        &self.inner
    }
}

/// A wave that was upserted is read back by its id, and every other id reads as
/// before.
pub proof fn upsert_reads_back(waves: Seq<WaveView>, w: WaveView, id: Seq<char>)
    ensures
        wave_by_id(with_wave(waves, w), w.id) == Some(w),
        id != w.id ==> wave_by_id(with_wave(waves, w), id) == wave_by_id(waves, id),
    decreases waves.len(),
{
    reveal_with_fuel(wave_by_id, 2);
    let r = with_wave(waves, w);
    if waves.len() == 0 {
        assert(r.skip(1) =~= waves);
    } else if waves[0].id == w.id {
        assert(r.skip(1) =~= waves.skip(1));
    } else {
        upsert_reads_back(waves.skip(1), w, id);
        assert(r.skip(1) =~= with_wave(waves.skip(1), w));
    }
}

/// Upserting never makes a second row for an id.
pub proof fn upsert_makes_no_duplicate(waves: Seq<WaveView>, w: WaveView)
    requires
        ids_differ(waves),
    ensures
        ids_differ(with_wave(waves, w)),
        forall|i: int|
            0 <= i < with_wave(waves, w).len() ==> (#[trigger] with_wave(waves, w)[i]).id == w.id
                || exists|j: int|
                0 <= j < waves.len() && (#[trigger] waves[j]).id == with_wave(waves, w)[i].id,
        with_wave(waves, w).len() == waves.len() + (if wave_by_id(waves, w.id) is Some {
            0int
        } else {
            1int
        }),
    decreases waves.len(),
{
    let r = with_wave(waves, w);
    if waves.len() == 0 {
    } else if waves[0].id == w.id {
        assert forall|i: int| 0 <= i < r.len() implies (#[trigger] r[i]).id == waves[i].id by {}
        assert forall|i: int, j: int|
            #![trigger r[i], r[j]]
            0 <= i < j < r.len() implies r[i].id != r[j].id by {
            assert(waves[i].id != waves[j].id);
        }
    } else {
        let tail = waves.skip(1);
        assert forall|i: int, j: int|
            #![trigger tail[i], tail[j]]
            0 <= i < j < tail.len() implies tail[i].id != tail[j].id by {
            assert(waves[i + 1].id != waves[j + 1].id);
        }
        upsert_makes_no_duplicate(tail, w);
        let t = with_wave(tail, w);
        assert forall|i: int| 0 < i < r.len() implies #[trigger] r[i] == t[i - 1] by {}
        assert forall|i: int| 0 <= i < r.len() implies (#[trigger] r[i]).id == w.id || exists|j: int|
            0 <= j < waves.len() && (#[trigger] waves[j]).id == r[i].id by {
            if i == 0 {
                assert(waves[0].id == r[0].id);
            } else if t[i - 1].id != w.id {
                let m = choose|m: int| 0 <= m < tail.len() && (#[trigger] tail[m]).id == t[i - 1].id;
                assert(waves[m + 1].id == r[i].id);
            }
        }
        assert forall|i: int, j: int|
            #![trigger r[i], r[j]]
            0 <= i < j < r.len() implies r[i].id != r[j].id by {
            if i == 0 {
                if t[j - 1].id != w.id {
                    let m = choose|m: int|
                        0 <= m < tail.len() && (#[trigger] tail[m]).id == t[j - 1].id;
                    assert(waves[0].id != waves[m + 1].id);
                }
            } else {
                assert(t[i - 1].id != t[j - 1].id);
            }
        }
    }
}

/// Is the wave at `i` the first one with the id `id`?
pub open spec fn is_first_with_id(waves: Seq<WaveView>, id: Seq<char>, i: int) -> bool {
    &&& 0 <= i < waves.len()
    &&& waves[i].id == id
    &&& forall|j: int| 0 <= j < i ==> (#[trigger] waves[j]).id != id
}

/// A wave is found by its id: the first one that has it, and none only where none has.
pub proof fn waves_are_found_by_id(waves: Seq<WaveView>, id: Seq<char>)
    ensures
        wave_by_id(waves, id) matches Some(w) ==> exists|i: int| #[trigger]
            is_first_with_id(waves, id, i) && waves[i] == w,
        wave_by_id(waves, id) is None <==> forall|i: int|
            0 <= i < waves.len() ==> (#[trigger] waves[i]).id != id,
    decreases waves.len(),
{
    if waves.len() > 0 {
        if waves[0].id == id {
            assert(is_first_with_id(waves, id, 0));
        } else {
            let tail = waves.skip(1);
            waves_are_found_by_id(tail, id);
            if let Some(w) = wave_by_id(waves, id) {
                let i = choose|i: int| #[trigger] is_first_with_id(tail, id, i) && tail[i] == w;
                assert forall|j: int| 0 <= j < i + 1 implies (#[trigger] waves[j]).id != id by {
                    if j > 0 {
                        assert(tail[j - 1] == waves[j]);
                    }
                }
                assert(is_first_with_id(waves, id, i + 1));
                assert(waves[i + 1].id == id);
            } else {
                assert forall|j: int| 0 <= j < waves.len() implies (#[trigger] waves[j]).id != id by {
                    if j > 0 {
                        assert(tail[j - 1] == waves[j]);
                    }
                }
            }
        }
    }
}

/// Upserting puts the wave in the place of the one with its id, or behind all others
/// where there is none, and leaves every other wave where it stands.
pub proof fn upsert_keeps_places(waves: Seq<WaveView>, w: WaveView, i: int)
    ensures
        is_first_with_id(waves, w.id, i) ==> with_wave(waves, w) == waves.update(i, w),
        (forall|j: int| 0 <= j < waves.len() ==> (#[trigger] waves[j]).id != w.id) ==> with_wave(
            waves,
            w,
        ) == waves.push(w),
    decreases waves.len(),
{
    if waves.len() == 0 {
        assert(with_wave(waves, w) =~= waves.push(w));
    } else {
        let tail = waves.skip(1);
        if waves[0].id == w.id {
            assert(seq![w] + tail =~= waves.update(0, w));
            if is_first_with_id(waves, w.id, i) && i > 0 {
                assert(waves[0].id != w.id);
            }
        } else {
            upsert_keeps_places(tail, w, i - 1);
            if is_first_with_id(waves, w.id, i) {
                assert forall|j: int| 0 <= j < i - 1 implies (#[trigger] tail[j]).id != w.id by {
                    assert(waves[j + 1] == tail[j]);
                }
                assert(is_first_with_id(tail, w.id, i - 1));
                assert(seq![waves[0]] + tail.update(i - 1, w) =~= waves.update(i, w));
            }
            if forall|j: int| 0 <= j < waves.len() ==> (#[trigger] waves[j]).id != w.id {
                assert forall|j: int| 0 <= j < tail.len() implies (#[trigger] tail[j]).id != w.id by {
                    assert(waves[j + 1] == tail[j]);
                }
                assert(seq![waves[0]] + tail.push(w) =~= waves.push(w));
            }
        }
    }
}

} // verus!
