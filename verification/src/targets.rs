//! A small ordered map from texts to texts: which version each module resolves
//! to. Kept ascending by key, each key once.
use vstd::prelude::*;
use vstd::string::*;

use crate::text::{self, text_before};

verus! {

/// Which version each module resolves to.
#[derive(Debug, PartialEq, Eq)]
pub struct Targets {
    entries: Vec<(String, String)>,
}

impl DeepView for Targets {
    type V = Seq<(Seq<char>, Seq<char>)>;

    closed spec fn deep_view(&self) -> Seq<(Seq<char>, Seq<char>)> {
        self.entries.deep_view()
    }
}

/// Is each key before the next?
pub open spec fn keys_ascend(l: Seq<(Seq<char>, Seq<char>)>) -> bool {
    forall|i: int, j: int|
        #![trigger l[i], l[j]]
        0 <= i < j < l.len() ==> text::text_lt(l[i].0, l[j].0)
}

/// The value of the key `k`.
pub open spec fn value_of(l: Seq<(Seq<char>, Seq<char>)>, k: Seq<char>) -> Option<Seq<char>>
    decreases l.len(),
{
    if l.len() == 0 {
        None
    } else if l[0].0 == k {
        Some(l[0].1)
    } else {
        value_of(l.skip(1), k)
    }
}

/// The list with the value of `k` set to `v`, at its place by key.
pub open spec fn with_entry(l: Seq<(Seq<char>, Seq<char>)>, k: Seq<char>, v: Seq<char>) -> Seq<
    (Seq<char>, Seq<char>),
>
    decreases l.len(),
{
    if l.len() == 0 {
        seq![(k, v)]
    } else if l[0].0 == k {
        seq![(k, v)] + l.skip(1)
    } else if text::text_lt(k, l[0].0) {
        seq![(k, v)] + l
    } else {
        seq![l[0]] + with_entry(l.skip(1), k, v)
    }
}

/// Setting an entry keeps the keys ascending.
pub proof fn entry_keeps_order(l: Seq<(Seq<char>, Seq<char>)>, k: Seq<char>, v: Seq<char>)
    requires
        keys_ascend(l),
    ensures
        keys_ascend(with_entry(l, k, v)),
        forall|i: int|
            0 <= i < with_entry(l, k, v).len() ==> (#[trigger] with_entry(l, k, v)[i]).0 == k
                || exists|j: int| 0 <= j < l.len() && (#[trigger] l[j]).0 == with_entry(l, k, v)[i].0,
    decreases l.len(),
{
    let r = with_entry(l, k, v);
    if l.len() == 0 {
    } else if l[0].0 == k {
        assert forall|i: int| 0 <= i < r.len() implies (#[trigger] r[i]).0 == l[i].0 by {}
        assert(r.len() == l.len());
        assert forall|i: int, j: int|
            #![trigger r[i], r[j]]
            0 <= i < j < r.len() implies text::text_lt(r[i].0, r[j].0) by {
            assert(text::text_lt(l[i].0, l[j].0));
        }
    } else if text::text_lt(k, l[0].0) {
        assert forall|i: int| 0 < i < r.len() implies #[trigger] r[i] == l[i - 1] by {}
        assert forall|i: int, j: int|
            #![trigger r[i], r[j]]
            0 <= i < j < r.len() implies text::text_lt(r[i].0, r[j].0) by {
            if i == 0 {
                if j > 1 {
                    assert(text::text_lt(l[0].0, l[j - 1].0));
                    text::text_lt_transitive(k, l[0].0, l[j - 1].0);
                }
            } else {
                assert(text::text_lt(l[i - 1].0, l[j - 1].0));
            }
        }
        assert forall|i: int| 0 <= i < r.len() implies (#[trigger] r[i]).0 == k || exists|j: int|
            0 <= j < l.len() && (#[trigger] l[j]).0 == r[i].0 by {
            if i > 0 {
                assert(l[i - 1].0 == r[i].0);
            }
        }
    } else {
        let tail = l.skip(1);
        text::text_lt_total(k, l[0].0);
        assert forall|i: int, j: int|
            #![trigger tail[i], tail[j]]
            0 <= i < j < tail.len() implies text::text_lt(tail[i].0, tail[j].0) by {
            assert(text::text_lt(l[i + 1].0, l[j + 1].0));
        }
        entry_keeps_order(tail, k, v);
        let t = with_entry(tail, k, v);
        assert forall|i: int| 0 < i < r.len() implies #[trigger] r[i] == t[i - 1] by {}
        assert forall|i: int, j: int|
            #![trigger r[i], r[j]]
            0 <= i < j < r.len() implies text::text_lt(r[i].0, r[j].0) by {
            if i == 0 {
                assert(t[j - 1].0 == k || exists|m: int|
                    0 <= m < tail.len() && (#[trigger] tail[m]).0 == t[j - 1].0);
                if t[j - 1].0 != k {
                    let m = choose|m: int|
                        0 <= m < tail.len() && (#[trigger] tail[m]).0 == t[j - 1].0;
                    assert(text::text_lt(l[0].0, l[m + 1].0));
                }
            } else {
                assert(text::text_lt(t[i - 1].0, t[j - 1].0));
            }
        }
        assert forall|i: int| 0 <= i < r.len() implies (#[trigger] r[i]).0 == k || exists|j: int|
            0 <= j < l.len() && (#[trigger] l[j]).0 == r[i].0 by {
            if i == 0 {
                assert(l[0].0 == r[0].0);
            } else if t[i - 1].0 != k {
                let m = choose|m: int| 0 <= m < tail.len() && (#[trigger] tail[m]).0 == t[i - 1].0;
                assert(l[m + 1].0 == r[i].0);
            }
        }
    }
}

/// A set entry reads back, and the others stay.
pub proof fn entry_reads_back(
    l: Seq<(Seq<char>, Seq<char>)>,
    k: Seq<char>,
    v: Seq<char>,
    other: Seq<char>,
)
    requires
        keys_ascend(l),
    ensures
        value_of(with_entry(l, k, v), k) == Some(v),
        other != k ==> value_of(with_entry(l, k, v), other) == value_of(l, other),
    decreases l.len(),
{
    reveal_with_fuel(value_of, 2);
    let r = with_entry(l, k, v);
    if l.len() == 0 {
        assert(r.skip(1) =~= l);
    } else if l[0].0 == k {
        assert(r.skip(1) =~= l.skip(1));
    } else if text::text_lt(k, l[0].0) {
        assert(r.skip(1) =~= l);
    } else {
        let tail = l.skip(1);
        assert forall|i: int, j: int|
            #![trigger tail[i], tail[j]]
            0 <= i < j < tail.len() implies text::text_lt(tail[i].0, tail[j].0) by {
            assert(text::text_lt(l[i + 1].0, l[j + 1].0));
        }
        entry_reads_back(tail, k, v, other);
        assert(r.skip(1) =~= with_entry(tail, k, v));
    }
}

impl Clone for Targets {
    fn clone(&self) -> (r: Targets)
        ensures
            r.deep_view() == self.deep_view(),
    {
        proof {
            use_type_invariant(self);
        }
        let mut out: Vec<(String, String)> = Vec::new();
        let mut i: usize = 0;
        while i < self.entries.len()
            invariant
                i <= self.entries@.len(),
                out@.len() == i,
                forall|j: int|
                    0 <= j < i ==> (#[trigger] out@[j]).deep_view()
                        == self.entries@[j].deep_view(),
            decreases self.entries@.len() - i,
        {
            out.push((self.entries[i].0.clone(), self.entries[i].1.clone()));
            i = i + 1;
        }
        assert(out.deep_view() =~= self.entries.deep_view());
        Targets { entries: out }
    }
}

impl Targets {
    #[verifier::type_invariant]
    spec fn well_formed(&self) -> bool {
        keys_ascend(self.deep_view())
    }

    /// No entries.
    pub fn new() -> (r: Targets)
        ensures
            r.deep_view() == Seq::<(Seq<char>, Seq<char>)>::empty(),
    {
        let r = Targets { entries: Vec::new() };
        assert(r.deep_view() =~= Seq::<(Seq<char>, Seq<char>)>::empty());
        r
    }

    /// The number of entries.
    pub fn len(&self) -> (r: usize)
        ensures
            r == self.deep_view().len(),
    {
        self.entries.len()
    }

    /// The entry at `i`, in key order.
    pub fn at(&self, i: usize) -> (r: (&String, &String))
        requires
            i < self.deep_view().len(),
        ensures
            (r.0@, r.1@) == self.deep_view()[i as int],
            keys_ascend(self.deep_view()),
    {
        proof {
            use_type_invariant(self);
        }
        (&self.entries[i].0, &self.entries[i].1)
    }

    /// The value of the key `k`.
    pub fn get(&self, k: &str) -> (r: Option<&String>)
        ensures
            r.deep_view() == value_of(self.deep_view(), k@),
    {
        let ghost l = self.deep_view();
        let key = k.to_owned();
        let mut i: usize = 0;
        assert(l.skip(0) =~= l);
        while i < self.entries.len()
            invariant
                l == self.deep_view(),
                key@ == k@,
                i <= self.entries@.len() == l.len(),
                value_of(l, k@) == value_of(l.skip(i as int), k@),
            decreases self.entries@.len() - i,
        {
            assert(l.skip(i as int)[0] == self.entries@[i as int].deep_view());
            if self.entries[i].0 == key {
                return Some(&self.entries[i].1);
            }
            assert(l.skip(i as int).skip(1) =~= l.skip(i + 1));
            i = i + 1;
        }
        None
    }

    /// Sets the value of `k` to `v`.
    pub fn insert(&mut self, k: &str, v: &str)
        ensures
            final(self).deep_view() == with_entry(old(self).deep_view(), k@, v@),
            keys_ascend(final(self).deep_view()),
    {
        proof {
            use_type_invariant(&*self);
            entry_keeps_order(self.deep_view(), k@, v@);
        }
        let mut entries: Vec<(String, String)> = Vec::new();
        std::mem::swap(&mut entries, &mut self.entries);
        set_entry(&mut entries, k, v);
        self.entries = entries;
    }
}

/// Sets the value of `k` to `v`, at its place by key.
fn set_entry(entries: &mut Vec<(String, String)>, k: &str, v: &str)
    ensures
        final(entries).deep_view() == with_entry(old(entries).deep_view(), k@, v@),
{
    let ghost l = entries.deep_view();
    let key = k.to_owned();
    let mut i: usize = 0;
    assert(l.take(0) + with_entry(l.skip(0), k@, v@) =~= with_entry(l, k@, v@)) by {
        assert(l.skip(0) =~= l);
    }
    while i < entries.len()
        invariant
            *entries == *old(entries),
            l == entries.deep_view(),
            key@ == k@,
            i <= entries@.len() == l.len(),
            with_entry(l, k@, v@) == l.take(i as int) + with_entry(l.skip(i as int), k@, v@),
        decreases entries@.len() - i,
    {
        let ghost rest = l.skip(i as int);
        assert(rest[0] == entries@[i as int].deep_view());
        if entries[i].0 == key {
            entries.set(i, (key, v.to_owned()));
            assert(entries.deep_view() =~= l.take(i as int) + (seq![(k@, v@)] + rest.skip(1)));
            return ;
        }
        if text_before(key.as_str(), entries[i].0.as_str()) {
            entries.insert(i, (key, v.to_owned()));
            assert(entries.deep_view() =~= l.take(i as int) + (seq![(k@, v@)] + rest));
            return ;
        }
        assert(rest.skip(1) =~= l.skip(i + 1));
        assert(l.take(i as int) + (seq![rest[0]] + with_entry(rest.skip(1), k@, v@)) =~= l.take(
            i + 1,
        ) + with_entry(l.skip(i + 1), k@, v@));
        i = i + 1;
    }
    entries.push((key, v.to_owned()));
    assert(entries.deep_view() =~= l.take(i as int) + seq![(k@, v@)]);
}

/// A value that is found stands in the list, under its key.
pub proof fn value_is_listed(l: Seq<(Seq<char>, Seq<char>)>, k: Seq<char>)
    ensures
        value_of(l, k) matches Some(v) ==> exists|j: int|
            0 <= j < l.len() && (#[trigger] l[j]).0 == k && l[j].1 == v,
        value_of(l, k) is None ==> forall|j: int| 0 <= j < l.len() ==> (#[trigger] l[j]).0 != k,
    decreases l.len(),
{
    if l.len() > 0 && l[0].0 != k {
        let tail = l.skip(1);
        value_is_listed(tail, k);
        if value_of(l, k) is Some {
            let j = choose|j: int|
                0 <= j < tail.len() && (#[trigger] tail[j]).0 == k && Some(tail[j].1) == value_of(
                    l,
                    k,
                );
            assert(l[j + 1] == tail[j]);
        } else {
            assert forall|j: int| 0 <= j < l.len() implies (#[trigger] l[j]).0 != k by {
                if j > 0 {
                    assert(tail[j - 1] == l[j]);
                }
            }
        }
    }
}

/// What stands in the list is found by its key.
pub proof fn listed_is_value(l: Seq<(Seq<char>, Seq<char>)>, i: int)
    requires
        keys_ascend(l),
        0 <= i < l.len(),
    ensures
        value_of(l, l[i].0) == Some(l[i].1),
    decreases l.len(),
{
    if i > 0 {
        let tail = l.skip(1);
        text::text_lt_irreflexive(l[0].0);
        assert(text::text_lt(l[0].0, l[i].0));
        assert forall|a: int, b: int|
            #![trigger tail[a], tail[b]]
            0 <= a < b < tail.len() implies text::text_lt(tail[a].0, tail[b].0) by {
            assert(text::text_lt(l[a + 1].0, l[b + 1].0));
        }
        assert(tail[i - 1] == l[i]);
        listed_is_value(tail, i - 1);
    }
}

} // verus!
