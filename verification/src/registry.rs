//! The spinner registry: an ordered mapping from spinner name to its
//! frame sequence, built once by merging an override table over a
//! default table, and navigated as a ring in lexicographic name order.

use vstd::prelude::*;
use vstd::string::*;
use vstd::map::*;

use crate::strutil::{lex_lt, lex_le, str_lt, str_eq, lemma_lex_lt_trichotomy, lemma_lex_lt_trans};

verus! {

/// One spinner: a name and its ordered, non-empty frame list.
pub struct SpinnerDef {
    pub name: String,
    pub frames: Vec<String>,
}

impl SpinnerDef {
    /// A definition the registry accepts: a non-empty name and at
    /// least one frame.
    pub open spec fn valid(self) -> bool {
        self.name@.len() > 0 && self.frames@.len() > 0
    }
}

/// The registry holds its definitions sorted by name, without
/// duplicates, every one of them valid.
pub struct Registry {
    pub defs: Vec<SpinnerDef>,
}

impl Registry {
    /// The spinner names, in storage (sorted) order.
    pub open spec fn names(self) -> Seq<Seq<char>> {
        self.defs@.map(|i: int, d: SpinnerDef| d.name@)
    }

    pub open spec fn len(self) -> nat {
        self.defs@.len()
    }

    /// The frames of the definition at position `i`.
    pub open spec fn frames_at(self, i: int) -> Seq<Seq<char>> {
        self.defs@[i].frames.deep_view()
    }

    /// Names strictly sorted (so unique), and every definition valid.
    pub open spec fn wf(self) -> bool {
        &&& forall|i: int, j: int|
            0 <= i < j < self.len() ==> lex_lt(self.names()[i], self.names()[j])
        &&& forall|i: int| 0 <= i < self.len() ==> (#[trigger] self.defs@[i]).valid()
    }

    pub open spec fn contains_name(self, n: Seq<char>) -> bool {
        exists|i: int| 0 <= i < self.len() && self.names()[i] == n
    }

    /// The position of a name that the registry holds.
    pub open spec fn index_of(self, n: Seq<char>) -> int {
        choose|i: int| 0 <= i < self.len() && self.names()[i] == n
    }

    /// The frames under a name that the registry holds.
    pub open spec fn frames_of(self, n: Seq<char>) -> Seq<Seq<char>> {
        self.frames_at(self.index_of(n))
    }

    /// The registry as a mapping from name to frames.
    pub open spec fn as_map(self) -> Map<Seq<char>, Seq<Seq<char>>> {
        Map::new(|n: Seq<char>| self.contains_name(n), |n: Seq<char>| self.frames_of(n))
    }

    /// The position after `i` on the navigation ring.
    pub open spec fn next_index(self, i: int) -> int {
        if i + 1 < self.len() {
            i + 1
        } else {
            0
        }
    }

    /// The position before `i` on the navigation ring.
    pub open spec fn prev_index(self, i: int) -> int {
        if i > 0 {
            i - 1
        } else {
            self.len() - 1
        }
    }

    /// The name after `n` on the ring.
    pub open spec fn spec_next(self, n: Seq<char>) -> Seq<char> {
        self.names()[self.next_index(self.index_of(n))]
    }

    /// The name before `n` on the ring.
    pub open spec fn spec_prev(self, n: Seq<char>) -> Seq<char> {
        self.names()[self.prev_index(self.index_of(n))]
    }

    /// In a well-formed registry each name sits at exactly one position.
    pub proof fn lemma_index_of_position(self, i: int)
        requires
            self.wf(),
            0 <= i < self.len(),
        ensures
            self.index_of(self.names()[i]) == i,
    {
        let n = self.names()[i];
        assert(self.contains_name(n));
        let j = self.index_of(n);
        assert(0 <= j < self.len() && self.names()[j] == n);
        if j < i {
            lemma_lex_lt_trichotomy(self.names()[j], self.names()[i]);
        }
        if i < j {
            lemma_lex_lt_trichotomy(self.names()[i], self.names()[j]);
        }
    }

    /// An empty registry.
    pub fn empty() -> (r: Registry)
        ensures
            r.wf(),
            r.len() == 0,
            r.as_map() =~= Map::<Seq<char>, Seq<Seq<char>>>::empty(),
    {
        Registry { defs: Vec::new() }
    }

    /// The position of `name`, scanned in order.
    pub fn find(&self, name: &str) -> (r: Option<usize>)
        ensures
            match r {
                Some(i) => 0 <= i < self.len() && self.names()[i as int] == name@,
                None => !self.contains_name(name@),
            },
    {
        let mut i: usize = 0;
        while i < self.defs.len()
            invariant
                i <= self.len(),
                forall|j: int| 0 <= j < i ==> self.names()[j] != name@,
            decreases self.len() - i,
        {
            if str_eq(self.defs[i].name.as_str(), name) {
                return Some(i);
            }
            i = i + 1;
        }
        None
    }

    /// Whether the registry holds `name`.
    pub fn has_name(&self, name: &str) -> (r: bool)
        ensures
            r == self.contains_name(name@),
    {
        match self.find(name) {
            Some(_) => true,
            None => false,
        }
    }

    /// The frames stored under `name`.
    pub fn frames(&self, name: &str) -> (r: Option<&Vec<String>>)
        requires
            self.wf(),
        ensures
            match r {
                Some(v) => self.contains_name(name@) && v.deep_view() == self.frames_of(name@),
                None => !self.contains_name(name@),
            },
    {
        match self.find(name) {
            Some(i) => {
                proof {
                    self.lemma_index_of_position(i as int);
                }
                Some(&self.defs[i].frames)
            },
            None => None,
        }
    }

    /// The sorted spinner names, cloned out.
    pub fn sorted_names(&self) -> (r: Vec<String>)
        ensures
            r.deep_view() == self.names(),
    {
        let mut out: Vec<String> = Vec::new();
        let mut i: usize = 0;
        while i < self.defs.len()
            invariant
                i <= self.len(),
                out@.len() == i,
                out.deep_view() =~= self.names().take(i as int),
            decreases self.len() - i,
        {
            out.push(self.defs[i].name.clone());
            proof {
                assert forall|j: int| 0 <= j < i + 1 implies out.deep_view()[j]
                    == self.names().take(i + 1)[j] by {
                    assert(out.deep_view()[j] == out@[j]@);
                }
                assert(out.deep_view() =~= self.names().take(i + 1));
            }
            i = i + 1;
        }
        proof {
            assert(self.names().take(self.len() as int) =~= self.names());
        }
        out
    }

    /// The name after `current` on the ring, wrapping past the last
    /// name; a name the registry does not hold falls back to the first.
    pub fn next(&self, current: &str) -> (r: String)
        requires
            self.wf(),
            self.len() > 0,
        ensures
            self.contains_name(current@) ==> r@ == self.spec_next(current@),
            !self.contains_name(current@) ==> r@ == self.names()[0],
    {
        let n = self.defs.len();
        match self.find(current) {
            Some(i) => {
                proof {
                    self.lemma_index_of_position(i as int);
                }
                if i + 1 < n {
                    self.defs[i + 1].name.clone()
                } else {
                    self.defs[0].name.clone()
                }
            },
            None => self.defs[0].name.clone(),
        }
    }

    /// The name before `current` on the ring, wrapping past the first
    /// name; a name the registry does not hold falls back to the last.
    pub fn prev(&self, current: &str) -> (r: String)
        requires
            self.wf(),
            self.len() > 0,
        ensures
            self.contains_name(current@) ==> r@ == self.spec_prev(current@),
            !self.contains_name(current@) ==> r@ == self.names()[self.len() - 1],
    {
        match self.find(current) {
            Some(i) => {
                proof {
                    self.lemma_index_of_position(i as int);
                }
                if i > 0 {
                    self.defs[i - 1].name.clone()
                } else {
                    self.defs[self.defs.len() - 1].name.clone()
                }
            },
            None => self.defs[self.defs.len() - 1].name.clone(),
        }
    }

    /// Whether `current` is the first and whether it is the last name
    /// in sorted order, each by its position; the single name of a
    /// one-entry registry is both, and an unknown name is neither.
    pub fn indicator(&self, current: &str) -> (r: (bool, bool))
        requires
            self.wf(),
        ensures
            self.contains_name(current@) ==> {
                &&& r.0 == (self.index_of(current@) == 0)
                &&& r.1 == (self.index_of(current@) == self.len() - 1)
            },
            !self.contains_name(current@) ==> r == (false, false),
    {
        match self.find(current) {
            Some(i) => {
                proof {
                    self.lemma_index_of_position(i as int);
                }
                let at_start = i == 0;
                let at_end = i == self.defs.len() - 1;
                (at_start, at_end)
            },
            None => (false, false),
        }
    }

    /// The sorted name listing is lexicographically non-decreasing
    /// and holds no name twice.
    pub proof fn lemma_names_sorted_unique(self)
        requires
            self.wf(),
        ensures
            forall|i: int|
                0 <= i && i + 1 < self.len() ==> lex_le(
                    #[trigger] self.names()[i],
                    self.names()[i + 1],
                ),
            forall|i: int, j: int|
                0 <= i < j < self.len() ==> self.names()[i] != self.names()[j],
    {
        assert forall|i: int, j: int|
            0 <= i < j < self.len() implies self.names()[i] != self.names()[j] by {
            lemma_lex_lt_trichotomy(self.names()[i], self.names()[j]);
        }
    }

    /// On the ring, stepping back and then forward returns to the
    /// starting name, and so does forward then back.
    pub proof fn lemma_ring_symmetry(self, x: Seq<char>)
        requires
            self.wf(),
            self.len() > 0,
            self.contains_name(x),
        ensures
            self.spec_next(self.spec_prev(x)) == x,
            self.spec_prev(self.spec_next(x)) == x,
    {
        let i = self.index_of(x);
        assert(0 <= i < self.len() && self.names()[i] == x);
        let p = self.prev_index(i);
        self.lemma_index_of_position(p);
        assert(self.next_index(p) == i);
        let n = self.next_index(i);
        self.lemma_index_of_position(n);
        assert(self.prev_index(n) == i);
    }

    /// Inserts a definition at its sorted position, replacing any
    /// definition of the same name.
    pub fn insert_def(&mut self, def: SpinnerDef)
        requires
            old(self).wf(),
            def.valid(),
        ensures
            final(self).wf(),
            final(self).as_map() == old(self).as_map().insert(def.name@, def.frames.deep_view()),
    {
        let ghost old_self = *old(self);
        let ghost name = def.name@;
        let mut i: usize = 0;
        loop
            invariant
                *self == old_self,
                name == def.name@,
                i <= self.len(),
                forall|j: int| 0 <= j < i ==> lex_lt(self.names()[j], name),
            ensures
                i <= self.len(),
                forall|j: int| 0 <= j < i ==> lex_lt(self.names()[j], name),
                i < self.len() ==> !lex_lt(self.names()[i as int], name),
                *self == old_self,
            decreases self.len() - i,
        {
            if i >= self.defs.len() {
                break;
            }
            proof {
                assert(self.names()[i as int] == self.defs@[i as int].name@);
            }
            let go = str_lt(self.defs[i].name.as_str(), def.name.as_str());
            if !go {
                break;
            }
            i = i + 1;
        }
        let found_equal = if i < self.defs.len() {
            str_eq(self.defs[i].name.as_str(), def.name.as_str())
        } else {
            false
        };
        proof {
            if i < self.len() && !found_equal {
                lemma_lex_lt_trichotomy(self.names()[i as int], name);
                assert(lex_lt(name, self.names()[i as int]));
            }
        }
        if found_equal {
            self.defs.remove(i);
            self.defs.insert(i, def);
            proof {
                assert(self.defs@[i as int].name@ == old_self.names()[i as int]);
                lemma_insert_replaces(old_self, *self, i as int);
            }
        } else {
            self.defs.insert(i, def);
            proof {
                lemma_insert_fresh(old_self, *self, i as int);
            }
        }
    }
}

/// After replacing the definition at `i` with one of the same name,
/// the registry maps that name to the new frames and all else stands.
proof fn lemma_insert_replaces(r0: Registry, r1: Registry, i: int)
    requires
        r0.wf(),
        0 <= i < r0.len(),
        r1.defs@ == r0.defs@.remove(i).insert(i, r1.defs@[i]),
        r1.defs@[i].valid(),
        r1.names()[i] == r0.names()[i],
    ensures
        r1.wf(),
        r1.as_map() == r0.as_map().insert(r1.names()[i], r1.frames_at(i)),
{
    let name = r1.names()[i];
    assert(r1.names() =~= r0.names()) by {
        assert forall|j: int| 0 <= j < r1.len() implies r1.names()[j] == r0.names()[j] by {
            if j != i {
                assert(r1.defs@[j] == r0.defs@[j]);
            }
        }
    }
    assert forall|j: int| 0 <= j < r1.len() implies (#[trigger] r1.defs@[j]).valid() by {
        if j != i {
            assert(r1.defs@[j] == r0.defs@[j]);
        }
    }
    assert(r1.wf());
    assert_maps_equal!(r1.as_map(), r0.as_map().insert(name, r1.frames_at(i)), k => {
        if k == name {
            r1.lemma_index_of_position(i);
            assert(r1.contains_name(k));
            assert(r1.frames_of(k) == r1.frames_at(i));
        } else {
            if r1.contains_name(k) {
                let j = r1.index_of(k);
                assert(0 <= j < r1.len() && r1.names()[j] == k);
                assert(j != i);
                r0.lemma_index_of_position(j);
                r1.lemma_index_of_position(j);
                assert(r1.defs@[j] == r0.defs@[j]);
                assert(r0.contains_name(k));
                assert(r1.frames_of(k) == r0.frames_of(k));
            }
            if r0.contains_name(k) {
                let j = r0.index_of(k);
                assert(0 <= j < r0.len() && r0.names()[j] == k);
                assert(r1.contains_name(k));
            }
        }
    });
}

/// After inserting a definition with a fresh name at its sorted
/// position `i`, the registry stays sorted and maps the new name to
/// its frames while all else stands.
proof fn lemma_insert_fresh(r0: Registry, r1: Registry, i: int)
    requires
        r0.wf(),
        0 <= i <= r0.len(),
        r1.defs@ == r0.defs@.insert(i, r1.defs@[i]),
        r1.defs@[i].valid(),
        forall|j: int| 0 <= j < i ==> lex_lt(r0.names()[j], r1.names()[i]),
        i < r0.len() ==> lex_lt(r1.names()[i], r0.names()[i]),
    ensures
        r1.wf(),
        r1.as_map() == r0.as_map().insert(r1.names()[i], r1.frames_at(i)),
{
    let name = r1.names()[i];
    assert(r1.len() == r0.len() + 1);
    assert forall|j: int| 0 <= j < i implies r1.names()[j] == r0.names()[j] by {
        assert(r1.defs@[j] == r0.defs@[j]);
    }
    assert forall|j: int| i < j < r1.len() implies r1.names()[j] == r0.names()[j - 1] by {
        assert(r1.defs@[j] == r0.defs@[j - 1]);
    }
    assert forall|j: int, k: int| 0 <= j < k < r1.len() implies lex_lt(
        r1.names()[j],
        r1.names()[k],
    ) by {
        if k == i {
            assert(lex_lt(r0.names()[j], name));
        } else if j == i {
            if k - 1 > i {
                lemma_lex_lt_trans(name, r0.names()[i], r0.names()[k - 1]);
            }
        } else if j < i && k > i {
            if j < k - 1 {
                assert(lex_lt(r0.names()[j], r0.names()[k - 1]));
            }
        }
    }
    assert forall|j: int| 0 <= j < r1.len() implies (#[trigger] r1.defs@[j]).valid() by {
        if j < i {
            assert(r1.defs@[j] == r0.defs@[j]);
        } else if j > i {
            assert(r1.defs@[j] == r0.defs@[j - 1]);
        }
    }
    assert(r1.wf());
    assert_maps_equal!(r1.as_map(), r0.as_map().insert(name, r1.frames_at(i)), k => {
        if k == name {
            r1.lemma_index_of_position(i);
            assert(r1.contains_name(k));
            assert(r1.frames_of(k) == r1.frames_at(i));
        } else {
            if r1.contains_name(k) {
                let j = r1.index_of(k);
                assert(0 <= j < r1.len() && r1.names()[j] == k);
                assert(j != i);
                r1.lemma_index_of_position(j);
                if j < i {
                    r0.lemma_index_of_position(j);
                    assert(r1.defs@[j] == r0.defs@[j]);
                    assert(r0.contains_name(k) && r0.frames_of(k) == r1.frames_of(k));
                } else {
                    r0.lemma_index_of_position(j - 1);
                    assert(r1.defs@[j] == r0.defs@[j - 1]);
                    assert(r0.contains_name(k) && r0.frames_of(k) == r1.frames_of(k));
                }
            }
            if r0.contains_name(k) {
                let j = r0.index_of(k);
                assert(0 <= j < r0.len() && r0.names()[j] == k);
                if j < i {
                    assert(r1.names()[j] == k);
                } else {
                    assert(r1.names()[j + 1] == k);
                }
                assert(r1.contains_name(k));
            }
        }
    });
}

/// Whether no two definitions share a name.
pub open spec fn distinct_names(defs: Seq<SpinnerDef>) -> bool {
    forall|i: int, j: int|
        0 <= i < j < defs.len() ==> (#[trigger] defs[i]).name@ != (#[trigger] defs[j]).name@
}

/// The mapping described by a list of definitions read in order,
/// valid or not: a later definition of a name replaces an earlier one.
pub open spec fn defs_map(defs: Seq<SpinnerDef>) -> Map<Seq<char>, Seq<Seq<char>>>
    decreases defs.len(),
{
    if defs.len() == 0 {
        Map::empty()
    } else {
        defs_map(defs.drop_last()).insert(defs.last().name@, defs.last().frames.deep_view())
    }
}

/// The mapping restricted to its usable entries: a non-empty name
/// mapped to a non-empty frame list.
pub open spec fn valid_entries(m: Map<Seq<char>, Seq<Seq<char>>>) -> Map<
    Seq<char>,
    Seq<Seq<char>>,
> {
    Map::new(
        |n: Seq<char>| m.contains_key(n) && n.len() > 0 && m[n].len() > 0,
        |n: Seq<char>| m[n],
    )
}

/// Every key of `defs_map` is the name of some definition.
proof fn lemma_defs_map_dom(defs: Seq<SpinnerDef>, n: Seq<char>)
    requires
        defs_map(defs).contains_key(n),
    ensures
        exists|i: int| 0 <= i < defs.len() && (#[trigger] defs[i]).name@ == n,
    decreases defs.len(),
{
    if defs.len() > 0 {
        if n == defs.last().name@ {
            assert(defs[defs.len() - 1].name@ == n);
        } else {
            lemma_defs_map_dom(defs.drop_last(), n);
            let i = choose|i: int|
                0 <= i < defs.drop_last().len() && (#[trigger] defs.drop_last()[i]).name@ == n;
            assert(defs[i].name@ == n);
        }
    }
}

/// Over a duplicate-free list, the registry mapping is exactly the
/// raw mapping with its unusable entries dropped.
proof fn lemma_reg_map_single(defs: Seq<SpinnerDef>)
    requires
        distinct_names(defs),
    ensures
        reg_map(defs) == valid_entries(defs_map(defs)),
    decreases defs.len(),
{
    if defs.len() == 0 {
        assert_maps_equal!(reg_map(defs), valid_entries(defs_map(defs)), k => {});
    } else {
        let rest = defs.drop_last();
        let last = defs.last();
        let nm = last.name@;
        let fr = last.frames.deep_view();
        assert(distinct_names(rest)) by {
            assert(forall|i: int| 0 <= i < rest.len() ==> rest[i] == defs[i]);
        }
        lemma_reg_map_single(rest);
        assert(!defs_map(rest).contains_key(nm)) by {
            if defs_map(rest).contains_key(nm) {
                lemma_defs_map_dom(rest, nm);
                let i = choose|i: int|
                    0 <= i < rest.len() && (#[trigger] rest[i]).name@ == nm;
                assert(defs[i].name@ == defs[defs.len() - 1].name@);
            }
        }
        assert(fr.len() == last.frames@.len());
        if last.valid() {
            assert_maps_equal!(reg_map(defs), valid_entries(defs_map(defs)), k => {
                if k != nm {
                    assert(defs_map(defs)[k] == defs_map(rest)[k]);
                    assert(defs_map(defs).contains_key(k) == defs_map(rest).contains_key(k));
                }
            });
        } else {
            assert_maps_equal!(reg_map(defs), valid_entries(defs_map(defs)), k => {
                if k != nm {
                    assert(defs_map(defs)[k] == defs_map(rest)[k]);
                    assert(defs_map(defs).contains_key(k) == defs_map(rest).contains_key(k));
                }
            });
        }
    }
}

/// Over two duplicate-free lists, the registry mapping of their
/// concatenation is the usable default entries overridden by the
/// usable override entries.
pub proof fn lemma_reg_map_merge(d: Seq<SpinnerDef>, o: Seq<SpinnerDef>)
    requires
        distinct_names(d),
        distinct_names(o),
    ensures
        reg_map(d + o) == valid_entries(defs_map(d)).union_prefer_right(
            valid_entries(defs_map(o)),
        ),
    decreases o.len(),
{
    if o.len() == 0 {
        assert(d + o =~= d);
        lemma_reg_map_single(d);
        assert_maps_equal!(
            valid_entries(defs_map(d)),
            valid_entries(defs_map(d)).union_prefer_right(valid_entries(defs_map(o))),
            k => {}
        );
    } else {
        let lo = o.drop_last();
        let last = o.last();
        let nm = last.name@;
        let fr = last.frames.deep_view();
        assert(distinct_names(lo)) by {
            assert(forall|i: int| 0 <= i < lo.len() ==> lo[i] == o[i]);
        }
        lemma_reg_map_merge(d, lo);
        assert((d + o).drop_last() =~= d + lo);
        assert((d + o).last() == last);
        assert(!defs_map(lo).contains_key(nm)) by {
            if defs_map(lo).contains_key(nm) {
                lemma_defs_map_dom(lo, nm);
                let i = choose|i: int| 0 <= i < lo.len() && (#[trigger] lo[i]).name@ == nm;
                assert(o[i].name@ == o[o.len() - 1].name@);
            }
        }
        assert(fr.len() == last.frames@.len());
        let a = valid_entries(defs_map(d));
        if last.valid() {
            assert_maps_equal!(
                a.union_prefer_right(valid_entries(defs_map(lo))).insert(nm, fr),
                a.union_prefer_right(valid_entries(defs_map(o))),
                k => {
                    if k != nm {
                        assert(defs_map(o)[k] == defs_map(lo)[k]);
                        assert(defs_map(o).contains_key(k) == defs_map(lo).contains_key(k));
                    }
                }
            );
        } else {
            assert_maps_equal!(
                a.union_prefer_right(valid_entries(defs_map(lo))),
                a.union_prefer_right(valid_entries(defs_map(o))),
                k => {
                    if k != nm {
                        assert(defs_map(o)[k] == defs_map(lo)[k]);
                        assert(defs_map(o).contains_key(k) == defs_map(lo).contains_key(k));
                    } else {
                        assert(!(nm.len() > 0 && defs_map(o)[nm].len() > 0));
                    }
                }
            );
        }
    }
}

/// The mapping described by a list of definitions read in order: a
/// later definition of a name replaces an earlier one, and an invalid
/// definition is ignored.
pub open spec fn reg_map(defs: Seq<SpinnerDef>) -> Map<Seq<char>, Seq<Seq<char>>>
    decreases defs.len(),
{
    if defs.len() == 0 {
        Map::empty()
    } else {
        let rest = reg_map(defs.drop_last());
        let d = defs.last();
        if d.valid() {
            rest.insert(d.name@, d.frames.deep_view())
        } else {
            rest
        }
    }
}

/// An override definition replaces a default definition of the same
/// name whole: under that name the merged mapping holds exactly the
/// override's frame list.
pub proof fn lemma_override_wins(
    default_defs: Seq<SpinnerDef>,
    override_defs: Seq<SpinnerDef>,
    i: int,
)
    requires
        0 <= i < override_defs.len(),
        override_defs[i].valid(),
        forall|j: int|
            i < j < override_defs.len() ==> (#[trigger] override_defs[j]).name@
                != override_defs[i].name@,
    ensures
        reg_map(default_defs + override_defs).contains_key(override_defs[i].name@),
        reg_map(default_defs + override_defs)[override_defs[i].name@]
            == override_defs[i].frames.deep_view(),
    decreases override_defs.len(),
{
    let all = default_defs + override_defs;
    let name = override_defs[i].name@;
    if i == override_defs.len() - 1 {
        assert(all.last() == override_defs[i]);
        assert(all.drop_last() =~= default_defs + override_defs.drop_last());
    } else {
        let shorter = override_defs.drop_last();
        assert(all.drop_last() =~= default_defs + shorter);
        assert(shorter[i] == override_defs[i]);
        lemma_override_wins(default_defs, shorter, i);
        assert(all.last() == override_defs[override_defs.len() - 1]);
        assert(all.last().name@ != name);
    }
}

/// Builds the registry from the built-in definitions and an override
/// table: an override definition replaces a default one of the same
/// name, and a definition with an empty name or no frames is dropped.
pub fn build(default_defs: Vec<SpinnerDef>, override_defs: Vec<SpinnerDef>) -> (r: Registry)
    ensures
        r.wf(),
        r.as_map() == reg_map(default_defs@ + override_defs@),
{
    let ghost all = default_defs@ + override_defs@;
    let mut r = Registry::empty();
    let mut rest = default_defs;
    let mut more = override_defs;
    let ghost n_default = rest@.len() as int;
    let ghost mut k: int = 0;
    proof {
        assert(all.take(0) =~= Seq::<SpinnerDef>::empty());
        assert(r.as_map() =~= reg_map(all.take(0)));
        assert(rest@ =~= all.take(n_default).skip(0));
    }
    while rest.len() > 0
        invariant
            r.wf(),
            0 <= k,
            k + rest@.len() == n_default,
            0 <= n_default <= all.len(),
            all.len() == n_default + more@.len(),
            rest@ =~= all.take(n_default).skip(k as int),
            more@ =~= all.skip(n_default),
            r.as_map() == reg_map(all.take(k as int)),
        decreases rest@.len(),
    {
        let d = rest.remove(0);
        proof {
            assert(all.take(n_default)[k as int] == all[k as int]);
            assert(d == all[k as int]);
            assert(all.take(k + 1).drop_last() =~= all.take(k as int));
            assert(all.take(k + 1).last() == all[k as int]);
            assert(rest@ =~= all.take(n_default).skip(k + 1));
        }
        let valid = d.name.as_str().unicode_len() > 0 && d.frames.len() > 0;
        if valid {
            proof {
                assert(d.valid());
            }
            r.insert_def(d);
        }
        proof {
            assert(r.as_map() =~= reg_map(all.take(k + 1)));
            k = k + 1;
        }
    }
    proof {
        assert(k == n_default);
        assert(more@ =~= all.skip(k as int));
    }
    while more.len() > 0
        invariant
            r.wf(),
            0 <= k <= all.len(),
            k + more@.len() == all.len(),
            more@ =~= all.skip(k as int),
            r.as_map() == reg_map(all.take(k as int)),
        decreases more@.len(),
    {
        let d = more.remove(0);
        proof {
            assert(all.skip(k as int)[0] == all[k as int]);
            assert(d == all[k as int]);
            assert(all.take(k + 1).drop_last() =~= all.take(k as int));
            assert(all.take(k + 1).last() == all[k as int]);
            assert(more@ =~= all.skip(k + 1));
        }
        let valid = d.name.as_str().unicode_len() > 0 && d.frames.len() > 0;
        if valid {
            proof {
                assert(d.valid());
            }
            r.insert_def(d);
        }
        proof {
            assert(r.as_map() =~= reg_map(all.take(k + 1)));
            k = k + 1;
        }
    }
    proof {
        assert(all.take(all.len() as int) =~= all);
    }
    r
}

} // verus!
