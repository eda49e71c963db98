//! Color groups: named sets of thread indices (e.g. "Skin Tones",
//! "Foliage") and the grouping of all colour groups of a pattern.

use std::collections::HashSet;
use vstd::prelude::*;
use crate::assoc::{AssocList, entries_view, lookup, has_key, store, erase, lemma_store, lemma_erase, keys_distinct, key_pos, lemma_key_pos_unique, lemma_take_next};
use crate::text::{concat, str_eq, strings_view};
use vstd::std_specs::iter::IteratorSpec;

verus! {

broadcast use vstd::std_specs::hash::group_hash_axioms;

/// Whether a sequence of indices is strictly increasing.
pub open spec fn strictly_increasing(s: Seq<usize>) -> bool {
    forall|i: int, j: int| 0 <= i < j < s.len() ==> s[i] < s[j]
}

/// A named group of thread indices
#[derive(Debug)]
pub struct ColorGroup {
    /// Unique name for this group
    pub name: String,
    /// Optional description
    pub description: Option<String>,
    /// Set of thread indices in this group
    pub thread_indices: HashSet<usize>,
    /// Optional parent group name (for hierarchical grouping)
    pub parent_group: Option<String>,
    /// Custom metadata for extensibility
    pub metadata: AssocList<String>,
    /// Display order (lower values appear first)
    pub display_order: i32,
    /// Whether this group is visible in UI
    pub visible: bool,
    /// Whether this group is locked (prevent modifications)
    pub locked: bool,
}

/// Groups are visible unless said otherwise.
pub fn default_visible() -> (b: bool)
    ensures
        b,
{
    true
}

/// Inserts a value into a strictly increasing vector that does not hold it.
fn sorted_insert(v: &mut Vec<usize>, x: usize)
    requires
        strictly_increasing(old(v)@),
        !old(v)@.contains(x),
    ensures
        strictly_increasing(final(v)@),
        forall|y: usize| final(v)@.contains(y) <==> (old(v)@.contains(y) || y == x),
        final(v)@.len() == old(v)@.len() + 1,
{
    let mut pos: usize = 0;
    while pos < v.len() && v[pos] < x
        invariant
            pos <= v@.len(),
            forall|j: int| 0 <= j < pos ==> v@[j] < x,
        decreases v@.len() - pos,
    {
        pos = pos + 1;
    }
    let ghost before = v@;
    proof {
        assert forall|j: int| pos <= j < before.len() implies before[j] > x by {
            assert(before[pos as int] >= x);
            assert(before[pos as int] != x);
            if j > pos {
                assert(before[pos as int] < before[j]);
            }
        }
    }
    v.insert(pos, x);
    assert forall|y: usize| v@.contains(y) <==> (before.contains(y) || y == x) by {
        if v@.contains(y) {
            let k = choose|k: int| 0 <= k < v@.len() && v@[k] == y;
            if k < pos {
                assert(before[k] == y);
            } else if k > pos {
                assert(before[k - 1] == y);
            }
        }
        if before.contains(y) {
            let k = choose|k: int| 0 <= k < before.len() && before[k] == y;
            if k < pos {
                assert(v@[k] == y);
            } else {
                assert(v@[k + 1] == y);
            }
        }
        if y == x {
            assert(v@[pos as int] == x);
        }
    }
}

impl ColorGroup {
    /// Create a new empty color group
    pub fn new(name: &str) -> (g: Self)
        ensures
            g.name@ == name@,
            g.description is None,
            g.thread_indices@ == Set::<usize>::empty(),
            g.parent_group is None,
            g.metadata.wf(),
            g.metadata@.len() == 0,
            g.display_order == 0,
            g.visible,
            !g.locked,
    {
        ColorGroup {
            name: name.to_owned(),
            description: None,
            thread_indices: HashSet::new(),
            parent_group: None,
            metadata: AssocList::new(),
            display_order: 0,
            visible: default_visible(),
            locked: false,
        }
    }

    /// Create a group with specific thread indices
    pub fn with_threads(name: &str, thread_indices: Vec<usize>) -> (g: Self)
        ensures
            g.name@ == name@,
            g.description is None,
            g.thread_indices@ == thread_indices@.to_set(),
            g.thread_indices@.finite(),
            g.parent_group is None,
            g.metadata.wf(),
            g.metadata@.len() == 0,
            g.display_order == 0,
            g.visible,
            !g.locked,
    {
        let mut group = Self::new(name);
        let mut i: usize = 0;
        while i < thread_indices.len()
            invariant
                i <= thread_indices@.len(),
                group.name@ == name@,
                group.description is None,
                group.parent_group is None,
                group.metadata.wf(),
                group.metadata@.len() == 0,
                group.display_order == 0,
                group.visible,
                !group.locked,
                group.thread_indices@ == thread_indices@.take(i as int).to_set(),
            decreases thread_indices@.len() - i,
        {
            group.thread_indices.insert(thread_indices[i]);
            proof {
                let t = thread_indices@.take(i + 1);
                assert(t =~= thread_indices@.take(i as int).push(thread_indices@[i as int]));
                thread_indices@.take(i as int).lemma_push_to_set_commute(thread_indices@[i as int]);
            }
            i = i + 1;
        }
        assert(thread_indices@.take(thread_indices@.len() as int) =~= thread_indices@);
        proof {
            vstd::seq_lib::seq_to_set_is_finite(thread_indices@);
        }
        group
    }

    /// Builder: Set description
    pub fn with_description(self, desc: &str) -> (g: Self)
        ensures
            g.description matches Some(d) && d@ == desc@,
            g.name == self.name && g.thread_indices == self.thread_indices && g.parent_group
                == self.parent_group && g.metadata == self.metadata && g.display_order
                == self.display_order && g.visible == self.visible && g.locked == self.locked,
    {
        let mut g = self;
        g.description = Some(desc.to_owned());
        g
    }

    /// Builder: Set parent group
    pub fn with_parent(self, parent: &str) -> (g: Self)
        ensures
            g.parent_group matches Some(p) && p@ == parent@,
            g.name == self.name && g.thread_indices == self.thread_indices && g.description
                == self.description && g.metadata == self.metadata && g.display_order
                == self.display_order && g.visible == self.visible && g.locked == self.locked,
    {
        let mut g = self;
        g.parent_group = Some(parent.to_owned());
        g
    }

    /// Builder: Set display order
    pub fn with_display_order(self, order: i32) -> (g: Self)
        ensures
            g.display_order == order,
            g.name == self.name && g.thread_indices == self.thread_indices && g.description
                == self.description && g.parent_group == self.parent_group && g.metadata
                == self.metadata && g.visible == self.visible && g.locked == self.locked,
    {
        let mut g = self;
        g.display_order = order;
        g
    }

    /// Builder: Set visibility
    pub fn with_visibility(self, visible: bool) -> (g: Self)
        ensures
            g.visible == visible,
            g.name == self.name && g.thread_indices == self.thread_indices && g.description
                == self.description && g.parent_group == self.parent_group && g.metadata
                == self.metadata && g.display_order == self.display_order && g.locked
                == self.locked,
    {
        let mut g = self;
        g.visible = visible;
        g
    }

    /// Builder: Set locked status
    pub fn with_locked(self, locked: bool) -> (g: Self)
        ensures
            g.locked == locked,
            g.name == self.name && g.thread_indices == self.thread_indices && g.description
                == self.description && g.parent_group == self.parent_group && g.metadata
                == self.metadata && g.display_order == self.display_order && g.visible
                == self.visible,
    {
        let mut g = self;
        g.locked = locked;
        g
    }

    /// Add a thread index; true if it was newly added
    pub fn add_thread(&mut self, thread_index: usize) -> (added: bool)
        ensures
            final(self).thread_indices@ == old(self).thread_indices@.insert(thread_index),
            added == !old(self).thread_indices@.contains(thread_index),
            old(self).thread_indices@.finite() ==> final(self).thread_indices@.finite()
                && final(self).thread_indices@.len() == old(self).thread_indices@.len() + if added {
                1int
            } else {
                0int
            },
            final(self).name == old(self).name && final(self).description
                == old(self).description && final(self).parent_group == old(self).parent_group
                && final(self).metadata == old(self).metadata && final(self).display_order
                == old(self).display_order && final(self).visible == old(self).visible
                && final(self).locked == old(self).locked,
    {
        self.thread_indices.insert(thread_index)
    }

    /// Remove a thread index; true if it was in the group
    pub fn remove_thread(&mut self, thread_index: usize) -> (removed: bool)
        ensures
            final(self).thread_indices@ == old(self).thread_indices@.remove(thread_index),
            removed == old(self).thread_indices@.contains(thread_index),
            old(self).thread_indices@.finite() ==> final(self).thread_indices@.finite()
                && final(self).thread_indices@.len() == old(self).thread_indices@.len() - if removed {
                1int
            } else {
                0int
            },
            final(self).name == old(self).name && final(self).description
                == old(self).description && final(self).parent_group == old(self).parent_group
                && final(self).metadata == old(self).metadata && final(self).display_order
                == old(self).display_order && final(self).visible == old(self).visible
                && final(self).locked == old(self).locked,
    {
        self.thread_indices.remove(&thread_index)
    }

    /// Check if this group contains a specific thread
    pub fn contains_thread(&self, thread_index: usize) -> (b: bool)
        ensures
            b == self.thread_indices@.contains(thread_index),
    {
        self.thread_indices.contains(&thread_index)
    }

    /// Get the number of threads in this group
    pub fn thread_count(&self) -> (n: usize)
        ensures
            n == self.thread_indices@.len(),
    {
        self.thread_indices.len()
    }

    /// Check if this group is empty
    pub fn is_empty(&self) -> (b: bool)
        ensures
            b == (self.thread_indices@ == Set::<usize>::empty()),
    {
        let b = self.thread_indices.is_empty();
        proof {
            if !b {
                assert(self.thread_indices@ != Set::<usize>::empty()) by {
                    let x = self.thread_indices@.choose();
                    assert(self.thread_indices@.contains(x));
                }
            }
        }
        b
    }

    /// The thread indices of this group (in no particular order)
    pub fn thread_indices_iter(&self) -> (v: Vec<usize>)
        ensures
            v@.to_set() == self.thread_indices@,
            v@.no_duplicates(),
            v@.len() == self.thread_indices@.len(),
    {
        let mut v: Vec<usize> = Vec::new();
        proof {
            let sq = vstd::std_specs::hash::spec_hash_keys_iter(&self.thread_indices).remaining();
            assert(sq.map_values(|p: &usize| *p) =~= sq.unref());
            assert(sq.take(sq.len() as int) =~= sq);
            assert(sq.take(0).map_values(|p: &usize| *p) =~= Seq::<usize>::empty());
        }
        for x in it: self.thread_indices.iter()
            invariant
                it.seq().map_values(|r: &usize| *r) == it.seq().unref(),
                it.seq().unref().to_set() == self.thread_indices@,
                it.seq().take(it.seq().len() as int) == it.seq(),
                it.seq().unref().no_duplicates(),
                it.seq().len() == self.thread_indices@.len(),
                v@ == it.seq().take(it.index() as int).map_values(|r: &usize| *r),
            ensures
                v@.to_set() == self.thread_indices@,
                v@.no_duplicates(),
                v@.len() == self.thread_indices@.len(),
        {
            v.push(*x);
            assert(v@ =~= it.seq().take(it.index() + 1).map_values(|r: &usize| *r));
        }
        v
    }

    /// Get thread indices as a sorted vector
    pub fn thread_indices_sorted(&self) -> (v: Vec<usize>)
        ensures
            strictly_increasing(v@),
            v@.to_set() == self.thread_indices@,
            v@.len() == self.thread_indices@.len(),
    {
        let items = self.thread_indices_iter();
        let mut v: Vec<usize> = Vec::new();
        let mut i: usize = 0;
        while i < items.len()
            invariant
                i <= items@.len(),
                items@.no_duplicates(),
                strictly_increasing(v@),
                v@.len() == i,
                forall|y: usize| v@.contains(y) <==> items@.take(i as int).contains(y),
            decreases items@.len() - i,
        {
            let x = items[i];
            assert(!v@.contains(x)) by {
                if v@.contains(x) {
                    let k = choose|k: int| 0 <= k < i && #[trigger] items@.take(i as int)[k] == x;
                    assert(items@[k] == items@[i as int]);
                }
            }
            sorted_insert(&mut v, x);
            proof {
                assert forall|y: usize| v@.contains(y) <==> items@.take(i + 1).contains(y) by {
                    if items@.take(i + 1).contains(y) {
                        let k = choose|k: int| 0 <= k < i + 1 && #[trigger] items@.take(i + 1)[k] == y;
                        if k < i {
                            assert(items@.take(i as int)[k] == y);
                        }
                    }
                    if items@.take(i as int).contains(y) {
                        let k = choose|k: int| 0 <= k < i && #[trigger] items@.take(i as int)[k] == y;
                        assert(items@.take(i + 1)[k] == y);
                    }
                    if y == x {
                        assert(items@.take(i + 1)[i as int] == y);
                    }
                }
            }
            i = i + 1;
        }
        assert(items@.take(items@.len() as int) =~= items@);
        assert(v@.to_set() =~= items@.to_set());
        v
    }

    /// Clear all thread indices from this group
    pub fn clear(&mut self)
        ensures
            final(self).thread_indices@ == Set::<usize>::empty(),
            final(self).name == old(self).name && final(self).description
                == old(self).description && final(self).parent_group == old(self).parent_group
                && final(self).metadata == old(self).metadata && final(self).display_order
                == old(self).display_order && final(self).visible == old(self).visible
                && final(self).locked == old(self).locked,
    {
        self.thread_indices.clear();
    }

    /// Set metadata value
    pub fn set_metadata(&mut self, key: &str, value: &str)
        requires
            old(self).metadata.wf(),
        ensures
            final(self).metadata.wf(),
            lookup(final(self).metadata@, key@) matches Some(v) && v@ == value@,
            forall|k: Seq<char>|
                k != key@ ==> #[trigger] lookup(final(self).metadata@, k) == lookup(
                    old(self).metadata@,
                    k,
                ),
            final(self).name == old(self).name && final(self).description
                == old(self).description && final(self).parent_group == old(self).parent_group
                && final(self).thread_indices == old(self).thread_indices
                && final(self).display_order == old(self).display_order && final(self).visible
                == old(self).visible && final(self).locked == old(self).locked,
    {
        let v = value.to_owned();
        proof {
            lemma_store(self.metadata@, key@, v);
        }
        self.metadata.insert(key.to_owned(), v);
    }

    /// Get metadata value
    pub fn get_metadata(&self, key: &str) -> (r: Option<&str>)
        requires
            self.metadata.wf(),
        ensures
            r matches Some(v) ==> lookup(self.metadata@, key@) matches Some(w) && w@ == v@,
            r is None ==> lookup(self.metadata@, key@) is None,
    {
        match self.metadata.get(key) {
            Some(v) => Some(v.as_str()),
            None => None,
        }
    }

    /// Remove metadata value
    pub fn remove_metadata(&mut self, key: &str) -> (r: Option<String>)
        requires
            old(self).metadata.wf(),
        ensures
            final(self).metadata.wf(),
            r == lookup(old(self).metadata@, key@),
            lookup(final(self).metadata@, key@) is None,
            forall|k: Seq<char>|
                k != key@ ==> #[trigger] lookup(final(self).metadata@, k) == lookup(
                    old(self).metadata@,
                    k,
                ),
            final(self).name == old(self).name && final(self).description
                == old(self).description && final(self).parent_group == old(self).parent_group
                && final(self).thread_indices == old(self).thread_indices
                && final(self).display_order == old(self).display_order && final(self).visible
                == old(self).visible && final(self).locked == old(self).locked,
    {
        proof {
            lemma_erase(self.metadata@, key@);
        }
        self.metadata.remove(key)
    }
}

/// A copy of a set of indices.
fn copy_index_set(s: &HashSet<usize>) -> (r: HashSet<usize>)
    ensures
        r@ == s@,
{
    let mut r: HashSet<usize> = HashSet::new();
    proof {
        let sq = vstd::std_specs::hash::spec_hash_keys_iter(s).remaining();
        assert(sq.map_values(|p: &usize| *p) =~= sq.unref());
        assert(sq.take(sq.len() as int) =~= sq);
        assert(sq.take(0).map_values(|p: &usize| *p).to_set() =~= Set::<usize>::empty());
    }
    for x in it: s.iter()
        invariant
            it.seq().map_values(|p: &usize| *p) == it.seq().unref(),
            it.seq().unref().to_set() == s@,
            it.seq().take(it.seq().len() as int) == it.seq(),
            r@ == it.seq().take(it.index() as int).map_values(|p: &usize| *p).to_set(),
        ensures
            r@ == s@,
    {
        r.insert(*x);
        proof {
            let before = it.seq().take(it.index() as int).map_values(|p: &usize| *p);
            assert(it.seq().take(it.index() + 1).map_values(|p: &usize| *p) =~= before.push(*x));
            before.lemma_push_to_set_commute(*x);
        }
    }
    r
}

/// A copy of an optional string.
fn copy_opt(o: &Option<String>) -> (r: Option<String>)
    ensures
        r == *o,
{
    match o {
        Some(s) => Some(s.clone()),
        None => None,
    }
}

impl Clone for ColorGroup {
    fn clone(&self) -> (g: Self)
        ensures
            g.name == self.name,
            g.description == self.description,
            g.thread_indices@ == self.thread_indices@,
            g.parent_group == self.parent_group,
            g.metadata@ == self.metadata@,
            g.display_order == self.display_order,
            g.visible == self.visible,
            g.locked == self.locked,
    {
        ColorGroup {
            name: self.name.clone(),
            description: copy_opt(&self.description),
            thread_indices: copy_index_set(&self.thread_indices),
            parent_group: copy_opt(&self.parent_group),
            metadata: self.metadata.duplicate(),
            display_order: self.display_order,
            visible: self.visible,
            locked: self.locked,
        }
    }
}

// ---------------------------------------------------------------------------
// Thread grouping
// ---------------------------------------------------------------------------

/// The positions below `n` whose group holds thread `t`, in increasing order.
pub open spec fn positions_with_thread(
    gs: Seq<(Seq<char>, ColorGroup)>,
    t: usize,
    n: int,
) -> Seq<int>
    decreases n,
{
    if n <= 0 {
        Seq::empty()
    } else {
        let rest = positions_with_thread(gs, t, n - 1);
        if gs[n - 1].1.thread_indices@.contains(t) {
            rest.push(n - 1)
        } else {
            rest
        }
    }
}

/// The positions that hold thread `t` are listed each once, in increasing
/// order, and they are exactly the positions below `n` whose group holds `t`.
pub proof fn lemma_positions_with_thread(gs: Seq<(Seq<char>, ColorGroup)>, t: usize, n: int)
    requires
        0 <= n <= gs.len(),
    ensures
        forall|i: int, j: int|
            0 <= i < j < positions_with_thread(gs, t, n).len() ==> #[trigger] positions_with_thread(
                gs,
                t,
                n,
            )[i] < #[trigger] positions_with_thread(gs, t, n)[j],
        forall|k: int|
            0 <= k < n ==> (positions_with_thread(gs, t, n).contains(k)
                <==> (#[trigger] gs[k]).1.thread_indices@.contains(t)),
        forall|i: int|
            0 <= i < positions_with_thread(gs, t, n).len() ==> 0 <= #[trigger] positions_with_thread(
                gs,
                t,
                n,
            )[i] < n,
    decreases n,
{
    if n > 0 {
        lemma_positions_with_thread(gs, t, n - 1);
        let rest = positions_with_thread(gs, t, n - 1);
        let all = positions_with_thread(gs, t, n);
        assert forall|k: int| 0 <= k < n implies (all.contains(k) <==> (#[trigger] gs[k]).1.thread_indices@.contains(t)) by {
            if k < n - 1 {
                if rest.contains(k) {
                    let i = choose|i: int| 0 <= i < rest.len() && rest[i] == k;
                    assert(all[i] == k);
                }
                if all.contains(k) {
                    let i = choose|i: int| 0 <= i < all.len() && all[i] == k;
                    if i < rest.len() {
                        assert(rest[i] == k);
                    }
                }
            } else {
                if gs[k].1.thread_indices@.contains(t) {
                    assert(all[all.len() - 1] == k);
                }
                if all.contains(k) {
                    let i = choose|i: int| 0 <= i < all.len() && all[i] == k;
                    if i < rest.len() {
                        assert(rest[i] < n - 1);
                    }
                }
            }
        }
    }
}

/// Whether some group holds thread `t`.
pub open spec fn grouped_in(gs: Seq<(Seq<char>, ColorGroup)>, t: usize) -> bool {
    exists|j: int| 0 <= j < gs.len() && (#[trigger] gs[j]).1.thread_indices@.contains(t)
}

/// Adding a thread that a group does not hold and removing it again gives
/// the group's threads back.
pub proof fn lemma_add_then_remove_thread(threads: Set<usize>, i: usize)
    requires
        !threads.contains(i),
    ensures
        threads.insert(i).remove(i) == threads,
{
    assert(threads.insert(i).remove(i) =~= threads);
}

/// After a successful assignment to the default group `d` (its group gains
/// exactly the threads below the count that no group held, every other
/// group stays as it was), every thread below the count is in some group:
/// none is left ungrouped.
pub proof fn lemma_assignment_leaves_none_ungrouped(
    before: Seq<(Seq<char>, ColorGroup)>,
    after: Seq<(Seq<char>, ColorGroup)>,
    d: Seq<char>,
    total: usize,
)
    requires
        keys_distinct(before),
        has_key(before, d),
        lookup(after, d) matches Some(g2) && forall|t: usize|
            #[trigger] g2.thread_indices@.contains(t) <==> (lookup(
                before,
                d,
            ).unwrap().thread_indices@.contains(t) || (t < total && !grouped_in(before, t))),
        forall|k: Seq<char>| k != d ==> #[trigger] lookup(after, k) == lookup(before, k),
    ensures
        forall|t: usize| t < total ==> #[trigger] grouped_in(after, t),
{
    let g2 = lookup(after, d).unwrap();
    let jd = key_pos(after, d);
    assert(has_key(after, d));
    assert(0 <= jd < after.len() && after[jd].1 == g2);
    assert forall|t: usize| t < total implies #[trigger] grouped_in(after, t) by {
        if !grouped_in(before, t) {
            assert(g2.thread_indices@.contains(t));
            assert(after[jd].1.thread_indices@.contains(t));
        } else {
            let i = choose|i: int| 0 <= i < before.len() && (#[trigger] before[i]).1.thread_indices@.contains(t);
            let k = before[i].0;
            lemma_key_pos_unique(before, i);
            if k == d {
                assert(lookup(before, d).unwrap().thread_indices@.contains(t));
                assert(g2.thread_indices@.contains(t));
                assert(after[jd].1.thread_indices@.contains(t));
            } else {
                assert(lookup(after, k) == Some(before[i].1));
                let j = key_pos(after, k);
                assert(has_key(after, k));
                assert(0 <= j < after.len() && after[j].1 == before[i].1);
                assert(after[j].1.thread_indices@.contains(t));
            }
        }
    }
}

/// Whether `p` lists the positions `0..n` ordered by display order, positions
/// of equal display order keeping their order (a stable sort).
pub open spec fn is_display_order(gs: Seq<(Seq<char>, ColorGroup)>, p: Seq<usize>) -> bool {
    &&& p.len() == gs.len()
    &&& forall|i: int| 0 <= i < p.len() ==> #[trigger] p[i] < gs.len()
    &&& forall|i: int, j: int|
        0 <= i < j < p.len() ==> (gs[p[i] as int].1.display_order < gs[p[j] as int].1.display_order
            || (gs[p[i] as int].1.display_order == gs[p[j] as int].1.display_order && p[i] < p[j]))
}

/// Thread grouping manager for organizing all color groups in a pattern
#[derive(Debug, Clone)]
pub struct ThreadGrouping {
    groups: AssocList<ColorGroup>,
    default_group_name: Option<String>,
}

impl ThreadGrouping {
    /// The groups with their names, in the order they were added.
    pub closed spec fn entries(&self) -> Seq<(Seq<char>, ColorGroup)> {
        self.groups@
    }

    /// The name of the default group, if one is configured.
    pub closed spec fn default_name(&self) -> Option<Seq<char>> {
        match self.default_group_name {
            Some(s) => Some(s@),
            None => None,
        }
    }

    /// Well-formedness: no group name occurs twice.
    pub open spec fn wf(&self) -> bool {
        keys_distinct(self.entries())
    }

    /// Create a new empty thread grouping
    pub fn new() -> (g: Self)
        ensures
            g.wf(),
            g.entries().len() == 0,
            g.default_name() is None,
    {
        ThreadGrouping { groups: AssocList::new(), default_group_name: None }
    }

    /// Create with a default group for ungrouped threads
    pub fn with_default_group(default_group_name: &str) -> (g: Self)
        ensures
            g.wf(),
            g.entries().len() == 1,
            g.entries()[0].0 == default_group_name@,
            g.entries()[0].1.name@ == default_group_name@,
            g.entries()[0].1.thread_indices@ == Set::<usize>::empty(),
            g.entries()[0].1.description is None,
            g.entries()[0].1.parent_group is None,
            g.entries()[0].1.metadata.wf(),
            g.entries()[0].1.metadata@.len() == 0,
            g.entries()[0].1.display_order == 0,
            g.entries()[0].1.visible,
            !g.entries()[0].1.locked,
            g.default_name() == Some(default_group_name@),
            validation_messages(g.entries(), g.default_name()) == Seq::<Seq<char>>::empty(),
    {
        let mut grouping = Self::new();
        grouping.add_group(ColorGroup::new(default_group_name));
        grouping.default_group_name = Some(default_group_name.to_owned());
        proof {
            let gs = grouping.groups@;
            assert(gs[0].0 == default_group_name@);
            assert(has_key(gs, default_group_name@));
            lemma_issues_before_step(gs, 0);
            reveal(group_issues);
            assert(group_issues(gs, 0) =~= Seq::<Seq<char>>::empty());
            assert(issues_before(gs, 1) =~= Seq::<Seq<char>>::empty());
            assert(validation_messages(gs, grouping.default_name()) =~= Seq::<Seq<char>>::empty());
        }
        grouping
    }

    /// Add a color group under its name; returns the group it replaces, if any
    pub fn add_group(&mut self, group: ColorGroup) -> (r: Option<ColorGroup>)
        requires
            old(self).wf(),
        ensures
            final(self).wf(),
            final(self).entries() == store(old(self).entries(), group.name@, group),
            r == lookup(old(self).entries(), group.name@),
            final(self).default_name() == old(self).default_name(),
            lookup(final(self).entries(), group.name@) == Some(group),
            forall|n: Seq<char>|
                n != group.name@ ==> lookup(final(self).entries(), n) == lookup(
                    old(self).entries(),
                    n,
                ),
            final(self).entries().len() == old(self).entries().len() + if r is None {
                1int
            } else {
                0int
            },
    {
        let key = group.name.clone();
        let ghost g = group;
        proof {
            lemma_store(old(self).entries(), g.name@, g);
        }
        self.groups.insert(key, group)
    }

    /// Remove a color group by name
    pub fn remove_group(&mut self, name: &str) -> (r: Option<ColorGroup>)
        requires
            old(self).wf(),
        ensures
            final(self).wf(),
            final(self).entries() == erase(old(self).entries(), name@),
            r == lookup(old(self).entries(), name@),
            final(self).default_name() == old(self).default_name(),
            lookup(final(self).entries(), name@) is None,
            forall|n: Seq<char>|
                n != name@ ==> lookup(final(self).entries(), n) == lookup(old(self).entries(), n),
            final(self).entries().len() == old(self).entries().len() - if r is None {
                0int
            } else {
                1int
            },
    {
        proof {
            lemma_erase(old(self).entries(), name@);
        }
        self.groups.remove(name)
    }

    /// Get a color group by name
    pub fn get_group(&self, name: &str) -> (r: Option<&ColorGroup>)
        requires
            self.wf(),
        ensures
            r matches Some(g) ==> lookup(self.entries(), name@) == Some(*g),
            r is None ==> lookup(self.entries(), name@) is None,
    {
        self.groups.get(name)
    }

    /// Get a mutable reference to a color group
    pub fn get_group_mut(&mut self, name: &str) -> (r: Option<&mut ColorGroup>)
        requires
            old(self).wf(),
        ensures
            r is None ==> lookup(old(self).entries(), name@) is None && final(self).entries()
                == old(self).entries(),
            r matches Some(g) ==> lookup(old(self).entries(), name@) == Some(*g)
                && final(self).entries() == store(old(self).entries(), name@, *final(g)),
            final(self).default_name() == old(self).default_name(),
    {
        self.groups.get_mut(name)
    }

    /// Check if a group exists
    pub fn has_group(&self, name: &str) -> (b: bool)
        requires
            self.wf(),
        ensures
            b == has_key(self.entries(), name@),
    {
        self.groups.contains_key(name)
    }

    /// Get the number of groups
    pub fn group_count(&self) -> (n: usize)
        ensures
            n == self.entries().len(),
    {
        self.groups.len()
    }

    /// Check if there are any groups
    pub fn is_empty(&self) -> (b: bool)
        ensures
            b == (self.entries().len() == 0),
    {
        self.groups.is_empty()
    }

    /// All groups with their names, in the order they were added
    pub fn groups_iter(&self) -> (v: Vec<(&String, &ColorGroup)>)
        ensures
            v@.len() == self.entries().len(),
            forall|i: int|
                0 <= i < v@.len() ==> (#[trigger] v@[i]).0@ == self.entries()[i].0 && *v@[i].1
                    == self.entries()[i].1,
    {
        let mut v: Vec<(&String, &ColorGroup)> = Vec::new();
        let mut i: usize = 0;
        while i < self.groups.len()
            invariant
                i <= self.entries().len(),
                v@.len() == i,
                forall|j: int|
                    0 <= j < i ==> (#[trigger] v@[j]).0@ == self.entries()[j].0 && *v@[j].1
                        == self.entries()[j].1,
            decreases self.entries().len() - i,
        {
            v.push(self.groups.entry_at(i));
            i = i + 1;
        }
        v
    }

    /// The group names, in the order the groups were added
    pub fn group_names(&self) -> (v: Vec<String>)
        ensures
            v@.len() == self.entries().len(),
            forall|i: int| 0 <= i < v@.len() ==> (#[trigger] v@[i])@ == self.entries()[i].0,
    {
        let mut v: Vec<String> = Vec::new();
        let mut i: usize = 0;
        while i < self.groups.len()
            invariant
                i <= self.entries().len(),
                v@.len() == i,
                forall|j: int| 0 <= j < i ==> (#[trigger] v@[j])@ == self.entries()[j].0,
            decreases self.entries().len() - i,
        {
            let (k, _) = self.groups.entry_at(i);
            v.push(k.clone());
            i = i + 1;
        }
        v
    }

    /// The positions of the groups ordered by display order (stable).
    fn display_positions(&self) -> (p: Vec<usize>)
        ensures
            is_display_order(self.entries(), p@),
            p@.no_duplicates(),
            forall|k: usize| k < self.entries().len() ==> p@.contains(k),
    {
        let n = self.groups.len();
        let mut p: Vec<usize> = Vec::new();
        let mut i: usize = 0;
        while i < n
            invariant
                n == self.entries().len(),
                i <= n,
                p@.len() == i,
                p@.no_duplicates(),
                forall|k: usize| k < i ==> p@.contains(k),
                forall|k: int| 0 <= k < p@.len() ==> #[trigger] p@[k] < i,
                forall|a: int, b: int|
                    0 <= a < b < p@.len() ==> (self.entries()[p@[a] as int].1.display_order
                        < self.entries()[p@[b] as int].1.display_order || (self.entries()[p@[
                        a] as int].1.display_order == self.entries()[p@[b] as int].1.display_order
                        && p@[a] < p@[b])),
            decreases n - i,
        {
            let key = self.groups.entry_at(i).1.display_order;
            let mut pos: usize = p.len();
            while pos > 0 && self.groups.entry_at(p[pos - 1]).1.display_order > key
                invariant
                    pos <= p@.len(),
                    forall|k: int| 0 <= k < p@.len() ==> #[trigger] p@[k] < i,
                    forall|k: usize| k < i ==> p@.contains(k),
                    i < n,
                    n == self.entries().len(),
                    key == self.entries()[i as int].1.display_order,
                    forall|k: int|
                        pos <= k < p@.len() ==> self.entries()[#[trigger] p@[k] as int].1.display_order
                            > key,
                decreases pos,
            {
                pos = pos - 1;
            }
            let ghost before = p@;
            p.insert(pos, i);
            proof {
                assert forall|k: usize| k < i + 1 implies p@.contains(k) by {
                    if k == i {
                        assert(p@[pos as int] == i);
                    } else {
                        assert(before.contains(k));
                        let j = choose|j: int| 0 <= j < before.len() && before[j] == k;
                        assert(p@ == before.insert(pos as int, i));
                        if j < pos {
                            assert(p@[j] == k);
                        } else {
                            assert(p@[j + 1] == k);
                        }
                    }
                }
                assert forall|k: int| 0 <= k < p@.len() implies #[trigger] p@[k] < i + 1 by {
                    if k < pos {
                        assert(p@[k] == before[k]);
                    } else if k > pos {
                        assert(p@[k] == before[k - 1]);
                    }
                }
                assert(p@.no_duplicates()) by {
                    assert forall|a: int, b: int|
                        0 <= a < p@.len() && 0 <= b < p@.len() && a != b implies p@[a] != p@[b] by {
                        if a != pos && b != pos {
                            let a0 = if a < pos { a } else { a - 1 };
                            let b0 = if b < pos { b } else { b - 1 };
                            assert(p@[a] == before[a0]);
                            assert(p@[b] == before[b0]);
                        } else if a == pos {
                            let b0 = if b < pos { b } else { b - 1 };
                            assert(p@[b] == before[b0]);
                        } else {
                            let a0 = if a < pos { a } else { a - 1 };
                            assert(p@[a] == before[a0]);
                        }
                    }
                }
                let es = self.entries();
                assert forall|a: int, b: int| 0 <= a < b < p@.len() implies (es[p@[a] as int].1.display_order
                    < es[p@[b] as int].1.display_order || (es[p@[a] as int].1.display_order
                    == es[p@[b] as int].1.display_order && p@[a] < p@[b])) by {
                    if a < pos && b < pos {
                        assert(p@[a] == before[a] && p@[b] == before[b]);
                    } else if a < pos && b == pos {
                        assert(p@[a] == before[a]);
                        if pos > 0 {
                            assert(es[before[pos - 1] as int].1.display_order <= key);
                            if a < pos - 1 {
                                assert(before[a] < i);
                            }
                        }
                    } else if a < pos && b > pos {
                        assert(p@[a] == before[a] && p@[b] == before[b - 1]);
                    } else if a == pos {
                        assert(p@[b] == before[b - 1]);
                    } else {
                        assert(p@[a] == before[a - 1] && p@[b] == before[b - 1]);
                    }
                }
            }
            i = i + 1;
        }
        p
    }

    /// Get groups sorted by display order (groups of equal order keep the order
    /// in which they were added)
    pub fn groups_sorted_by_order(&self) -> (v: Vec<&ColorGroup>)
        ensures
            exists|p: Seq<usize>|
                is_display_order(self.entries(), p) && p.no_duplicates() && v@.len() == p.len()
                    && (forall|k: usize| k < self.entries().len() ==> p.contains(k)) && forall|i: int|
                    0 <= i < p.len() ==> *(#[trigger] v@[i]) == self.entries()[p[i] as int].1,
            v@.len() == self.entries().len(),
            forall|i: int, j: int|
                0 <= i < j < v@.len() ==> (#[trigger] v@[i]).display_order <= (
                #[trigger] v@[j]).display_order,
            forall|k: int|
                0 <= k < self.entries().len() ==> v@.map_values(|g: &ColorGroup| *g).contains(
                    #[trigger] self.entries()[k].1,
                ),
    {
        let p = self.display_positions();
        let mut v: Vec<&ColorGroup> = Vec::new();
        let mut i: usize = 0;
        while i < p.len()
            invariant
                i <= p@.len(),
                is_display_order(self.entries(), p@),
                forall|k: usize| k < self.entries().len() ==> p@.contains(k),
                v@.len() == i,
                forall|k: int| 0 <= k < i ==> *(#[trigger] v@[k]) == self.entries()[p@[k] as int].1,
            decreases p@.len() - i,
        {
            v.push(self.groups.entry_at(p[i]).1);
            i = i + 1;
        }
        proof {
            let es = self.entries();
            assert forall|k: int| 0 <= k < es.len() implies v@.map_values(|g: &ColorGroup| *g).contains(
                #[trigger] es[k].1,
            ) by {
                assert(p@.contains(k as usize));
                let i = choose|i: int| 0 <= i < p@.len() && p@[i] == k as usize;
                assert(v@.map_values(|g: &ColorGroup| *g)[i] == es[k].1);
            }
            assert forall|i: int, j: int| 0 <= i < j < v@.len() implies v@[i].display_order
                <= v@[j].display_order by {
                assert(*v@[i] == es[p@[i] as int].1);
                assert(*v@[j] == es[p@[j] as int].1);
            }
        }
        v
    }

    /// Add a thread to a specific group: `Ok(true)` if added, `Ok(false)` if it was
    /// already there, `Err` if the group doesn't exist
    pub fn add_thread_to_group(&mut self, group_name: &str, thread_index: usize) -> (r: Result<
        bool,
        String,
    >)
        requires
            old(self).wf(),
        ensures
            final(self).wf(),
            final(self).default_name() == old(self).default_name(),
            r is Err <==> !has_key(old(self).entries(), group_name@),
            r matches Err(m) ==> m@ == group_missing_message(group_name@),
            r is Err ==> final(self).entries() == old(self).entries(),
            r matches Ok(added) ==> {
                let g = lookup(old(self).entries(), group_name@).unwrap();
                &&& added == !g.thread_indices@.contains(thread_index)
                &&& final(self).entries().len() == old(self).entries().len()
                &&& lookup(final(self).entries(), group_name@) matches Some(g2)
                    && g2.thread_indices@ == g.thread_indices@.insert(thread_index) && g2.name
                    == g.name && g2.parent_group == g.parent_group && g2.display_order
                    == g.display_order
                &&& forall|k: Seq<char>|
                    k != group_name@ ==> #[trigger] lookup(final(self).entries(), k) == lookup(
                        old(self).entries(),
                        k,
                    )
            },
    {
        let ghost old_entries = self.entries();
        match self.groups.get_mut(group_name) {
            Some(group) => {
                let added = group.add_thread(thread_index);
                proof {
                    lemma_store(old_entries, group_name@, *group);
                }
                Ok(added)
            },
            None => Err(group_missing(group_name)),
        }
    }

    /// Remove a thread from a specific group: `Ok(true)` if it was there,
    /// `Ok(false)` if not, `Err` if the group doesn't exist
    pub fn remove_thread_from_group(&mut self, group_name: &str, thread_index: usize) -> (r:
        Result<bool, String>)
        requires
            old(self).wf(),
        ensures
            final(self).wf(),
            final(self).default_name() == old(self).default_name(),
            r is Err <==> !has_key(old(self).entries(), group_name@),
            r matches Err(m) ==> m@ == group_missing_message(group_name@),
            r is Err ==> final(self).entries() == old(self).entries(),
            r matches Ok(removed) ==> {
                let g = lookup(old(self).entries(), group_name@).unwrap();
                &&& removed == g.thread_indices@.contains(thread_index)
                &&& final(self).entries().len() == old(self).entries().len()
                &&& lookup(final(self).entries(), group_name@) matches Some(g2)
                    && g2.thread_indices@ == g.thread_indices@.remove(thread_index) && g2.name
                    == g.name && g2.parent_group == g.parent_group && g2.display_order
                    == g.display_order
                &&& forall|k: Seq<char>|
                    k != group_name@ ==> #[trigger] lookup(final(self).entries(), k) == lookup(
                        old(self).entries(),
                        k,
                    )
            },
    {
        let ghost old_entries = self.entries();
        match self.groups.get_mut(group_name) {
            Some(group) => {
                let removed = group.remove_thread(thread_index);
                proof {
                    lemma_store(old_entries, group_name@, *group);
                }
                Ok(removed)
            },
            None => Err(group_missing(group_name)),
        }
    }

    /// The positions of the groups that hold a thread, in order.
    fn positions_holding(&self, thread_index: usize) -> (v: Vec<usize>)
        ensures
            v@.len() == positions_with_thread(self.entries(), thread_index, self.entries().len() as int).len(),
            forall|i: int|
                0 <= i < v@.len() ==> (#[trigger] v@[i]) as int == positions_with_thread(
                    self.entries(),
                    thread_index,
                    self.entries().len() as int,
                )[i],
            forall|i: int| 0 <= i < v@.len() ==> #[trigger] v@[i] < self.entries().len(),
    {
        let mut v: Vec<usize> = Vec::new();
        let mut i: usize = 0;
        while i < self.groups.len()
            invariant
                i <= self.entries().len(),
                v@.len() == positions_with_thread(self.entries(), thread_index, i as int).len(),
                forall|k: int|
                    0 <= k < v@.len() ==> (#[trigger] v@[k]) as int == positions_with_thread(
                        self.entries(),
                        thread_index,
                        i as int,
                    )[k],
                forall|k: int| 0 <= k < v@.len() ==> #[trigger] v@[k] < i,
            decreases self.entries().len() - i,
        {
            if self.groups.entry_at(i).1.contains_thread(thread_index) {
                v.push(i);
            }
            i = i + 1;
        }
        v
    }

    /// Find all groups containing a specific thread, in the order they were added
    pub fn find_groups_with_thread(&self, thread_index: usize) -> (v: Vec<&ColorGroup>)
        ensures
            v@.len() == positions_with_thread(self.entries(), thread_index, self.entries().len() as int).len(),
            forall|i: int|
                0 <= i < v@.len() ==> *(#[trigger] v@[i]) == self.entries()[positions_with_thread(
                    self.entries(),
                    thread_index,
                    self.entries().len() as int,
                )[i]].1,
    {
        let p = self.positions_holding(thread_index);
        let mut v: Vec<&ColorGroup> = Vec::new();
        let mut i: usize = 0;
        while i < p.len()
            invariant
                i <= p@.len(),
                p@.len() == positions_with_thread(self.entries(), thread_index, self.entries().len() as int).len(),
                forall|k: int|
                    0 <= k < p@.len() ==> (#[trigger] p@[k]) as int == positions_with_thread(
                        self.entries(),
                        thread_index,
                        self.entries().len() as int,
                    )[k],
                forall|k: int| 0 <= k < p@.len() ==> #[trigger] p@[k] < self.entries().len(),
                v@.len() == i,
                forall|k: int|
                    0 <= k < i ==> *(#[trigger] v@[k]) == self.entries()[p@[k] as int].1,
            decreases p@.len() - i,
        {
            v.push(self.groups.entry_at(p[i]).1);
            i = i + 1;
        }
        v
    }

    /// Find the names of all groups containing a specific thread, in the order
    /// they were added
    pub fn find_group_names_with_thread(&self, thread_index: usize) -> (v: Vec<&str>)
        ensures
            v@.len() == positions_with_thread(self.entries(), thread_index, self.entries().len() as int).len(),
            forall|i: int|
                0 <= i < v@.len() ==> (#[trigger] v@[i])@ == self.entries()[positions_with_thread(
                    self.entries(),
                    thread_index,
                    self.entries().len() as int,
                )[i]].0,
    {
        let p = self.positions_holding(thread_index);
        let mut v: Vec<&str> = Vec::new();
        let mut i: usize = 0;
        while i < p.len()
            invariant
                i <= p@.len(),
                p@.len() == positions_with_thread(self.entries(), thread_index, self.entries().len() as int).len(),
                forall|k: int|
                    0 <= k < p@.len() ==> (#[trigger] p@[k]) as int == positions_with_thread(
                        self.entries(),
                        thread_index,
                        self.entries().len() as int,
                    )[k],
                forall|k: int| 0 <= k < p@.len() ==> #[trigger] p@[k] < self.entries().len(),
                v@.len() == i,
                forall|k: int| 0 <= k < i ==> (#[trigger] v@[k])@ == self.entries()[p@[k] as int].0,
            decreases p@.len() - i,
        {
            v.push(self.groups.entry_at(p[i]).0.as_str());
            i = i + 1;
        }
        v
    }

    /// Get all thread indices across all groups (deduplicated)
    pub fn all_grouped_threads(&self) -> (r: HashSet<usize>)
        ensures
            forall|t: usize| r@.contains(t) <==> grouped_in(self.entries(), t),
    {
        let mut all: HashSet<usize> = HashSet::new();
        let mut i: usize = 0;
        while i < self.groups.len()
            invariant
                i <= self.entries().len(),
                forall|t: usize|
                    all@.contains(t) <==> exists|j: int|
                        0 <= j < i && (#[trigger] self.entries()[j]).1.thread_indices@.contains(t),
            decreases self.entries().len() - i,
        {
            let group = self.groups.entry_at(i).1;
            let members = group.thread_indices_iter();
            let ghost before = all@;
            let mut k: usize = 0;
            assert(members@.take(0).to_set() =~= Set::<usize>::empty());
            assert(all@ =~= before.union(members@.take(0).to_set()));
            while k < members.len()
                invariant
                    k <= members@.len(),
                    all@ == before.union(members@.take(k as int).to_set()),
                decreases members@.len() - k,
            {
                all.insert(members[k]);
                proof {
                    assert(members@.take(k + 1) =~= members@.take(k as int).push(members@[k as int]));
                    members@.take(k as int).lemma_push_to_set_commute(members@[k as int]);
                    assert(all@ =~= before.union(members@.take(k + 1).to_set()));
                }
                k = k + 1;
            }
            proof {
                assert(members@.take(members@.len() as int) =~= members@);
                assert(members@.to_set() == self.entries()[i as int].1.thread_indices@);
                assert forall|t: usize|
                    all@.contains(t) <==> exists|j: int|
                        0 <= j < i + 1 && (#[trigger] self.entries()[j]).1.thread_indices@.contains(t) by {
                    if self.entries()[i as int].1.thread_indices@.contains(t) {
                        assert(members@.to_set().contains(t));
                    }
                    if exists|j: int| 0 <= j < i + 1 && (#[trigger] self.entries()[j]).1.thread_indices@.contains(t) {
                        let j = choose|j: int| 0 <= j < i + 1 && (#[trigger] self.entries()[j]).1.thread_indices@.contains(t);
                        if j < i {
                            assert(before.contains(t));
                        }
                    }
                    if all@.contains(t) && !before.contains(t) {
                        assert(members@.to_set().contains(t));
                        assert(self.entries()[i as int].1.thread_indices@.contains(t));
                    }
                }
            }
            i = i + 1;
        }
        all
    }

    /// Check if a thread is in any group
    pub fn is_thread_grouped(&self, thread_index: usize) -> (b: bool)
        ensures
            b == grouped_in(self.entries(), thread_index),
    {
        let mut i: usize = 0;
        while i < self.groups.len()
            invariant
                i <= self.entries().len(),
                forall|j: int| 0 <= j < i ==> !(#[trigger] self.entries()[j]).1.thread_indices@.contains(thread_index),
            decreases self.entries().len() - i,
        {
            if self.groups.entry_at(i).1.contains_thread(thread_index) {
                return true;
            }
            i = i + 1;
        }
        false
    }

    /// The thread indices below `total_thread_count` that no group holds, in
    /// increasing order
    pub fn ungrouped_threads(&self, total_thread_count: usize) -> (v: Vec<usize>)
        ensures
            strictly_increasing(v@),
            forall|t: usize| v@.contains(t) <==> (t < total_thread_count && !grouped_in(self.entries(), t)),
    {
        let grouped = self.all_grouped_threads();
        let mut v: Vec<usize> = Vec::new();
        let mut i: usize = 0;
        while i < total_thread_count
            invariant
                i <= total_thread_count,
                forall|t: usize| grouped@.contains(t) <==> grouped_in(self.entries(), t),
                strictly_increasing(v@),
                forall|k: int| 0 <= k < v@.len() ==> #[trigger] v@[k] < i,
                forall|t: usize| v@.contains(t) <==> (t < i && !grouped_in(self.entries(), t)),
            decreases total_thread_count - i,
        {
            if !grouped.contains(&i) {
                let ghost before = v@;
                v.push(i);
                proof {
                    assert forall|t: usize| v@.contains(t) <==> (t < i + 1 && !grouped_in(self.entries(), t)) by {
                        if v@.contains(t) && t != i {
                            let q = choose|q: int| 0 <= q < v@.len() && v@[q] == t;
                            assert(q < before.len());
                            assert(before[q] == t);
                        }
                        if t < i && !grouped_in(self.entries(), t) {
                            assert(before.contains(t));
                            let q = choose|q: int| 0 <= q < before.len() && before[q] == t;
                            assert(v@[q] == t);
                        }
                        if t == i {
                            assert(v@[before.len() as int] == t);
                        }
                    }
                }
            } else {
                proof {
                    assert forall|t: usize| v@.contains(t) <==> (t < i + 1 && !grouped_in(self.entries(), t)) by {
                        if v@.contains(t) {
                            let q = choose|q: int| 0 <= q < v@.len() && v@[q] == t;
                            assert(v@[q] < i);
                        }
                    }
                }
            }
            i = i + 1;
        }
        v
    }

    /// Assign the threads below `total_thread_count` that no group holds to the
    /// default group; returns how many were assigned
    pub fn assign_to_default_group(&mut self, total_thread_count: usize) -> (r: Result<usize, String>)
        requires
            old(self).wf(),
        ensures
            final(self).wf(),
            final(self).default_name() == old(self).default_name(),
            old(self).default_name() is None ==> (r matches Err(m) && m@ == no_default_message()),
            old(self).default_name() matches Some(d) ==> (r is Err <==> !has_key(old(self).entries(), d)),
            old(self).default_name() matches Some(d) ==> (r matches Err(m) ==> m@ == default_missing_message(d)),
            r is Err ==> final(self).entries() == old(self).entries(),
            r matches Ok(count) ==> {
                let d = old(self).default_name().unwrap();
                let g = lookup(old(self).entries(), d).unwrap();
                &&& lookup(final(self).entries(), d) matches Some(g2)
                    && (forall|t: usize| g2.thread_indices@.contains(t) <==> (g.thread_indices@.contains(t)
                        || (t < total_thread_count && !grouped_in(old(self).entries(), t))))
                    && g2.name == g.name && g2.parent_group == g.parent_group
                    && g2.display_order == g.display_order
                &&& forall|k: Seq<char>| k != d ==> #[trigger] lookup(final(self).entries(), k) == lookup(old(self).entries(), k)
                &&& count as int == Set::new(|t: usize| t < total_thread_count && !grouped_in(old(self).entries(), t)).len()
                &&& final(self).entries().len() == old(self).entries().len()
            },
    {
        let default_name = match &self.default_group_name {
            Some(n) => n.clone(),
            None => {
                return Err(no_default_group());
            },
        };
        let ungrouped = self.ungrouped_threads(total_thread_count);
        let count = ungrouped.len();
        let ghost old_entries = self.entries();
        proof {
            let us = Set::new(|t: usize| t < total_thread_count && !grouped_in(old_entries, t));
            assert(ungrouped@.to_set() =~= us);
            assert(ungrouped@.no_duplicates()) by {
                assert forall|a: int, b: int| 0 <= a < ungrouped@.len() && 0 <= b < ungrouped@.len() && a != b implies ungrouped@[a] != ungrouped@[b] by {
                    if a < b {
                        assert(ungrouped@[a] < ungrouped@[b]);
                    } else {
                        assert(ungrouped@[b] < ungrouped@[a]);
                    }
                }
            }
            ungrouped@.unique_seq_to_set();
        }
        match self.groups.get_mut(default_name.as_str()) {
            Some(group) => {
                let ghost g0 = *group;
                let mut k: usize = 0;
                assert(ungrouped@.take(0).to_set() =~= Set::<usize>::empty());
                assert(group.thread_indices@ =~= g0.thread_indices@.union(ungrouped@.take(0).to_set()));
                while k < ungrouped.len()
                    invariant
                        k <= ungrouped@.len(),
                        group.name == g0.name && group.parent_group == g0.parent_group
                            && group.display_order == g0.display_order,
                        group.thread_indices@ == g0.thread_indices@.union(ungrouped@.take(k as int).to_set()),
                    decreases ungrouped@.len() - k,
                {
                    group.add_thread(ungrouped[k]);
                    proof {
                        assert(ungrouped@.take(k + 1) =~= ungrouped@.take(k as int).push(ungrouped@[k as int]));
                        ungrouped@.take(k as int).lemma_push_to_set_commute(ungrouped@[k as int]);
                        assert(group.thread_indices@ =~= g0.thread_indices@.union(ungrouped@.take(k + 1).to_set()));
                    }
                    k = k + 1;
                }
                proof {
                    assert(ungrouped@.take(ungrouped@.len() as int) =~= ungrouped@);
                    assert forall|t: usize| group.thread_indices@.contains(t) <==> (g0.thread_indices@.contains(t)
                        || (t < total_thread_count && !grouped_in(old_entries, t))) by {
                        if ungrouped@.contains(t) {
                            assert(ungrouped@.to_set().contains(t));
                        }
                        if t < total_thread_count && !grouped_in(old_entries, t) {
                            assert(ungrouped@.contains(t));
                            assert(ungrouped@.to_set().contains(t));
                        }
                    }
                    lemma_store(old_entries, default_name@, *group);
                }
                Ok(count)
            },
            None => Err(default_missing(default_name.as_str())),
        }
    }

    /// Set the default group name
    pub fn set_default_group(&mut self, name: Option<String>)
        ensures
            final(self).entries() == old(self).entries(),
            final(self).default_name() == match name {
                Some(s) => Some(s@),
                None => None::<Seq<char>>,
            },
            final(self).wf() == old(self).wf(),
    {
        self.default_group_name = name;
    }

    /// Get the default group name
    pub fn default_group(&self) -> (r: Option<&str>)
        ensures
            match r {
                Some(s) => self.default_name() == Some(s@),
                None => self.default_name() is None,
            },
    {
        match &self.default_group_name {
            Some(s) => Some(s.as_str()),
            None => None,
        }
    }

    /// Check if a default group is configured
    pub fn has_default_group(&self) -> (b: bool)
        ensures
            b == self.default_name() is Some,
    {
        self.default_group_name.is_some()
    }

    /// Clear all groups and the default group name
    pub fn clear(&mut self)
        ensures
            final(self).wf(),
            final(self).entries().len() == 0,
            final(self).default_name() is None,
    {
        self.groups.clear();
        self.default_group_name = None;
    }

    /// The parent group name of the group with a given name.
    fn parent_name(&self, name: &String) -> (r: Option<String>)
        requires
            self.wf(),
        ensures
            match r {
                Some(p) => parent_of(self.entries(), name@) == Some(p@),
                None => parent_of(self.entries(), name@) is None,
            },
    {
        match self.groups.get(name.as_str()) {
            Some(g) => match &g.parent_group {
                Some(p) => Some(p.clone()),
                None => None,
            },
            None => None,
        }
    }

    /// The circular-reference message of a group, if its chain of parents
    /// comes back to a name.
    fn cycle_message(&self, name: &String) -> (r: Option<String>)
        requires
            self.wf(),
        ensures
            r is Some <==> has_cycle(self.entries(), name@),
            r matches Some(m) ==> m@ == circular_message(
                name@,
                walk_prefix(self.entries(), name@, first_cycle(self.entries(), name@)),
            ),
    {
        let ghost gs = self.entries();
        let ghost start = name@;
        let mut visited: Vec<String> = Vec::new();
        let mut current: Option<String> = Some(name.clone());
        loop
            invariant
                self.wf(),
                gs == self.entries(),
                start == name@,
                forall|a: int| 0 <= a < visited@.len() ==> walk(gs, start, a as nat) == Some(#[trigger] visited@[a]@),
                match current {
                    Some(c) => walk(gs, start, visited@.len() as nat) == Some(c@),
                    None => walk(gs, start, visited@.len() as nat) is None,
                },
                forall|a: int, b: int|
                    0 <= a < b < visited@.len() ==> visited@[a]@ != visited@[b]@,
                forall|k: nat| k < visited@.len() ==> !cycle_at(gs, start, k),
                forall|a: int| 0 <= a < visited@.len() && (a + 1 < visited@.len() || current is Some)
                    ==> has_key(gs, #[trigger] visited@[a]@),
                visited@.len() <= gs.len() + 1,
            decreases gs.len() + 1 - visited@.len(),
        {
            let c = match current {
                Some(c) => c,
                None => {
                    proof {
                        assert forall|j: nat| !cycle_at(gs, start, j) by {
                            if j >= visited@.len() {
                                lemma_walk_stops(gs, start, visited@.len() as nat, j);
                            }
                        }
                    }
                    return None;
                },
            };
            let n = visited.len();
            if contains_name(&visited, &c) {
                let chain = join_names(&visited);
                let a = concat("Circular reference detected in group '", name.as_str());
                let b = concat(a.as_str(), "' (chain involves: ");
                let d = concat(b.as_str(), chain.as_str());
                let m = concat(d.as_str(), ")");
                proof {
                    let i = choose|i: int| 0 <= i < visited@.len() && (#[trigger] visited@[i])@ == c@;
                    assert(walk(gs, start, i as nat) == Some(visited@[i]@));
                    assert(walk(gs, start, i as nat) == walk(gs, start, n as nat));
                    assert(visited@.map_values(|x: String| x@) =~= walk_prefix(gs, start, n as nat));
                    assert(cycle_at(gs, start, n as nat));
                    let f = first_cycle(gs, start);
                    assert(cycle_at(gs, start, f) && forall|k: nat| k < f ==> !cycle_at(gs, start, k));
                    assert(f == n);
                }
                return Some(m);
            }
            let next = self.parent_name(&c);
            proof {
                let vv = visited@.map_values(|x: String| x@);
                assert(vv.no_duplicates()) by {
                    assert forall|a: int, b: int| 0 <= a < vv.len() && 0 <= b < vv.len() && a != b implies vv[a] != vv[b] by {
                        if a < b {
                            assert(visited@[a]@ != visited@[b]@);
                        } else {
                            assert(visited@[b]@ != visited@[a]@);
                        }
                    }
                }
                assert forall|a: int| 0 <= a < vv.len() implies has_key(gs, #[trigger] vv[a]) by {
                    assert(vv[a] == visited@[a]@);
                }
                lemma_distinct_keys_bound(gs, vv);
                assert(!cycle_at(gs, start, n as nat)) by {
                    if cycle_at(gs, start, n as nat) {
                        let i = choose|i: nat| i < n && walk(gs, start, i) == walk(gs, start, n as nat);
                        assert(walk(gs, start, i) == Some(visited@[i as int]@));
                    }
                }
                if next is Some {
                    assert(has_key(gs, c@)) by {
                        if !has_key(gs, c@) {
                            assert(lookup(gs, c@) is None);
                        }
                    }
                    let names = vv.push(c@);
                    assert forall|a: int| 0 <= a < names.len() implies has_key(gs, #[trigger] names[a]) by {
                        if a < n {
                            assert(names[a] == visited@[a]@);
                        }
                    }
                    assert(names.no_duplicates()) by {
                        assert forall|a: int, b: int| 0 <= a < names.len() && 0 <= b < names.len() && a != b implies names[a] != names[b] by {
                            if a < n && b < n {
                                assert(names[a] == visited@[a]@ && names[b] == visited@[b]@);
                            } else if a < n {
                                assert(names[a] == visited@[a]@);
                            } else if b < n {
                                assert(names[b] == visited@[b]@);
                            }
                        }
                    }
                    lemma_distinct_keys_bound(gs, names);
                }
            }
            visited.push(c);
            current = next;
        }
    }

    /// The problems of the group at a position.
    #[verifier::spinoff_prover]
    #[verifier::rlimit(40)]
    fn group_issue_messages(&self, i: usize) -> (v: Vec<String>)
        requires
            self.wf(),
            i < self.entries().len(),
        ensures
            strings_view(v@) == group_issues(self.entries(), i as int),
    {
        let ghost gs = self.entries();
        reveal(group_issues);
        let mut v: Vec<String> = Vec::new();
        let (name, group) = self.groups.entry_at(i);
        match &group.parent_group {
            Some(parent) => {
                if !self.groups.contains_key(parent.as_str()) {
                    let a = concat("Group '", name.as_str());
                    let b = concat(a.as_str(), "' has invalid parent '");
                    let c = concat(b.as_str(), parent.as_str());
                    let m = concat(c.as_str(), "'");
                    v.push(m);
                }
                let ghost mid = strings_view(v@);
                assert(mid =~= (if has_key(gs, parent@) {
                    Seq::<Seq<char>>::empty()
                } else {
                    seq![invalid_parent_message(name@, parent@)]
                }));
                match self.cycle_message(name) {
                    Some(m) => v.push(m),
                    None => {},
                }
                assert(strings_view(v@) =~= group_issues(gs, i as int));
            },
            None => {
                assert(strings_view(v@) =~= group_issues(gs, i as int));
            },
        }
        v
    }

    /// Validate group structure: groups whose parent names no group, chains of
    /// parents that come back to a group, and a default group name that names no
    /// group; returns the problems found, in group order
    pub fn validate(&self) -> (errors: Vec<String>)
        requires
            self.wf(),
        ensures
            strings_view(errors@) == validation_messages(self.entries(), self.default_name()),
    {
        let mut errors: Vec<String> = Vec::new();
        let ghost gs = self.entries();
        let mut i: usize = 0;
        while i < self.groups.len()
            invariant
                self.wf(),
                gs == self.entries(),
                i <= gs.len(),
                strings_view(errors@) == issues_before(gs, i as int),
            decreases gs.len() - i,
        {
            let issues = self.group_issue_messages(i);
            let ghost before = strings_view(errors@);
            let mut k: usize = 0;
            while k < issues.len()
                invariant
                    k <= issues@.len(),
                    strings_view(errors@) == before + strings_view(issues@.take(k as int)),
                decreases issues@.len() - k,
            {
                let ghost prev = errors@;
                errors.push(issues[k].clone());
                assert(issues@.take(k + 1) =~= issues@.take(k as int).push(issues@[k as int]));
                assert(strings_view(errors@) =~= strings_view(prev).push(issues@[k as int]@));
                assert(strings_view(issues@.take(k + 1)) =~= strings_view(issues@.take(k as int)).push(
                    issues@[k as int]@,
                ));
                assert(strings_view(errors@) =~= before + strings_view(issues@.take(k + 1)));
                k = k + 1;
            }
            assert(issues@.take(issues@.len() as int) =~= issues@);
            proof {
                lemma_issues_before_step(gs, i as int);
            }
            assert(strings_view(errors@) =~= issues_before(gs, i + 1));
            i = i + 1;
        }
        let ghost before = strings_view(errors@);
        match &self.default_group_name {
            Some(d) => {
                if !self.groups.contains_key(d.as_str()) {
                    errors.push(default_missing(d.as_str()));
                }
            },
            None => {},
        }
        assert(strings_view(errors@) =~= validation_messages(gs, self.default_name()));
        errors
    }

    /// Merge another grouping into this one; groups with the same name are
    /// replaced by the other's
    pub fn merge(&mut self, other: ThreadGrouping)
        requires
            old(self).wf(),
            other.wf(),
        ensures
            final(self).wf(),
            final(self).default_name() == old(self).default_name(),
            forall|k: Seq<char>| #[trigger] lookup(final(self).entries(), k) == if has_key(other.entries(), k) {
                lookup(other.entries(), k)
            } else {
                lookup(old(self).entries(), k)
            },
    {
        let ghost oe = other.entries();
        let ghost se = self.entries();
        let mut es = other.groups.into_entries();
        let ghost n = oe.len();
        let total = es.len();
        assert(entries_view(es@).len() == es@.len());
        assert(n == total);
        assert(keys_distinct(oe));
        assert(oe.take(0) =~= Seq::<(Seq<char>, ColorGroup)>::empty());
        let mut i: usize = 0;
        while es.len() > 0
            invariant
                self.wf(),
                keys_distinct(oe),
                i <= n,
                n == oe.len(),
                n <= usize::MAX,
                entries_view(es@) == oe.skip(i as int),
                self.default_name() == old(self).default_name(),
                forall|k: Seq<char>| #[trigger] lookup(self.entries(), k) == if has_key(oe.take(i as int), k) {
                    lookup(oe.take(i as int), k)
                } else {
                    lookup(se, k)
                },
            decreases es@.len(),
        {
            let ghost before = es@;
            assert(entries_view(before).len() == before.len());
            assert(oe.skip(i as int).len() == before.len());
            assert(i < n);
            assert(entries_view(before)[0] == oe.skip(i as int)[0]);
            let (name, group) = es.remove(0);
            assert(entries_view(es@) =~= oe.skip(i + 1)) by {
                assert(es@ =~= before.drop_first());
                assert(entries_view(es@).len() == oe.skip(i + 1).len());
                assert forall|q: int| 0 <= q < entries_view(es@).len() implies entries_view(es@)[q] == oe.skip(i + 1)[q] by {
                    assert(es@[q] == before[q + 1]);
                    assert(entries_view(before)[q + 1] == oe.skip(i as int)[q + 1]);
                    assert(oe.skip(i as int)[q + 1] == oe.skip(i + 1)[q]);
                }
            }
            assert(name@ == oe[i as int].0 && group == oe[i as int].1);
            let ghost prev = self.entries();
            proof {
                lemma_store(prev, name@, group);
            }
            self.groups.insert(name, group);
            proof {
                assert forall|k: Seq<char>| #[trigger] lookup(self.entries(), k) == if has_key(oe.take(i + 1), k) {
                    lookup(oe.take(i + 1), k)
                } else {
                    lookup(se, k)
                } by {
                    lemma_take_next(oe, i as int, k);
                    if k != oe[i as int].0 {
                        assert(lookup(self.entries(), k) == lookup(prev, k));
                    }
                }
            }
            i = i + 1;
        }
        assert(oe.skip(i as int).len() == 0);
        assert(oe.take(i as int) =~= oe);
    }
}

/// The parent group name of the group with key `name`, if it exists and has one.
pub open spec fn parent_of(gs: Seq<(Seq<char>, ColorGroup)>, name: Seq<char>) -> Option<Seq<char>> {
    match lookup(gs, name) {
        Some(g) => match g.parent_group {
            Some(p) => Some(p@),
            None => None,
        },
        None => None,
    }
}

/// The name reached from `start` after `k` steps to the parent group; `None`
/// once a step finds no group or no parent.
pub open spec fn walk(gs: Seq<(Seq<char>, ColorGroup)>, start: Seq<char>, k: nat) -> Option<Seq<char>>
    decreases k,
{
    if k == 0 {
        Some(start)
    } else {
        match walk(gs, start, (k - 1) as nat) {
            Some(c) => parent_of(gs, c),
            None => None,
        }
    }
}

/// Whether step `j` of the walk reaches a name already reached at an earlier step.
pub open spec fn cycle_at(gs: Seq<(Seq<char>, ColorGroup)>, start: Seq<char>, j: nat) -> bool {
    walk(gs, start, j) is Some && exists|i: nat| i < j && walk(gs, start, i) == walk(gs, start, j)
}

/// Whether the walk of parent groups from `start` comes back to a name.
pub open spec fn has_cycle(gs: Seq<(Seq<char>, ColorGroup)>, start: Seq<char>) -> bool {
    exists|j: nat| cycle_at(gs, start, j)
}

/// The first step at which the walk comes back to a name.
pub open spec fn first_cycle(gs: Seq<(Seq<char>, ColorGroup)>, start: Seq<char>) -> nat {
    choose|j: nat| cycle_at(gs, start, j) && forall|k: nat| k < j ==> !cycle_at(gs, start, k)
}

/// The names of the walk before step `j`.
pub open spec fn walk_prefix(gs: Seq<(Seq<char>, ColorGroup)>, start: Seq<char>, j: nat) -> Seq<Seq<char>> {
    Seq::new(j, |i: int| walk(gs, start, i as nat).unwrap())
}

/// Names joined by ` → `.
pub open spec fn join_arrow(names: Seq<Seq<char>>) -> Seq<char>
    decreases names.len(),
{
    if names.len() == 0 {
        Seq::empty()
    } else if names.len() == 1 {
        names[0]
    } else {
        join_arrow(names.drop_last()) + " → "@ + names.last()
    }
}

/// `Group '<name>' has invalid parent '<parent>'`.
pub open spec fn invalid_parent_message(name: Seq<char>, parent: Seq<char>) -> Seq<char> {
    "Group '"@ + name + "' has invalid parent '"@ + parent + "'"@
}

/// `Circular reference detected in group '<name>' (chain involves: a → b → ...)`.
pub open spec fn circular_message(name: Seq<char>, chain: Seq<Seq<char>>) -> Seq<char> {
    "Circular reference detected in group '"@ + name + "' (chain involves: "@ + join_arrow(chain)
        + ")"@
}

/// The problems of the group at position `i`: an invalid parent, then a cycle
/// in its chain of parents.
#[verifier::opaque]
pub open spec fn group_issues(gs: Seq<(Seq<char>, ColorGroup)>, i: int) -> Seq<Seq<char>> {
    let name = gs[i].0;
    match gs[i].1.parent_group {
        None => Seq::empty(),
        Some(p) => (if has_key(gs, p@) {
            Seq::empty()
        } else {
            seq![invalid_parent_message(name, p@)]
        }) + (if has_cycle(gs, name) {
            seq![circular_message(name, walk_prefix(gs, name, first_cycle(gs, name)))]
        } else {
            Seq::empty()
        }),
    }
}

/// The problems of the groups before position `k`.
pub open spec fn issues_before(gs: Seq<(Seq<char>, ColorGroup)>, k: int) -> Seq<Seq<char>>
    decreases k,
{
    if k <= 0 {
        Seq::empty()
    } else {
        issues_before(gs, k - 1) + group_issues(gs, k - 1)
    }
}

/// All problems of a grouping: those of each group in order, then a default
/// group name that names no group.
pub open spec fn validation_messages(
    gs: Seq<(Seq<char>, ColorGroup)>,
    default: Option<Seq<char>>,
) -> Seq<Seq<char>> {
    issues_before(gs, gs.len() as int) + match default {
        Some(d) => if has_key(gs, d) {
            Seq::empty()
        } else {
            seq![default_missing_message(d)]
        },
        None => Seq::empty(),
    }
}

/// The problems before position `k + 1` are those before `k` and those of group `k`.
proof fn lemma_issues_before_step(gs: Seq<(Seq<char>, ColorGroup)>, k: int)
    requires
        k >= 0,
    ensures
        issues_before(gs, k + 1) == issues_before(gs, k) + group_issues(gs, k),
{
    assert(k + 1 > 0);
    assert(k + 1 - 1 == k);
}

/// Once the walk stops it stays stopped.
proof fn lemma_walk_stops(gs: Seq<(Seq<char>, ColorGroup)>, start: Seq<char>, k: nat, m: nat)
    requires
        walk(gs, start, k) is None,
        k <= m,
    ensures
        walk(gs, start, m) is None,
    decreases m - k,
{
    if k < m {
        lemma_walk_stops(gs, start, k, (m - 1) as nat);
    }
}

/// Distinct names that are all group keys number at most the groups.
proof fn lemma_distinct_keys_bound(gs: Seq<(Seq<char>, ColorGroup)>, names: Seq<Seq<char>>)
    requires
        names.no_duplicates(),
        forall|i: int| 0 <= i < names.len() ==> has_key(gs, #[trigger] names[i]),
    ensures
        names.len() <= gs.len(),
{
    let ks = crate::assoc::keys_of(gs);
    assert(names.to_set().subset_of(ks.to_set())) by {
        assert forall|x: Seq<char>| names.to_set().contains(x) implies ks.to_set().contains(x) by {
            let i = choose|i: int| 0 <= i < names.len() && names[i] == x;
            assert(has_key(gs, names[i]));
            let q = key_pos(gs, x);
            assert(ks[q] == x);
        }
    }
    names.unique_seq_to_set();
    ks.lemma_cardinality_of_set();
    vstd::set_lib::lemma_len_subset(names.to_set(), ks.to_set());
}

/// Whether some string of a vector has the same characters as `s`.
fn contains_name(v: &Vec<String>, s: &String) -> (b: bool)
    ensures
        b == exists|i: int| 0 <= i < v@.len() && (#[trigger] v@[i])@ == s@,
{
    let mut i: usize = 0;
    while i < v.len()
        invariant
            i <= v@.len(),
            forall|j: int| 0 <= j < i ==> (#[trigger] v@[j])@ != s@,
        decreases v@.len() - i,
    {
        if v[i] == *s {
            return true;
        }
        i = i + 1;
    }
    false
}

/// The names of a vector joined by ` → `.
fn join_names(v: &Vec<String>) -> (s: String)
    ensures
        s@ == join_arrow(v@.map_values(|x: String| x@)),
{
    let mut s = String::new();
    let mut i: usize = 0;
    while i < v.len()
        invariant
            i <= v@.len(),
            s@ == join_arrow(v@.take(i as int).map_values(|x: String| x@)),
        decreases v@.len() - i,
    {
        let ghost prefix = v@.take(i as int).map_values(|x: String| x@);
        let ghost next = v@.take(i + 1).map_values(|x: String| x@);
        assert(next.drop_last() =~= prefix);
        if i > 0 {
            s = concat(s.as_str(), " → ");
        }
        s = concat(s.as_str(), v[i].as_str());
        proof {
            if i == 0 {
                assert(s@ =~= next[0]);
            } else {
                assert(s@ =~= join_arrow(prefix) + " → "@ + next.last());
            }
        }
        i = i + 1;
    }
    assert(v@.take(v@.len() as int) =~= v@);
    s
}

/// `Group '<name>' does not exist`.
pub open spec fn group_missing_message(name: Seq<char>) -> Seq<char> {
    "Group '"@ + name + "' does not exist"@
}

/// `Default group '<name>' does not exist`.
pub open spec fn default_missing_message(name: Seq<char>) -> Seq<char> {
    "Default group '"@ + name + "' does not exist"@
}

/// `No default group configured`.
pub open spec fn no_default_message() -> Seq<char> {
    "No default group configured"@
}

fn group_missing(name: &str) -> (m: String)
    ensures
        m@ == group_missing_message(name@),
{
    let a = concat("Group '", name);
    concat(a.as_str(), "' does not exist")
}

fn default_missing(name: &str) -> (m: String)
    ensures
        m@ == default_missing_message(name@),
{
    let a = concat("Default group '", name);
    concat(a.as_str(), "' does not exist")
}

fn no_default_group() -> (m: String)
    ensures
        m@ == no_default_message(),
{
    "No default group configured".to_owned()
}

impl Default for ThreadGrouping {
    fn default() -> (g: Self)
        ensures
            g.wf(),
            g.entries().len() == 0,
            g.default_name() is None,
    {
        Self::new()
    }
}

} // verus!
