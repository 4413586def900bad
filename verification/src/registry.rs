//! The registry of parsed desktop entries, keyed by display name.
//!
//! Insertion deduplicates by composed display name: a later entry with a
//! name already present replaces the earlier one, so the registry always
//! holds exactly one entry per distinct display name. Viewed abstractly,
//! the registry is a mapping from display name to launch command.

use vstd::prelude::*;

use crate::entry::DesktopEntry;
use crate::entry::composed_name;
use crate::entry::parse_desktop_file;
use crate::entry::spec_exec_value;
use crate::entry::spec_name_value;
use vstd::pervasive::VecAdditionalExecFns;
use crate::placeholders::strip_placeholders;
use crate::text::bytes_eq;
use crate::text::copy_bytes;

verus! {

/// A collection of desktop entries with pairwise distinct display names.
pub struct Registry {
    /// The entries held; well-formed registries keep their display
    /// names pairwise distinct.
    pub entries: Vec<DesktopEntry>,
}

impl Registry {
    /// The display names held, in order.
    pub open spec fn names(self) -> Seq<Seq<u8>> {
        self.entries@.map_values(|e: DesktopEntry| e.name@)
    }

    /// Well-formedness: display names are pairwise distinct.
    pub open spec fn wf(self) -> bool {
        forall|i: int, j: int|
            0 <= i < j < self.entries@.len() ==> self.entries@[i].name@ != self.entries@[j].name@
    }

    /// Whether an entry with display name `n` is held.
    pub open spec fn contains_name(self, n: Seq<u8>) -> bool {
        exists|i: int| 0 <= i < self.entries@.len() && self.entries@[i].name@ == n
    }

    /// The position of the entry with display name `n`.
    pub open spec fn index_of_name(self, n: Seq<u8>) -> int {
        choose|i: int| 0 <= i < self.entries@.len() && self.entries@[i].name@ == n
    }

    /// The launch command of the entry with display name `n`.
    pub open spec fn command_of(self, n: Seq<u8>) -> Seq<u8> {
        self.entries@[self.index_of_name(n)].command@
    }

    /// The registry as a mapping from display name to launch command.
    pub open spec fn as_map(self) -> Map<Seq<u8>, Seq<u8>> {
        Map::new(|n: Seq<u8>| self.contains_name(n), |n: Seq<u8>| self.command_of(n))
    }

    /// In a well-formed registry the entry at position `k` is the one
    /// found under its own display name.
    pub proof fn lemma_at_index(self, k: int)
        requires
            self.wf(),
            0 <= k < self.entries@.len(),
        ensures
            self.contains_name(self.entries@[k].name@),
            self.index_of_name(self.entries@[k].name@) == k,
            self.command_of(self.entries@[k].name@) == self.entries@[k].command@,
    {
        let nm = self.entries@[k].name@;
        assert(self.contains_name(nm));
        let i0 = self.index_of_name(nm);
        assert(0 <= i0 < self.entries@.len() && self.entries@[i0].name@ == nm);
        if i0 < k {
            assert(false);
        } else if k < i0 {
            assert(false);
        }
    }

    /// An empty registry.
    pub fn new() -> (r: Registry)
        ensures
            r.wf(),
            r.names() == Seq::<Seq<u8>>::empty(),
            r.as_map() == Map::<Seq<u8>, Seq<u8>>::empty(),
    {
        let r = Registry { entries: Vec::new() };
        proof {
            assert(r.names() =~= Seq::<Seq<u8>>::empty());
            assert forall|n: Seq<u8>| !r.contains_name(n) by {}
            assert(r.as_map() =~= Map::<Seq<u8>, Seq<u8>>::empty());
        }
        r
    }

    /// Number of entries held.
    pub fn len(&self) -> (r: usize)
        ensures
            r == self.names().len(),
    {
        self.entries.len()
    }

    /// Inserts an entry under its display name. An entry already held
    /// under the same name is replaced: the later insertion wins.
    pub fn insert(&mut self, de: DesktopEntry)
        requires
            old(self).wf(),
        ensures
            final(self).wf(),
            final(self).as_map() == old(self).as_map().insert(de.name@, de.command@),
            old(self).contains_name(de.name@) ==> final(self).names() == old(self).names(),
            !old(self).contains_name(de.name@) ==> final(self).names() == old(self).names().push(
                de.name@,
            ),
    {
        let ghost nm = de.name@;
        let ghost pre = *self;
        let mut i: usize = 0;
        let n = self.entries.len();
        while i < n
            invariant
                *self == pre,
                pre == *old(self),
                pre.wf(),
                n == self.entries@.len(),
                i <= n,
                nm == de.name@,
                forall|k: int| 0 <= k < i ==> self.entries@[k].name@ != nm,
            decreases n - i,
        {
            let hit = bytes_eq(&self.entries[i].name, &de.name);
            if hit {
                proof {
                    pre.lemma_at_index(i as int);
                    assert(pre.contains_name(nm));
                }
                self.entries.set(i, de);
                proof {
                    let post = *self;
                    assert forall|a: int, b: int|
                        0 <= a < b < post.entries@.len() implies post.entries@[a].name@
                        != post.entries@[b].name@ by {
                        assert(pre.entries@[a].name@ != pre.entries@[b].name@);
                    }
                    assert(post.names() =~= pre.names());
                    Self::lemma_map_after_replace(pre, post, i as int, de);
                }
                return ;
            }
            i = i + 1;
        }
        proof {
            assert forall|k: int| 0 <= k < pre.entries@.len() implies pre.entries@[k].name@
                != nm by {}
            assert(!pre.contains_name(nm));
        }
        self.entries.push(de);
        proof {
            let post = *self;
            assert forall|a: int, b: int|
                0 <= a < b < post.entries@.len() implies post.entries@[a].name@
                != post.entries@[b].name@ by {
                if b < post.entries@.len() - 1 {
                    assert(pre.entries@[a].name@ != pre.entries@[b].name@);
                } else {
                    assert(post.entries@[b].name@ == nm);
                    assert(post.entries@[a].name@ == pre.entries@[a].name@);
                }
            }
            assert(post.names() =~= pre.names().push(nm));
            Self::lemma_map_after_push(pre, post, de);
        }
    }

    /// After replacing position `i` by an entry with the same display
    /// name, the mapping is the old one with that name bound anew.
    proof fn lemma_map_after_replace(pre: Registry, post: Registry, i: int, de: DesktopEntry)
        requires
            pre.wf(),
            post.wf(),
            0 <= i < pre.entries@.len(),
            pre.entries@[i].name@ == de.name@,
            post.entries@ == pre.entries@.update(i, de),
        ensures
            post.as_map() == pre.as_map().insert(de.name@, de.command@),
    {
        let nm = de.name@;
        assert forall|m: Seq<u8>| post.contains_name(m) implies pre.contains_name(m) by {
            let k = choose|k: int|
                0 <= k < post.entries@.len() && post.entries@[k].name@ == m;
            if k == i {
                assert(pre.entries@[i].name@ == m);
            } else {
                assert(pre.entries@[k].name@ == m);
            }
        }
        assert forall|m: Seq<u8>| pre.contains_name(m) implies post.contains_name(m) by {
            let k = choose|k: int| 0 <= k < pre.entries@.len() && pre.entries@[k].name@ == m;
            if k == i {
                assert(post.entries@[i].name@ == m);
            } else {
                assert(post.entries@[k].name@ == m);
            }
        }
        post.lemma_at_index(i);
        assert forall|m: Seq<u8>| post.contains_name(m) && m != nm implies post.command_of(m)
            == pre.command_of(m) by {
            let k = choose|k: int| 0 <= k < pre.entries@.len() && pre.entries@[k].name@ == m;
            assert(k != i);
            assert(post.entries@[k].name@ == m);
            pre.lemma_at_index(k);
            post.lemma_at_index(k);
        }
        pre.lemma_at_index(i);
        assert(post.as_map() =~= pre.as_map().insert(nm, de.command@));
    }

    /// After appending an entry with a fresh display name, the mapping
    /// is the old one with that name bound.
    proof fn lemma_map_after_push(pre: Registry, post: Registry, de: DesktopEntry)
        requires
            pre.wf(),
            post.wf(),
            !pre.contains_name(de.name@),
            post.entries@ == pre.entries@.push(de),
        ensures
            post.as_map() == pre.as_map().insert(de.name@, de.command@),
    {
        let nm = de.name@;
        let last = pre.entries@.len() as int;
        assert(post.entries@[last].name@ == nm);
        assert forall|m: Seq<u8>| post.contains_name(m) implies (pre.contains_name(m) || m
            == nm) by {
            let k = choose|k: int|
                0 <= k < post.entries@.len() && post.entries@[k].name@ == m;
            if k < last {
                assert(pre.entries@[k].name@ == m);
            }
        }
        assert forall|m: Seq<u8>| pre.contains_name(m) implies post.contains_name(m) by {
            let k = choose|k: int| 0 <= k < pre.entries@.len() && pre.entries@[k].name@ == m;
            assert(post.entries@[k].name@ == m);
        }
        post.lemma_at_index(last);
        assert forall|m: Seq<u8>| post.contains_name(m) && m != nm implies post.command_of(m)
            == pre.command_of(m) by {
            let k = choose|k: int| 0 <= k < pre.entries@.len() && pre.entries@[k].name@ == m;
            assert(post.entries@[k].name@ == m);
            pre.lemma_at_index(k);
            post.lemma_at_index(k);
        }
        assert(post.as_map() =~= pre.as_map().insert(nm, de.command@));
    }

    /// A well-formed registry retains exactly one entry per distinct
    /// display name: its names are pairwise distinct, and its entry
    /// count equals the number of names its mapping binds.
    pub proof fn lemma_count_is_distinct_names(self)
        requires
            self.wf(),
        ensures
            self.names().no_duplicates(),
            self.as_map().dom().len() == self.names().len(),
    {
        assert forall|i: int, j: int|
            0 <= i < self.names().len() && 0 <= j < self.names().len() && i != j implies self.names()[i]
            != self.names()[j] by {
            if i < j {
                assert(self.entries@[i].name@ != self.entries@[j].name@);
            } else {
                assert(self.entries@[j].name@ != self.entries@[i].name@);
            }
        }
        assert forall|n: Seq<u8>|
            self.as_map().dom().contains(n) == self.names().to_set().contains(n) by {
            if self.contains_name(n) {
                let k = choose|k: int|
                    0 <= k < self.entries@.len() && self.entries@[k].name@ == n;
                assert(self.names()[k] == n);
                assert(self.names().contains(n));
            }
            if self.names().contains(n) {
                let k = choose|k: int| 0 <= k < self.names().len() && self.names()[k] == n;
                assert(self.entries@[k].name@ == n);
                assert(self.contains_name(n));
            }
        }
        assert(self.as_map().dom() =~= self.names().to_set());
        self.names().unique_seq_to_set();
    }

    /// The launch command held under display name `n`, if any.
    pub fn get(&self, n: &Vec<u8>) -> (r: Option<&Vec<u8>>)
        requires
            self.wf(),
        ensures
            r is Some <==> self.contains_name(n@),
            r is Some ==> r->0@ == self.command_of(n@),
    {
        let mut i: usize = 0;
        let ln = self.entries.len();
        while i < ln
            invariant
                self.wf(),
                ln == self.entries@.len(),
                i <= ln,
                forall|k: int| 0 <= k < i ==> self.entries@[k].name@ != n@,
            decreases ln - i,
        {
            let e = &self.entries[i];
            let hit = bytes_eq(&e.name, n);
            if hit {
                proof {
                    self.lemma_at_index(i as int);
                }
                return Some(&e.command);
            }
            i = i + 1;
        }
        proof {
            assert(!self.contains_name(n@));
        }
        None
    }

    /// The display names held, in order, as fresh byte strings.
    pub fn display_names(&self) -> (r: Vec<Vec<u8>>)
        ensures
            r.deep_view() == self.names(),
    {
        let mut out: Vec<Vec<u8>> = Vec::new();
        let mut i: usize = 0;
        let ln = self.entries.len();
        proof {
            assert(out.deep_view() =~~= self.names().take(0));
        }
        while i < ln
            invariant
                ln == self.entries@.len(),
                i <= ln,
                out.deep_view() == self.names().take(i as int),
            decreases ln - i,
        {
            let ghost old_out = out.deep_view();
            out.push(copy_bytes(&self.entries[i].name));
            proof {
                assert(out.deep_view() =~~= old_out.push(self.entries@[i as int].name@));
                assert(old_out.push(self.entries@[i as int].name@) =~~= self.names().take(
                    i as int + 1,
                ));
            }
            i = i + 1;
        }
        proof {
            assert(self.names().take(ln as int) =~~= self.names());
        }
        out
    }
}

/// The name→command mapping that parsing a sequence of descriptor
/// contents in order builds up: each content that yields an entry binds
/// its composed display name, later contents overriding earlier ones.
pub open spec fn spec_registry_of(contents: Seq<Seq<u8>>) -> Map<Seq<u8>, Seq<u8>>
    decreases contents.len(),
{
    if contents.len() == 0 {
        Map::empty()
    } else {
        let m = spec_registry_of(contents.drop_last());
        let c = contents.last();
        if spec_name_value(c) is Some && spec_exec_value(c) is Some {
            let cleaned = strip_placeholders(spec_exec_value(c)->0);
            m.insert(composed_name(spec_name_value(c)->0, cleaned), cleaned)
        } else {
            m
        }
    }
}

/// Parses each descriptor content in order and aggregates the entries,
/// deduplicating by display name with the last processed one winning.
pub fn parse_desktop_files(files: Vec<Vec<u8>>) -> (r: Registry)
    ensures
        r.wf(),
        r.as_map() == spec_registry_of(files.deep_view()),
{
    let ghost fdv = files.deep_view();
    let mut reg = Registry::new();
    let mut i: usize = 0;
    proof {
        assert(fdv.take(0) =~~= Seq::<Seq<u8>>::empty());
    }
    while i < files.len()
        invariant
            fdv == files.deep_view(),
            fdv.len() == files@.len(),
            i <= files@.len(),
            reg.wf(),
            reg.as_map() == spec_registry_of(fdv.take(i as int)),
        decreases files@.len() - i,
    {
        proof {
            assert(fdv[i as int] =~= files@[i as int]@);
            assert(fdv.take(i as int + 1).drop_last() =~~= fdv.take(i as int));
            assert(fdv.take(i as int + 1).last() =~= fdv[i as int]);
        }
        let parsed = parse_desktop_file(&files[i]);
        match parsed {
            Some(de) => {
                reg.insert(de);
            },
            None => {},
        }
        i = i + 1;
    }
    proof {
        assert(fdv.take(files@.len() as int) =~~= fdv);
    }
    reg
}

} // verus!
