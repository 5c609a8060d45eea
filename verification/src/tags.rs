//! The set of tagged processes. Tags name processes by identity (pid and
//! creation time), so a reused pid is not tagged by accident. The set is
//! kept as a list that holds each identity once.

use vstd::prelude::*;
use crate::system::ProcessIdentity;
use crate::app::TerminationTarget;
use crate::text::string_of;

verus! {

/// `id` occurs in `ids`.
pub fn slice_contains(ids: &[ProcessIdentity], id: ProcessIdentity) -> (r: bool)
    ensures
        r == ids@.contains(id),
{
    let mut i: usize = 0;
    while i < ids.len()
        invariant
            i <= ids.len(),
            forall|k: int| 0 <= k < i ==> ids@[k] != id,
        decreases ids.len() - i,
    {
        if ids[i] == id {
            return true;
        }
        i = i + 1;
    }
    false
}

proof fn lemma_remove_at(s: Seq<ProcessIdentity>, i: int)
    requires
        s.no_duplicates(),
        0 <= i < s.len(),
    ensures
        s.remove(i).no_duplicates(),
        s.remove(i).to_set() == s.to_set().remove(s[i]),
{
    let t = s.remove(i);
    assert forall|a: int, b: int| 0 <= a < t.len() && 0 <= b < t.len() && a != b implies t[a] != t[b] by {
        let sa = if a < i { a } else { a + 1 };
        let sb = if b < i { b } else { b + 1 };
        assert(t[a] == s[sa] && t[b] == s[sb]);
    }
    assert forall|x: ProcessIdentity| t.contains(x) <==> (s.contains(x) && x != s[i]) by {
        if t.contains(x) {
            let a = choose|a: int| 0 <= a < t.len() && t[a] == x;
            let sa = if a < i { a } else { a + 1 };
            assert(s[sa] == x);
        }
        if s.contains(x) && x != s[i] {
            let a = choose|a: int| 0 <= a < s.len() && s[a] == x;
            if a < i {
                assert(t[a] == x);
            } else {
                assert(t[a - 1] == x);
            }
        }
    }
    assert(t.to_set() =~= s.to_set().remove(s[i]));
}

proof fn lemma_push(s: Seq<ProcessIdentity>, x: ProcessIdentity)
    requires
        s.no_duplicates(),
        !s.contains(x),
    ensures
        s.push(x).no_duplicates(),
        s.push(x).to_set() == s.to_set().insert(x),
{
    let t = s.push(x);
    assert forall|a: int, b: int| 0 <= a < t.len() && 0 <= b < t.len() && a != b implies t[a] != t[b] by {
        if a < s.len() && b < s.len() {
            assert(t[a] == s[a] && t[b] == s[b]);
        } else if a < s.len() {
            assert(t[a] == s[a]);
        } else {
            assert(t[b] == s[b]);
        }
    }
    assert forall|y: ProcessIdentity| t.contains(y) <==> (s.contains(y) || y == x) by {
        if t.contains(y) {
            let a = choose|a: int| 0 <= a < t.len() && t[a] == y;
            if a < s.len() {
                assert(s[a] == y);
            }
        }
        if s.contains(y) {
            let a = choose|a: int| 0 <= a < s.len() && s[a] == y;
            assert(t[a] == y);
        }
        if y == x {
            assert(t[s.len() as int] == y);
        }
    }
    assert(t.to_set() =~= s.to_set().insert(x));
}

proof fn lemma_take_step(s: Seq<ProcessIdentity>, i: int)
    requires
        0 <= i < s.len(),
    ensures
        forall|x: ProcessIdentity| #[trigger] s.take(i + 1).contains(x) <==> (s.take(i).contains(x) || x == s[i]),
        s.take(i + 1).to_set() == s.take(i).to_set().insert(s[i]),
{
    let t1 = s.take(i + 1);
    let t0 = s.take(i);
    assert forall|x: ProcessIdentity| t1.contains(x) <==> (t0.contains(x) || x == s[i]) by {
        if t1.contains(x) {
            let a = choose|a: int| 0 <= a < t1.len() && t1[a] == x;
            if a < i {
                assert(t0[a] == x);
            }
        }
        if t0.contains(x) {
            let a = choose|a: int| 0 <= a < t0.len() && t0[a] == x;
            assert(t1[a] == x);
        }
        if x == s[i] {
            assert(t1[i] == x);
        }
    }
    assert(t1.to_set() =~= t0.to_set().insert(s[i]));
}

/// The tagged processes.
pub struct TagSet {
    items: Vec<ProcessIdentity>,
}

impl View for TagSet {
    type V = Set<ProcessIdentity>;

    closed spec fn view(&self) -> Set<ProcessIdentity> {
        self.items@.to_set()
    }
}

impl TagSet {
    /// Each identity is held once.
    pub closed spec fn wf(&self) -> bool {
        self.items@.no_duplicates()
    }

    pub fn new() -> (t: TagSet)
        ensures
            t.wf(),
            t@ == Set::<ProcessIdentity>::empty(),
    {
        let t = TagSet { items: Vec::new() };
        assert(t.items@.to_set() =~= Set::<ProcessIdentity>::empty());
        t
    }

    pub fn len(&self) -> (n: usize)
        requires
            self.wf(),
        ensures
            n == self@.len(),
    {
        proof {
            self.items@.unique_seq_to_set();
        }
        self.items.len()
    }

    pub fn is_empty(&self) -> (r: bool)
        requires
            self.wf(),
        ensures
            r == (self@.len() == 0),
    {
        proof {
            self.items@.unique_seq_to_set();
        }
        self.items.len() == 0
    }

    pub fn contains(&self, id: ProcessIdentity) -> (r: bool)
        ensures
            r == self@.contains(id),
    {
        slice_contains(self.items.as_slice(), id)
    }

    /// The tagged identities, each once.
    pub fn identities(&self) -> (v: Vec<ProcessIdentity>)
        requires
            self.wf(),
        ensures
            v@.no_duplicates(),
            v@.to_set() == self@,
    {
        self.items.clone()
    }

    pub fn insert(&mut self, id: ProcessIdentity)
        requires
            old(self).wf(),
        ensures
            final(self).wf(),
            final(self)@ == old(self)@.insert(id),
    {
        if !slice_contains(self.items.as_slice(), id) {
            proof {
                lemma_push(self.items@, id);
            }
            self.items.push(id);
        } else {
            assert(self.items@.to_set().insert(id) =~= self.items@.to_set());
        }
    }

    pub fn remove(&mut self, id: ProcessIdentity)
        requires
            old(self).wf(),
        ensures
            final(self).wf(),
            final(self)@ == old(self)@.remove(id),
    {
        let mut i: usize = 0;
        while i < self.items.len()
            invariant
                self.items@ == old(self).items@,
                old(self).wf(),
                i <= self.items@.len(),
                forall|k: int| 0 <= k < i ==> self.items@[k] != id,
            decreases self.items.len() - i,
        {
            if self.items[i] == id {
                proof {
                    lemma_remove_at(self.items@, i as int);
                }
                self.items.remove(i);
                return;
            }
            i = i + 1;
        }
        assert(self.items@.to_set().remove(id) =~= self.items@.to_set());
    }

    pub fn clear(&mut self)
        ensures
            final(self).wf(),
            final(self)@ == Set::<ProcessIdentity>::empty(),
    {
        self.items = Vec::new();
        assert(self.items@.to_set() =~= Set::<ProcessIdentity>::empty());
    }

    /// Tags `id` when it is untagged, untags it otherwise.
    pub fn toggle(&mut self, id: ProcessIdentity)
        requires
            old(self).wf(),
        ensures
            final(self).wf(),
            final(self)@ == if old(self)@.contains(id) {
                old(self)@.remove(id)
            } else {
                old(self)@.insert(id)
            },
    {
        if self.contains(id) {
            self.remove(id);
        } else {
            self.insert(id);
        }
    }

    /// Tags every identity of `ids`.
    pub fn insert_all(&mut self, ids: &[ProcessIdentity])
        requires
            old(self).wf(),
        ensures
            final(self).wf(),
            final(self)@ == old(self)@.union(ids@.to_set()),
    {
        let ghost start = self@;
        let mut i: usize = 0;
        while i < ids.len()
            invariant
                i <= ids.len(),
                self.wf(),
                self@ == start.union(ids@.take(i as int).to_set()),
            decreases ids.len() - i,
        {
            self.insert(ids[i]);
            proof {
                lemma_take_step(ids@, i as int);
            }
            assert(self@ =~= start.union(ids@.take(i + 1).to_set()));
            i = i + 1;
        }
        assert(ids@.take(ids@.len() as int) =~= ids@);
    }

    /// Untags every identity of `ids`.
    pub fn remove_all(&mut self, ids: &[ProcessIdentity])
        requires
            old(self).wf(),
        ensures
            final(self).wf(),
            final(self)@ == old(self)@.difference(ids@.to_set()),
    {
        let ghost start = self@;
        let mut i: usize = 0;
        while i < ids.len()
            invariant
                i <= ids.len(),
                self.wf(),
                self@ == start.difference(ids@.take(i as int).to_set()),
            decreases ids.len() - i,
        {
            self.remove(ids[i]);
            proof {
                lemma_take_step(ids@, i as int);
            }
            assert(self@ =~= start.difference(ids@.take(i + 1).to_set()));
            i = i + 1;
        }
        assert(ids@.take(ids@.len() as int) =~= ids@);
    }

    /// Untags the whole group when every member is tagged, else tags every
    /// member (tagging a branch, or all visible rows).
    pub fn toggle_group(&mut self, ids: &[ProcessIdentity])
        requires
            old(self).wf(),
        ensures
            final(self).wf(),
            final(self)@ == if ids@.to_set().subset_of(old(self)@) {
                old(self)@.difference(ids@.to_set())
            } else {
                old(self)@.union(ids@.to_set())
            },
    {
        let mut all = true;
        let mut i: usize = 0;
        while i < ids.len()
            invariant
                i <= ids.len(),
                all <==> forall|k: int| 0 <= k < i ==> self@.contains(#[trigger] ids@[k]),
            decreases ids.len() - i,
        {
            if !self.contains(ids[i]) {
                all = false;
            }
            i = i + 1;
        }
        proof {
            if all {
                assert forall|x: ProcessIdentity| ids@.to_set().contains(x) implies self@.contains(x) by {
                    let k = choose|k: int| 0 <= k < ids@.len() && ids@[k] == x;
                }
            } else {
                let k = choose|k: int| 0 <= k < ids@.len() && !self@.contains(#[trigger] ids@[k]);
                assert(ids@.to_set().contains(ids@[k]));
            }
        }
        if all {
            self.remove_all(ids);
        } else {
            self.insert_all(ids);
        }
    }

    /// Drops the tags of processes that are no longer listed.
    pub fn retain_live(&mut self, live: &[ProcessIdentity])
        requires
            old(self).wf(),
        ensures
            final(self).wf(),
            final(self)@ == old(self)@.intersect(live@.to_set()),
    {
        let ghost old_items = self.items@;
        let mut kept: Vec<ProcessIdentity> = Vec::new();
        let mut i: usize = 0;
        while i < self.items.len()
            invariant
                self.items@ == old_items,
                old_items.no_duplicates(),
                i <= old_items.len(),
                kept@.no_duplicates(),
                forall|x: ProcessIdentity| kept@.contains(x) <==> (old_items.take(i as int).contains(x) && live@.contains(x)),
            decreases self.items.len() - i,
        {
            let id = self.items[i];
            proof {
                lemma_take_step(old_items, i as int);
            }
            let ghost before_kept = kept@;
            if slice_contains(live, id) {
                proof {
                    assert(!old_items.take(i as int).contains(id)) by {
                        if old_items.take(i as int).contains(id) {
                            let a = choose|a: int| 0 <= a < i && old_items.take(i as int)[a] == id;
                            assert(old_items[a] == old_items[i as int]);
                        }
                    }
                    lemma_push(kept@, id);
                    assert forall|x: ProcessIdentity| kept@.push(id).contains(x) <==> (kept@.contains(x) || x == id) by {
                        assert(kept@.push(id).to_set().contains(x) == kept@.to_set().insert(id).contains(x));
                    }
                }
                kept.push(id);
            }
            assert forall|x: ProcessIdentity| kept@.contains(x) <==> (old_items.take(i + 1).contains(x) && live@.contains(x)) by {
                if x != id {
                    assert(kept@.contains(x) == before_kept.contains(x));
                }
            }
            i = i + 1;
        }
        assert(old_items.take(old_items.len() as int) =~= old_items);
        self.items = kept;
        assert(self.items@.to_set() =~= old_items.to_set().intersect(live@.to_set()));
    }
}

/// Toggling a process twice leaves the tags as they were.
pub proof fn toggle_twice_restores(tags: Set<ProcessIdentity>, id: ProcessIdentity)
    ensures
        ({
            let once = if tags.contains(id) { tags.remove(id) } else { tags.insert(id) };
            let twice = if once.contains(id) { once.remove(id) } else { once.insert(id) };
            twice == tags
        }),
{
    let once = if tags.contains(id) { tags.remove(id) } else { tags.insert(id) };
    let twice = if once.contains(id) { once.remove(id) } else { once.insert(id) };
    assert(twice =~= tags);
}

/// After a group toggle the group is either all tagged or all untagged,
/// and nothing outside the group changes.
pub proof fn group_toggle_is_uniform(tags: Set<ProcessIdentity>, group: Set<ProcessIdentity>)
    ensures
        ({
            let after = if group.subset_of(tags) { tags.difference(group) } else { tags.union(group) };
            &&& (forall|x: ProcessIdentity| group.contains(x) ==> after.contains(x))
                || (forall|x: ProcessIdentity| group.contains(x) ==> !after.contains(x))
            &&& forall|x: ProcessIdentity| !group.contains(x) ==> (after.contains(x) == tags.contains(x))
        }),
{
}

/// The first listed process with identity `id`.
pub open spec fn listed_with(listed: Seq<TerminationTarget>, id: ProcessIdentity) -> Option<int>
    decreases listed.len(),
{
    if listed.len() == 0 {
        None
    } else if listed[0].identity == id {
        Some(0)
    } else {
        match listed_with(listed.drop_first(), id) {
            Some(i) => Some(i + 1),
            None => None,
        }
    }
}

proof fn lemma_listed_with(listed: Seq<TerminationTarget>, id: ProcessIdentity)
    ensures
        match listed_with(listed, id) {
            Some(i) => 0 <= i < listed.len() && listed[i].identity == id && forall|k: int|
                0 <= k < i ==> listed[k].identity != id,
            None => forall|k: int| 0 <= k < listed.len() ==> listed[k].identity != id,
        },
    decreases listed.len(),
{
    if listed.len() > 0 {
        lemma_listed_with(listed.drop_first(), id);
        assert forall|k: int| 1 <= k < listed.len() implies listed[k] == listed.drop_first()[k - 1] by {}
    }
}

/// What the kill dialog shows for tagged identity `id`: the listed
/// process's name and command, or a placeholder once it has exited.
pub open spec fn describes(listed: Seq<TerminationTarget>, id: ProcessIdentity, t: TerminationTarget) -> bool {
    &&& t.identity == id
    &&& match listed_with(listed, id) {
        Some(i) => t.name@ == listed[i].name@ && t.command@ == listed[i].command@,
        None => t.name@ == "(unavailable)"@ && t.command@ == Seq::<char>::empty(),
    }
}

/// The target for `id`.
fn target_for(listed: &[TerminationTarget], id: ProcessIdentity) -> (t: TerminationTarget)
    ensures
        describes(listed@, id, t),
{
    proof {
        lemma_listed_with(listed@, id);
    }
    let mut i: usize = 0;
    while i < listed.len()
        invariant
            i <= listed.len(),
            forall|k: int| 0 <= k < i ==> listed@[k].identity != id,
            match listed_with(listed@, id) {
                Some(f) => 0 <= f < listed@.len() && listed@[f].identity == id && forall|k: int|
                    0 <= k < f ==> listed@[k].identity != id,
                None => forall|k: int| 0 <= k < listed@.len() ==> listed@[k].identity != id,
            },
        decreases listed.len() - i,
    {
        if listed[i].identity == id {
            assert(listed_with(listed@, id) == Some(i as int));
            return TerminationTarget {
                identity: id,
                name: listed[i].name.clone(),
                command: listed[i].command.clone(),
            };
        }
        i = i + 1;
    }
    proof {
        reveal_strlit("(unavailable)");
        reveal_strlit("");
        if listed_with(listed@, id) is Some {
            let f = listed_with(listed@, id)->0;
            assert(listed@[f].identity != id);
        }
    }
    let name = string_of("(unavailable)");
    let command = string_of("");
    assert(command@ =~= Seq::<char>::empty());
    assert(listed_with(listed@, id) is None);
    TerminationTarget { identity: id, name, command }
}

/// The targets a kill of the tagged processes acts on, captured when the
/// dialog opens: one per tag, in pid order.
pub fn tagged_targets(tags: &TagSet, listed: &[TerminationTarget]) -> (r: Vec<TerminationTarget>)
    requires
        tags.wf(),
    ensures
        r@.len() == tags@.len(),
        forall|a: int, b: int| 0 <= a < b < r@.len() ==> #[trigger] r@[a].identity.pid <= #[trigger] r@[b].identity.pid,
        forall|k: int| 0 <= k < r@.len() ==> tags@.contains(#[trigger] r@[k].identity) && describes(listed@, r@[k].identity, r@[k]),
        forall|id: ProcessIdentity| tags@.contains(id) ==> exists|k: int| 0 <= k < r@.len() && #[trigger] r@[k].identity == id,
{
    let ids = tags.identities();
    proof {
        ids@.unique_seq_to_set();
    }
    let mut r: Vec<TerminationTarget> = Vec::new();
    let mut i: usize = 0;
    while i < ids.len()
        invariant
            i <= ids.len(),
            ids@.no_duplicates(),
            r@.len() == i,
            forall|a: int, b: int| 0 <= a < b < r@.len() ==> #[trigger] r@[a].identity.pid <= #[trigger] r@[b].identity.pid,
            forall|k: int| 0 <= k < r@.len() ==> ids@.take(i as int).contains(#[trigger] r@[k].identity) && describes(listed@, r@[k].identity, r@[k]),
            forall|id: ProcessIdentity| ids@.take(i as int).contains(id) ==> exists|k: int| 0 <= k < r@.len() && #[trigger] r@[k].identity == id,
        decreases ids.len() - i,
    {
        let t = target_for(listed, ids[i]);
        proof {
            lemma_take_step(ids@, i as int);
        }
        let mut pos: usize = 0;
        while pos < r.len() && r[pos].identity.pid <= t.identity.pid
            invariant
                pos <= r@.len(),
                forall|k: int| 0 <= k < pos ==> (#[trigger] r@[k]).identity.pid <= t.identity.pid,
            decreases r.len() - pos,
        {
            pos = pos + 1;
        }
        let ghost before = r@;
        let ghost next = ids@.take(i + 1);
        r.insert(pos, t);
        proof {
            assert forall|a: int, b: int| 0 <= a < b < r@.len() implies #[trigger] r@[a].identity.pid
                <= #[trigger] r@[b].identity.pid by {
                if b < pos {
                    assert(r@[a] == before[a] && r@[b] == before[b]);
                } else if b == pos {
                    assert(r@[a] == before[a]);
                } else if a == pos {
                    assert(r@[b] == before[b - 1]);
                    assert(before[pos as int].identity.pid > t.identity.pid);
                    if b - 1 > pos {
                        assert(before[pos as int].identity.pid <= before[b - 1].identity.pid);
                    }
                } else if a < pos {
                    assert(r@[a] == before[a] && r@[b] == before[b - 1]);
                } else {
                    assert(r@[a] == before[a - 1] && r@[b] == before[b - 1]);
                }
            }
            assert forall|k: int| 0 <= k < r@.len() implies ids@.take(i + 1).contains(#[trigger] r@[k].identity)
                && describes(listed@, r@[k].identity, r@[k]) by {
                if k < pos {
                    assert(r@[k] == before[k]);
                } else if k > pos {
                    assert(r@[k] == before[k - 1]);
                }
            }
            assert forall|id: ProcessIdentity| #[trigger] next.contains(id) implies exists|k: int|
                0 <= k < r@.len() && #[trigger] r@[k].identity == id by {
                if id == ids@[i as int] {
                    assert(r@[pos as int].identity == id);
                } else {
                    let k = choose|k: int| 0 <= k < before.len() && #[trigger] before[k].identity == id;
                    if k < pos {
                        assert(r@[k] == before[k]);
                    } else {
                        assert(r@[k + 1] == before[k]);
                    }
                }
            }
        }
        i = i + 1;
    }
    assert(ids@.take(ids@.len() as int) =~= ids@);
    r
}

/// The followed process after a refresh: kept while a listed process has
/// its identity, dropped once it has exited or its pid belongs to another
/// process.
pub fn follow_after_refresh(follow: Option<ProcessIdentity>, live: &[ProcessIdentity]) -> (r: Option<ProcessIdentity>)
    ensures
        r == match follow {
            Some(id) => if live@.contains(id) { Some(id) } else { None },
            None => None,
        },
{
    match follow {
        Some(id) => if slice_contains(live, id) {
            Some(id)
        } else {
            None
        },
        None => None,
    }
}

} // verus!
