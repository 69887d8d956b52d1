//! The decisions of the directory watcher: which events to record, how
//! changes to one path accumulate, and when to reload.
//!
//! The watcher itself waits for events and for its deadline; each time one
//! arrives it hands it to `WatchState::step` and performs the action returned.

use vstd::prelude::*;

use crate::changes::{
    EntryKind, PathChange, WatchEventKind, event_change, merged_path_change, recorded_kind,
    resolve_entry_kind, stated_entry_kind, explicit_entry_kind, file_change,
};
use crate::text::chars_of;

verus! {

/// The rank of a character when paths are ordered: the separator comes
/// before every other character, so that paths order component by component.
pub open spec fn path_rank(c: char) -> int {
    if c == '/' {
        -1
    } else {
        (c as u32) as int
    }
}

/// Whether path `a` orders before path `b`, component by component as
/// `std::path::PathBuf` orders normalized paths.
pub open spec fn path_before(a: Seq<char>, b: Seq<char>) -> bool
    decreases a.len(),
{
    if a.len() == 0 {
        b.len() > 0
    } else if b.len() == 0 {
        false
    } else if a[0] == b[0] {
        path_before(a.drop_first(), b.drop_first())
    } else {
        path_rank(a[0]) < path_rank(b[0])
    }
}

pub proof fn lemma_path_before_irreflexive(a: Seq<char>)
    ensures
        !path_before(a, a),
    decreases a.len(),
{
    if a.len() > 0 {
        lemma_path_before_irreflexive(a.drop_first());
    }
}

pub proof fn lemma_path_before_total(a: Seq<char>, b: Seq<char>)
    ensures
        a != b ==> path_before(a, b) || path_before(b, a),
        !(path_before(a, b) && path_before(b, a)),
    decreases a.len(),
{
    if a.len() > 0 && b.len() > 0 {
        lemma_path_before_total(a.drop_first(), b.drop_first());
        if a[0] == b[0] && a != b {
            assert(a.drop_first() != b.drop_first()) by {
                if a.drop_first() == b.drop_first() {
                    assert(a =~= seq![a[0]] + a.drop_first());
                    assert(b =~= seq![b[0]] + b.drop_first());
                }
            }
        }
        if a[0] != b[0] {
            assert(path_rank(a[0]) != path_rank(b[0])) by {
                vstd::utf8::char_u32_cast(a[0], a[0] as u32);
                vstd::utf8::char_u32_cast(b[0], b[0] as u32);
            }
        }
    } else if a.len() == 0 && b.len() == 0 {
        assert(a =~= b);
    }
}

pub proof fn lemma_path_before_transitive(a: Seq<char>, b: Seq<char>, c: Seq<char>)
    requires
        path_before(a, b),
        path_before(b, c),
    ensures
        path_before(a, c),
    decreases a.len(),
{
    if a.len() > 0 && b.len() > 0 && c.len() > 0 && a[0] == b[0] && b[0] == c[0] {
        lemma_path_before_transitive(a.drop_first(), b.drop_first(), c.drop_first());
    }
}

fn rank(c: char) -> (r: i64)
    ensures
        r as int == path_rank(c),
{
    if c == '/' {
        -1
    } else {
        c as u32 as i64
    }
}

/// Whether path `a` orders before path `b`.
pub fn path_less(a: &Vec<char>, b: &Vec<char>) -> (r: bool)
    ensures
        r == path_before(a@, b@),
{
    let mut i: usize = 0;
    assert(a@.skip(0) =~= a@);
    assert(b@.skip(0) =~= b@);
    while i < a.len() && i < b.len()
        invariant
            i <= a.len(),
            i <= b.len(),
            path_before(a@, b@) == path_before(a@.skip(i as int), b@.skip(i as int)),
        decreases a.len() - i,
    {
        assert(a@.skip(i as int)[0] == a@[i as int]);
        assert(b@.skip(i as int)[0] == b@[i as int]);
        if a[i] != b[i] {
            return rank(a[i]) < rank(b[i]);
        }
        assert(a@.skip(i as int).drop_first() =~= a@.skip(i + 1));
        assert(b@.skip(i as int).drop_first() =~= b@.skip(i + 1));
        i = i + 1;
    }
    i == a.len() && i < b.len()
}

/// The changes waiting for the next reload, ordered by path.
pub struct WatchState {
    pending: Vec<(String, PathChange)>,
    armed: bool,
}

/// Something that reaches the watcher.
pub enum WatchInput {
    /// A filesystem event, with what each of its paths names on disk now.
    Event { kind: WatchEventKind, paths: Vec<(String, Option<EntryKind>)> },
    /// The filesystem watcher reported an error.
    EventError,
    /// The reload deadline passed with no further event.
    Timeout,
    /// The watcher was asked to stop, or its event source closed.
    Stop,
}

/// What the watcher does next.
#[derive(Debug)]
pub enum WatchAction {
    /// Keep waiting, with the deadline as it was.
    Wait,
    /// Keep waiting, with the reload deadline set anew from now.
    Rearm,
    /// Reload for these changed paths, in order, then wait with no deadline.
    Reload(Vec<(String, PathChange)>),
    /// Report the watch error, then keep waiting as before.
    ReportError,
    /// Stop watching.
    Stop,
}

/// Pending changes are strictly ordered by path.
pub open spec fn ordered(pending: Seq<(String, PathChange)>) -> bool {
    forall|i: int, j: int|
        0 <= i < j < pending.len() ==> path_before(#[trigger] pending[i].0@, #[trigger] pending[j].0@)
}

/// The pending change for each path.
pub open spec fn pending_map(pending: Seq<(String, PathChange)>) -> Map<Seq<char>, PathChange>
    decreases pending.len(),
{
    if pending.len() == 0 {
        Map::empty()
    } else {
        pending_map(pending.drop_last()).insert(pending.last().0@, pending.last().1)
    }
}

proof fn lemma_map_dom(pending: Seq<(String, PathChange)>, p: Seq<char>)
    ensures
        pending_map(pending).contains_key(p) <==> exists|i: int|
            0 <= i < pending.len() && pending[i].0@ == p,
    decreases pending.len(),
{
    if pending.len() > 0 {
        lemma_map_dom(pending.drop_last(), p);
        if pending_map(pending).contains_key(p) && pending.last().0@ != p {
            let i = choose|i: int| 0 <= i < pending.len() - 1 && pending.drop_last()[i].0@ == p;
            assert(pending[i].0@ == p);
        }
        if exists|i: int| 0 <= i < pending.len() && pending[i].0@ == p {
            let i = choose|i: int| 0 <= i < pending.len() && pending[i].0@ == p;
            if i < pending.len() - 1 {
                assert(pending.drop_last()[i].0@ == p);
            }
        }
    }
}

/// `pending` after a change observed at `path`: merged into the change
/// already pending there, else added.
pub open spec fn recorded(
    pending: Map<Seq<char>, PathChange>,
    path: Seq<char>,
    change: PathChange,
) -> Map<Seq<char>, PathChange> {
    if pending.contains_key(path) {
        pending.insert(path, merged_path_change(pending[path], change))
    } else {
        pending.insert(path, change)
    }
}

/// The entry kind of an event as a whole: what it states, else what the
/// first of its paths that exists names.
pub open spec fn event_level_kind(
    kind: WatchEventKind,
    on_disk: Seq<Option<EntryKind>>,
) -> Option<EntryKind>
    decreases on_disk.len(),
{
    match stated_entry_kind(kind) {
        Some(k) => Some(k),
        None => if on_disk.len() == 0 {
            None
        } else if on_disk[0] is Some {
            on_disk[0]
        } else {
            event_level_kind(kind, on_disk.drop_first())
        },
    }
}

/// The pending changes after all paths of an event, in order.
pub open spec fn recorded_all(
    pending: Map<Seq<char>, PathChange>,
    kind: WatchEventKind,
    change: crate::changes::FileChange,
    paths: Seq<(String, Option<EntryKind>)>,
    event_level: Option<EntryKind>,
) -> Map<Seq<char>, PathChange>
    decreases paths.len(),
{
    if paths.len() == 0 {
        pending
    } else {
        let p = paths.last();
        recorded(
            recorded_all(pending, kind, change, paths.drop_last(), event_level),
            p.0@,
            PathChange { change, entry_kind: recorded_kind(kind, p.1, event_level) },
        )
    }
}

/// What one input does to the watcher: from the pending changes `changes`
/// and whether a deadline is set (`armed`), the action taken and the changes
/// and deadline that follow. An event that reports a file change records each
/// of its paths and sets the deadline anew; any other event, and an error,
/// leave both as they were; the deadline hands over everything pending, by
/// path, and clears it; a stop ends the watch.
pub open spec fn step_effect(
    changes: Map<Seq<char>, PathChange>,
    armed: bool,
    input: WatchInput,
    action: WatchAction,
    next: Map<Seq<char>, PathChange>,
    next_armed: bool,
) -> bool {
    match input {
        WatchInput::Event { kind, paths } => match event_change(kind) {
            None => action is Wait && next == changes && next_armed == armed,
            Some(change) => action is Rearm && next_armed && next == recorded_all(
                changes,
                kind,
                change,
                paths@,
                event_level_kind(kind, paths@.map_values(|e: (String, Option<EntryKind>)| e.1)),
            ),
        },
        WatchInput::EventError => action is ReportError && next == changes && next_armed == armed,
        WatchInput::Timeout => if armed {
            &&& action matches WatchAction::Reload(entries) && ordered(entries@) && pending_map(
                entries@,
            ) == changes
            &&& next == Map::<Seq<char>, PathChange>::empty()
            &&& !next_armed
        } else {
            action is Wait && next == changes && !next_armed
        },
        WatchInput::Stop => action is Stop && next == changes,
    }
}

impl WatchState {
    /// The pending changes, by path.
    pub closed spec fn changes(&self) -> Map<Seq<char>, PathChange> {
        pending_map(self.pending@)
    }

    /// Whether a reload deadline is set.
    pub closed spec fn is_armed(&self) -> bool {
        self.armed
    }

    /// Pending changes stay strictly ordered by path.
    pub closed spec fn well_formed(&self) -> bool {
        ordered(self.pending@)
    }

    /// A watcher with nothing pending and no deadline.
    pub fn new() -> (r: Self)
        ensures
            r.well_formed(),
            r.changes() == Map::<Seq<char>, PathChange>::empty(),
            !r.is_armed(),
    {
        let r = WatchState { pending: Vec::new(), armed: false };
        assert(r.changes() =~= Map::<Seq<char>, PathChange>::empty());
        r
    }

    /// Records a change observed at `path`.
    pub fn record(&mut self, path: String, change: PathChange)
        requires
            old(self).well_formed(),
        ensures
            final(self).well_formed(),
            final(self).changes() == recorded(old(self).changes(), path@, change),
            final(self).is_armed() == old(self).is_armed(),
    {
        let key = chars_of(path.as_str());
        let ghost old_pending = self.pending@;
        let mut i: usize = 0;
        while i < self.pending.len()
            invariant
                i <= self.pending.len(),
                self.pending@ == old_pending,
                old_pending == old(self).pending@,
                self.armed == old(self).armed,
                key@ == path@,
                ordered(old_pending),
                forall|j: int| 0 <= j < i ==> path_before(#[trigger] old_pending[j].0@, key@),
            decreases self.pending.len() - i,
        {
            let here = chars_of(self.pending[i].0.as_str());
            if !path_less(&here, &key) {
                proof {
                    lemma_path_before_total(here@, key@);
                }
                if crate::text::chars_equal(&here, &key) {
                    let merged = self.pending[i].1.merge(change);
                    self.pending.set(i, (path, merged));
                    proof {
                        lemma_after_update(old_pending, self.pending@, i as int, path@, change);
                    }
                    return;
                }
                self.pending.insert(i, (path, change));
                proof {
                    lemma_after_insert(old_pending, self.pending@, i as int, path@, change);
                }
                return;
            }
            i = i + 1;
        }
        self.pending.push((path, change));
        proof {
            lemma_after_insert(old_pending, self.pending@, old_pending.len() as int, path@, change);
        }
    }

    /// The entry kind of an event as a whole.
    pub fn event_entry_kind(kind: WatchEventKind, paths: &Vec<(String, Option<EntryKind>)>) -> (r:
        Option<EntryKind>)
        ensures
            r == event_level_kind(kind, paths@.map_values(|e: (String, Option<EntryKind>)| e.1)),
    {
        let ghost kinds = paths@.map_values(|e: (String, Option<EntryKind>)| e.1);
        match explicit_entry_kind(kind) {
            Some(k) => Some(k),
            None => {
                let mut i: usize = 0;
                assert(kinds.skip(0) =~= kinds);
                while i < paths.len()
                    invariant
                        i <= paths.len(),
                        stated_entry_kind(kind) is None,
                        kinds == paths@.map_values(|e: (String, Option<EntryKind>)| e.1),
                        event_level_kind(kind, kinds) == event_level_kind(kind, kinds.skip(i as int)),
                    decreases paths.len() - i,
                {
                    assert(kinds.skip(i as int)[0] == paths@[i as int].1);
                    if paths[i].1.is_some() {
                        return paths[i].1;
                    }
                    assert(kinds.skip(i as int).drop_first() =~= kinds.skip(i + 1));
                    i = i + 1;
                }
                None
            },
        }
    }

    /// Handles one input: records the changes an event reports and sets the
    /// deadline anew; when the deadline passes, hands over everything pending
    /// for a reload and starts afresh; reports errors; stops when told.
    pub fn step(&mut self, input: WatchInput) -> (action: WatchAction)
        requires
            old(self).well_formed(),
        ensures
            final(self).well_formed(),
            step_effect(
                old(self).changes(),
                old(self).is_armed(),
                input,
                action,
                final(self).changes(),
                final(self).is_armed(),
            ),
    {
        match input {
            WatchInput::Event { kind, paths } => {
                match file_change(kind) {
                    None => WatchAction::Wait,
                    Some(change) => {
                        let event_level = Self::event_entry_kind(kind, &paths);
                        let ghost start = self.changes();
                        let mut i: usize = 0;
                        while i < paths.len()
                            invariant
                                i <= paths.len(),
                                self.well_formed(),
                                self.changes() == recorded_all(
                                    start,
                                    kind,
                                    change,
                                    paths@.take(i as int),
                                    event_level,
                                ),
                            decreases paths.len() - i,
                        {
                            let entry_kind = resolve_entry_kind(kind, paths[i].1, event_level);
                            let path = paths[i].0.clone();
                            proof {
                                assert(paths@.take(i + 1).drop_last() =~= paths@.take(i as int));
                                assert(paths@.take(i + 1).last() == paths@[i as int]);
                            }
                            self.record(path, PathChange { change, entry_kind });
                            i = i + 1;
                        }
                        assert(paths@.take(i as int) =~= paths@);
                        self.armed = true;
                        WatchAction::Rearm
                    },
                }
            },
            WatchInput::EventError => WatchAction::ReportError,
            WatchInput::Timeout => {
                if self.armed {
                    let mut entries: Vec<(String, PathChange)> = Vec::new();
                    std::mem::swap(&mut entries, &mut self.pending);
                    self.armed = false;
                    assert(pending_map(self.pending@) =~= Map::<Seq<char>, PathChange>::empty());
                    WatchAction::Reload(entries)
                } else {
                    WatchAction::Wait
                }
            },
            WatchInput::Stop => WatchAction::Stop,
        }
    }

}

proof fn lemma_map_lookup(pending: Seq<(String, PathChange)>, i: int)
    requires
        ordered(pending),
        0 <= i < pending.len(),
    ensures
        pending_map(pending).contains_key(pending[i].0@),
        pending_map(pending)[pending[i].0@] == pending[i].1,
    decreases pending.len(),
{
    if i < pending.len() - 1 {
        let rest = pending.drop_last();
        assert(ordered(rest)) by {
            assert forall|a: int, b: int| 0 <= a < b < rest.len() implies path_before(
                #[trigger] rest[a].0@,
                #[trigger] rest[b].0@,
            ) by {
                assert(rest[a] == pending[a] && rest[b] == pending[b]);
            }
        }
        assert(rest[i] == pending[i]);
        lemma_map_lookup(rest, i);
        assert(path_before(pending[i].0@, pending[pending.len() - 1].0@));
        if pending[i].0@ == pending.last().0@ {
            lemma_path_before_irreflexive(pending[i].0@);
        }
    }
}

proof fn lemma_after_update(
    old_pending: Seq<(String, PathChange)>,
    new_pending: Seq<(String, PathChange)>,
    i: int,
    path: Seq<char>,
    change: PathChange,
)
    requires
        ordered(old_pending),
        0 <= i < old_pending.len(),
        old_pending[i].0@ == path,
        new_pending.len() == old_pending.len(),
        new_pending[i].0@ == path,
        new_pending[i].1 == merged_path_change(old_pending[i].1, change),
        forall|j: int| 0 <= j < old_pending.len() && j != i ==> new_pending[j] == old_pending[j],
    ensures
        ordered(new_pending),
        pending_map(new_pending) == recorded(pending_map(old_pending), path, change),
{
    assert forall|a: int, b: int| 0 <= a < b < new_pending.len() implies path_before(
        #[trigger] new_pending[a].0@,
        #[trigger] new_pending[b].0@,
    ) by {
        assert(new_pending[a].0@ == old_pending[a].0@);
        assert(new_pending[b].0@ == old_pending[b].0@);
        assert(path_before(old_pending[a].0@, old_pending[b].0@));
    }
    lemma_map_lookup(old_pending, i);
    lemma_map_lookup(new_pending, i);
    let m_old = pending_map(old_pending);
    let m_new = pending_map(new_pending);
    let target = recorded(m_old, path, change);
    assert forall|p: Seq<char>| #[trigger] m_new.contains_key(p) <==> target.contains_key(p) by {
        lemma_map_dom(new_pending, p);
        lemma_map_dom(old_pending, p);
        if m_new.contains_key(p) {
            let k = choose|k: int| 0 <= k < new_pending.len() && new_pending[k].0@ == p;
            if k != i {
                assert(old_pending[k].0@ == p);
            }
        }
        if m_old.contains_key(p) {
            let k = choose|k: int| 0 <= k < old_pending.len() && old_pending[k].0@ == p;
            if k != i {
                assert(new_pending[k].0@ == p);
            }
        }
    }
    assert forall|p: Seq<char>| #[trigger] m_new.contains_key(p) implies m_new[p] == target[p] by {
        lemma_map_dom(new_pending, p);
        if p != path {
            let k = choose|k: int| 0 <= k < new_pending.len() && new_pending[k].0@ == p;
            assert(k != i);
            lemma_map_lookup(new_pending, k);
            lemma_map_lookup(old_pending, k);
        }
    }
    assert(m_new =~= target);
}

proof fn lemma_after_insert(
    old_pending: Seq<(String, PathChange)>,
    new_pending: Seq<(String, PathChange)>,
    i: int,
    path: Seq<char>,
    change: PathChange,
)
    requires
        ordered(old_pending),
        0 <= i <= old_pending.len(),
        forall|j: int| 0 <= j < i ==> path_before(#[trigger] old_pending[j].0@, path),
        i < old_pending.len() ==> path_before(path, old_pending[i].0@),
        new_pending.len() == old_pending.len() + 1,
        new_pending[i].0@ == path,
        new_pending[i].1 == change,
        forall|j: int| 0 <= j < i ==> new_pending[j] == old_pending[j],
        forall|j: int| i < j < new_pending.len() ==> new_pending[j] == old_pending[j - 1],
    ensures
        ordered(new_pending),
        pending_map(new_pending) == recorded(pending_map(old_pending), path, change),
{
    assert forall|a: int, b: int| 0 <= a < b < new_pending.len() implies path_before(
        #[trigger] new_pending[a].0@,
        #[trigger] new_pending[b].0@,
    ) by {
        if b < i {
            assert(path_before(old_pending[a].0@, old_pending[b].0@));
        } else if b == i {
            assert(path_before(old_pending[a].0@, path));
        } else if a == i {
            if b - 1 > i {
                assert(path_before(old_pending[i].0@, old_pending[b - 1].0@));
                lemma_path_before_transitive(path, old_pending[i].0@, old_pending[b - 1].0@);
            }
        } else if a < i {
            assert(path_before(old_pending[a].0@, path));
            if b - 1 > i {
                assert(path_before(old_pending[i].0@, old_pending[b - 1].0@));
                lemma_path_before_transitive(path, old_pending[i].0@, old_pending[b - 1].0@);
            }
            lemma_path_before_transitive(old_pending[a].0@, path, old_pending[b - 1].0@);
        } else {
            assert(path_before(old_pending[a - 1].0@, old_pending[b - 1].0@));
        }
    }
    let m_old = pending_map(old_pending);
    let m_new = pending_map(new_pending);
    assert(!m_old.contains_key(path)) by {
        lemma_map_dom(old_pending, path);
        if m_old.contains_key(path) {
            let k = choose|k: int| 0 <= k < old_pending.len() && old_pending[k].0@ == path;
            if k < i {
                lemma_path_before_irreflexive(path);
            } else {
                if k > i {
                    assert(path_before(old_pending[i].0@, old_pending[k].0@));
                    lemma_path_before_transitive(path, old_pending[i].0@, old_pending[k].0@);
                }
                lemma_path_before_irreflexive(path);
            }
        }
    }
    let target = recorded(m_old, path, change);
    lemma_map_lookup(new_pending, i);
    assert forall|p: Seq<char>| #[trigger] m_new.contains_key(p) <==> target.contains_key(p) by {
        lemma_map_dom(new_pending, p);
        lemma_map_dom(old_pending, p);
        if m_new.contains_key(p) {
            let k = choose|k: int| 0 <= k < new_pending.len() && new_pending[k].0@ == p;
            if k < i {
                assert(old_pending[k].0@ == p);
            } else if k > i {
                assert(old_pending[k - 1].0@ == p);
            }
        }
        if m_old.contains_key(p) {
            let k = choose|k: int| 0 <= k < old_pending.len() && old_pending[k].0@ == p;
            if k < i {
                assert(new_pending[k].0@ == p);
            } else {
                assert(new_pending[k + 1].0@ == p);
            }
        }
    }
    assert forall|p: Seq<char>| #[trigger] m_new.contains_key(p) implies m_new[p] == target[p] by {
        lemma_map_dom(new_pending, p);
        if p != path {
            let k = choose|k: int| 0 <= k < new_pending.len() && new_pending[k].0@ == p;
            assert(k != i);
            lemma_map_lookup(new_pending, k);
            if k < i {
                lemma_map_lookup(old_pending, k);
            } else {
                lemma_map_lookup(old_pending, k - 1);
            }
        }
    }
    assert(m_new =~= target);
}

} // verus!
