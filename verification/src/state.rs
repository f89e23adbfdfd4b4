//! Persistent application state: the blacklist of projects that are never
//! updated or synced, kept ordered by project id like an ordered map.

use crate::text::{chars_lt, chars_of, lemma_text_lt_irreflexive, lemma_text_lt_total, lemma_text_lt_transitive, text_lt};
use vstd::prelude::*;

verus! {

/// Text views of blacklist entries (project id, project name).
pub open spec fn entries_view(s: Seq<(String, String)>) -> Seq<(Seq<char>, Seq<char>)> {
    s.map_values(|e: (String, String)| (e.0@, e.1@))
}

/// Entries strictly ascending by project id (so no id occurs twice).
pub open spec fn ascending(ev: Seq<(Seq<char>, Seq<char>)>) -> bool {
    forall|i: int, j: int| 0 <= i < j < ev.len() ==> text_lt(ev[i].0, ev[j].0)
}

/// The map that a list of entries denotes; a later entry wins.
pub open spec fn to_map(ev: Seq<(Seq<char>, Seq<char>)>) -> Map<Seq<char>, Seq<char>>
    decreases ev.len(),
{
    if ev.len() == 0 {
        Map::empty()
    } else {
        to_map(ev.drop_last()).insert(ev.last().0, ev.last().1)
    }
}

proof fn lemma_to_map_dom(ev: Seq<(Seq<char>, Seq<char>)>, k: Seq<char>)
    ensures
        to_map(ev).contains_key(k) <==> exists|i: int| 0 <= i < ev.len() && ev[i].0 == k,
    decreases ev.len(),
{
    if ev.len() > 0 {
        lemma_to_map_dom(ev.drop_last(), k);
        if exists|i: int| 0 <= i < ev.len() && ev[i].0 == k {
            let i = choose|i: int| 0 <= i < ev.len() && ev[i].0 == k;
            if i < ev.len() - 1 {
                assert(ev.drop_last()[i].0 == k);
            }
        }
        if exists|i: int| 0 <= i < ev.len() - 1 && ev.drop_last()[i].0 == k {
            let i = choose|i: int| 0 <= i < ev.len() - 1 && ev.drop_last()[i].0 == k;
            assert(ev[i].0 == k);
        }
    }
}

proof fn lemma_to_map_value(ev: Seq<(Seq<char>, Seq<char>)>, i: int)
    requires
        ascending(ev),
        0 <= i < ev.len(),
    ensures
        to_map(ev).contains_key(ev[i].0),
        to_map(ev)[ev[i].0] == ev[i].1,
    decreases ev.len(),
{
    if i < ev.len() - 1 {
        assert(ascending(ev.drop_last()));
        assert(ev.drop_last()[i] == ev[i]);
        lemma_to_map_value(ev.drop_last(), i);
        assert(text_lt(ev[i].0, ev.last().0));
        lemma_text_lt_irreflexive(ev[i].0);
    }
}

proof fn lemma_to_map_equals(ev: Seq<(Seq<char>, Seq<char>)>, m: Map<Seq<char>, Seq<char>>)
    requires
        ascending(ev),
        forall|q: Seq<char>|
            m.contains_key(q) <==> exists|i: int| 0 <= i < ev.len() && ev[i].0 == q,
        forall|i: int| 0 <= i < ev.len() ==> m[ev[i].0] == ev[i].1,
    ensures
        to_map(ev) == m,
{
    assert forall|q: Seq<char>| #[trigger] to_map(ev).contains_key(q) == m.contains_key(q) by {
        lemma_to_map_dom(ev, q);
    }
    assert forall|q: Seq<char>| to_map(ev).contains_key(q) implies #[trigger] to_map(ev)[q] == m[q] by {
        lemma_to_map_dom(ev, q);
        let i = choose|i: int| 0 <= i < ev.len() && ev[i].0 == q;
        lemma_to_map_value(ev, i);
    }
    assert(to_map(ev) =~= m);
}

proof fn lemma_remove_entry(ev: Seq<(Seq<char>, Seq<char>)>, p: int)
    requires
        ascending(ev),
        0 <= p < ev.len(),
    ensures
        ascending(ev.remove(p)),
        to_map(ev.remove(p)) == to_map(ev).remove(ev[p].0),
{
    let ev2 = ev.remove(p);
    let m = to_map(ev).remove(ev[p].0);
    assert(ascending(ev2)) by {
        assert forall|i: int, j: int| 0 <= i < j < ev2.len() implies text_lt(ev2[i].0, ev2[j].0) by {
            let a = if i < p { i } else { i + 1 };
            let b = if j < p { j } else { j + 1 };
            assert(ev2[i] == ev[a]);
            assert(ev2[j] == ev[b]);
        }
    }
    assert forall|q: Seq<char>|
        m.contains_key(q) <==> exists|i: int| 0 <= i < ev2.len() && ev2[i].0 == q by {
        lemma_to_map_dom(ev, q);
        if m.contains_key(q) {
            let i = choose|i: int| 0 <= i < ev.len() && ev[i].0 == q;
            assert(i != p);
            let i2 = if i < p { i } else { i - 1 };
            assert(ev2[i2] == ev[i]);
        }
        if exists|i: int| 0 <= i < ev2.len() && ev2[i].0 == q {
            let i = choose|i: int| 0 <= i < ev2.len() && ev2[i].0 == q;
            let a = if i < p { i } else { i + 1 };
            assert(ev2[i] == ev[a]);
            if a < p {
                assert(text_lt(ev[a].0, ev[p].0));
            } else {
                assert(text_lt(ev[p].0, ev[a].0));
            }
            lemma_text_lt_irreflexive(q);
        }
    }
    assert forall|i: int| 0 <= i < ev2.len() implies m[ev2[i].0] == ev2[i].1 by {
        let a = if i < p { i } else { i + 1 };
        assert(ev2[i] == ev[a]);
        lemma_to_map_value(ev, a);
        if a < p {
            assert(text_lt(ev[a].0, ev[p].0));
        } else {
            assert(text_lt(ev[p].0, ev[a].0));
        }
        lemma_text_lt_irreflexive(ev[p].0);
    }
    lemma_to_map_equals(ev2, m);
}

proof fn lemma_insert_entry(ev: Seq<(Seq<char>, Seq<char>)>, p: int, e: (Seq<char>, Seq<char>))
    requires
        ascending(ev),
        0 <= p <= ev.len(),
        forall|k: int| 0 <= k < p ==> text_lt(ev[k].0, e.0),
        forall|k: int| p <= k < ev.len() ==> text_lt(e.0, ev[k].0),
    ensures
        ascending(ev.insert(p, e)),
        to_map(ev.insert(p, e)) == to_map(ev).insert(e.0, e.1),
{
    let ev2 = ev.insert(p, e);
    let m = to_map(ev).insert(e.0, e.1);
    assert(ascending(ev2)) by {
        assert forall|i: int, j: int| 0 <= i < j < ev2.len() implies text_lt(ev2[i].0, ev2[j].0) by {
            if i < p && j > p {
                lemma_text_lt_transitive(ev[i].0, e.0, ev[j - 1].0);
            }
        }
    }
    assert forall|q: Seq<char>|
        m.contains_key(q) <==> exists|i: int| 0 <= i < ev2.len() && ev2[i].0 == q by {
        lemma_to_map_dom(ev, q);
        if m.contains_key(q) {
            if q == e.0 {
                assert(ev2[p].0 == q);
            } else {
                let i = choose|i: int| 0 <= i < ev.len() && ev[i].0 == q;
                let i2 = if i < p { i } else { i + 1 };
                assert(ev2[i2] == ev[i]);
            }
        }
        if exists|i: int| 0 <= i < ev2.len() && ev2[i].0 == q {
            let i = choose|i: int| 0 <= i < ev2.len() && ev2[i].0 == q;
            if i != p {
                let a = if i < p { i } else { i - 1 };
                assert(ev2[i] == ev[a]);
            }
        }
    }
    assert forall|i: int| 0 <= i < ev2.len() implies m[ev2[i].0] == ev2[i].1 by {
        if i != p {
            let a = if i < p { i } else { i - 1 };
            assert(ev2[i] == ev[a]);
            lemma_to_map_value(ev, a);
            if a < p {
                assert(text_lt(ev[a].0, e.0));
            } else {
                assert(text_lt(e.0, ev[a].0));
            }
            lemma_text_lt_irreflexive(e.0);
        }
    }
    lemma_to_map_equals(ev2, m);
}

/// The blacklist after toggling a project: removed if present, else added with its name.
pub open spec fn toggled(
    m: Map<Seq<char>, Seq<char>>,
    project_id: Seq<char>,
    name: Seq<char>,
) -> Map<Seq<char>, Seq<char>> {
    if m.contains_key(project_id) {
        m.remove(project_id)
    } else {
        m.insert(project_id, name)
    }
}

/// Toggling a project flips whether it is blacklisted.
pub proof fn law_toggle_flips(m: Map<Seq<char>, Seq<char>>, project_id: Seq<char>, name: Seq<char>)
    ensures
        toggled(m, project_id, name).contains_key(project_id) == !m.contains_key(project_id),
{
}

/// Toggling a project that is not blacklisted twice gives the blacklist back.
pub proof fn law_toggle_twice_restores(
    m: Map<Seq<char>, Seq<char>>,
    project_id: Seq<char>,
    name: Seq<char>,
)
    requires
        !m.contains_key(project_id),
    ensures
        toggled(toggled(m, project_id, name), project_id, name) == m,
{
    assert(m.insert(project_id, name).remove(project_id) =~= m);
}

/// Toggling a blacklisted project twice keeps it blacklisted, under the new name.
pub proof fn law_toggle_twice_renames(
    m: Map<Seq<char>, Seq<char>>,
    project_id: Seq<char>,
    name: Seq<char>,
)
    requires
        m.contains_key(project_id),
    ensures
        toggled(toggled(m, project_id, name), project_id, name) == m.insert(project_id, name),
{
    assert(m.remove(project_id).insert(project_id, name) =~= m.insert(project_id, name));
}

/// Toggling a project leaves every other project's entry as it was.
pub proof fn law_toggle_is_local(
    m: Map<Seq<char>, Seq<char>>,
    project_id: Seq<char>,
    name: Seq<char>,
    other: Seq<char>,
)
    requires
        other != project_id,
    ensures
        toggled(m, project_id, name).contains_key(other) == m.contains_key(other),
        m.contains_key(other) ==> toggled(m, project_id, name)[other] == m[other],
{
}

/// Persistent state: project id to project name of blacklisted mods.
pub struct AppState {
    blacklist: Vec<(String, String)>,
}

impl View for AppState {
    type V = Map<Seq<char>, Seq<char>>;

    closed spec fn view(&self) -> Map<Seq<char>, Seq<char>> {
        to_map(entries_view(self.blacklist@))
    }
}

impl AppState {
    #[verifier::type_invariant]
    spec fn ascending_ids(self) -> bool {
        ascending(entries_view(self.blacklist@))
    }

    /// The entries, ascending by project id.
    pub closed spec fn entries(self) -> Seq<(Seq<char>, Seq<char>)> {
        entries_view(self.blacklist@)
    }

    /// An empty blacklist.
    pub fn new() -> (s: Self)
        ensures
            s@ == Map::<Seq<char>, Seq<char>>::empty(),
    {
        let s = AppState { blacklist: Vec::new() };
        assert(entries_view(s.blacklist@) =~= Seq::empty());
        s
    }

    /// The blacklist entries (project id, project name), ascending by id.
    pub fn blacklist(&self) -> (b: &Vec<(String, String)>)
        ensures
            entries_view(b@) == self.entries(),
            ascending(entries_view(b@)),
            to_map(entries_view(b@)) == self@,
    {
        proof {
            use_type_invariant(self);
        }
        &self.blacklist
    }

    /// Index of the entry for `project_id`, or where it would be inserted.
    fn locate(&self, project_id: &str) -> (r: (usize, bool))
        ensures
            r.0 <= self.entries().len(),
            forall|k: int| 0 <= k < r.0 ==> text_lt(self.entries()[k].0, project_id@),
            r.1 ==> r.0 < self.entries().len() && self.entries()[r.0 as int].0 == project_id@,
            !r.1 ==> forall|k: int|
                r.0 <= k < self.entries().len() ==> text_lt(project_id@, self.entries()[k].0),
    {
        proof {
            use_type_invariant(self);
        }
        let ghost ev = self.entries();
        let key = chars_of(project_id);
        let mut i: usize = 0;
        while i < self.blacklist.len()
            invariant
                ev == entries_view(self.blacklist@),
                ascending(ev),
                key@ == project_id@,
                i <= ev.len(),
                forall|k: int| 0 <= k < i ==> text_lt(ev[k].0, project_id@),
            decreases ev.len() - i,
        {
            let cur = chars_of(self.blacklist[i].0.as_str());
            if !chars_lt(&cur, &key) {
                proof {
                    assert(ev[i as int].0 == cur@);
                    lemma_text_lt_total(cur@, key@);
                    assert forall|k: int| i < k < ev.len() implies text_lt(
                        project_id@,
                        ev[k].0,
                    ) by {
                        assert(text_lt(ev[i as int].0, ev[k].0));
                        if cur@ != key@ {
                            lemma_text_lt_transitive(key@, cur@, ev[k].0);
                        }
                    }
                }
                if !chars_lt(&key, &cur) {
                    return (i, true);
                }
                return (i, false);
            }
            i = i + 1;
        }
        (i, false)
    }

    /// Whether the project is blacklisted.
    pub fn is_blacklisted(&self, project_id: &str) -> (b: bool)
        ensures
            b == self@.contains_key(project_id@),
    {
        proof {
            use_type_invariant(self);
            lemma_to_map_dom(self.entries(), project_id@);
        }
        let (p, found) = self.locate(project_id);
        proof {
            if !found && self@.contains_key(project_id@) {
                let k = choose|k: int|
                    0 <= k < self.entries().len() && self.entries()[k].0 == project_id@;
                lemma_text_lt_irreflexive(project_id@);
            }
        }
        found
    }

    /// Records `name` for the project, replacing an earlier entry of the same id.
    pub fn set_entry(&mut self, project_id: &str, name: &str)
        ensures
            final(self)@ == old(self)@.insert(project_id@, name@),
    {
        proof {
            use_type_invariant(&*self);
        }
        let ghost ev = self.entries();
        let (p, found) = self.locate(project_id);
        let mut entries: Vec<(String, String)> = Vec::new();
        std::mem::swap(&mut entries, &mut self.blacklist);
        assert(entries_view(entries@) == ev);
        let ghost ev1 = ev;
        if found {
            proof {
                lemma_remove_entry(ev, p as int);
            }
            entries.remove(p);
            assert(entries_view(entries@) =~= ev.remove(p as int));
            proof {
                ev1 = ev.remove(p as int);
                assert(to_map(ev1) =~= to_map(ev).remove(project_id@));
            }
        }
        proof {
            lemma_to_map_dom(ev1, project_id@);
            assert forall|k: int| p <= k < ev1.len() implies text_lt(project_id@, ev1[k].0) by {
                if found {
                    assert(ev1[k] == ev[k + 1]);
                    assert(text_lt(ev[p as int].0, ev[k + 1].0));
                }
            }
            assert forall|k: int| 0 <= k < p implies text_lt(ev1[k].0, project_id@) by {
                if found {
                    assert(ev1[k] == ev[k]);
                }
            }
            lemma_insert_entry(ev1, p as int, (project_id@, name@));
        }
        entries.insert(p, (String::from_str(project_id), String::from_str(name)));
        assert(entries_view(entries@) =~= ev1.insert(p as int, (project_id@, name@)));
        proof {
            if found {
                assert(to_map(ev).remove(project_id@).insert(project_id@, name@) =~= to_map(ev).insert(project_id@, name@));
            } else {
                assert(ev1 == ev);
            }
        }
        self.blacklist = entries;
    }

    /// A state holding the given (project id, project name) entries; of two
    /// entries for one id the later wins.
    pub fn from_entries(pairs: &Vec<(String, String)>) -> (s: Self)
        ensures
            s@ == to_map(entries_view(pairs@)),
    {
        let mut s = AppState::new();
        let mut i: usize = 0;
        while i < pairs.len()
            invariant
                i <= pairs@.len(),
                s@ == to_map(entries_view(pairs@).take(i as int)),
            decreases pairs@.len() - i,
        {
            s.set_entry(pairs[i].0.as_str(), pairs[i].1.as_str());
            assert(entries_view(pairs@).take(i + 1).drop_last() =~= entries_view(pairs@).take(i as int));
            i = i + 1;
        }
        assert(entries_view(pairs@).take(pairs@.len() as int) =~= entries_view(pairs@));
        s
    }

    /// Removes the project from the blacklist if present, adds it otherwise.
    /// (Saving the state is the caller's affair.)
    pub fn toggle_blacklist(&mut self, project_id: &str, name: &str)
        ensures
            final(self)@ == toggled(old(self)@, project_id@, name@),
    {
        proof {
            use_type_invariant(&*self);
        }
        let ghost ev = self.entries();
        let (p, found) = self.locate(project_id);
        let mut entries: Vec<(String, String)> = Vec::new();
        std::mem::swap(&mut entries, &mut self.blacklist);
        assert(entries_view(entries@) == ev);
        if found {
            proof {
                lemma_remove_entry(ev, p as int);
                lemma_to_map_value(ev, p as int);
            }
            entries.remove(p);
            assert(entries_view(entries@) =~= ev.remove(p as int));
        } else {
            proof {
                let e = (project_id@, name@);
                lemma_insert_entry(ev, p as int, e);
                lemma_to_map_dom(ev, project_id@);
                if exists|i: int| 0 <= i < ev.len() && ev[i].0 == project_id@ {
                    let i = choose|i: int| 0 <= i < ev.len() && ev[i].0 == project_id@;
                    lemma_text_lt_irreflexive(project_id@);
                }
            }
            entries.insert(p, (String::from_str(project_id), String::from_str(name)));
            assert(entries_view(entries@) =~= ev.insert(p as int, (project_id@, name@)));
        }
        self.blacklist = entries;
    }
}

} // verus!
