//! The deck's panels, by name.
//!
//! A panel is registered once under the name it gives itself, and looked up by
//! that name when a preset places it. Registering a second panel under a name
//! already taken replaces the first: one name, one panel.
use vstd::prelude::*;

verus! {

/// A panel of the deck: something with a stable name and a smallest size it
/// can be drawn at.
pub trait Panel {
    /// The name the panel is registered and placed under.
    fn name(&self) -> &'static str;

    /// The smallest `(width, height)` the panel can be drawn in.
    fn min_size(&self) -> (u16, u16);
}

/// Whether two texts are the same characters.
pub fn same_text(a: &str, b: &str) -> (r: bool)
    ensures
        r == (a@ == b@),
{
    let n = a.unicode_len();
    if n != b.unicode_len() {
        return false;
    }
    let mut i: usize = 0;
    while i < n
        invariant
            i <= n,
            n == a@.len(),
            n == b@.len(),
            forall|k: int| 0 <= k < i ==> a@[k] == b@[k],
        decreases n - i,
    {
        if a.get_char(i) != b.get_char(i) {
            return false;
        }
        i = i + 1;
    }
    assert(a@ =~= b@);
    true
}

/// The registered panels, each beside the name it gave when registered.
///
/// Held as a list with one entry per name rather than in a hash map: the
/// names are `&'static str`, and vstd models a `HashMap`'s lookups only for
/// keys whose hashing it models (integers and `bool`), so over string keys a
/// map's contract would say nothing. The list's view is the map itself
/// (`view`), and what a lookup finds is proved.
pub struct PanelRegistry<P> {
    panels: Vec<(&'static str, P)>,
}

/// The entries as a map from name to panel.
pub open spec fn as_map<P>(panels: Seq<(&'static str, P)>) -> Map<Seq<char>, P>
    decreases panels.len(),
{
    if panels.len() == 0 {
        Map::empty()
    } else {
        as_map(panels.drop_last()).insert(panels.last().0@, panels.last().1)
    }
}

/// Whether `panel` is registered under some name of `view`.
pub open spec fn is_registered<P>(view: Map<Seq<char>, P>, panel: P) -> bool {
    exists|name: Seq<char>| view.contains_key(name) && view[name] == panel
}

/// No two entries share a name.
pub open spec fn names_distinct<P>(panels: Seq<(&'static str, P)>) -> bool {
    forall|i: int, j: int|
        0 <= i < panels.len() && 0 <= j < panels.len() && i != j ==> panels[i].0@
            != panels[j].0@
}

impl<P: Panel> PanelRegistry<P> {
    /// The registry as a map from name to panel.
    pub closed spec fn view(&self) -> Map<Seq<char>, P> {
        as_map(self.panels@)
    }

    /// Every name is registered once.
    pub closed spec fn wf(&self) -> bool {
        names_distinct(self.panels@)
    }

    /// An empty registry.
    pub fn new() -> (r: Self)
        ensures
            r.wf(),
            r.view() == Map::<Seq<char>, P>::empty(),
    {
        PanelRegistry { panels: Vec::new() }
    }

    /// Registers `panel` under the name it gives, replacing any panel already
    /// registered under that name.
    pub fn register(&mut self, panel: P)
        requires
            old(self).wf(),
        ensures
            final(self).wf(),
            exists|name: &'static str|
                call_ensures(P::name, (&panel,), name) && final(self).view() == old(self).view().insert(name@, panel),
    {
        let name = panel.name();
        let ghost before = self.panels@;
        match self.position(name) {
            Some(i) => {
                self.panels.set(i, (name, panel));
                proof {
                    lemma_as_map_update(before, i as int, (name, panel));
                }
            },
            None => {
                self.panels.push((name, panel));
                proof {
                    assert(self.panels@.drop_last() =~= before);
                }
            },
        }
        assert(self.view() == as_map(before).insert(name@, panel));
    }

    /// Where the panel named `name` sits, if it is registered.
    fn position(&self, name: &str) -> (r: Option<usize>)
        requires
            self.wf(),
        ensures
            match r {
                Some(i) => i < self.panels@.len() && self.panels@[i as int].0@ == name@,
                None => forall|k: int| 0 <= k < self.panels@.len() ==> self.panels@[k].0@ != name@,
            },
    {
        let mut i: usize = 0;
        while i < self.panels.len()
            invariant
                i <= self.panels@.len(),
                forall|k: int| 0 <= k < i ==> self.panels@[k].0@ != name@,
            decreases self.panels@.len() - i,
        {
            if same_text(self.panels[i].0, name) {
                return Some(i);
            }
            i = i + 1;
        }
        None
    }

    /// The panel registered as `name`, if any.
    pub fn get(&self, name: &str) -> (r: Option<&P>)
        requires
            self.wf(),
        ensures
            match r {
                Some(p) => self.view().contains_key(name@) && *p == self.view()[name@],
                None => !self.view().contains_key(name@),
            },
    {
        proof {
            lemma_as_map_keys(self.panels@);
        }
        match self.position(name) {
            Some(i) => {
                proof {
                    lemma_as_map_at(self.panels@, i as int);
                }
                Some(&self.panels[i].1)
            },
            None => None,
        }
    }

    /// Every registered panel, each once.
    pub fn panels_iter(&self) -> (all: Vec<&P>)
        requires
            self.wf(),
        ensures
            all@.len() == self.view().dom().len(),
            forall|i: int| 0 <= i < all@.len() ==> is_registered(self.view(), *#[trigger] all@[i]),
            forall|name: Seq<char>| self.view().contains_key(name) ==> exists|i: int|
                0 <= i < all@.len() && *all@[i] == self.view()[name],
    {
        proof {
            lemma_as_map_keys(self.panels@);
            lemma_as_map_len(self.panels@);
        }
        let mut all: Vec<&P> = Vec::new();
        let mut i: usize = 0;
        while i < self.panels.len()
            invariant
                i <= self.panels@.len(),
                all@.len() == i,
                names_distinct(self.panels@),
                forall|k: int| 0 <= k < i ==> *all@[k] == self.panels@[k].1,
            decreases self.panels@.len() - i,
        {
            all.push(&self.panels[i].1);
            i = i + 1;
        }
        proof {
            assert forall|k: int| 0 <= k < all@.len() implies is_registered(
                self.view(),
                *#[trigger] all@[k],
            ) by {
                lemma_as_map_at(self.panels@, k);
                assert(self.view()[self.panels@[k].0@] == *all@[k]);
            }
            assert forall|name: Seq<char>| self.view().contains_key(name) implies exists|k: int|
                0 <= k < all@.len() && *all@[k] == self.view()[name] by {
                let k = choose|k: int| 0 <= k < self.panels@.len() && self.panels@[k].0@ == name;
                lemma_as_map_at(self.panels@, k);
                assert(*all@[k] == self.view()[name]);
            }
        }
        all
    }
}

/// One name, one panel: after registering `second` under a name `first` was
/// registered under, a lookup of that name gives `second`, the registry is as
/// if `first` had never been registered there, and every other name keeps
/// what it had.
pub proof fn lemma_register_replaces<P>(view: Map<Seq<char>, P>, name: Seq<char>, first: P, second: P, other: Seq<char>)
    ensures
        view.insert(name, first).insert(name, second) == view.insert(name, second),
        view.insert(name, second).contains_key(name),
        view.insert(name, second)[name] == second,
        other != name ==> (view.insert(name, second).contains_key(other) == view.contains_key(other)),
        other != name && view.contains_key(other) ==> view.insert(name, second)[other] == view[other],
{
    assert(view.insert(name, first).insert(name, second) =~= view.insert(name, second));
}

/// The registry that registering each `(name, panel)` of `regs` in turn
/// leaves, from an empty one: each registration inserts its panel under its
/// name, as `register` does.
pub open spec fn registered<P>(regs: Seq<(Seq<char>, P)>) -> Map<Seq<char>, P>
    decreases regs.len(),
{
    if regs.len() == 0 {
        Map::empty()
    } else {
        registered(regs.drop_last()).insert(regs.last().0, regs.last().1)
    }
}

/// Whether `j` is the last registration under `name` in `regs`.
pub open spec fn last_under<P>(regs: Seq<(Seq<char>, P)>, name: Seq<char>, j: int) -> bool {
    &&& 0 <= j < regs.len()
    &&& regs[j].0 == name
    &&& forall|k: int| j < k < regs.len() ==> #[trigger] regs[k].0 != name
}

/// After a run of registrations, a name is found exactly when some
/// registration used it, and what it finds is the panel of the last
/// registration under it: a later registration under a name replaces the
/// earlier one. The registry holds one panel per distinct name used, so
/// listing it yields as many panels as there were distinct names.
pub proof fn lemma_registrations<P>(regs: Seq<(Seq<char>, P)>, name: Seq<char>, j: int)
    ensures
        registered(regs).contains_key(name) <==> exists|i: int| 0 <= i < regs.len() && #[trigger] regs[i].0 == name,
        last_under(regs, name, j) ==> registered(regs)[name] == regs[j].1,
        registered(regs).dom() == Set::new(|n: Seq<char>| exists|i: int| 0 <= i < regs.len() && #[trigger] regs[i].0 == n),
        registered(regs).dom().finite(),
    decreases regs.len(),
{
    if regs.len() > 0 {
        let rest = regs.drop_last();
        let last = regs.last();
        lemma_registrations(rest, name, j);
        assert forall|n: Seq<char>| registered(regs).contains_key(n) <==> exists|i: int| 0 <= i < regs.len() && #[trigger] regs[i].0 == n by {
            lemma_registrations(rest, n, j);
            if exists|i: int| 0 <= i < regs.len() && #[trigger] regs[i].0 == n {
                let i = choose|i: int| 0 <= i < regs.len() && #[trigger] regs[i].0 == n;
                if i < regs.len() - 1 {
                    assert(rest[i] == regs[i]);
                }
            }
            if registered(rest).contains_key(n) {
                let i = choose|i: int| 0 <= i < rest.len() && #[trigger] rest[i].0 == n;
                assert(regs[i] == rest[i]);
            }
        }
        assert(registered(regs).dom() =~= Set::new(|n: Seq<char>| exists|i: int| 0 <= i < regs.len() && #[trigger] regs[i].0 == n));
        if last_under(regs, name, j) && j < regs.len() - 1 {
            assert(regs[regs.len() - 1].0 != name);
            assert forall|k: int| j < k < rest.len() implies #[trigger] rest[k].0 != name by {
                assert(rest[k] == regs[k]);
            }
            assert(last_under(rest, name, j));
        }
    }
}

/// A name is a key of the map exactly when some entry has it.
proof fn lemma_as_map_keys<P>(panels: Seq<(&'static str, P)>)
    ensures
        forall|name: Seq<char>| as_map(panels).contains_key(name) <==> exists|i: int|
            0 <= i < panels.len() && panels[i].0@ == name,
    decreases panels.len(),
{
    if panels.len() > 0 {
        let rest = panels.drop_last();
        lemma_as_map_keys(rest);
        assert forall|name: Seq<char>| as_map(panels).contains_key(name) <==> exists|i: int|
            0 <= i < panels.len() && panels[i].0@ == name by {
            if as_map(panels).contains_key(name) {
                if name == panels.last().0@ {
                    assert(panels[panels.len() - 1].0@ == name);
                } else {
                    assert(as_map(rest).contains_key(name));
                    let i = choose|i: int| 0 <= i < rest.len() && rest[i].0@ == name;
                    assert(rest[i] == panels[i]);
                    assert(panels[i].0@ == name);
                }
            }
            if exists|i: int| 0 <= i < panels.len() && panels[i].0@ == name {
                let i = choose|i: int| 0 <= i < panels.len() && panels[i].0@ == name;
                if i < panels.len() - 1 {
                    assert(rest[i] == panels[i]);
                    assert(rest[i].0@ == name);
                    assert(as_map(rest).contains_key(name));
                }
            }
        }
    }
}

/// With distinct names, each entry's panel is what the map holds under its name.
proof fn lemma_as_map_at<P>(panels: Seq<(&'static str, P)>, i: int)
    requires
        names_distinct(panels),
        0 <= i < panels.len(),
    ensures
        as_map(panels).contains_key(panels[i].0@),
        as_map(panels)[panels[i].0@] == panels[i].1,
    decreases panels.len(),
{
    let rest = panels.drop_last();
    if i < panels.len() - 1 {
        assert(names_distinct(rest));
        assert(rest[i] == panels[i]);
        lemma_as_map_at(rest, i);
        assert(panels[i].0@ != panels.last().0@);
    }
}

/// Replacing the entry at `i` by one of the same name replaces it in the map.
proof fn lemma_as_map_update<P>(panels: Seq<(&'static str, P)>, i: int, e: (&'static str, P))
    requires
        names_distinct(panels),
        0 <= i < panels.len(),
        panels[i].0@ == e.0@,
    ensures
        names_distinct(panels.update(i, e)),
        as_map(panels.update(i, e)) == as_map(panels).insert(e.0@, e.1),
    decreases panels.len(),
{
    let after = panels.update(i, e);
    let rest = panels.drop_last();
    if i == panels.len() - 1 {
        assert(after.drop_last() =~= rest);
        assert(as_map(after) =~= as_map(panels).insert(e.0@, e.1));
    } else {
        assert(after.drop_last() =~= rest.update(i, e));
        assert(names_distinct(rest));
        lemma_as_map_update(rest, i, e);
        assert(panels.last().0@ != e.0@);
        assert(as_map(after) =~= as_map(panels).insert(e.0@, e.1));
    }
}

/// With distinct names, the map holds one entry per registered panel.
proof fn lemma_as_map_len<P>(panels: Seq<(&'static str, P)>)
    requires
        names_distinct(panels),
    ensures
        as_map(panels).dom().finite(),
        as_map(panels).dom().len() == panels.len(),
    decreases panels.len(),
{
    if panels.len() > 0 {
        let rest = panels.drop_last();
        assert(names_distinct(rest));
        lemma_as_map_len(rest);
        lemma_as_map_keys(rest);
        assert(!as_map(rest).contains_key(panels.last().0@)) by {
            if as_map(rest).contains_key(panels.last().0@) {
                let i = choose|i: int| 0 <= i < rest.len() && rest[i].0@ == panels.last().0@;
                assert(panels[i].0@ == panels[panels.len() - 1].0@);
            }
        }
    }
}

} // verus!
