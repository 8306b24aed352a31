//! Console variables: named texts with the flags that say where they go.
use vstd::prelude::*;
use crate::text::{chars_eq, chars_of, string_of};

verus! {

/// A console variable: its name, its text, whether it is saved with the
/// configuration (`archive`) and whether it goes into the info string.
#[derive(Debug, Clone)]
pub struct Cvar {
    pub name: String,
    pub value: String,
    pub archive: bool,
    pub info: bool,
}

/// What the registry holds for one name.
pub struct CvarEntry {
    pub value: Seq<char>,
    pub archive: bool,
    pub info: bool,
}

pub open spec fn entry_of(c: Cvar) -> CvarEntry {
    CvarEntry { value: c.value@, archive: c.archive, info: c.info }
}

impl Cvar {
    /// A variable with text `value` and neither flag.
    pub fn new(name: &str, value: &str) -> (r: Cvar)
        ensures
            r.name@ == name@,
            r.value@ == value@,
            !r.archive,
            !r.info,
    {
        Cvar { name: string_of(&chars_of(name)), value: string_of(&chars_of(value)), archive: false, info: false }
    }

    /// The same variable with the flags given.
    pub fn with_flags(self, archive: bool, info: bool) -> (r: Cvar)
        ensures
            r.name == self.name,
            r.value == self.value,
            r.archive == archive,
            r.info == info,
    {
        let mut var = self;
        var.archive = archive;
        var.info = info;
        var
    }
}

/// No two variables share a name.
pub open spec fn names_distinct(vars: Seq<Cvar>) -> bool {
    forall|i: int, j: int| 0 <= i < j < vars.len() ==> (#[trigger] vars[i]).name@ != (#[trigger] vars[j]).name@
}

pub open spec fn holds_name(vars: Seq<Cvar>, name: Seq<char>) -> bool {
    exists|i: int| 0 <= i < vars.len() && (#[trigger] vars[i]).name@ == name
}

/// The variables by name.
pub open spec fn registry_map(vars: Seq<Cvar>) -> Map<Seq<char>, CvarEntry> {
    Map::new(
        |n: Seq<char>| holds_name(vars, n),
        |n: Seq<char>| entry_of(vars[choose|i: int| 0 <= i < vars.len() && (#[trigger] vars[i]).name@ == n]),
    )
}

/// The console variables, one per name.
pub struct CvarRegistry {
    vars: Vec<Cvar>,
}

impl CvarRegistry {
    /// One variable per name.
    pub closed spec fn wf(&self) -> bool {
        names_distinct(self.vars@)
    }

    pub closed spec fn view(&self) -> Map<Seq<char>, CvarEntry> {
        registry_map(self.vars@)
    }

    pub fn new() -> (r: Self)
        ensures
            r.wf(),
            r.view() == Map::<Seq<char>, CvarEntry>::empty(),
    {
        let r = CvarRegistry { vars: Vec::new() };
        assert(registry_map(r.vars@) =~= Map::<Seq<char>, CvarEntry>::empty());
        r
    }

    /// The index of the variable named `name`.
    fn find(&self, name: &[char]) -> (r: Option<usize>)
        ensures
            match r {
                Some(i) => i < self.vars@.len() && self.vars@[i as int].name@ == name@,
                None => !holds_name(self.vars@, name@),
            },
    {
        let mut i: usize = 0;
        while i < self.vars.len()
            invariant
                i <= self.vars@.len(),
                forall|j: int| 0 <= j < i ==> (#[trigger] self.vars@[j]).name@ != name@,
            decreases self.vars@.len() - i,
        {
            let n = chars_of(self.vars[i].name.as_str());
            if chars_eq(&n, name) {
                return Some(i);
            }
            i = i + 1;
        }
        None
    }

    /// Adds `var` unless a variable of its name is already there.
    pub fn register(&mut self, var: Cvar)
        requires
            old(self).wf(),
        ensures
            final(self).wf(),
            final(self).view() == if old(self).view().dom().contains(var.name@) {
                old(self).view()
            } else {
                old(self).view().insert(var.name@, entry_of(var))
            },
    {
        let name = chars_of(var.name.as_str());
        match self.find(&name) {
            Some(i) => {
                proof {
                    lemma_entry_at(self.vars@, i as int);
                }
            },
            None => {
                let ghost before = self.vars@;
                self.vars.push(var);
                proof {
                    assert forall|i: int, j: int| 0 <= i < j < self.vars@.len() implies (#[trigger] self.vars@[i]).name@
                        != (#[trigger] self.vars@[j]).name@ by {
                        assert(self.vars@[i] == before[i]);
                        if j < before.len() {
                            assert(self.vars@[j] == before[j]);
                        }
                    }
                    lemma_push_map(before, var);
                }
            },
        }
    }

    /// Gives `name` the text `value`, adding a variable with neither flag
    /// when there is none of that name.
    pub fn set(&mut self, name: &str, value: &str)
        requires
            old(self).wf(),
        ensures
            final(self).wf(),
            final(self).view() == old(self).view().insert(
                name@,
                if old(self).view().dom().contains(name@) {
                    (CvarEntry { value: value@, ..old(self).view()[name@] })
                } else {
                    (CvarEntry { value: value@, archive: false, info: false })
                },
            ),
    {
        let key = chars_of(name);
        match self.find(&key) {
            Some(i) => {
                let ghost before = self.vars@;
                proof {
                    lemma_entry_at(self.vars@, i as int);
                }
                let old_var = &self.vars[i];
                let var = Cvar {
                    name: old_var.name.clone(),
                    value: string_of(&chars_of(value)),
                    archive: old_var.archive,
                    info: old_var.info,
                };
                self.vars.set(i, var);
                proof {
                    assert forall|a: int, b: int| 0 <= a < b < self.vars@.len() implies (#[trigger] self.vars@[a]).name@
                        != (#[trigger] self.vars@[b]).name@ by {
                        assert(self.vars@[a].name@ == before[a].name@);
                        assert(self.vars@[b].name@ == before[b].name@);
                    }
                    lemma_set_map(before, i as int, var);
                }
            },
            None => {
                let ghost before = self.vars@;
                let var = Cvar::new(name, value);
                self.vars.push(var);
                proof {
                    assert forall|a: int, b: int| 0 <= a < b < self.vars@.len() implies (#[trigger] self.vars@[a]).name@
                        != (#[trigger] self.vars@[b]).name@ by {
                        assert(self.vars@[a] == before[a]);
                        if b < before.len() {
                            assert(self.vars@[b] == before[b]);
                        }
                    }
                    lemma_push_map(before, var);
                    assert(entry_of(var) == (CvarEntry { value: value@, archive: false, info: false }));
                }
            },
        }
    }

    /// The text of `name`, empty when there is no such variable.
    pub fn string(&self, name: &str) -> (r: String)
        requires
            self.wf(),
        ensures
            r@ == if self.view().dom().contains(name@) { self.view()[name@].value } else { Seq::<char>::empty() },
    {
        let key = chars_of(name);
        match self.find(&key) {
            Some(i) => {
                proof {
                    lemma_entry_at(self.vars@, i as int);
                }
                string_of(&chars_of(self.vars[i].value.as_str()))
            },
            None => String::new(),
        }
    }

    /// The variable named `name`.
    pub fn get(&self, name: &str) -> (r: Option<&Cvar>)
        requires
            self.wf(),
        ensures
            match r {
                Some(c) => self.view().dom().contains(name@) && c.name@ == name@ && entry_of(*c) == self.view()[name@],
                None => !self.view().dom().contains(name@),
            },
    {
        let key = chars_of(name);
        match self.find(&key) {
            Some(i) => {
                proof {
                    lemma_entry_at(self.vars@, i as int);
                }
                Some(&self.vars[i])
            },
            None => None,
        }
    }

    /// Copies of the variables saved with the configuration, each once.
    pub fn archived(&self) -> (r: Vec<Cvar>)
        requires
            self.wf(),
        ensures
            names_distinct(r@),
            forall|k: int| 0 <= k < r@.len() ==> {
                &&& self.view().dom().contains((#[trigger] r@[k]).name@)
                &&& entry_of(r@[k]) == self.view()[r@[k].name@]
                &&& r@[k].archive
            },
            forall|n: Seq<char>| self.view().dom().contains(n) && (#[trigger] self.view()[n]).archive
                ==> holds_name(r@, n),
    {
        let mut out: Vec<Cvar> = Vec::new();
        let ghost mut at: Seq<int> = Seq::empty();
        let mut i: usize = 0;
        while i < self.vars.len()
            invariant
                i <= self.vars@.len(),
                names_distinct(self.vars@),
                at.len() == out@.len(),
                forall|k: int| 0 <= k < at.len() ==> 0 <= #[trigger] at[k] < i,
                forall|k: int, l: int| 0 <= k < l < at.len() ==> #[trigger] at[k] < #[trigger] at[l],
                forall|k: int| 0 <= k < out@.len() ==> (#[trigger] out@[k]) == self.vars@[at[k]] && out@[k].archive,
                forall|j: int| 0 <= j < i && (#[trigger] self.vars@[j]).archive ==> exists|k: int| 0 <= k < at.len() && at[k] == j,
            decreases self.vars@.len() - i,
        {
            let var = &self.vars[i];
            if var.archive {
                let copy = Cvar { name: var.name.clone(), value: var.value.clone(), archive: var.archive, info: var.info };
                out.push(copy);
                proof {
                    let before = at;
                    at = at.push(i as int);
                    assert forall|j: int| 0 <= j < i + 1 && (#[trigger] self.vars@[j]).archive implies exists|k: int|
                        0 <= k < at.len() && at[k] == j by {
                        if j == i {
                            assert(at[at.len() - 1] == i);
                        } else {
                            let k = choose|k: int| 0 <= k < before.len() && before[k] == j;
                            assert(at[k] == j);
                        }
                    }
                }
            }
            i = i + 1;
        }
        proof {
            assert forall|a: int, b: int| 0 <= a < b < out@.len() implies (#[trigger] out@[a]).name@ != (#[trigger] out@[b]).name@ by {
                assert(at[a] < at[b]);
                assert(self.vars@[at[a]].name@ != self.vars@[at[b]].name@);
            }
            assert forall|k: int| 0 <= k < out@.len() implies {
                &&& self.view().dom().contains((#[trigger] out@[k]).name@)
                &&& entry_of(out@[k]) == self.view()[out@[k].name@]
                &&& out@[k].archive
            } by {
                lemma_entry_at(self.vars@, at[k]);
            }
            assert forall|n: Seq<char>| self.view().dom().contains(n) && (#[trigger] self.view()[n]).archive
                implies holds_name(out@, n) by {
                let j = choose|j: int| 0 <= j < self.vars@.len() && (#[trigger] self.vars@[j]).name@ == n;
                lemma_entry_at(self.vars@, j);
                let k = choose|k: int| 0 <= k < at.len() && at[k] == j;
                assert(out@[k].name@ == n);
            }
        }
        out
    }
}

proof fn lemma_entry_at(vars: Seq<Cvar>, i: int)
    requires
        names_distinct(vars),
        0 <= i < vars.len(),
    ensures
        registry_map(vars).dom().contains(vars[i].name@),
        registry_map(vars)[vars[i].name@] == entry_of(vars[i]),
{
    let n = vars[i].name@;
    assert(holds_name(vars, n));
    let k = choose|k: int| 0 <= k < vars.len() && (#[trigger] vars[k]).name@ == n;
    if k != i {
        if k < i {
            assert(vars[k].name@ != vars[i].name@);
        } else {
            assert(vars[i].name@ != vars[k].name@);
        }
    }
}

proof fn lemma_push_map(before: Seq<Cvar>, var: Cvar)
    requires
        names_distinct(before.push(var)),
    ensures
        registry_map(before.push(var)) == registry_map(before).insert(var.name@, entry_of(var)),
{
    let after = before.push(var);
    let m = registry_map(after);
    let e = registry_map(before).insert(var.name@, entry_of(var));
    assert forall|n: Seq<char>| #[trigger] m.dom().contains(n) == e.dom().contains(n) by {
        if holds_name(before, n) {
            let k = choose|k: int| 0 <= k < before.len() && (#[trigger] before[k]).name@ == n;
            assert(after[k] == before[k]);
        }
        if holds_name(after, n) && n != var.name@ {
            let k = choose|k: int| 0 <= k < after.len() && (#[trigger] after[k]).name@ == n;
            assert(after[k] == before[k]);
        }
        if n == var.name@ {
            assert(after[before.len() as int] == var);
        }
    }
    assert forall|n: Seq<char>| #[trigger] m.dom().contains(n) implies m[n] == e[n] by {
        let k = choose|k: int| 0 <= k < after.len() && (#[trigger] after[k]).name@ == n;
        if n == var.name@ {
            if k < before.len() {
                assert(after[k].name@ != after[before.len() as int].name@);
            }
        } else {
            assert(after[k] == before[k]);
            let k2 = choose|k2: int| 0 <= k2 < before.len() && (#[trigger] before[k2]).name@ == n;
            if k2 != k {
                assert(after[k2] == before[k2]);
                if k < k2 {
                    assert(after[k].name@ != after[k2].name@);
                } else {
                    assert(after[k2].name@ != after[k].name@);
                }
            }
        }
    }
    assert(m =~= e);
}

proof fn lemma_set_map(before: Seq<Cvar>, i: int, var: Cvar)
    requires
        0 <= i < before.len(),
        var.name@ == before[i].name@,
        names_distinct(before),
        names_distinct(before.update(i, var)),
    ensures
        registry_map(before.update(i, var)) == registry_map(before).insert(var.name@, entry_of(var)),
{
    let after = before.update(i, var);
    let m = registry_map(after);
    let e = registry_map(before).insert(var.name@, entry_of(var));
    assert forall|n: Seq<char>| #[trigger] m.dom().contains(n) == e.dom().contains(n) by {
        if holds_name(before, n) {
            let k = choose|k: int| 0 <= k < before.len() && (#[trigger] before[k]).name@ == n;
            assert(after[k].name@ == n);
        }
        if holds_name(after, n) {
            let k = choose|k: int| 0 <= k < after.len() && (#[trigger] after[k]).name@ == n;
            assert(before[k].name@ == n);
        }
    }
    assert forall|n: Seq<char>| #[trigger] m.dom().contains(n) implies m[n] == e[n] by {
        let k = choose|k: int| 0 <= k < after.len() && (#[trigger] after[k]).name@ == n;
        if n == var.name@ {
            if k != i {
                if k < i {
                    assert(after[k].name@ != after[i].name@);
                } else {
                    assert(after[i].name@ != after[k].name@);
                }
            }
        } else {
            assert(k != i);
            assert(after[k] == before[k]);
            let k2 = choose|k2: int| 0 <= k2 < before.len() && (#[trigger] before[k2]).name@ == n;
            if k2 != k {
                if k < k2 {
                    assert(before[k].name@ != before[k2].name@);
                } else {
                    assert(before[k2].name@ != before[k].name@);
                }
            }
        }
    }
    assert(m =~= e);
}

} // verus!
