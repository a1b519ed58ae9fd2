//! The component registry: a name-keyed lookup of the components of one
//! extension-point category.
//!
//! A registry is populated once per run, built-in components first and
//! filesystem-discovered plugins after them in search-path order. A name
//! registered twice keeps its earliest entry: a plugin can neither
//! shadow a built-in of the same name nor an earlier plugin. Lookup
//! returns the earliest entry for a name.

use vstd::prelude::*;

verus! {

/// The earliest value registered under `name`, if any.
pub open spec fn spec_lookup<T>(s: Seq<(String, T)>, name: Seq<char>) -> Option<T>
    decreases s.len(),
{
    if s.len() == 0 {
        Option::None
    } else if s[0].0@ == name {
        Option::Some(s[0].1)
    } else {
        spec_lookup(s.drop_first(), name)
    }
}

/// The effect of registering `value` under `name`: nothing when the
/// name is already taken, an appended entry otherwise.
pub open spec fn spec_register<T>(s: Seq<(String, T)>, name: String, value: T) -> Seq<
    (String, T),
> {
    if spec_lookup(s, name@) is Some {
        s
    } else {
        s.push((name, value))
    }
}

/// The effect of registering, in order, every successful outcome of a
/// sequence of discovery attempts; a failed attempt registers nothing.
pub open spec fn spec_register_all<T>(
    s: Seq<(String, T)>,
    outcomes: Seq<Option<(String, T)>>,
) -> Seq<(String, T)>
    decreases outcomes.len(),
{
    if outcomes.len() == 0 {
        s
    } else {
        spec_register_all(
            (match outcomes[0] {
                Option::Some(nv) => spec_register(s, nv.0, nv.1),
                Option::None => s,
            }),
            outcomes.drop_first(),
        )
    }
}

/// No two entries share a name.
pub open spec fn unique_names<T>(s: Seq<(String, T)>) -> bool {
    forall|i: int, j: int|
        0 <= i < j < s.len() ==> (#[trigger] s[i]).0@ != (#[trigger] s[j]).0@
}

/// A name looks up to nothing exactly when no entry carries it.
pub proof fn lemma_lookup_none<T>(s: Seq<(String, T)>, name: Seq<char>)
    ensures
        (spec_lookup(s, name) is None) <==> (forall|i: int|
            0 <= i < s.len() ==> (#[trigger] s[i]).0@ != name),
    decreases s.len(),
{
    if s.len() == 0 {
    } else {
        lemma_lookup_none(s.drop_first(), name);
        assert forall|i: int| 1 <= i < s.len() implies s.drop_first()[i - 1] == s[i] by {}
        if s[0].0@ != name && (spec_lookup(s.drop_first(), name) is None) {
            assert forall|i: int| 0 <= i < s.len() implies (#[trigger] s[i]).0@ != name by {
                if i > 0 {
                    assert(s[i] == s.drop_first()[i - 1]);
                }
            }
        }
    }
}

/// Appending an entry changes no lookup of an already-bound name, and
/// binds the entry's own name only when it was unbound.
pub proof fn lemma_lookup_push<T>(s: Seq<(String, T)>, e: (String, T), name: Seq<char>)
    ensures
        spec_lookup(s.push(e), name) == (if spec_lookup(s, name) is Some {
            spec_lookup(s, name)
        } else if e.0@ == name {
            Option::Some(e.1)
        } else {
            Option::<T>::None
        }),
    decreases s.len(),
{
    if s.len() == 0 {
        assert(s.push(e)[0] == e);
        assert(s.push(e).drop_first() =~= Seq::<(String, T)>::empty());
        assert(spec_lookup(s, name) is None);
        if e.0@ == name {
            assert(spec_lookup(s.push(e), name) == Option::Some(e.1));
        } else {
            assert(spec_lookup(s.push(e), name) == spec_lookup(s.push(e).drop_first(), name));
            assert(spec_lookup(s.push(e).drop_first(), name) == Option::<T>::None);
        }
    } else {
        assert(s.push(e)[0] == s[0]);
        assert(s.push(e).drop_first() =~= s.drop_first().push(e));
        lemma_lookup_push(s.drop_first(), e, name);
        if s[0].0@ == name {
            assert(spec_lookup(s, name) == Option::Some(s[0].1));
            assert(spec_lookup(s.push(e), name) == Option::Some(s[0].1));
        } else {
            assert(spec_lookup(s, name) == spec_lookup(s.drop_first(), name));
            assert(spec_lookup(s.push(e), name) == spec_lookup(s.drop_first().push(e), name));
        }
    }
}

/// Registry precedence: registering under any name never changes what
/// an already-bound name looks up to — the earliest registration always
/// wins — and binds the registered name only when it was unbound.
pub proof fn lemma_register_first_wins<T>(
    s: Seq<(String, T)>,
    n2: String,
    v2: T,
    name: Seq<char>,
)
    ensures
        spec_lookup(spec_register(s, n2, v2), name) == (if spec_lookup(s, name) is Some {
            spec_lookup(s, name)
        } else if n2@ == name {
            Option::Some(v2)
        } else {
            Option::<T>::None
        }),
{
    if spec_lookup(s, n2@) is Some {
        if !(spec_lookup(s, name) is Some) && n2@ == name {
            assert(false);
        }
    } else {
        lemma_lookup_push(s, (n2, v2), name);
    }
}

/// Discovery fault tolerance: a failed discovery attempt, anywhere in
/// the sequence of attempts, leaves the registry exactly as if the
/// attempt had never been made — it never prevents the registration of
/// components discovered elsewhere.
pub proof fn lemma_discovery_fault_tolerance<T>(
    s: Seq<(String, T)>,
    outcomes: Seq<Option<(String, T)>>,
    i: int,
)
    requires
        0 <= i < outcomes.len(),
        outcomes[i] is None,
    ensures
        spec_register_all(s, outcomes) == spec_register_all(s, outcomes.remove(i)),
    decreases outcomes.len(),
{
    if i == 0 {
        assert(outcomes.remove(0) =~= outcomes.drop_first());
    } else {
        let s1 = (match outcomes[0] {
            Option::Some(nv) => spec_register(s, nv.0, nv.1),
            Option::None => s,
        });
        assert(outcomes.remove(i)[0] == outcomes[0]);
        assert(outcomes.remove(i).drop_first() =~= outcomes.drop_first().remove(i - 1));
        assert(outcomes.drop_first()[i - 1] == outcomes[i]);
        lemma_discovery_fault_tolerance(s1, outcomes.drop_first(), i - 1);
    }
}

/// A name-keyed collection of the components of one extension-point
/// category, earliest registration first.
pub struct Registry<T> {
    entries: Vec<(String, T)>,
}

impl<T> View for Registry<T> {
    type V = Seq<(String, T)>;

    closed spec fn view(&self) -> Seq<(String, T)> {
        self.entries@
    }
}

impl<T> Registry<T> {
    /// An empty registry.
    pub fn new() -> (r: Self)
        ensures
            r@ == Seq::<(String, T)>::empty(),
    {
        Registry { entries: Vec::new() }
    }

    /// The number of registered components.
    pub fn len(&self) -> (r: usize)
        ensures
            r == self@.len(),
    {
        self.entries.len()
    }

    /// The entry at a position, earliest first.
    pub fn entry_at(&self, i: usize) -> (e: &(String, T))
        requires
            i < self@.len(),
        ensures
            *e == self@[i as int],
    {
        &self.entries[i]
    }

    /// The earliest component registered under `name`, if any.
    pub fn get(&self, name: &String) -> (r: Option<&T>)
        ensures
            (match r {
                Option::Some(v) => spec_lookup(self@, name@) == Option::Some(*v),
                Option::None => spec_lookup(self@, name@) is None,
            }),
    {
        let mut i: usize = 0;
        proof {
            assert(self@.skip(0) =~= self@);
        }
        while i < self.entries.len()
            invariant
                i <= self.entries.len(),
                spec_lookup(self@, name@) == spec_lookup(self@.skip(i as int), name@),
        decreases self.entries.len() - i,
        {
            proof {
                assert(self@.skip(i as int)[0] == self@[i as int]);
                assert(self@.skip(i as int).drop_first() =~= self@.skip(i as int + 1));
            }
            if self.entries[i].0 == *name {
                return Option::Some(&self.entries[i].1);
            }
            i += 1;
        }
        proof {
            assert(self@.skip(self@.len() as int) =~= Seq::<(String, T)>::empty());
        }
        Option::None
    }

    /// Register `value` under `name`. The earliest registration of a
    /// name wins: when the name is already taken the registry does not
    /// change, so a later component can never shadow an earlier one.
    /// Registration keeps names unique.
    pub fn register(&mut self, name: String, value: T)
        ensures
            final(self)@ == spec_register(old(self)@, name, value),
            unique_names(old(self)@) ==> unique_names(final(self)@),
    {
        let taken = self.get(&name).is_some();
        if !taken {
            proof {
                lemma_lookup_none(self@, name@);
            }
            self.entries.push((name, value));
            proof {
                if unique_names(old(self)@) {
                    assert forall|i: int, j: int| 0 <= i < j < self@.len() implies (
                    #[trigger] self@[i]).0@ != (#[trigger] self@[j]).0@ by {
                        assert(self@[i] == old(self)@[i]);
                        if j < self@.len() - 1 {
                            assert(self@[j] == old(self)@[j]);
                        }
                    }
                }
            }
        }
    }

    /// Register, in order, every successful outcome of a sequence of
    /// discovery attempts; failed attempts register nothing and do not
    /// disturb the rest.
    pub fn register_loaded(&mut self, outcomes: Vec<Option<(String, T)>>)
        ensures
            final(self)@ == spec_register_all(old(self)@, outcomes@),
    {
        let ghost target = spec_register_all(self@, outcomes@);
        let mut rest = outcomes;
        while rest.len() > 0
            invariant
                spec_register_all(self@, rest@) == target,
            decreases rest@.len(),
        {
            let ghost before = rest@;
            let outcome = rest.remove(0);
            proof {
                assert(rest@ =~= before.drop_first());
            }
            match outcome {
                Option::Some(nv) => {
                    let (n, v) = nv;
                    self.register(n, v);
                },
                Option::None => {},
            }
        }
    }
}

} // verus!
