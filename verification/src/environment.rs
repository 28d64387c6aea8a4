//! The environment: a mutable name-to-value mapping with an optional
//! enclosing scope, forming the lexical scope chain.
//!
//! Scopes share parents (several child scopes of one block, and closures,
//! all see later assignments through the same parent), so environments live
//! in an arena: a growing vector of records addressed by index, each record
//! naming its parent by a smaller index. The abstraction of one record is
//! `EnvM`; the chain operations are specified over `Seq<EnvM>`.
use vstd::prelude::*;
use crate::expr::LiteralValue;
use crate::expr::Val;

verus! {

/// One scope: local bindings (unique names) and the index of the
/// enclosing scope, if any.
#[derive(Debug)]
pub struct Environment {
    pub values: Vec<(String, LiteralValue)>,
    pub enclosing: Option<usize>,
}

/// The mathematical abstraction of one scope.
#[verifier::ext_equal]
pub ghost struct EnvM {
    pub values: Map<Seq<char>, Val>,
    pub enclosing: Option<int>,
}

/// The bindings of an association list, later entries overriding earlier
/// ones.
pub open spec fn spec_assoc_map(s: Seq<(String, LiteralValue)>) -> Map<Seq<char>, Val>
    decreases s,
{
    if s.len() == 0 {
        Map::empty()
    } else {
        spec_assoc_map(s.drop_last()).insert(s.last().0@, s.last().1@)
    }
}

/// No name occurs twice in the list.
pub open spec fn env_keys_unique(s: Seq<(String, LiteralValue)>) -> bool {
    forall|i: int, j: int| 0 <= i < j < s.len() ==> s[i].0@ != s[j].0@
}

impl View for Environment {
    type V = EnvM;

    open spec fn view(&self) -> EnvM {
        EnvM {
            values: spec_assoc_map(self.values@),
            enclosing: match self.enclosing {
                Some(p) => Some(p as int),
                None => None,
            },
        }
    }
}

/// What the association list means: a name is bound exactly when some
/// entry carries it, to the value of that entry.
pub proof fn lemma_assoc_props(s: Seq<(String, LiteralValue)>)
    requires
        env_keys_unique(s),
    ensures
        forall|k: Seq<char>|
            #[trigger] spec_assoc_map(s).contains_key(k) ==> exists|i: int|
                0 <= i < s.len() && s[i].0@ == k,
        forall|i: int|
            0 <= i < s.len() ==> spec_assoc_map(s).contains_key(#[trigger] s[i].0@)
                && spec_assoc_map(s)[s[i].0@] == s[i].1@,
    decreases s.len(),
{
    if s.len() > 0 {
        let s0 = s.drop_last();
        assert(env_keys_unique(s0)) by {
            assert(forall|i: int| 0 <= i < s0.len() ==> s0[i] == s[i]);
        }
        lemma_assoc_props(s0);
        assert(spec_assoc_map(s) == spec_assoc_map(s0).insert(s.last().0@, s.last().1@));
        assert forall|k: Seq<char>| #[trigger] spec_assoc_map(s).contains_key(k) implies exists|
            i: int,
        |
            0 <= i < s.len() && s[i].0@ == k by {
            if k == s.last().0@ {
                assert(s[s.len() - 1].0@ == k);
            } else {
                assert(spec_assoc_map(s0).contains_key(k));
                let i = choose|i: int| 0 <= i < s0.len() && s0[i].0@ == k;
                assert(s[i].0@ == k);
            }
        }
        assert forall|i: int| 0 <= i < s.len() implies spec_assoc_map(s).contains_key(
            #[trigger] s[i].0@,
        ) && spec_assoc_map(s)[s[i].0@] == s[i].1@ by {
            if i == s.len() - 1 {
            } else {
                assert(s0[i] == s[i]);
                assert(s[i].0@ != s.last().0@);
            }
        }
    }
}

impl Environment {
    /// A fresh scope with no bindings and no enclosing scope.
    pub fn new() -> (r: Environment)
        ensures
            r@.values == Map::<Seq<char>, Val>::empty(),
            r@.enclosing is None,
            env_keys_unique(r.values@),
    {
        Environment { values: Vec::new(), enclosing: None }
    }

    /// The index of the entry carrying `name`, if any.
    fn find_index(&self, name: &String) -> (r: Option<usize>)
        ensures
            match r {
                Some(i) => i < self.values@.len() && self.values@[i as int].0@ == name@,
                None => forall|j: int| 0 <= j < self.values@.len() ==> self.values@[j].0@ != name@,
            },
    {
        let mut i: usize = 0;
        while i < self.values.len()
            invariant
                i <= self.values@.len(),
                forall|j: int| 0 <= j < i ==> self.values@[j].0@ != name@,
            decreases self.values@.len() - i,
        {
            if self.values[i].0 == *name {
                return Some(i);
            }
            i = i + 1;
        }
        None
    }

    /// Whether `name` is bound in this scope's own bindings.
    pub fn contains(&self, name: &String) -> (r: bool)
        requires
            env_keys_unique(self.values@),
        ensures
            r == self@.values.contains_key(name@),
    {
        proof {
            lemma_assoc_props(self.values@);
        }
        match self.find_index(name) {
            Some(_) => true,
            None => {
                proof {
                    if self@.values.contains_key(name@) {
                        let i = choose|i: int|
                            0 <= i < self.values@.len() && self.values@[i].0@ == name@;
                    }
                }
                false
            },
        }
    }

    /// Binds `name` to `value` in this scope's own bindings, creating the
    /// binding or overwriting an existing one; the enclosing scope is
    /// never touched. This is how shadowing is created.
    pub fn define(&mut self, name: String, value: LiteralValue)
        requires
            env_keys_unique(old(self).values@),
        ensures
            env_keys_unique(final(self).values@),
            final(self)@.values == old(self)@.values.insert(name@, value@),
            final(self)@.enclosing == old(self)@.enclosing,
            final(self).enclosing == old(self).enclosing,
            final(self).values@.len() <= old(self).values@.len() + 1,
    {
        proof {
            lemma_assoc_props(self.values@);
        }
        let ghost s_old = self.values@;
        match self.find_index(&name) {
            Some(i) => {
                let entry = &mut self.values[i];
                *entry = (name, value);
                proof {
                    let s_new = self.values@;
                    assert(s_new.len() == s_old.len());
                    assert(s_new[i as int] == (name, value));
                    assert(forall|j: int| 0 <= j < s_new.len() && j != i ==> s_new[j] == s_old[j]);
                    assert(env_keys_unique(s_new)) by {
                        assert(forall|j: int|
                            0 <= j < s_new.len() ==> s_new[j].0@ == s_old[j].0@);
                    }
                    lemma_assoc_props(s_new);
                    assert forall|k: Seq<char>|
                        #![all_triggers]
                        spec_assoc_map(s_new).contains_key(k) == spec_assoc_map(
                            s_old,
                        ).insert(name@, value@).contains_key(k) by {
                        if spec_assoc_map(s_new).contains_key(k) {
                            let j = choose|j: int|
                                0 <= j < s_new.len() && s_new[j].0@ == k;
                            if j != i {
                                assert(s_old[j].0@ == k);
                            }
                        }
                        if k != name@ && spec_assoc_map(s_old).contains_key(k) {
                            let j = choose|j: int|
                                0 <= j < s_old.len() && s_old[j].0@ == k;
                            assert(j != i);
                            assert(s_new[j].0@ == k);
                        }
                    }
                    assert forall|k: Seq<char>|
                        #![all_triggers]
                        spec_assoc_map(s_new).contains_key(k) implies spec_assoc_map(
                        s_new,
                    )[k] == spec_assoc_map(s_old).insert(name@, value@)[k] by {
                        let j = choose|j: int| 0 <= j < s_new.len() && s_new[j].0@ == k;
                        assert(spec_assoc_map(s_new)[k] == s_new[j].1@);
                        if j == i {
                        } else {
                            assert(s_old[j] == s_new[j]);
                            assert(k != name@) by {
                                assert(s_old[i as int].0@ == name@);
                            }
                            assert(spec_assoc_map(s_old)[k] == s_old[j].1@);
                        }
                    }
                    assert(spec_assoc_map(s_new) =~= spec_assoc_map(s_old).insert(
                        name@,
                        value@,
                    ));
                }
            },
            None => {
                self.values.push((name, value));
                proof {
                    let s_new = self.values@;
                    assert(s_new.drop_last() =~= s_old);
                    assert(env_keys_unique(s_new)) by {
                        assert(forall|j: int| 0 <= j < s_old.len() ==> s_new[j] == s_old[j]);
                    }
                }
            },
        }
    }

    /// The value bound to `name` in this scope's own bindings, if any.
    pub fn get(&self, name: &String) -> (r: Option<LiteralValue>)
        requires
            env_keys_unique(self.values@),
        ensures
            match r {
                Some(v) => self@.values.contains_key(name@) && v@ == self@.values[name@],
                None => !self@.values.contains_key(name@),
            },
    {
        proof {
            lemma_assoc_props(self.values@);
        }
        match self.find_index(name) {
            Some(i) => Some(self.values[i].1.duplicate()),
            None => {
                proof {
                    if self@.values.contains_key(name@) {
                        let i = choose|i: int|
                            0 <= i < self.values@.len() && self.values@[i].0@ == name@;
                    }
                }
                None
            },
        }
    }
}

/// The abstraction of the whole arena, record for record.
pub open spec fn spec_view_envs(v: Seq<Environment>) -> Seq<EnvM> {
    v.map_values(|e: Environment| e@)
}

pub proof fn lemma_view_envs_len(v: Seq<Environment>)
    ensures
        spec_view_envs(v).len() == v.len(),
{
}

/// Arena well-formedness: unique keys in every record, and every record's
/// parent has a smaller index, so chain walks terminate.
pub open spec fn arena_wf(v: Seq<Environment>) -> bool {
    forall|i: int|
        0 <= i < v.len() ==> (env_keys_unique(#[trigger] v[i].values@) && match v[i].enclosing {
            Some(p) => p < i,
            None => true,
        })
}

/// Scope-chain lookup: the local bindings first; on a miss, the enclosing
/// scope, recursively; absence at the root is a miss.
pub open spec fn spec_lookup(envs: Seq<EnvM>, i: int, name: Seq<char>) -> Option<Val>
    decreases i,
{
    if !(0 <= i < envs.len()) {
        None
    } else if envs[i].values.contains_key(name) {
        Some(envs[i].values[name])
    } else {
        match envs[i].enclosing {
            Some(p) => if 0 <= p < i {
                spec_lookup(envs, p, name)
            } else {
                None
            },
            None => None,
        }
    }
}

/// Binding `name` in the record at `i` alone.
pub open spec fn spec_define(envs: Seq<EnvM>, i: int, name: Seq<char>, v: Val) -> Seq<EnvM> {
    envs.update(
        i,
        EnvM { values: envs[i].values.insert(name, v), enclosing: envs[i].enclosing },
    )
}

/// Scope-chain assignment: mutates the nearest enclosing scope that
/// already binds `name`; when no scope in the chain binds it, the chain is
/// unchanged and the flag is false.
pub open spec fn spec_assign(envs: Seq<EnvM>, i: int, name: Seq<char>, v: Val) -> (Seq<
    EnvM,
>, bool)
    decreases i,
{
    if !(0 <= i < envs.len()) {
        (envs, false)
    } else if envs[i].values.contains_key(name) {
        (spec_define(envs, i, name, v), true)
    } else {
        match envs[i].enclosing {
            Some(p) => if 0 <= p < i {
                spec_assign(envs, p, name, v)
            } else {
                (envs, false)
            },
            None => (envs, false),
        }
    }
}

/// A fresh child record of `parent` appended to the arena.
pub fn push_env(envs: &mut Vec<Environment>, parent: usize) -> (idx: usize)
    requires
        arena_wf(old(envs)@),
        parent < old(envs)@.len(),
    ensures
        arena_wf(final(envs)@),
        idx == old(envs)@.len(),
        final(envs)@.len() == old(envs)@.len() + 1,
        spec_view_envs(final(envs)@) == spec_view_envs(old(envs)@).push(
            EnvM { values: Map::empty(), enclosing: Some(parent as int) },
        ),
{
    let idx = envs.len();
    let mut e = Environment::new();
    e.enclosing = Some(parent);
    envs.push(e);
    proof {
        assert(forall|j: int|
            0 <= j < old(envs)@.len() ==> final(envs)@[j] == old(envs)@[j]);
        assert(spec_view_envs(final(envs)@) =~= spec_view_envs(old(envs)@).push(
            EnvM { values: Map::empty(), enclosing: Some(parent as int) },
        ));
    }
    idx
}

/// Binds `name` to `value` in the record at `idx`.
pub fn env_define(envs: &mut Vec<Environment>, idx: usize, name: String, value: LiteralValue)
    requires
        arena_wf(old(envs)@),
        idx < old(envs)@.len(),
    ensures
        arena_wf(final(envs)@),
        final(envs)@.len() == old(envs)@.len(),
        spec_view_envs(final(envs)@).len() == spec_view_envs(old(envs)@).len(),
        spec_view_envs(final(envs)@) == spec_define(
            spec_view_envs(old(envs)@),
            idx as int,
            name@,
            value@,
        ),
{
    let e = &mut envs[idx];
    let ghost e_old = *e;
    e.define(name, value);
    proof {
        assert(forall|j: int|
            0 <= j < final(envs)@.len() && j != idx ==> final(envs)@[j] == old(envs)@[j]);
        assert(spec_view_envs(final(envs)@) =~= spec_define(
            spec_view_envs(old(envs)@),
            idx as int,
            name@,
            value@,
        ));
    }
}

/// Scope-chain lookup from the record at `idx` outward.
pub fn env_get(envs: &Vec<Environment>, idx: usize, name: &String) -> (r: Option<LiteralValue>)
    requires
        arena_wf(envs@),
        idx < envs@.len(),
    ensures
        match (r, spec_lookup(spec_view_envs(envs@), idx as int, name@)) {
            (Some(v), Some(m)) => v@ == m,
            (None, None) => true,
            _ => false,
        },
{
    let ghost model = spec_view_envs(envs@);
    let mut j: usize = idx;
    loop
        invariant
            arena_wf(envs@),
            j < envs@.len(),
            model == spec_view_envs(envs@),
            spec_lookup(model, idx as int, name@) == spec_lookup(model, j as int, name@),
        decreases j,
    {
        match envs[j].get(name) {
            Some(v) => {
                proof {
                    assert(model[j as int] == envs@[j as int]@);
                }
                return Some(v);
            },
            None => {
                proof {
                    assert(model[j as int] == envs@[j as int]@);
                }
                match envs[j].enclosing {
                    Some(p) => {
                        j = p;
                    },
                    None => {
                        return None;
                    },
                }
            },
        }
    }
}

/// Scope-chain assignment from the record at `idx` outward: true iff some
/// scope in the chain already bound `name`.
pub fn env_assign(envs: &mut Vec<Environment>, idx: usize, name: &String, value: LiteralValue)
    -> (r: bool)
    requires
        arena_wf(old(envs)@),
        idx < old(envs)@.len(),
    ensures
        arena_wf(final(envs)@),
        final(envs)@.len() == old(envs)@.len(),
        (spec_view_envs(final(envs)@), r) == spec_assign(
            spec_view_envs(old(envs)@),
            idx as int,
            name@,
            value@,
        ),
        !r ==> final(envs)@ == old(envs)@,
{
    let ghost model = spec_view_envs(old(envs)@);
    let mut j: usize = idx;
    loop
        invariant
            arena_wf(envs@),
            j < envs@.len(),
            envs@ == old(envs)@,
            model == spec_view_envs(envs@),
            spec_assign(model, idx as int, name@, value@) == spec_assign(
                model,
                j as int,
                name@,
                value@,
            ),
        decreases j,
    {
        let owned: bool = envs[j].contains(name);
        proof {
            assert(model[j as int] == envs@[j as int]@);
        }
        if owned {
            env_define(envs, j, name.clone(), value);
            return true;
        }
        match envs[j].enclosing {
            Some(p) => {
                j = p;
            },
            None => {
                return false;
            },
        }
    }
}

} // verus!
