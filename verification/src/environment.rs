//! Environments: the bindings of names to values, each with an optional
//! enclosing environment.
//!
//! All environments live in an `EnvStore` and are named by their index there
//! (`Env`), so that closures can share an environment that later definitions
//! still change.
use vstd::prelude::*;
use vstd::string::*;

use crate::object::{Object, ObjectV};
use crate::token::str_eq;

verus! {

/// A handle to an environment in an `EnvStore`.
pub type Env = usize;

#[derive(Debug)]
pub struct Environment {
    store: Vec<(String, Object)>,
    outer: Option<Env>,
}

/// All the environments of a run.
#[derive(Debug)]
pub struct EnvStore {
    frames: Vec<Environment>,
}

/// The value of an environment: its bindings and the environment that encloses it.
#[verifier::ext_equal]
pub struct FrameV {
    pub store: Map<Seq<char>, ObjectV>,
    pub outer: Option<nat>,
}

/// The bindings of a list of definitions, a later one replacing an earlier one.
pub open spec fn assoc_map(s: Seq<(String, Object)>) -> Map<Seq<char>, ObjectV>
    decreases s.len(),
{
    if s.len() == 0 {
        Map::empty()
    } else {
        assoc_map(s.subrange(0, s.len() - 1)).insert(s.last().0@, s.last().1@)
    }
}

impl View for Environment {
    type V = FrameV;

    closed spec fn view(&self) -> FrameV {
        FrameV {
            store: assoc_map(self.store@),
            outer: match self.outer {
                Some(o) => Some(o as nat),
                None => None,
            },
        }
    }
}

impl View for EnvStore {
    type V = Seq<FrameV>;

    closed spec fn view(&self) -> Seq<FrameV> {
        Seq::new(self.frames@.len(), |i: int| self.frames@[i]@)
    }
}

/// The value bound to `name` in environment `env` or in the environments
/// that enclose it.
pub open spec fn lookup(h: Seq<FrameV>, env: int, name: Seq<char>) -> Option<ObjectV>
    decreases env,
{
    if env < 0 || env >= h.len() {
        None
    } else if h[env].store.contains_key(name) {
        Some(h[env].store[name])
    } else {
        match h[env].outer {
            Some(o) => if o < env {
                lookup(h, o as int, name)
            } else {
                None
            },
            None => None,
        }
    }
}

/// Binds `name` to `v` in environment `env`.
pub open spec fn define_in(h: Seq<FrameV>, env: int, name: Seq<char>, v: ObjectV) -> Seq<
    FrameV,
> {
    h.update(env, FrameV { store: h[env].store.insert(name, v), outer: h[env].outer })
}

/// Adds an empty environment enclosed by `outer`.
pub open spec fn enclose(h: Seq<FrameV>, outer: Option<nat>) -> Seq<FrameV> {
    h.push(FrameV { store: Map::empty(), outer })
}

proof fn lemma_assoc_scan(s: Seq<(String, Object)>, i: int, name: Seq<char>)
    requires
        0 <= i <= s.len(),
        forall|j: int| i <= j < s.len() ==> (#[trigger] s[j]).0@ != name,
    ensures
        assoc_map(s).contains_key(name) == assoc_map(s.subrange(0, i)).contains_key(name),
        assoc_map(s).contains_key(name) ==> assoc_map(s)[name] == assoc_map(
            s.subrange(0, i),
        )[name],
    decreases s.len() - i,
{
    if i < s.len() {
        let t = s.subrange(0, s.len() - 1);
        assert(s.subrange(0, i) =~= t.subrange(0, i));
        lemma_assoc_scan(t, i, name);
    } else {
        assert(s.subrange(0, i) =~= s);
    }
}

impl Environment {
    /// A new environment store holding one empty environment, and that environment.
    pub fn new() -> (r: (EnvStore, Env))
        ensures
            r.0@ == seq![FrameV { store: Map::empty(), outer: None }],
            r.1 == 0,
    {
        let mut frames: Vec<Environment> = Vec::new();
        frames.push(Environment { store: Vec::new(), outer: None });
        let s = EnvStore { frames };
        proof {
            assert(assoc_map(Seq::<(String, Object)>::empty()) =~= Map::empty());
            assert(s@ =~= seq![FrameV { store: Map::empty(), outer: None }]);
        }
        (s, 0)
    }

    /// Adds an empty environment enclosed by `outer`, and returns it.
    pub fn new_enclosed(envs: &mut EnvStore, outer: Env) -> (r: Env)
        requires
            old(envs)@.len() < usize::MAX,
        ensures
            final(envs)@ == enclose(old(envs)@, Some(outer as nat)),
            r == old(envs)@.len(),
    {
        let r = envs.frames.len();
        envs.frames.push(Environment { store: Vec::new(), outer: Some(outer) });
        proof {
            assert(assoc_map(Seq::<(String, Object)>::empty()) =~= Map::empty());
            assert(envs@ =~= enclose(old(envs)@, Some(outer as nat)));
        }
        r
    }

    /// Binds `name` to `value` in this environment.
    pub fn define(&mut self, name: &str, value: Object)
        ensures
            final(self)@ == (FrameV {
                store: old(self)@.store.insert(name@, value@),
                outer: old(self)@.outer,
            }),
    {
        let ghost before = self.store@;
        self.store.push((String::from_str(name), value));
        assert(self.store@.subrange(0, self.store@.len() - 1) =~= before);
    }

    /// The value bound to `name` in this environment itself.
    fn get_local(&self, name: &str) -> (r: Option<&Object>)
        ensures
            r is Some <==> self@.store.contains_key(name@),
            r matches Some(o) ==> o@ == self@.store[name@],
    {
        let mut i = self.store.len();
        while i > 0
            invariant
                i <= self.store@.len(),
                forall|j: int| i <= j < self.store@.len() ==> (#[trigger] self.store@[j]).0@
                    != name@,
            decreases i,
        {
            if str_eq(self.store[i - 1].0.as_str(), name) {
                proof {
                    lemma_assoc_scan(self.store@, i as int, name@);
                    let t = self.store@.subrange(0, i as int);
                    assert(t.subrange(0, t.len() - 1) =~= self.store@.subrange(0, i - 1));
                }
                return Some(&self.store[i - 1].1);
            }
            i = i - 1;
        }
        proof {
            lemma_assoc_scan(self.store@, 0, name@);
        }
        None
    }

    /// The value bound to `name` in environment `env` or in the environments
    /// that enclose it.
    pub fn get(envs: &EnvStore, env: Env, name: &str) -> (r: Option<Object>)
        ensures
            match r {
                Some(o) => lookup(envs@, env as int, name@) == Some(o@),
                None => lookup(envs@, env as int, name@) is None,
            },
    {
        let mut cur = env;
        while cur < envs.frames.len()
            invariant
                lookup(envs@, cur as int, name@) == lookup(envs@, env as int, name@),
            decreases cur,
        {
            match envs.frames[cur].get_local(name) {
                Some(value) => {
                    return Some(value.duplicate());
                },
                None => {
                    match envs.frames[cur].outer {
                        Some(o) => {
                            if o < cur {
                                cur = o;
                            } else {
                                return None;
                            }
                        },
                        None => {
                            return None;
                        },
                    }
                },
            }
        }
        None
    }
}

impl EnvStore {
    /// The number of environments.
    pub fn len(&self) -> (r: usize)
        ensures
            r == self@.len(),
    {
        self.frames.len()
    }

    /// Binds `name` to `value` in environment `env`.
    pub fn define(&mut self, env: Env, name: &str, value: Object)
        requires
            env < old(self)@.len(),
        ensures
            final(self)@ == define_in(old(self)@, env as int, name@, value@),
    {
        self.frames[env].define(name, value);
        assert(self@ =~= define_in(old(self)@, env as int, name@, value@));
    }
}

/// Reading a name right after defining it in the same environment gives the
/// value just defined.
pub proof fn lemma_get_after_define(h: Seq<FrameV>, env: int, name: Seq<char>, v: ObjectV)
    requires
        0 <= env < h.len(),
    ensures
        lookup(define_in(h, env, name, v), env, name) == Some(v),
{
}

/// Defining a name leaves every other name, seen from any environment, as
/// it was.
pub proof fn lemma_define_keeps_other_names(
    h: Seq<FrameV>,
    env: int,
    name: Seq<char>,
    v: ObjectV,
    from: int,
    other: Seq<char>,
)
    requires
        0 <= env < h.len(),
        other != name,
    ensures
        lookup(define_in(h, env, name, v), from, other) == lookup(h, from, other),
    decreases from,
{
    let h2 = define_in(h, env, name, v);
    if 0 <= from < h.len() {
        assert(h2[from].store.contains_key(other) == h[from].store.contains_key(other));
        if !h[from].store.contains_key(other) {
            match h[from].outer {
                Some(o) => if o < from {
                    lemma_define_keeps_other_names(h, env, name, v, o as int, other);
                },
                None => {},
            }
        }
    }
}

/// Adding an environment changes no lookup from the environments that were
/// already there.
pub proof fn lemma_enclose_keeps_lookups(
    h: Seq<FrameV>,
    outer: Option<nat>,
    from: int,
    name: Seq<char>,
)
    requires
        0 <= from < h.len(),
    ensures
        lookup(enclose(h, outer), from, name) == lookup(h, from, name),
    decreases from,
{
    let h2 = enclose(h, outer);
    assert(h2[from] == h[from]);
    if !h[from].store.contains_key(name) {
        match h[from].outer {
            Some(o) => if o < from {
                lemma_enclose_keeps_lookups(h, outer, o as int, name);
            },
            None => {},
        }
    }
}

/// A new environment enclosed by `outer` sees exactly what `outer` sees.
pub proof fn lemma_enclosed_sees_outer(h: Seq<FrameV>, outer: nat, name: Seq<char>)
    requires
        outer < h.len(),
    ensures
        lookup(enclose(h, Some(outer)), h.len() as int, name) == lookup(h, outer as int, name),
{
    lemma_enclose_keeps_lookups(h, Some(outer), outer as int, name);
}

/// A definition in an enclosed environment hides the same name of the
/// environments around it.
pub proof fn lemma_inner_definition_shadows(
    h: Seq<FrameV>,
    outer: nat,
    name: Seq<char>,
    v: ObjectV,
)
    requires
        outer < h.len(),
    ensures
        lookup(define_in(enclose(h, Some(outer)), h.len() as int, name, v), h.len() as int, name)
            == Some(v),
        lookup(
            define_in(enclose(h, Some(outer)), h.len() as int, name, v),
            outer as int,
            name,
        ) == lookup(h, outer as int, name),
{
    let h2 = enclose(h, Some(outer));
    lemma_get_after_define(h2, h.len() as int, name, v);
    lemma_define_in_other_frame(h2, h.len() as int, name, v, outer as int);
    lemma_enclose_keeps_lookups(h, Some(outer), outer as int, name);
}

/// A definition in environment `env` is not seen from environments with a
/// smaller index, which `env` can never enclose.
pub proof fn lemma_define_in_other_frame(
    h: Seq<FrameV>,
    env: int,
    name: Seq<char>,
    v: ObjectV,
    from: int,
)
    requires
        0 <= env < h.len(),
        from < env,
    ensures
        lookup(define_in(h, env, name, v), from, name) == lookup(h, from, name),
    decreases from,
{
    if 0 <= from {
        let h2 = define_in(h, env, name, v);
        assert(h2[from] == h[from]);
        if !h[from].store.contains_key(name) {
            match h[from].outer {
                Some(o) => if o < from {
                    lemma_define_in_other_frame(h, env, name, v, o as int);
                },
                None => {},
            }
        }
    }
}

} // verus!
