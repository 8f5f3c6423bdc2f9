//! The execution parameters that the wrapper binary reports about itself.
//!
//! This is the only value that crosses a process boundary in the core
//! protocol: the reporter mode of the wrapper serializes it to standard
//! output, and the orchestrator parses it back.  All strings are kept as
//! UTF-8 byte vectors, exactly as they travel over the pipe; the thin
//! process shell converts to and from platform strings at the edge.

use vstd::prelude::*;

verus! {

/// A snapshot of the wrapper binary's identity: its absolute path and the
/// environment it was launched with.  Captured once in report mode and
/// consumed once by the orchestrator; never mutated after capture.
pub struct ExecutionParams {
    /// Absolute filesystem path of the running wrapper binary, as bytes.
    pub binary: Vec<u8>,
    /// Environment snapshot: (name, value) pairs, names unique.
    pub environment: Vec<(Vec<u8>, Vec<u8>)>,
}

impl ExecutionParams {
    /// The environment as a mathematical sequence of (name, value) pairs.
    pub open spec fn env_view(&self) -> Seq<(Seq<u8>, Seq<u8>)> {
        self.environment@.map_values(|p: (Vec<u8>, Vec<u8>)| (p.0@, p.1@))
    }

    /// Well-formedness: environment variable names are unique.
    pub open spec fn wf(&self) -> bool {
        env_names_unique(self.env_view())
    }
}

/// No two entries share a name.
pub open spec fn env_names_unique(env: Seq<(Seq<u8>, Seq<u8>)>) -> bool {
    forall|i: int, j: int| 0 <= i < j < env.len() ==> env[i].0 != env[j].0
}

/// The value bound to `name`, taking the first binding if several exist.
pub open spec fn env_lookup(env: Seq<(Seq<u8>, Seq<u8>)>, name: Seq<u8>) -> Option<Seq<u8>>
    decreases env.len(),
{
    if env.len() == 0 {
        None
    } else if env[0].0 == name {
        Some(env[0].1)
    } else {
        env_lookup(env.skip(1), name)
    }
}

/// Under the uniqueness invariant, any entry's binding is the one the
/// snapshot returns: there is no second, shadowed value.
pub proof fn lemma_unique_lookup(env: Seq<(Seq<u8>, Seq<u8>)>, i: int)
    requires
        env_names_unique(env),
        0 <= i < env.len(),
    ensures
        env_lookup(env, env[i].0) == Some(env[i].1),
    decreases env.len(),
{
    if i == 0 {
    } else {
        assert(env[0].0 != env[i].0);
        assert(env_names_unique(env.skip(1))) by {
            assert(forall|a: int, b: int|
                0 <= a < b < env.skip(1).len() ==> env.skip(1)[a] == env[a + 1] && env.skip(1)[b]
                    == env[b + 1]);
        }
        lemma_unique_lookup(env.skip(1), i - 1);
        assert(env.skip(1)[i - 1] == env[i]);
    }
}

/// Byte-vector equality, decided executably, stated over views.
pub fn bytes_eq(a: &Vec<u8>, b: &Vec<u8>) -> (r: bool)
    ensures
        r == (a@ == b@),
{
    let r = a == b;
    proof {
        if a@ =~= b@ {
        }
    }
    r
}

/// Look a name up in a captured environment, first binding wins.
pub fn lookup<'a>(environment: &'a Vec<(Vec<u8>, Vec<u8>)>, name: &Vec<u8>) -> (r: Option<
    &'a Vec<u8>,
>)
    ensures
        match r {
            Some(v) => env_lookup(env_pairs_view(environment@), name@) == Some(v@),
            None => env_lookup(env_pairs_view(environment@), name@) is None,
        },
{
    let mut i: usize = 0;
    proof {
        assert(environment@.skip(0) =~= environment@);
    }
    while i < environment.len()
        invariant
            i <= environment@.len(),
            env_lookup(env_pairs_view(environment@), name@) == env_lookup(
                env_pairs_view(environment@.skip(i as int)),
                name@,
            ),
        decreases environment@.len() - i,
    {
        proof {
            assert(env_pairs_view(environment@.skip(i as int))[0]
                == (environment@[i as int].0@, environment@[i as int].1@));
        }
        if bytes_eq(&environment[i].0, name) {
            return Some(&environment[i].1);
        }
        proof {
            assert(env_pairs_view(environment@.skip(i as int)).skip(1)
                =~= env_pairs_view(environment@.skip(i as int + 1)));
        }
        i = i + 1;
    }
    proof {
        assert(env_pairs_view(environment@.skip(i as int)).len() == 0);
    }
    None
}

/// View of a sequence of byte-vector pairs as a sequence of pairs of views.
pub open spec fn env_pairs_view(env: Seq<(Vec<u8>, Vec<u8>)>) -> Seq<(Seq<u8>, Seq<u8>)> {
    env.map_values(|p: (Vec<u8>, Vec<u8>)| (p.0@, p.1@))
}

} // verus!

verus! {

impl ExecutionParams {
    /// Capture a report: the process's own name, as the first argument the
    /// build tool handed it, and its whole environment.  A missing first
    /// argument violates an invariant of how subprocesses are invoked and
    /// yields no report — the caller must fail rather than default.
    pub fn capture(argv0: Option<Vec<u8>>, environment: Vec<(Vec<u8>, Vec<u8>)>) -> (r: Option<
        ExecutionParams,
    >)
        ensures
            r is Some <==> argv0 is Some,
            r matches Some(p) ==> p.binary@ == argv0->Some_0@ && p.environment@ == environment@,
    {
        match argv0 {
            Some(binary) => Some(ExecutionParams { binary, environment }),
            None => None,
        }
    }
}

} // verus!
