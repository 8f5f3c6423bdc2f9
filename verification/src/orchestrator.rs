//! The orchestrator's bootstrap protocol.
//!
//! The user-facing command runs three subprocesses in a strict sequence:
//! the sysroot query against the real compiler, the report-mode build of
//! the wrapper, and the real build with the wrapper substituted as the
//! per-unit compiler.  Every decision between those steps — fail-fast on a
//! non-zero exit, trimming the sysroot, parsing the report, assembling the
//! real build's environment from the captured one through a fixed
//! allow-list — is computed here; the thin process shell only spawns what
//! the returned action names and hands back the outcome.

use vstd::prelude::*;

use crate::codec::{parse_execution_params, parse_params};
use crate::driver::{copy_bytes, views_of};
use crate::params::{env_lookup, env_pairs_view, lookup};

verus! {

/// ASCII whitespace, as it appears around a sysroot query's output.
pub open spec fn is_ws(b: u8) -> bool {
    b == 0x20 || b == 0x09 || b == 0x0a || b == 0x0d
}

/// `s` without leading whitespace.
pub open spec fn trim_front(s: Seq<u8>) -> Seq<u8>
    decreases s.len(),
{
    if s.len() > 0 && is_ws(s[0]) {
        trim_front(s.skip(1))
    } else {
        s
    }
}

/// `s` without trailing whitespace.
pub open spec fn trim_back(s: Seq<u8>) -> Seq<u8>
    decreases s.len(),
{
    if s.len() > 0 && is_ws(s.last()) {
        trim_back(s.drop_last())
    } else {
        s
    }
}

/// `s` without leading and trailing whitespace.
pub open spec fn trim_ws(s: Seq<u8>) -> Seq<u8> {
    trim_back(trim_front(s))
}

/// Decide whether a byte is ASCII whitespace.
fn ws_byte(b: u8) -> (r: bool)
    ensures
        r == is_ws(b),
{
    b == 0x20 || b == 0x09 || b == 0x0a || b == 0x0d
}

/// Strip leading and trailing ASCII whitespace.
pub fn trim_ascii_ws(s: &Vec<u8>) -> (r: Vec<u8>)
    ensures
        r@ == trim_ws(s@),
{
    let mut lo: usize = 0;
    let mut scanning = true;
    proof {
        assert(s@.skip(0) =~= s@);
    }
    while scanning
        invariant
            lo <= s@.len(),
            trim_front(s@) == trim_front(s@.skip(lo as int)),
            !scanning ==> trim_front(s@) == s@.skip(lo as int),
        decreases s@.len() - lo + (if scanning {
            1int
        } else {
            0int
        }),
    {
        if lo == s.len() {
            assert(s@.skip(lo as int).len() == 0);
            scanning = false;
        } else if ws_byte(s[lo]) {
            proof {
                assert(s@.skip(lo as int)[0] == s@[lo as int]);
                assert(s@.skip(lo as int).skip(1) =~= s@.skip(lo as int + 1));
            }
            lo = lo + 1;
        } else {
            assert(s@.skip(lo as int)[0] == s@[lo as int]);
            scanning = false;
        }
    }
    let ghost t = s@.skip(lo as int);
    let mut hi: usize = s.len();
    let mut scanning = true;
    proof {
        assert(t.take(s@.len() - lo) =~= t);
    }
    while scanning
        invariant
            lo <= hi <= s@.len(),
            t == s@.skip(lo as int),
            trim_back(t) == trim_back(t.take(hi as int - lo as int)),
            !scanning ==> trim_back(t) == t.take(hi as int - lo as int),
        decreases hi - lo + (if scanning {
            1int
        } else {
            0int
        }),
    {
        if hi == lo {
            assert(t.take(0).len() == 0);
            scanning = false;
        } else if ws_byte(s[hi - 1]) {
            proof {
                assert(t.take(hi as int - lo as int).last() == s@[hi as int - 1]);
                assert(t.take(hi as int - lo as int).drop_last() =~= t.take(
                    hi as int - 1 - lo as int,
                ));
            }
            hi = hi - 1;
        } else {
            assert(t.take(hi as int - lo as int).last() == s@[hi as int - 1]);
            scanning = false;
        }
    }
    let mut out: Vec<u8> = Vec::new();
    let mut k = lo;
    proof {
        assert(out@ =~= s@.subrange(lo as int, lo as int));
    }
    while k < hi
        invariant
            lo <= k <= hi <= s@.len(),
            out@ == s@.subrange(lo as int, k as int),
        decreases hi - k,
    {
        out.push(s[k]);
        proof {
            assert(s@.subrange(lo as int, k as int + 1) =~= s@.subrange(lo as int, k as int).push(
                s@[k as int],
            ));
        }
        k = k + 1;
    }
    proof {
        assert(out@ =~= t.take(hi as int - lo as int));
    }
    out
}

/// The captured environment entries that pass through into the real build:
/// for each allow-listed name in list order, its captured value, if any.
pub open spec fn passthrough(env: Seq<(Seq<u8>, Seq<u8>)>, allow: Seq<Seq<u8>>) -> Seq<
    (Seq<u8>, Seq<u8>),
>
    decreases allow.len(),
{
    if allow.len() == 0 {
        Seq::empty()
    } else {
        (match env_lookup(env, allow[0]) {
            Some(v) => seq![(allow[0], v)],
            None => Seq::empty(),
        }) + passthrough(env, allow.skip(1))
    }
}

/// Select the allow-listed entries of a captured environment.
pub fn passthrough_env(env: &Vec<(Vec<u8>, Vec<u8>)>, allow: &Vec<Vec<u8>>) -> (r: Vec<
    (Vec<u8>, Vec<u8>),
>)
    ensures
        env_pairs_view(r@) == passthrough(env_pairs_view(env@), views_of(allow@)),
{
    let ghost envv = env_pairs_view(env@);
    let ghost allowv = views_of(allow@);
    let mut out: Vec<(Vec<u8>, Vec<u8>)> = Vec::new();
    let mut i: usize = 0;
    proof {
        assert(allowv.skip(0) =~= allowv);
        assert(env_pairs_view(out@) + passthrough(envv, allowv) =~= passthrough(envv, allowv));
    }
    while i < allow.len()
        invariant
            i <= allow@.len(),
            envv == env_pairs_view(env@),
            allowv == views_of(allow@),
            env_pairs_view(out@) + passthrough(envv, allowv.skip(i as int)) == passthrough(
                envv,
                allowv,
            ),
        decreases allow@.len() - i,
    {
        proof {
            assert(allowv.skip(i as int)[0] == allowv[i as int]);
            assert(allowv.skip(i as int).skip(1) =~= allowv.skip(i as int + 1));
        }
        match lookup(env, &allow[i]) {
            Some(v) => {
                let key = copy_bytes(&allow[i]);
                let val = copy_bytes(v);
                let ghost prev = out@;
                out.push((key, val));
                proof {
                    assert(env_pairs_view(out@) =~= env_pairs_view(prev).push(
                        (allowv[i as int], v@),
                    ));
                    assert(passthrough(envv, allowv.skip(i as int)) =~= seq![
                        (allowv[i as int], v@),
                    ] + passthrough(envv, allowv.skip(i as int + 1)));
                    assert(env_pairs_view(out@) + passthrough(envv, allowv.skip(i as int + 1))
                        =~= env_pairs_view(prev) + passthrough(envv, allowv.skip(i as int)));
                }
            },
            None => {
                proof {
                    assert(passthrough(envv, allowv.skip(i as int)) =~= passthrough(
                        envv,
                        allowv.skip(i as int + 1),
                    ));
                }
            },
        }
        i = i + 1;
    }
    proof {
        assert(allowv.skip(allowv.len() as int).len() == 0);
        assert(passthrough(envv, allowv.skip(i as int)) =~= Seq::<(Seq<u8>, Seq<u8>)>::empty());
        assert(env_pairs_view(out@) + passthrough(envv, allowv.skip(i as int)) =~= env_pairs_view(
            out@,
        ));
    }
    out
}

/// Allow-list containment: whatever the captured environment holds, every
/// entry passed through has an allow-listed name, bound to the value the
/// capture bound it to.
pub proof fn lemma_allow_list_containment(env: Seq<(Seq<u8>, Seq<u8>)>, allow: Seq<Seq<u8>>)
    ensures
        forall|i: int|
            0 <= i < passthrough(env, allow).len() ==> allow.contains(
                #[trigger] passthrough(env, allow)[i].0,
            ) && env_lookup(env, passthrough(env, allow)[i].0) == Some(
                passthrough(env, allow)[i].1,
            ),
    decreases allow.len(),
{
    if allow.len() == 0 {
    } else {
        lemma_allow_list_containment(env, allow.skip(1));
        assert forall|i: int| 0 <= i < passthrough(env, allow).len() implies allow.contains(
            #[trigger] passthrough(env, allow)[i].0,
        ) && env_lookup(env, passthrough(env, allow)[i].0) == Some(
            passthrough(env, allow)[i].1,
        ) by {
            let head = match env_lookup(env, allow[0]) {
                Some(v) => seq![(allow[0], v)],
                None => Seq::<(Seq<u8>, Seq<u8>)>::empty(),
            };
            if i < head.len() {
                assert(allow[0] == passthrough(env, allow)[i].0);
                assert(allow.contains(allow[0]));
            } else {
                let rest = passthrough(env, allow.skip(1));
                assert(passthrough(env, allow)[i] == rest[i - head.len()]);
                assert(allow.skip(1).contains(rest[i - head.len()].0));
                let j = choose|j: int|
                    0 <= j < allow.skip(1).len() && allow.skip(1)[j] == rest[i - head.len()].0;
                assert(allow[j + 1] == rest[i - head.len()].0);
            }
        }
    }
}

/// Outcome of one awaited subprocess: its exit code and captured standard
/// output, read whole.
pub struct ProcessOutcome {
    /// Exit code; zero is success.
    pub code: i32,
    /// Everything the process wrote to standard output.
    pub stdout: Vec<u8>,
}

/// Where the orchestrator stands in its three-step bootstrap.
pub enum OrchState {
    /// Waiting for the sysroot query against the real compiler.
    QueryingSysroot,
    /// Waiting for the report-mode build of the wrapper.
    BuildingReport { sysroot: Vec<u8> },
    /// Waiting for the real build.
    RunningBuild,
    /// Finished; the exit action has been emitted.
    Done,
}

/// What the process shell must do next.
pub enum OrchAction {
    /// Build and run the wrapper in report mode, sentinel set.
    RunReportBuild,
    /// Run the real build with exactly these environment settings.
    RunRealBuild { env: Vec<(Vec<u8>, Vec<u8>)> },
    /// Exit mirroring the final build's success.
    ExitSuccess,
    /// Exit with a failure status.
    ExitFailure,
}

/// Fixed configuration of the orchestrator: the two variable names it sets
/// for the real build, and the allow-list of captured variables passed
/// through.  The allow-list is configuration, not a constant of the logic.
pub struct OrchConfig {
    /// Variable that tells the build tool which binary replaces the
    /// per-unit compiler; bound to the reported absolute path.
    pub wrapper_var: Vec<u8>,
    /// Variable carrying the trimmed sysroot to every driver invocation.
    pub sysroot_var: Vec<u8>,
    /// Names copied from the captured environment when present.
    pub allow_list: Vec<Vec<u8>>,
}

/// The environment settings of the real build: the wrapper substitution,
/// the sysroot override, then the allow-listed captured entries.
pub open spec fn real_build_env(
    config: OrchConfig,
    binary: Seq<u8>,
    sysroot: Seq<u8>,
    captured: Seq<(Seq<u8>, Seq<u8>)>,
) -> Seq<(Seq<u8>, Seq<u8>)> {
    seq![(config.wrapper_var@, binary), (config.sysroot_var@, sysroot)] + passthrough(
        captured,
        views_of(config.allow_list@),
    )
}

/// Advance the orchestrator by one completed subprocess.  Any non-zero
/// exit, and any report that does not parse, is terminal: the orchestrator
/// fails at once, without attempting the next step.
pub fn orchestrate(state: OrchState, event: ProcessOutcome, config: &OrchConfig) -> (r: (
    OrchState,
    OrchAction,
))
    ensures
        (state is QueryingSysroot && event.code != 0) ==> (r.0 is Done && r.1 is ExitFailure),
        (state is QueryingSysroot && event.code == 0) ==> (r.0 is BuildingReport && (
        r.0->BuildingReport_sysroot)@ == trim_ws(event.stdout@) && r.1 is RunReportBuild),
        (state is BuildingReport && event.code != 0) ==> (r.0 is Done && r.1 is ExitFailure),
        (state is BuildingReport && event.code == 0 && parse_params(event.stdout@) is None) ==> (
        r.0 is Done && r.1 is ExitFailure),
        (state is BuildingReport && event.code == 0 && parse_params(event.stdout@) is Some) ==> (
        r.0 is RunningBuild && r.1 is RunRealBuild && env_pairs_view((r.1->RunRealBuild_env)@)
            == real_build_env(
            *config,
            parse_params(event.stdout@)->Some_0.0,
            (state->BuildingReport_sysroot)@,
            parse_params(event.stdout@)->Some_0.1,
        )),
        (state is RunningBuild && event.code == 0) ==> (r.0 is Done && r.1 is ExitSuccess),
        (state is RunningBuild && event.code != 0) ==> (r.0 is Done && r.1 is ExitFailure),
        state is Done ==> (r.0 is Done && r.1 is ExitFailure),
{
    match state {
        OrchState::QueryingSysroot => {
            if event.code != 0 {
                (OrchState::Done, OrchAction::ExitFailure)
            } else {
                let sysroot = trim_ascii_ws(&event.stdout);
                (OrchState::BuildingReport { sysroot }, OrchAction::RunReportBuild)
            }
        },
        OrchState::BuildingReport { sysroot } => {
            if event.code != 0 {
                return (OrchState::Done, OrchAction::ExitFailure);
            }
            match parse_execution_params(&event.stdout) {
                None => (OrchState::Done, OrchAction::ExitFailure),
                Some(params) => {
                    let mut env: Vec<(Vec<u8>, Vec<u8>)> = Vec::new();
                    let wrapper_var = copy_bytes(&config.wrapper_var);
                    let sysroot_var = copy_bytes(&config.sysroot_var);
                    env.push((wrapper_var, params.binary));
                    env.push((sysroot_var, sysroot));
                    let mut pt = passthrough_env(&params.environment, &config.allow_list);
                    let ghost fixed = env_pairs_view(env@);
                    let ghost ptv = env_pairs_view(pt@);
                    env.append(&mut pt);
                    proof {
                        assert(env_pairs_view(env@) =~= fixed + ptv);
                        assert(env_pairs_view(env@) =~= real_build_env(
                            *config,
                            parse_params(event.stdout@)->Some_0.0,
                            sysroot@,
                            parse_params(event.stdout@)->Some_0.1,
                        ));
                    }
                    (OrchState::RunningBuild, OrchAction::RunRealBuild { env })
                },
            }
        },
        OrchState::RunningBuild => {
            if event.code == 0 {
                (OrchState::Done, OrchAction::ExitSuccess)
            } else {
                (OrchState::Done, OrchAction::ExitFailure)
            }
        },
        OrchState::Done => (OrchState::Done, OrchAction::ExitFailure),
    }
}

} // verus!
