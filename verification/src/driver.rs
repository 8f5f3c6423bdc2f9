//! Driver mode: the wrapper binary standing in for the real compiler.
//!
//! A [`Driver`] carries the configuration tags to inject as `--cfg=` flags
//! and the registration callbacks to compose with the host compiler's
//! default registration.  Its one decision — report on itself, or compile
//! with exactly which flags — is computed here from plain values; the thin
//! process shell performs whichever invocation was planned.

use vstd::prelude::*;

use crate::registry::Registration;

verus! {

/// Views of a sequence of byte vectors.
pub open spec fn views_of(s: Seq<Vec<u8>>) -> Seq<Seq<u8>> {
    s.map_values(|v: Vec<u8>| v@)
}

/// View of an optional byte vector.
pub open spec fn opt_view(o: Option<Vec<u8>>) -> Option<Seq<u8>> {
    match o {
        Some(v) => Some(v@),
        None => None,
    }
}

/// `--cfg=` as bytes.
pub open spec fn cfg_flag_prefix() -> Seq<u8> {
    seq![0x2du8, 0x2du8, 0x63u8, 0x66u8, 0x67u8, 0x3du8]
}

/// `--sysroot=` as bytes.
pub open spec fn sysroot_flag_prefix() -> Seq<u8> {
    seq![0x2du8, 0x2du8, 0x73u8, 0x79u8, 0x73u8, 0x72u8, 0x6fu8, 0x6fu8, 0x74u8, 0x3du8]
}

/// The flag injected for one configuration tag.
pub open spec fn cfg_flag(tag: Seq<u8>) -> Seq<u8> {
    cfg_flag_prefix() + tag
}

/// The flag injected for a sysroot override.
pub open spec fn sysroot_flag(sysroot: Seq<u8>) -> Seq<u8> {
    sysroot_flag_prefix() + sysroot
}

/// Everything the driver appends after the caller-supplied arguments: one
/// `--cfg=` flag per tag, in tag order, then the sysroot override if any.
pub open spec fn injected_flags(tags: Seq<Seq<u8>>, sysroot: Option<Seq<u8>>) -> Seq<Seq<u8>> {
    tags.map_values(|t: Seq<u8>| cfg_flag(t)) + match sysroot {
        Some(s) => seq![sysroot_flag(s)],
        None => Seq::empty(),
    }
}

/// What one driver invocation does: report on itself, or run the host
/// compiler with exactly these arguments.
pub enum Invocation {
    /// Serialize the execution parameters and exit; the host compiler is
    /// never invoked.
    Report,
    /// Run the host compiler with these arguments.
    Compile { args: Vec<Vec<u8>> },
}

/// The entry point for a custom linter: configuration tags plus lint
/// registration callbacks, composed over the host compiler's defaults.
pub struct Driver {
    /// Tags injected as `--cfg=` flags, in the order they were added.
    pub cfg: Vec<Vec<u8>>,
    /// Registrations applied after the default one, in the order they were
    /// added.
    pub callbacks: Vec<Registration>,
}

impl Driver {
    /// Create a driver with no tags and no callbacks.
    pub fn new() -> (r: Self)
        ensures
            r.cfg@ == Seq::<Vec<u8>>::empty(),
            r.callbacks@ == Seq::<Registration>::empty(),
    {
        Driver { cfg: Vec::new(), callbacks: Vec::new() }
    }

    /// Add a `--cfg={tag}` flag to the compiler invocation.
    pub fn with_cfg(self, tag: Vec<u8>) -> (r: Self)
        ensures
            r.cfg@ == self.cfg@.push(tag),
            r.callbacks@ == self.callbacks@,
    {
        let mut s = self;
        s.cfg.push(tag);
        s
    }

    /// Add a single callback for registering checks.
    pub fn with_callback(self, callback: Registration) -> (r: Self)
        ensures
            r.cfg@ == self.cfg@,
            r.callbacks@ == self.callbacks@.push(callback),
    {
        let mut s = self;
        s.callbacks.push(callback);
        s
    }

    /// Add multiple callbacks for registering checks.
    pub fn with_callbacks(self, callbacks: Vec<Registration>) -> (r: Self)
        ensures
            r.cfg@ == self.cfg@,
            r.callbacks@ == self.callbacks@ + callbacks@,
    {
        let mut s = self;
        let mut callbacks = callbacks;
        s.callbacks.append(&mut callbacks);
        s
    }

    /// Decide what this invocation does.  When the report sentinel is in
    /// the environment the driver only reports on itself, whatever the
    /// arguments; otherwise it runs the host compiler with the caller's
    /// arguments followed by the injected flags, in that order.
    pub fn plan_invocation(
        &self,
        args: Vec<Vec<u8>>,
        report_sentinel_set: bool,
        sysroot_override: Option<Vec<u8>>,
    ) -> (inv: Invocation)
        ensures
            report_sentinel_set <==> inv is Report,
            !report_sentinel_set ==> (inv matches Invocation::Compile { args: out }
                && views_of(out@) == views_of(args@) + injected_flags(
                views_of(self.cfg@),
                opt_view(sysroot_override),
            )),
    {
        if report_sentinel_set {
            return Invocation::Report;
        }
        let ghost args0 = views_of(args@);
        let ghost tags = views_of(self.cfg@);
        let mut out = args;
        let mut i: usize = 0;
        proof {
            assert(tags.take(0).map_values(|t: Seq<u8>| cfg_flag(t)) =~= Seq::<Seq<u8>>::empty());
            assert(views_of(out@) =~= args0 + tags.take(0).map_values(|t: Seq<u8>| cfg_flag(t)));
        }
        while i < self.cfg.len()
            invariant
                i <= self.cfg@.len(),
                tags == views_of(self.cfg@),
                views_of(out@) == args0 + tags.take(i as int).map_values(
                    |t: Seq<u8>| cfg_flag(t),
                ),
            decreases self.cfg@.len() - i,
        {
            let flag = make_flag_cfg(&self.cfg[i]);
            let ghost prev = out@;
            out.push(flag);
            proof {
                assert(flag@ == cfg_flag(tags[i as int]));
                assert(views_of(prev.push(flag)) =~= views_of(prev).push(flag@));
                assert(tags.take(i as int + 1).map_values(|t: Seq<u8>| cfg_flag(t)) =~= tags.take(
                    i as int,
                ).map_values(|t: Seq<u8>| cfg_flag(t)).push(cfg_flag(tags[i as int])));
                assert((args0 + tags.take(i as int).map_values(|t: Seq<u8>| cfg_flag(t))).push(
                    cfg_flag(tags[i as int]),
                ) =~= args0 + tags.take(i as int).map_values(|t: Seq<u8>| cfg_flag(t)).push(
                    cfg_flag(tags[i as int]),
                ));
                assert(views_of(out@) =~= args0 + tags.take(i as int + 1).map_values(
                    |t: Seq<u8>| cfg_flag(t),
                ));
            }
            i = i + 1;
        }
        proof {
            assert(tags.take(tags.len() as int) =~= tags);
        }
        match sysroot_override {
            Some(s) => {
                let flag = make_flag_sysroot(&s);
                let ghost prev = out@;
                out.push(flag);
                proof {
                    assert(flag@ == sysroot_flag(s@));
                    assert(views_of(prev.push(flag)) =~= views_of(prev).push(flag@));
                    let mapped = tags.map_values(|t: Seq<u8>| cfg_flag(t));
                    assert(injected_flags(tags, Some(s@)) =~= mapped + seq![sysroot_flag(s@)]);
                    assert((args0 + mapped).push(sysroot_flag(s@)) =~= args0 + (mapped + seq![
                        sysroot_flag(s@),
                    ]));
                    assert(views_of(out@) =~= args0 + injected_flags(tags, opt_view(Some(s))));
                }
                Invocation::Compile { args: out }
            },
            None => {
                proof {
                    assert(views_of(out@) =~= args0 + injected_flags(tags, None));
                }
                Invocation::Compile { args: out }
            },
        }
    }
}

/// Copy the bytes of a vector.
pub fn copy_bytes(s: &Vec<u8>) -> (r: Vec<u8>)
    ensures
        r@ == s@,
{
    let mut r: Vec<u8> = Vec::new();
    let mut i: usize = 0;
    while i < s.len()
        invariant
            i <= s@.len(),
            r@ == s@.take(i as int),
        decreases s@.len() - i,
    {
        r.push(s[i]);
        proof {
            assert(s@.take(i as int + 1) =~= s@.take(i as int).push(s@[i as int]));
        }
        i = i + 1;
    }
    proof {
        assert(s@.take(s@.len() as int) =~= s@);
    }
    r
}

/// Build `--cfg={tag}`.
fn make_flag_cfg(tag: &Vec<u8>) -> (r: Vec<u8>)
    ensures
        r@ == cfg_flag(tag@),
{
    let mut r: Vec<u8> = vec![0x2d, 0x2d, 0x63, 0x66, 0x67, 0x3d];
    assert(r@ =~= cfg_flag_prefix());
    append_bytes(&mut r, tag);
    r
}

/// Build `--sysroot={sysroot}`.
fn make_flag_sysroot(sysroot: &Vec<u8>) -> (r: Vec<u8>)
    ensures
        r@ == sysroot_flag(sysroot@),
{
    let mut r: Vec<u8> = vec![0x2d, 0x2d, 0x73, 0x79, 0x73, 0x72, 0x6f, 0x6f, 0x74, 0x3d];
    assert(r@ =~= sysroot_flag_prefix());
    append_bytes(&mut r, sysroot);
    r
}

/// Append the bytes of `s` to `out`.
pub fn append_bytes(out: &mut Vec<u8>, s: &Vec<u8>)
    ensures
        final(out)@ == old(out)@ + s@,
{
    let mut i: usize = 0;
    proof {
        assert(out@ =~= old(out)@ + s@.take(0));
    }
    while i < s.len()
        invariant
            i <= s@.len(),
            out@ == old(out)@ + s@.take(i as int),
        decreases s@.len() - i,
    {
        out.push(s[i]);
        proof {
            assert(s@.take(i as int + 1) =~= s@.take(i as int).push(s@[i as int]));
            assert(old(out)@ + s@.take(i as int + 1) =~= (old(out)@ + s@.take(i as int)).push(
                s@[i as int],
            ));
        }
        i = i + 1;
    }
    proof {
        assert(s@.take(s@.len() as int) =~= s@);
    }
}

/// Flag injection is deterministic: for tags `[a, b]` and sysroot `s`, the
/// injected flags are exactly `--cfg=a`, `--cfg=b`, `--sysroot=s`, in that
/// order, after the caller's arguments — the same on every invocation with
/// the same configuration.
pub proof fn lemma_flag_injection(a: Seq<u8>, b: Seq<u8>, s: Seq<u8>)
    ensures
        injected_flags(seq![a, b], Some(s)) == seq![cfg_flag(a), cfg_flag(b), sysroot_flag(s)],
{
    assert(seq![a, b].map_values(|t: Seq<u8>| cfg_flag(t)) =~= seq![cfg_flag(a), cfg_flag(b)]);
    assert(injected_flags(seq![a, b], Some(s)) =~= seq![
        cfg_flag(a),
        cfg_flag(b),
        sysroot_flag(s),
    ]);
}

} // verus!
