//! Check declarations and their composition into the host compiler's
//! check-store.
//!
//! A registration callback is modelled by the data it registers: an ordered
//! table of check declarations and pass bindings, applied to the store with
//! a loop.  The driver composes the host compiler's default registration
//! (if any) with every configured callback, defaults first, callbacks in
//! the order they were added.

use vstd::prelude::*;

verus! {

/// Default severity of a check, from a small fixed scale.
#[derive(Clone, Copy, PartialEq, Eq, Structural, Debug)]
pub enum Severity {
    /// Informational only.
    Info,
    /// Reported as a warning; does not fail a build by itself.
    Warn,
    /// Reported as an error.
    Error,
}

/// When a check-executing pass runs over the compiler's representations.
#[derive(Clone, Copy, PartialEq, Eq, Structural, Debug)]
pub enum PassKind {
    /// Over the early, untyped syntax.
    Early,
    /// Over the late, typed representation.
    Late,
}

/// Metadata of one named check.
pub struct CheckDecl {
    /// Stable name, used by end users to allow or deny the check.
    pub name: Vec<u8>,
    /// Default severity.
    pub severity: Severity,
    /// Human-readable description.
    pub description: Vec<u8>,
}

/// A binding of a pass constructor to a declared check.
pub struct PassDecl {
    /// When the pass runs.
    pub kind: PassKind,
    /// Name of the check the pass reports under.
    pub check_name: Vec<u8>,
}

/// One row of a declaration table.
pub enum DeclItem {
    /// Register a check's metadata.
    Check(CheckDecl),
    /// Register a pass constructor.
    Pass(PassDecl),
}

/// A registration callback, as the data it registers in declaration order.
pub struct Registration {
    /// The declaration table, applied first to last.
    pub items: Vec<DeclItem>,
}

/// The host compiler's store of registered checks and pass constructors
/// for one session, in registration order.
pub struct CheckStore {
    /// Check metadata, in registration order.
    pub checks: Vec<CheckDecl>,
    /// Pass constructors, in registration order.
    pub passes: Vec<PassDecl>,
}

/// The checks a declaration table registers, in order.
pub open spec fn checks_of(items: Seq<DeclItem>) -> Seq<CheckDecl>
    decreases items.len(),
{
    if items.len() == 0 {
        Seq::empty()
    } else {
        (match items[0] {
            DeclItem::Check(c) => seq![c],
            DeclItem::Pass(_) => Seq::empty(),
        }) + checks_of(items.skip(1))
    }
}

/// The pass bindings a declaration table registers, in order.
pub open spec fn passes_of(items: Seq<DeclItem>) -> Seq<PassDecl>
    decreases items.len(),
{
    if items.len() == 0 {
        Seq::empty()
    } else {
        (match items[0] {
            DeclItem::Check(_) => Seq::empty(),
            DeclItem::Pass(p) => seq![p],
        }) + passes_of(items.skip(1))
    }
}

/// The declaration items of a sequence of registrations, in order.
pub open spec fn regs_items(regs: Seq<Registration>) -> Seq<DeclItem>
    decreases regs.len(),
{
    if regs.len() == 0 {
        Seq::empty()
    } else {
        regs[0].items@ + regs_items(regs.skip(1))
    }
}

/// Everything one composed registration applies: the default registration
/// first (when the host compiler had one), then every configured callback,
/// in the order they were added.
pub open spec fn compose_items(default: Option<Registration>, callbacks: Seq<Registration>) -> Seq<
    DeclItem,
> {
    (match default {
        Some(d) => d.items@,
        None => Seq::empty(),
    }) + regs_items(callbacks)
}

/// `checks_of` distributes over concatenation.
pub proof fn lemma_checks_of_add(a: Seq<DeclItem>, b: Seq<DeclItem>)
    ensures
        checks_of(a + b) == checks_of(a) + checks_of(b),
    decreases a.len(),
{
    if a.len() == 0 {
        assert(a + b =~= b);
        assert(checks_of(a) + checks_of(b) =~= checks_of(b));
    } else {
        lemma_checks_of_add(a.skip(1), b);
        assert((a + b).skip(1) =~= a.skip(1) + b);
        assert(checks_of(a + b) =~= checks_of(a) + checks_of(b));
    }
}

/// `passes_of` distributes over concatenation.
pub proof fn lemma_passes_of_add(a: Seq<DeclItem>, b: Seq<DeclItem>)
    ensures
        passes_of(a + b) == passes_of(a) + passes_of(b),
    decreases a.len(),
{
    if a.len() == 0 {
        assert(a + b =~= b);
        assert(passes_of(a) + passes_of(b) =~= passes_of(b));
    } else {
        lemma_passes_of_add(a.skip(1), b);
        assert((a + b).skip(1) =~= a.skip(1) + b);
        assert(passes_of(a + b) =~= passes_of(a) + passes_of(b));
    }
}

impl CheckStore {
    /// An empty store.
    pub fn new() -> (r: Self)
        ensures
            r.checks@ == Seq::<CheckDecl>::empty(),
            r.passes@ == Seq::<PassDecl>::empty(),
    {
        CheckStore { checks: Vec::new(), passes: Vec::new() }
    }
}

/// Apply one registration to the store: register each declared check's
/// metadata and each pass constructor, in declaration order.
pub fn apply_registration(store: &mut CheckStore, reg: Registration)
    ensures
        final(store).checks@ == old(store).checks@ + checks_of(reg.items@),
        final(store).passes@ == old(store).passes@ + passes_of(reg.items@),
{
    let ghost items0 = reg.items@;
    let mut items = reg.items;
    proof {
        assert(old(store).checks@ + checks_of(items@) =~= old(store).checks@ + checks_of(items0));
        assert(old(store).passes@ + passes_of(items@) =~= old(store).passes@ + passes_of(items0));
    }
    while items.len() > 0
        invariant
            store.checks@ + checks_of(items@) == old(store).checks@ + checks_of(items0),
            store.passes@ + passes_of(items@) == old(store).passes@ + passes_of(items0),
        decreases items@.len(),
    {
        let ghost prev = items@;
        let item = items.remove(0);
        proof {
            assert(items@ =~= prev.skip(1));
            assert(prev[0] == item);
        }
        match item {
            DeclItem::Check(c) => {
                proof {
                    assert(checks_of(prev) =~= seq![c] + checks_of(prev.skip(1)));
                    assert(passes_of(prev) =~= passes_of(prev.skip(1)));
                    assert(store.checks@.push(c) + checks_of(prev.skip(1)) =~= store.checks@
                        + checks_of(prev));
                }
                store.checks.push(c);
            },
            DeclItem::Pass(p) => {
                proof {
                    assert(passes_of(prev) =~= seq![p] + passes_of(prev.skip(1)));
                    assert(checks_of(prev) =~= checks_of(prev.skip(1)));
                    assert(store.passes@.push(p) + passes_of(prev.skip(1)) =~= store.passes@
                        + passes_of(prev));
                }
                store.passes.push(p);
            },
        }
    }
    proof {
        assert(checks_of(items@) =~= Seq::<CheckDecl>::empty());
        assert(passes_of(items@) =~= Seq::<PassDecl>::empty());
        assert(store.checks@ + checks_of(items@) =~= store.checks@);
        assert(store.passes@ + passes_of(items@) =~= store.passes@);
    }
}

/// Apply the composed registration: the default first — earlier registrants
/// are never dropped — then every configured callback, in order, against
/// the same store.
pub fn compose_registrations(
    store: &mut CheckStore,
    default: Option<Registration>,
    callbacks: Vec<Registration>,
)
    ensures
        final(store).checks@ == old(store).checks@ + checks_of(
            compose_items(default, callbacks@),
        ),
        final(store).passes@ == old(store).passes@ + passes_of(
            compose_items(default, callbacks@),
        ),
{
    let ghost all = compose_items(default, callbacks@);
    let ghost dflt_items = match &default {
        Some(d) => d.items@,
        None => Seq::<DeclItem>::empty(),
    };
    proof {
        lemma_checks_of_add(dflt_items, regs_items(callbacks@));
        lemma_passes_of_add(dflt_items, regs_items(callbacks@));
    }
    match default {
        Some(d) => {
            apply_registration(store, d);
        },
        None => {
            proof {
                assert(checks_of(dflt_items) =~= Seq::<CheckDecl>::empty());
                assert(passes_of(dflt_items) =~= Seq::<PassDecl>::empty());
            }
        },
    }
    proof {
        assert(store.checks@ =~= old(store).checks@ + checks_of(dflt_items));
        assert(store.passes@ =~= old(store).passes@ + passes_of(dflt_items));
    }
    let ghost mid_checks = store.checks@;
    let ghost mid_passes = store.passes@;
    let ghost cbs0 = callbacks@;
    let mut callbacks = callbacks;
    while callbacks.len() > 0
        invariant
            store.checks@ + checks_of(regs_items(callbacks@)) == mid_checks + checks_of(
                regs_items(cbs0),
            ),
            store.passes@ + passes_of(regs_items(callbacks@)) == mid_passes + passes_of(
                regs_items(cbs0),
            ),
        decreases callbacks@.len(),
    {
        let ghost prev = callbacks@;
        let reg = callbacks.remove(0);
        let ghost reg_items = reg.items@;
        proof {
            assert(callbacks@ =~= prev.skip(1));
            assert(prev[0] == reg);
            assert(regs_items(prev) =~= reg_items + regs_items(prev.skip(1)));
            lemma_checks_of_add(reg_items, regs_items(prev.skip(1)));
            lemma_passes_of_add(reg_items, regs_items(prev.skip(1)));
        }
        apply_registration(store, reg);
        proof {
            assert(store.checks@ + checks_of(regs_items(callbacks@)) =~= mid_checks + checks_of(
                regs_items(cbs0),
            ));
            assert(store.passes@ + passes_of(regs_items(callbacks@)) =~= mid_passes + passes_of(
                regs_items(cbs0),
            ));
        }
    }
    proof {
        assert(regs_items(callbacks@) =~= Seq::<DeclItem>::empty());
        assert(checks_of(regs_items(callbacks@)) =~= Seq::<CheckDecl>::empty());
        assert(passes_of(regs_items(callbacks@)) =~= Seq::<PassDecl>::empty());
        assert(store.checks@ + checks_of(regs_items(callbacks@)) =~= store.checks@);
        assert(store.passes@ + passes_of(regs_items(callbacks@)) =~= store.passes@);
        assert(store.checks@ =~= old(store).checks@ + checks_of(all));
        assert(store.passes@ =~= old(store).passes@ + passes_of(all));
    }
}

/// Composition preserves defaults: everything the default registration
/// registers stands in the store, before everything the configured
/// callbacks register, which follows in callback order.
pub proof fn lemma_composition_preserves_defaults(
    default: Registration,
    callbacks: Seq<Registration>,
)
    ensures
        checks_of(compose_items(Some(default), callbacks)) == checks_of(default.items@)
            + checks_of(regs_items(callbacks)),
        passes_of(compose_items(Some(default), callbacks)) == passes_of(default.items@)
            + passes_of(regs_items(callbacks)),
{
    lemma_checks_of_add(default.items@, regs_items(callbacks));
    lemma_passes_of_add(default.items@, regs_items(callbacks));
}

} // verus!
