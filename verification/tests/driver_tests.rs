use nag_core::checks::method_call_matches;
use nag_core::driver::{Driver, Invocation};
use nag_core::registry::{
    compose_registrations, CheckDecl, CheckStore, DeclItem, PassDecl, PassKind, Registration,
    Severity,
};

fn bv(s: &str) -> Vec<u8> {
    s.as_bytes().to_vec()
}

fn check(name: &str) -> DeclItem {
    DeclItem::Check(CheckDecl {
        name: bv(name),
        severity: Severity::Warn,
        description: bv("a check"),
    })
}

fn driver_ab() -> Driver {
    Driver::new().with_cfg(bv("a")).with_cfg(bv("b"))
}

#[test]
fn flag_injection_order_is_exact() {
    let inv = driver_ab().plan_invocation(vec![bv("rustc"), bv("x.rs")], false, Some(bv("/s")));
    match inv {
        Invocation::Compile { args } => {
            assert_eq!(
                args,
                vec![bv("rustc"), bv("x.rs"), bv("--cfg=a"), bv("--cfg=b"), bv("--sysroot=/s")]
            );
        }
        Invocation::Report => panic!("must compile without the sentinel"),
    }
}

#[test]
fn flag_injection_is_deterministic_across_invocations() {
    let first = driver_ab().plan_invocation(vec![bv("x.rs")], false, Some(bv("/s")));
    let second = driver_ab().plan_invocation(vec![bv("x.rs")], false, Some(bv("/s")));
    match (first, second) {
        (Invocation::Compile { args: a }, Invocation::Compile { args: b }) => {
            assert_eq!(a, b);
            assert_eq!(a.iter().filter(|f| *f == &bv("--cfg=a")).count(), 1);
            assert_eq!(a.iter().filter(|f| *f == &bv("--cfg=b")).count(), 1);
            assert_eq!(a.iter().filter(|f| *f == &bv("--sysroot=/s")).count(), 1);
        }
        _ => panic!("must compile without the sentinel"),
    }
}

#[test]
fn no_sysroot_flag_without_override() {
    let inv = Driver::new().with_cfg(bv("nag")).plan_invocation(vec![bv("x.rs")], false, None);
    match inv {
        Invocation::Compile { args } => {
            assert_eq!(args, vec![bv("x.rs"), bv("--cfg=nag")]);
        }
        Invocation::Report => panic!("must compile without the sentinel"),
    }
}

#[test]
fn sentinel_takes_priority_over_everything() {
    let inv = driver_ab().plan_invocation(
        vec![bv("rustc"), bv("x.rs"), bv("--emit=metadata")],
        true,
        Some(bv("/s")),
    );
    assert!(matches!(inv, Invocation::Report));
}

#[test]
fn composition_preserves_defaults() {
    let default = Registration { items: vec![check("d")] };
    let callbacks = vec![
        Registration { items: vec![check("x")] },
        Registration {
            items: vec![
                check("y"),
                DeclItem::Pass(PassDecl { kind: PassKind::Late, check_name: bv("y") }),
            ],
        },
    ];
    let mut store = CheckStore::new();
    compose_registrations(&mut store, Some(default), callbacks);
    let names: Vec<Vec<u8>> = store.checks.iter().map(|c| c.name.clone()).collect();
    assert_eq!(names, vec![bv("d"), bv("x"), bv("y")]);
    assert_eq!(store.passes.len(), 1);
    assert_eq!(store.passes[0].check_name, bv("y"));
    assert!(matches!(store.passes[0].kind, PassKind::Late));
}

#[test]
fn composition_without_default() {
    let callbacks = vec![
        Registration { items: vec![check("x")] },
        Registration { items: vec![check("y")] },
    ];
    let mut store = CheckStore::new();
    compose_registrations(&mut store, None, callbacks);
    let names: Vec<Vec<u8>> = store.checks.iter().map(|c| c.name.clone()).collect();
    assert_eq!(names, vec![bv("x"), bv("y")]);
    assert_eq!(store.passes.len(), 0);
}

#[test]
fn driver_builders_accumulate() {
    let d = Driver::new()
        .with_callback(Registration { items: vec![check("one")] })
        .with_callbacks(vec![
            Registration { items: vec![check("two")] },
            Registration { items: vec![check("three")] },
        ]);
    assert_eq!(d.callbacks.len(), 3);
    assert_eq!(d.cfg.len(), 0);
}

fn option_path() -> Vec<Vec<u8>> {
    vec![bv("core"), bv("option"), bv("Option")]
}

#[test]
fn method_call_matches_name_and_path() {
    assert!(method_call_matches(&bv("take"), &bv("take"), &option_path(), &option_path()));
}

#[test]
fn method_call_matches_short_path_pairwise() {
    // Comparison is pairwise up to the shorter side, so a shorter resolved
    // path does not count as a mismatch.
    let resolved = vec![bv("core"), bv("option")];
    assert!(method_call_matches(&bv("take"), &bv("take"), &resolved, &option_path()));
}

#[test]
fn method_call_rejects_other_name() {
    assert!(!method_call_matches(&bv("replace"), &bv("take"), &option_path(), &option_path()));
}

#[test]
fn method_call_rejects_other_path() {
    let resolved = vec![bv("core"), bv("result"), bv("Result")];
    assert!(!method_call_matches(&bv("take"), &bv("take"), &resolved, &option_path()));
}
