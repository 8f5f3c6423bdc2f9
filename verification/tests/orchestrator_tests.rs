use nag_core::codec::serialize_execution_params;
use nag_core::orchestrator::{
    orchestrate, passthrough_env, trim_ascii_ws, OrchAction, OrchConfig, OrchState, ProcessOutcome,
};
use nag_core::params::ExecutionParams;

fn bv(s: &str) -> Vec<u8> {
    s.as_bytes().to_vec()
}

fn config() -> OrchConfig {
    OrchConfig {
        wrapper_var: bv("RUSTC_WORKSPACE_WRAPPER"),
        sysroot_var: bv("CARGO_NAG_SYSROOT"),
        allow_list: vec![bv("LD_LIBRARY_PATH")],
    }
}

fn outcome(code: i32, stdout: &[u8]) -> ProcessOutcome {
    ProcessOutcome { code, stdout: stdout.to_vec() }
}

#[test]
fn trim_strips_both_ends() {
    assert_eq!(trim_ascii_ws(&bv("  /sysroot\n")), bv("/sysroot"));
    assert_eq!(trim_ascii_ws(&bv("\t\r\n x y \n")), bv("x y"));
}

#[test]
fn trim_of_all_whitespace_is_empty() {
    assert_eq!(trim_ascii_ws(&bv(" \t\r\n")), Vec::<u8>::new());
    assert_eq!(trim_ascii_ws(&bv("")), Vec::<u8>::new());
}

#[test]
fn trim_keeps_inner_whitespace() {
    assert_eq!(trim_ascii_ws(&bv("a b\tc")), bv("a b\tc"));
}

#[test]
fn passthrough_keeps_only_allow_listed_names() {
    let env = vec![
        (bv("SECRET"), bv("hidden")),
        (bv("LD_LIBRARY_PATH"), bv("/lib")),
        (bv("PATH"), bv("/bin")),
    ];
    let allow = vec![bv("LD_LIBRARY_PATH")];
    let passed = passthrough_env(&env, &allow);
    assert_eq!(passed, vec![(bv("LD_LIBRARY_PATH"), bv("/lib"))]);
}

#[test]
fn passthrough_skips_absent_names() {
    let env = vec![(bv("PATH"), bv("/bin"))];
    let allow = vec![bv("LD_LIBRARY_PATH")];
    assert_eq!(passthrough_env(&env, &allow), Vec::new());
}

#[test]
fn sysroot_query_failure_is_terminal() {
    let (state, action) = orchestrate(OrchState::QueryingSysroot, outcome(2, b""), &config());
    assert!(matches!(state, OrchState::Done));
    assert!(matches!(action, OrchAction::ExitFailure));
}

#[test]
fn report_build_failure_is_terminal() {
    let state = OrchState::BuildingReport { sysroot: bv("/sr") };
    let (state, action) = orchestrate(state, outcome(101, b"partial output"), &config());
    assert!(matches!(state, OrchState::Done));
    assert!(matches!(action, OrchAction::ExitFailure));
}

#[test]
fn malformed_report_is_terminal() {
    let state = OrchState::BuildingReport { sysroot: bv("/sr") };
    let (state, action) = orchestrate(state, outcome(0, b"not json at all"), &config());
    assert!(matches!(state, OrchState::Done));
    assert!(matches!(action, OrchAction::ExitFailure));
}

#[test]
fn bootstrap_walks_the_whole_pipeline() {
    let cfg = config();

    let (state, action) = orchestrate(OrchState::QueryingSysroot, outcome(0, b"  /sr\n"), &cfg);
    match &state {
        OrchState::BuildingReport { sysroot } => assert_eq!(sysroot, &bv("/sr")),
        _ => panic!("sysroot query success must lead to the report build"),
    }
    assert!(matches!(action, OrchAction::RunReportBuild));

    let report = ExecutionParams {
        binary: bv("/target/debug/wrapper"),
        environment: vec![
            (bv("LD_LIBRARY_PATH"), bv("/toolchain/lib")),
            (bv("SECRET"), bv("never passed through")),
        ],
    };
    let wire = serialize_execution_params(&report);
    let (state, action) = orchestrate(state, outcome(0, &wire), &cfg);
    assert!(matches!(state, OrchState::RunningBuild));
    match action {
        OrchAction::RunRealBuild { env } => {
            assert_eq!(
                env,
                vec![
                    (bv("RUSTC_WORKSPACE_WRAPPER"), bv("/target/debug/wrapper")),
                    (bv("CARGO_NAG_SYSROOT"), bv("/sr")),
                    (bv("LD_LIBRARY_PATH"), bv("/toolchain/lib")),
                ]
            );
        }
        _ => panic!("a parsed report must lead to the real build"),
    }

    let (state, action) = orchestrate(state, outcome(0, b""), &cfg);
    assert!(matches!(state, OrchState::Done));
    assert!(matches!(action, OrchAction::ExitSuccess));
}

#[test]
fn real_build_failure_propagates() {
    let (state, action) = orchestrate(OrchState::RunningBuild, outcome(101, b""), &config());
    assert!(matches!(state, OrchState::Done));
    assert!(matches!(action, OrchAction::ExitFailure));
}
