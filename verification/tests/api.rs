use shellcomp::{
    default_install_path, install, Disk, Environment, Error, FailureReport, FilePath,
    InstallRequest, Platform, Shell,
};

fn p(text: &str) -> FilePath {
    FilePath::from_text(text)
}

fn assert_structural_failure(error: Error, operation: &str) -> FailureReport {
    match error {
        Error::Failure { report, .. } => *report,
        other => panic!("{operation}: expected a structured failure, got {other:?}"),
    }
}

#[test]
fn api_surface_attaches_trace_id_to_structural_failure() {
    let mut disk = Disk::new();
    let request = InstallRequest {
        shell: Shell::Bash,
        program_name: "tool",
        script: b"complete -F _tool tool\n",
        path_override: Some(p("tool.bash")),
    };
    let error = install(&Environment::new(Platform::Unix), &mut disk, request, 41)
        .expect_err("install should fail with validation error");
    let report = assert_structural_failure(error, "api-install");
    assert_ne!(report.trace_id, 0);
    assert_eq!(report.trace_id, 41);
}
