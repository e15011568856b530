use shellcomp::{
    ActivationMode, ActivationReport, Availability, Error, FailureKind, FailureReport, FileChange,
    FilePath, Operation, Shell,
};

fn p(text: &str) -> FilePath {
    FilePath::from_text(text)
}

#[test]
fn failure_helpers_forward_report_context() {
    let error = Error::failure(FailureReport {
        operation: Operation::Install,
        shell: Shell::Bash,
        target_path: Some(p("/tmp/tool")),
        affected_locations: vec![p("/tmp/tool"), p("/tmp/.bashrc")],
        kind: FailureKind::ProfileUnavailable,
        file_change: Some(FileChange::Created),
        activation: Some(ActivationReport {
            mode: ActivationMode::Manual,
            availability: Availability::ManualActionRequired,
            location: Some(p("/tmp/.bashrc")),
            reason: Some("profile update failed".to_owned()),
            next_step: Some("edit your shell profile manually".to_owned()),
        }),
        cleanup: None,
        reason: "Could not update the managed Bash startup block.".to_owned(),
        next_step: Some("edit your shell profile manually".to_owned()),
        trace_id: 123,
    });
    assert_eq!(error.location(), Some(&p("/tmp/tool")));
    assert_eq!(
        error.reason(),
        Some("Could not update the managed Bash startup block.")
    );
    assert_eq!(error.next_step(), Some("edit your shell profile manually"));
    assert_eq!(error.as_failure().unwrap().trace_id, 123);
}

#[test]
fn builtin_error_helpers_return_actionable_context() {
    let error = Error::InvalidProgramName {
        program_name: "bad/name".to_owned(),
    };
    assert_eq!(
        error.reason(),
        Some(
            "Program names must use a safe portable character set: ASCII letters, digits, `.`, `_`, and `-`."
        )
    );
    assert_eq!(
        error.next_step(),
        Some(
            "Rename the binary or pass a sanitized program name that only uses ASCII letters, digits, `.`, `_`, and `-`."
        )
    );
    assert_eq!(error.location(), None);
}

#[test]
fn error_helpers_expose_stable_code_retryability_and_trace() {
    let report = FailureReport {
        operation: Operation::Install,
        shell: Shell::Bash,
        target_path: Some(p("/tmp/tool")),
        affected_locations: vec![p("/tmp/tool")],
        kind: FailureKind::CompletionFileUnreadable,
        file_change: None,
        activation: None,
        cleanup: None,
        reason: "write failure".to_owned(),
        next_step: Some("retry after fixing permissions".to_owned()),
        trace_id: 99,
    };
    let error = Error::failure(report);
    assert_eq!(
        error.error_code(),
        FailureKind::CompletionFileUnreadable.code()
    );
    assert!(error.is_retryable());
    assert_eq!(error.trace_id(), Some(99));
    let invalid_path = Error::InvalidTargetPath {
        path: p("relative"),
        reason: "target path must be absolute",
    };
    assert_eq!(invalid_path.error_code(), "shellcomp.invalid_target_path");
    assert!(!invalid_path.is_retryable());
    assert_eq!(invalid_path.trace_id(), None);
}

#[test]
fn missing_home_helpers_use_generic_home_directory_guidance() {
    let error = Error::MissingHome;
    assert_eq!(
        error.reason(),
        Some(
            "The operation requires a user home directory because the default shell-managed path could not be resolved."
        )
    );
    assert_eq!(
        error.next_step(),
        Some(
            "Set HOME or the relevant shell-specific home variable for the current process, or pass `path_override` so the library does not need a default managed path."
        )
    );
    assert_eq!(
        error.message(),
        "no supported home-directory environment variable is set and no fallback path can be resolved"
    );
}
