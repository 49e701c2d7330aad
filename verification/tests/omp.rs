use omp_deck::omp::{
    can_quote, console_args, launch_result, link_args, link_result, list_args, list_result,
    run_result, start_args, Access, OmpError, RealOmp, Resolve, RunOutcome, STDERR_LIMIT,
};
use std::path::PathBuf;

#[test]
fn error_display_is_informative() {
    let e = OmpError::Exit {
        code: Some(1),
        stderr: "boom".into(),
    };
    assert_eq!(e.message(), "omp exited with 1: boom");
}

#[test]
fn every_error_says_what_happened() {
    assert_eq!(
        OmpError::NotFound("no omp".into()).message(),
        "omp not found: no omp"
    );
    assert_eq!(
        OmpError::Spawn("denied".into()).message(),
        "failed to run omp: denied"
    );
    assert_eq!(OmpError::Timeout.message(), "omp timed out after 5s");
    assert_eq!(
        OmpError::Exit {
            code: None,
            stderr: "x".into()
        }
        .message(),
        "omp exited with signal: x"
    );
    assert_eq!(
        OmpError::Exit {
            code: Some(i32::MIN),
            stderr: "".into()
        }
        .message(),
        "omp exited with -2147483648: "
    );
    assert_eq!(
        OmpError::Parse("eof".into()).message(),
        "could not parse omp output: eof"
    );
}

#[test]
fn missing_explicit_binary_is_not_found() {
    let path = PathBuf::from("definitely-not-a-real-omp-binary");
    let omp = RealOmp::new(Some(path.clone()));
    match omp.resolve(&None, &None) {
        Resolve::Run(p) => assert_eq!(p, &path),
        other => panic!("{other:?}"),
    }
    let r = run_result(RunOutcome::Failed {
        not_found: true,
        message: "No such file".into(),
    });
    assert!(matches!(r, Err(OmpError::NotFound(_))));
}

#[test]
fn lookups_prefer_the_exe() {
    let omp = RealOmp::new(None);
    let exe: Result<PathBuf, String> = Ok(PathBuf::from("/bin/omp.exe"));
    let gone: Option<Result<PathBuf, String>> = Some(Err("no omp.exe".into()));
    assert!(matches!(omp.resolve(&None, &None), Resolve::LookUp("omp.exe")));
    assert!(matches!(omp.resolve(&Some(exe), &None), Resolve::Run(_)));
    assert!(matches!(omp.resolve(&gone, &None), Resolve::LookUp("omp")));
    let found: Option<Result<PathBuf, String>> = Some(Ok(PathBuf::from("/bin/omp")));
    match omp.resolve(&gone, &found) {
        Resolve::Run(p) => assert_eq!(p, &PathBuf::from("/bin/omp")),
        other => panic!("{other:?}"),
    }
    let none: Option<Result<PathBuf, String>> = Some(Err("no omp".into()));
    match omp.resolve(&gone, &none) {
        Resolve::Failed(e) => assert_eq!(e.message(), "omp not found: no omp"),
        other => panic!("{other:?}"),
    }
}

#[test]
fn outcomes_of_a_run() {
    assert_eq!(run_result(RunOutcome::TimedOut), Err(OmpError::Timeout));
    assert_eq!(
        run_result(RunOutcome::Failed {
            not_found: false,
            message: "denied".into()
        }),
        Err(OmpError::Spawn("denied".into()))
    );
    assert_eq!(
        run_result(RunOutcome::Finished {
            success: true,
            code: Some(0),
            stdout: vec![b'o', b'k', 0xff],
            stderr: vec![],
        }),
        Ok("ok\u{fffd}".to_string())
    );
    assert_eq!(
        run_result(RunOutcome::Finished {
            success: false,
            code: Some(3),
            stdout: vec![],
            stderr: b"  boom \n".to_vec(),
        }),
        Err(OmpError::Exit {
            code: Some(3),
            stderr: "boom".into()
        })
    );
}

#[test]
fn long_stderr_is_cut() {
    let stderr = "\u{e9}".repeat(STDERR_LIMIT + 1).into_bytes();
    match run_result(RunOutcome::Finished {
        success: false,
        code: None,
        stdout: vec![],
        stderr,
    }) {
        Err(OmpError::Exit { code: None, stderr }) => {
            assert_eq!(stderr, "\u{e9}".repeat(500));
        }
        other => panic!("{other:?}"),
    }
}

#[test]
fn arguments_of_omp() {
    assert_eq!(list_args(), ["collab", "list", "--json"]);
    assert_eq!(
        link_args("inst-aaa", Access::Control),
        ["collab", "link", "inst-aaa", "--json"]
    );
    assert_eq!(
        link_args("inst-aaa", Access::View),
        ["collab", "link", "inst-aaa", "--json", "--view"]
    );
    assert_eq!(start_args("/src/r", None), ["--cwd", "/src/r"]);
    assert_eq!(
        start_args("/src/r", Some("opus")),
        ["--cwd", "/src/r", "--model", "opus"]
    );
}

#[test]
fn parse_results() {
    assert_eq!(
        list_result(Err("eof".into())),
        Err(OmpError::Parse("eof".into()))
    );
    assert_eq!(list_result(Ok(vec![])), Ok(vec![]));
    assert_eq!(
        link_result(Some("https://my.omp.sh/#k".into())),
        Ok("https://my.omp.sh/#k".to_string())
    );
    assert_eq!(
        link_result(None),
        Err(OmpError::Parse("unexpected link output".into()))
    );
}

#[test]
fn console_arguments_are_quoted_or_refused() {
    assert_eq!(
        console_args("C:\\bin\\omp.exe", "C:\\src\\a b", Some("opus")).unwrap(),
        [
            "/c",
            "start",
            "\"\"",
            "/min",
            "\"C:\\bin\\omp.exe\"",
            "\"--cwd\"",
            "\"C:\\src\\a b\"",
            "\"--model\"",
            "\"opus\""
        ]
    );
    for bad in ["a\"b", "%PATH%", "a!", "a\nb", "C:\\", "\u{85}"] {
        assert!(!can_quote(bad), "{bad:?}");
        assert!(console_args("omp", bad, None).is_err(), "{bad:?}");
        assert!(console_args("omp", "/r", Some(bad)).is_err(), "{bad:?}");
    }
    assert!(can_quote(""));
    assert!(can_quote("C:\\src\\r"));
}

#[test]
fn launches_that_live_on_succeed() {
    assert_eq!(launch_result(None), Ok(()));
    assert_eq!(
        launch_result(Some(RunOutcome::Finished {
            success: true,
            code: Some(0),
            stdout: vec![],
            stderr: vec![],
        })),
        Ok(())
    );
    assert_eq!(
        launch_result(Some(RunOutcome::Finished {
            success: false,
            code: Some(129),
            stdout: vec![],
            stderr: b"hangup".to_vec(),
        })),
        Err(OmpError::Exit {
            code: Some(129),
            stderr: "hangup".into()
        })
    );
}
