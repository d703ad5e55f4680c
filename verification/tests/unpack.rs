use nzb_postproc::find_unrar;
use nzb_postproc::unpack::{
    choose_7z_extractor, choose_rar_extractor, find_7z, rar_extract_args_with_7z,
    rar_extract_args_with_unrar, sevenz_extract_args, sevenz_password_arg, unrar_password_flag,
    ToolRun, ToolStep, UnpackResult,
};

#[test]
fn test_unpack_result_fields() {
    let result = UnpackResult {
        success: true,
        files_extracted: vec!["file1.txt".to_string()],
        output: "OK".to_string(),
        error_output: String::new(),
    };
    assert!(result.success);
    assert_eq!(result.files_extracted.len(), 1);
}

#[test]
fn sevenz_password_arg_is_omitted_without_password() {
    assert_eq!(sevenz_password_arg(None), None);
    assert_eq!(
        sevenz_password_arg(Some("secret")).as_deref(),
        Some("-psecret")
    );
}

#[test]
fn rar_extract_args_keep_dash_password_only_for_unrar() {
    let rar = "/tmp/test.rar";
    let out = "/tmp/out";

    let sevenz_args = rar_extract_args_with_7z(rar, out, None);
    assert!(!sevenz_args.iter().any(|arg| arg == "-p-"));

    let unrar_args = rar_extract_args_with_unrar(rar, out, None);
    assert!(unrar_args.iter().any(|arg| arg == "-p-"));
}

#[test]
fn sevenz_extract_args_do_not_include_dash_password_without_password() {
    let archive = "/tmp/test.7z";
    let out = "/tmp/out";

    let args = sevenz_extract_args(archive, out, None);
    assert!(!args.iter().any(|arg| arg == "-p-"));

    let args = sevenz_extract_args(archive, out, Some("secret"));
    assert!(args.iter().any(|arg| arg == "-psecret"));
}

#[test]
fn the_arguments_come_in_their_order() {
    assert_eq!(
        sevenz_extract_args("a.7z", "out", Some("pw")),
        ["x", "-y", "-ppw", "-oout", "a.7z"]
    );
    assert_eq!(
        rar_extract_args_with_7z("a.rar", "out", None),
        ["x", "-y", "-oout", "a.rar"]
    );
    assert_eq!(
        rar_extract_args_with_unrar("a.rar", "out", Some("pw")),
        ["x", "-o+", "-y", "-ppw", "-ai", "-idp", "a.rar", "out"]
    );
    assert_eq!(unrar_password_flag(None), "-p-");
}

#[test]
fn programs_are_looked_for_in_order() {
    let installed = |names: &'static [&'static str]| move |name: &str| names.contains(&name);
    assert_eq!(
        find_unrar(installed(&["rar", "unrar-free", "unrar"])).as_deref(),
        Some("unrar")
    );
    assert_eq!(
        find_unrar(installed(&["rar", "unrar-free"])).as_deref(),
        Some("unrar-free")
    );
    assert_eq!(find_unrar(installed(&["rar"])).as_deref(), Some("rar"));
    assert_eq!(find_unrar(installed(&["7z"])), None);
    assert_eq!(
        find_7z(installed(&["7za", "7zz", "7z"])).as_deref(),
        Some("7z")
    );
    assert_eq!(find_7z(installed(&["7za", "7zz"])).as_deref(), Some("7zz"));
    assert_eq!(find_7z(installed(&["7za"])).as_deref(), Some("7za"));
    assert_eq!(find_7z(installed(&["unrar"])), None);
}

#[test]
fn a_rar_program_is_preferred_to_7z() {
    let some = |name: &str| Some(name.to_string());
    let chosen = choose_rar_extractor(some("unrar"), some("7z")).unwrap();
    assert_eq!((chosen.bin.as_str(), chosen.use_7z), ("unrar", false));
    assert_eq!(
        chosen.args("a.rar", "out", None),
        ["x", "-o+", "-y", "-p-", "-ai", "-idp", "a.rar", "out"]
    );
    let chosen = choose_rar_extractor(None, some("7zz")).unwrap();
    assert_eq!((chosen.bin.as_str(), chosen.use_7z), ("7zz", true));
    assert_eq!(
        chosen.args("a.rar", "out", Some("pw")),
        ["x", "-y", "-ppw", "-oout", "a.rar"]
    );
    assert_eq!(
        choose_rar_extractor(None, None).unwrap_err().message(),
        "No RAR extractor found (tried unrar, unrar-free, rar, 7z)"
    );
    assert_eq!(choose_7z_extractor(some("7za")).unwrap(), "7za");
    assert_eq!(
        choose_7z_extractor(None).unwrap_err().message(),
        "7z/7zz/7za binary not found on PATH"
    );
}

#[test]
fn what_a_program_writes_is_decoded() {
    let run = ToolRun::from_output(true, b"gr\xc3\xbc\xc3\x9fe", b"bad \xff byte");
    assert_eq!(run.stdout, "grüße");
    assert_eq!(run.stderr, "bad \u{fffd} byte");
}

#[test]
fn a_missing_password_is_told_from_other_failures() {
    let rar = |success, stdout: &str, stderr: &str| {
        ToolRun::from_output(success, stdout.as_bytes(), stderr.as_bytes()).rar_verdict()
    };
    let sevenz = |success, stdout: &str, stderr: &str| {
        ToolRun::from_output(success, stdout.as_bytes(), stderr.as_bytes()).sevenz_verdict()
    };
    for mark in ["Enter password", "password is incorrect", "Encrypted file"] {
        let text = format!("x.rar: {mark} (for x)");
        assert_eq!(
            rar(false, "", &text).unwrap_err().message(),
            "archive is password-protected"
        );
        assert!(rar(false, &text, "").is_err());
        assert!(rar(true, &text, "").unwrap());
    }
    for mark in [
        "Wrong password",
        "Can not open encrypted archive",
        "Enter password",
        "ERROR: Data Error in encrypted file",
        "password is incorrect",
    ] {
        let text = format!("7-Zip\n{mark}? x.7z");
        assert!(sevenz(false, "", &text).is_err());
        assert!(sevenz(false, &text, "").is_err());
        assert!(sevenz(true, &text, "").unwrap());
    }
    assert!(!rar(false, "", "Wrong password").unwrap());
    assert!(!sevenz(false, "", "Encrypted file").unwrap());
    assert!(!rar(false, "Enter", " password").unwrap());
}

#[test]
fn only_a_success_lists_files() {
    let files = || vec!["out/a".to_string(), "out/b".to_string()];
    let good = ToolRun::from_output(true, b"OK", b"").into_result(files());
    assert!(good.success);
    assert_eq!(good.files_extracted, files());
    assert_eq!(good.output, "OK");
    let bad = ToolRun::from_output(false, b"", b"CRC failed").into_result(files());
    assert!(!bad.success);
    assert!(bad.files_extracted.is_empty());
    assert_eq!(bad.error_output, "CRC failed");
}

#[test]
fn only_a_success_is_looked_into() {
    let run = |success, stderr: &str| ToolRun::from_output(success, b"out", stderr.as_bytes());
    match run(true, "Encrypted file").rar_step().unwrap() {
        ToolStep::Succeeded(run) => assert_eq!(run.stdout, "out"),
        other => panic!("{other:?}"),
    }
    match run(false, "Wrong password").rar_step().unwrap() {
        ToolStep::Failed(result) => {
            assert!(!result.success);
            assert!(result.files_extracted.is_empty());
            assert_eq!(result.output, "out");
            assert_eq!(result.error_output, "Wrong password");
        }
        other => panic!("{other:?}"),
    }
    assert!(run(false, "Encrypted file").rar_step().is_err());
    assert!(run(false, "Wrong password").sevenz_step().is_err());
    assert!(run(false, "Encrypted file").sevenz_step().is_ok());
}
