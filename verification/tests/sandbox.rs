use lean_ctx::sandbox::{
    apply, bwrap_flags, detect_launcher, is_executable_mode, plan, sbpl_profile, wrap_argv,
    Launcher, Plan, SandboxMode,
};

#[test]
fn mode_parse_roundtrip() {
    assert_eq!(SandboxMode::parse("auto"), SandboxMode::Auto);
    assert_eq!(SandboxMode::parse("STRICT"), SandboxMode::Strict);
    assert_eq!(SandboxMode::parse(""), SandboxMode::Off);
    assert_eq!(SandboxMode::parse("nonsense"), SandboxMode::Off);
    assert_eq!(SandboxMode::Strict.as_str(), "strict");
}

#[test]
fn plan_off_is_always_direct() {
    assert_eq!(plan(SandboxMode::Off, Some(Launcher::Bwrap)), Plan::Direct);
    assert_eq!(plan(SandboxMode::Off, None), Plan::Direct);
}

#[test]
fn plan_auto_without_launcher_runs_direct() {
    assert_eq!(plan(SandboxMode::Auto, None), Plan::Direct);
}

#[test]
fn plan_strict_without_launcher_refuses() {
    assert!(matches!(plan(SandboxMode::Strict, None), Plan::Refuse(_)));
}

#[test]
fn plan_wraps_when_launcher_present() {
    assert_eq!(
        plan(SandboxMode::Auto, Some(Launcher::SandboxExec)),
        Plan::Wrap(Launcher::SandboxExec)
    );
}

#[test]
fn sandbox_exec_argv_prepends_profile_and_command() {
    let (cmd, args) = wrap_argv(
        Launcher::SandboxExec,
        SandboxMode::Auto,
        "my-mcp",
        &["serve".into()],
    );
    assert_eq!(cmd, "sandbox-exec");
    assert_eq!(args[0], "-p");
    assert!(args[1].contains("(deny network*)"));
    assert_eq!(args[2], "my-mcp");
    assert_eq!(args[3], "serve");
}

#[test]
fn strict_sbpl_restricts_writes() {
    let p = sbpl_profile(SandboxMode::Strict);
    assert!(p.contains("(deny file-write*)"));
    assert!(p.contains("/tmp"));
    let auto = sbpl_profile(SandboxMode::Auto);
    assert!(!auto.contains("(deny file-write*)"));
}

#[test]
fn bwrap_argv_unshares_network() {
    let (cmd, args) = wrap_argv(Launcher::Bwrap, SandboxMode::Auto, "my-mcp", &["x".into()]);
    assert_eq!(cmd, "bwrap");
    assert!(args.iter().any(|a| a == "--unshare-net"));
    assert!(args.iter().any(|a| a == "my-mcp"));
    assert!(args.iter().any(|a| a == "x"));
}

#[test]
fn bwrap_strict_is_readonly_root() {
    let (_c, args) = wrap_argv(Launcher::Bwrap, SandboxMode::Strict, "m", &[]);
    assert!(args.iter().any(|a| a == "--ro-bind"));
    assert!(args.iter().any(|a| a == "--tmpfs"));
}

#[test]
fn parse_trims_and_folds_case() {
    assert_eq!(SandboxMode::parse("  Auto\t"), SandboxMode::Auto);
    assert_eq!(SandboxMode::parse("\u{3000}strict\n"), SandboxMode::Strict);
    assert_eq!(SandboxMode::parse("au to"), SandboxMode::Off);
    assert_eq!(SandboxMode::parse("off"), SandboxMode::Off);
    assert_eq!(SandboxMode::parse("ＡＵＴＯ"), SandboxMode::Off);
}

#[test]
fn as_str_parse_roundtrip_for_every_mode() {
    for m in [SandboxMode::Off, SandboxMode::Auto, SandboxMode::Strict] {
        assert_eq!(SandboxMode::parse(m.as_str()), m);
    }
    assert_eq!(SandboxMode::Off.as_str(), "off");
    assert_eq!(SandboxMode::Auto.as_str(), "auto");
    assert_eq!(SandboxMode::default(), SandboxMode::Off);
}

#[test]
fn refusal_reason_names_the_launchers() {
    assert_eq!(
        plan(SandboxMode::Strict, None),
        Plan::Refuse(
            "addons.sandbox = strict but no OS sandbox launcher (sandbox-exec / bwrap) is available"
                .to_string()
        )
    );
    assert_eq!(
        plan(SandboxMode::Strict, Some(Launcher::Bwrap)),
        Plan::Wrap(Launcher::Bwrap)
    );
}

#[test]
fn exact_sbpl_profiles() {
    assert_eq!(
        sbpl_profile(SandboxMode::Auto),
        "(version 1)\n(allow default)\n(deny network*)\n"
    );
    assert_eq!(
        sbpl_profile(SandboxMode::Strict),
        "(version 1)\n(allow default)\n(deny network*)\n(deny file-write*)\n(allow file-write* (subpath \"/tmp\") (subpath \"/private/tmp\") (subpath \"/var/folders\"))\n"
    );
}

#[test]
fn exact_bwrap_flags() {
    assert_eq!(
        bwrap_flags(SandboxMode::Auto),
        vec!["--unshare-net", "--die-with-parent", "--bind", "/", "/", "--dev", "/dev", "--proc", "/proc"]
    );
    assert_eq!(
        bwrap_flags(SandboxMode::Strict),
        vec![
            "--unshare-net", "--die-with-parent", "--ro-bind", "/", "/", "--dev", "/dev", "--proc",
            "/proc", "--tmpfs", "/tmp"
        ]
    );
}

#[test]
fn exact_bwrap_invocation() {
    let (cmd, args) = wrap_argv(
        Launcher::Bwrap,
        SandboxMode::Strict,
        "npx",
        &["-y".to_string(), "server".to_string()],
    );
    assert_eq!(cmd, "bwrap");
    assert_eq!(
        args,
        vec![
            "--unshare-net", "--die-with-parent", "--ro-bind", "/", "/", "--dev", "/dev", "--proc",
            "/proc", "--tmpfs", "/tmp", "npx", "-y", "server"
        ]
    );
}

#[test]
fn apply_follows_the_plan() {
    let args = vec!["serve".to_string()];
    assert_eq!(
        apply(SandboxMode::Off, Some(Launcher::Bwrap), "tool", &args),
        Ok(("tool".to_string(), args.clone()))
    );
    assert_eq!(
        apply(SandboxMode::Auto, None, "tool", &args),
        Ok(("tool".to_string(), args.clone()))
    );
    assert_eq!(
        apply(SandboxMode::Auto, Some(Launcher::Bwrap), "tool", &args),
        Ok(wrap_argv(Launcher::Bwrap, SandboxMode::Auto, "tool", &args))
    );
    let refused = apply(SandboxMode::Strict, None, "tool", &args);
    assert_eq!(
        refused,
        Err("addons.sandbox = strict but no OS sandbox launcher (sandbox-exec / bwrap) is available".to_string())
    );
}

#[test]
fn launcher_detection_prefers_the_host_os() {
    assert_eq!(detect_launcher(true, false, true, true), Some(Launcher::SandboxExec));
    assert_eq!(detect_launcher(true, false, false, true), None);
    assert_eq!(detect_launcher(false, true, true, true), Some(Launcher::Bwrap));
    assert_eq!(detect_launcher(false, true, true, false), None);
    assert_eq!(detect_launcher(false, false, true, true), None);
}

#[test]
fn executable_mode_bits() {
    assert!(is_executable_mode(0o755));
    assert!(is_executable_mode(0o001));
    assert!(is_executable_mode(0o010));
    assert!(!is_executable_mode(0o644));
    assert!(!is_executable_mode(0o666));
}
