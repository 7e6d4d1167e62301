//! Opt-in OS sandbox for the stdio MCP servers an addon spawns.
//!
//! When `addons.sandbox` is enabled, the spawned child is wrapped in an
//! OS-native launcher: `sandbox-exec` with a generated SBPL profile on macOS,
//! `bwrap` with a network unshare on Linux. `auto` isolates the network and
//! runs unwrapped when no launcher exists; `strict` also makes the filesystem
//! read-only except a scratch tmp and refuses to spawn without a launcher.
//! Everything here is a pure function of the configured mode, the detected
//! launcher and the original invocation.

use crate::text::{ascii_lowercase, chars_of, is_ws, lower_range_equals, trim, trim_bounds, trim_end, trim_start, views};
use vstd::prelude::*;

verus! {

/// How aggressively to sandbox a spawned stdio server.
#[derive(Debug, Clone, Copy, PartialEq, Eq, Structural)]
pub enum SandboxMode {
    /// No sandbox: spawn the command directly (default).
    Off,
    /// Best-effort: wrap if a launcher exists, else run directly. Blocks outbound network.
    Auto,
    /// Network blocked and read-only filesystem; refuses to spawn without a launcher.
    Strict,
}

impl Default for SandboxMode {
    fn default() -> (m: Self)
        ensures
            m == SandboxMode::Off,
    {
        SandboxMode::Off
    }
}

/// An OS sandbox launcher available on this host.
#[derive(Debug, Clone, Copy, PartialEq, Eq, Structural)]
pub enum Launcher {
    /// macOS `sandbox-exec` (SBPL profile via `-p`).
    SandboxExec,
    /// Linux `bwrap` (bubblewrap).
    Bwrap,
}

/// What to do for a given (mode, launcher) pair.
#[derive(Debug, Clone, PartialEq, Eq)]
pub enum Plan {
    /// Spawn the command unchanged.
    Direct,
    /// Wrap the command with the launcher.
    Wrap(Launcher),
    /// Refuse to spawn (strict mode, no launcher), with the reason.
    Refuse(String),
}

/// The configuration text of each mode.
pub open spec fn mode_name(m: SandboxMode) -> Seq<char> {
    match m {
        SandboxMode::Off => seq!['o', 'f', 'f'],
        SandboxMode::Auto => seq!['a', 'u', 't', 'o'],
        SandboxMode::Strict => seq!['s', 't', 'r', 'i', 'c', 't'],
    }
}

/// The mode that configuration text selects: the trimmed text, folded to ASCII
/// lowercase, names `auto` or `strict`; anything else (empty, unknown) is `Off`.
pub open spec fn parse_mode(s: Seq<char>) -> SandboxMode {
    let t = ascii_lowercase(trim(s));
    if t == mode_name(SandboxMode::Auto) {
        SandboxMode::Auto
    } else if t == mode_name(SandboxMode::Strict) {
        SandboxMode::Strict
    } else {
        SandboxMode::Off
    }
}

impl SandboxMode {
    /// The configuration text of this mode.
    pub fn as_str(self) -> (s: &'static str)
        ensures
            s@ == mode_name(self),
    {
        match self {
            SandboxMode::Off => {
                proof {
                    reveal_strlit("off");
                }
                "off"
            },
            SandboxMode::Auto => {
                proof {
                    reveal_strlit("auto");
                }
                "auto"
            },
            SandboxMode::Strict => {
                proof {
                    reveal_strlit("strict");
                }
                "strict"
            },
        }
    }

    /// Parse from config text; unknown or empty text gives `Off`.
    pub fn parse(s: &str) -> (m: Self)
        ensures
            m == parse_mode(s@),
    {
        let v = chars_of(s);
        let (lo, hi) = trim_bounds(&v);
        let auto_word = vec!['a', 'u', 't', 'o'];
        let strict_word = vec!['s', 't', 'r', 'i', 'c', 't'];
        assert(auto_word@ =~= mode_name(SandboxMode::Auto));
        assert(strict_word@ =~= mode_name(SandboxMode::Strict));
        if lower_range_equals(&v, lo, hi, &auto_word) {
            SandboxMode::Auto
        } else if lower_range_equals(&v, lo, hi, &strict_word) {
            SandboxMode::Strict
        } else {
            SandboxMode::Off
        }
    }
}

/// Reading back the text of a mode gives the mode again.
pub proof fn lemma_parse_as_str_roundtrip(m: SandboxMode)
    ensures
        parse_mode(mode_name(m)) == m,
{
    let s = mode_name(m);
    reveal_with_fuel(trim_start, 2);
    reveal_with_fuel(trim_end, 2);
    assert(!is_ws(s[0]));
    assert(trim_start(s) == s);
    assert(!is_ws(s.last()));
    assert(trim_end(s) == s);
    assert(ascii_lowercase(s) =~= s);
    assert(mode_name(SandboxMode::Auto) != mode_name(SandboxMode::Strict));
    assert(mode_name(SandboxMode::Off) != mode_name(SandboxMode::Strict));
    assert(mode_name(SandboxMode::Off) != mode_name(SandboxMode::Auto));
}

/// The reason given when strict mode cannot be honoured.
pub open spec fn refuse_reason() -> Seq<char> {
    "addons.sandbox = strict but no OS sandbox launcher (sandbox-exec / bwrap) is available"@
}

/// Whether `p` is the plan for `mode` given the detected launcher: `Off`, or `Auto`
/// without a launcher, spawns directly; a present launcher wraps; `Strict`
/// without a launcher refuses.
pub open spec fn is_plan_for(mode: SandboxMode, launcher: Option<Launcher>, p: Plan) -> bool {
    match (mode, launcher) {
        (SandboxMode::Off, _) => p == Plan::Direct,
        (SandboxMode::Auto, None) => p == Plan::Direct,
        (_, Some(l)) => p == Plan::Wrap(l),
        (SandboxMode::Strict, None) => p matches Plan::Refuse(r) && r@ == refuse_reason(),
    }
}

/// Decide the plan for `mode` given whether a launcher was detected.
pub fn plan(mode: SandboxMode, launcher: Option<Launcher>) -> (p: Plan)
    ensures
        is_plan_for(mode, launcher, p),
{
    match (mode, launcher) {
        (SandboxMode::Off, _) | (SandboxMode::Auto, None) => Plan::Direct,
        (_, Some(l)) => Plan::Wrap(l),
        (SandboxMode::Strict, None) => Plan::Refuse(
            "addons.sandbox = strict but no OS sandbox launcher (sandbox-exec / bwrap) is available".to_owned(),
        ),
    }
}

/// The launcher to use on this host: `sandbox-exec` on macOS when it is on the
/// `PATH`, otherwise `bwrap` on Linux when it is on the `PATH`, otherwise none.
pub fn detect_launcher(
    target_is_macos: bool,
    target_is_linux: bool,
    sandbox_exec_on_path: bool,
    bwrap_on_path: bool,
) -> (l: Option<Launcher>)
    ensures
        l == (if target_is_macos && sandbox_exec_on_path {
            Some(Launcher::SandboxExec)
        } else if target_is_linux && bwrap_on_path {
            Some(Launcher::Bwrap)
        } else {
            None
        }),
{
    if target_is_macos && sandbox_exec_on_path {
        Some(Launcher::SandboxExec)
    } else if target_is_linux && bwrap_on_path {
        Some(Launcher::Bwrap)
    } else {
        None
    }
}

/// Whether a Unix permission mode has any execute bit (owner, group or other).
pub fn is_executable_mode(mode: u32) -> (b: bool)
    ensures
        b == (mode & 0o111 != 0),
{
    mode & 0o111 != 0
}

/// The SBPL profile text: `allow default`, then the network deny; strict mode
/// also denies file writes and re-allows them under the scratch tmp paths
/// (last match wins, so the re-allow follows the deny).
pub open spec fn sbpl_profile_text(mode: SandboxMode) -> Seq<char> {
    let base = "(version 1)\n(allow default)\n(deny network*)\n"@;
    if mode == SandboxMode::Strict {
        base + "(deny file-write*)\n"@
            + "(allow file-write* (subpath \"/tmp\") (subpath \"/private/tmp\") (subpath \"/var/folders\"))\n"@
    } else {
        base
    }
}

/// The macOS SBPL profile for `mode`.
pub fn sbpl_profile(mode: SandboxMode) -> (p: String)
    ensures
        p@ == sbpl_profile_text(mode),
{
    let mut p = "(version 1)\n(allow default)\n(deny network*)\n".to_owned();
    if mode == SandboxMode::Strict {
        p.append("(deny file-write*)\n");
        p.append(
            "(allow file-write* (subpath \"/tmp\") (subpath \"/private/tmp\") (subpath \"/var/folders\"))\n",
        );
    }
    p
}

/// The bubblewrap flags for `mode`: always unshare the network and die with the
/// parent; strict binds the root read-only with a writable tmpfs at `/tmp`,
/// other modes bind it read-write.
pub open spec fn bwrap_flag_texts(mode: SandboxMode) -> Seq<Seq<char>> {
    let head = seq!["--unshare-net"@, "--die-with-parent"@];
    if mode == SandboxMode::Strict {
        head + seq![
            "--ro-bind"@,
            "/"@,
            "/"@,
            "--dev"@,
            "/dev"@,
            "--proc"@,
            "/proc"@,
            "--tmpfs"@,
            "/tmp"@,
        ]
    } else {
        head + seq!["--bind"@, "/"@, "/"@, "--dev"@, "/dev"@, "--proc"@, "/proc"@]
    }
}

/// Appends an owned copy of each of `items` to `v`.
fn push_all(v: &mut Vec<String>, items: &[&str])
    ensures
        views(final(v)@) == views(old(v)@) + items@.map_values(|s: &str| s@),
{
    let mut i: usize = 0;
    while i < items.len()
        invariant
            i <= items.len(),
            views(v@) == views(old(v)@) + items@.subrange(0, i as int).map_values(|s: &str| s@),
        decreases items.len() - i,
    {
        let ghost before = v@;
        v.push(items[i].to_owned());
        assert(views(v@) =~= views(before).push(items@[i as int]@));
        assert(items@.subrange(0, i + 1).map_values(|s: &str| s@) =~= items@.subrange(
            0,
            i as int,
        ).map_values(|s: &str| s@).push(items@[i as int]@));
        i = i + 1;
    }
    assert(items@.subrange(0, items.len() as int) =~= items@);
}

/// The bubblewrap flags for `mode`.
pub fn bwrap_flags(mode: SandboxMode) -> (f: Vec<String>)
    ensures
        views(f@) == bwrap_flag_texts(mode),
{
    let mut f: Vec<String> = Vec::new();
    match mode {
        SandboxMode::Strict => {
            push_all(
                &mut f,
                &[
                    "--unshare-net",
                    "--die-with-parent",
                    "--ro-bind",
                    "/",
                    "/",
                    "--dev",
                    "/dev",
                    "--proc",
                    "/proc",
                    "--tmpfs",
                    "/tmp",
                ],
            );
        },
        _ => {
            push_all(
                &mut f,
                &[
                    "--unshare-net",
                    "--die-with-parent",
                    "--bind",
                    "/",
                    "/",
                    "--dev",
                    "/dev",
                    "--proc",
                    "/proc",
                ],
            );
        },
    }
    assert(views(f@) =~= bwrap_flag_texts(mode));
    f
}

/// The launcher program and its argument list that run `command args` inside
/// the sandbox: `sandbox-exec -p <profile> command args` or
/// `bwrap <flags> command args`.
pub open spec fn wrapped_invocation(
    launcher: Launcher,
    mode: SandboxMode,
    command: Seq<char>,
    args: Seq<Seq<char>>,
) -> (Seq<char>, Seq<Seq<char>>) {
    match launcher {
        Launcher::SandboxExec => (
            "sandbox-exec"@,
            seq!["-p"@, sbpl_profile_text(mode), command] + args,
        ),
        Launcher::Bwrap => ("bwrap"@, bwrap_flag_texts(mode).push(command) + args),
    }
}

/// Appends a copy of each of `args` to `v`.
fn extend_cloned(v: &mut Vec<String>, args: &[String])
    ensures
        views(final(v)@) == views(old(v)@) + views(args@),
{
    let mut i: usize = 0;
    while i < args.len()
        invariant
            i <= args.len(),
            views(v@) == views(old(v)@) + views(args@.subrange(0, i as int)),
        decreases args.len() - i,
    {
        let ghost before = v@;
        v.push(args[i].clone());
        assert(views(v@) =~= views(before).push(args@[i as int]@));
        assert(views(args@.subrange(0, i + 1)) =~= views(args@.subrange(0, i as int)).push(
            args@[i as int]@,
        ));
        i = i + 1;
    }
    assert(args@.subrange(0, args.len() as int) =~= args@);
}

/// Build the final `(command, args)` for a wrapped plan: the launcher followed
/// by a profile derived from `mode`, then the original invocation.
pub fn wrap_argv(launcher: Launcher, mode: SandboxMode, command: &str, args: &[String]) -> (r: (
    String,
    Vec<String>,
))
    ensures
        (r.0@, views(r.1@)) == wrapped_invocation(launcher, mode, command@, views(args@)),
{
    match launcher {
        Launcher::SandboxExec => {
            let mut v: Vec<String> = Vec::new();
            v.push("-p".to_owned());
            v.push(sbpl_profile(mode));
            v.push(command.to_owned());
            assert(views(v@) =~= seq!["-p"@, sbpl_profile_text(mode), command@]);
            extend_cloned(&mut v, args);
            ("sandbox-exec".to_owned(), v)
        },
        Launcher::Bwrap => {
            let mut v = bwrap_flags(mode);
            let ghost flags = v@;
            v.push(command.to_owned());
            assert(views(v@) =~= views(flags).push(command@));
            extend_cloned(&mut v, args);
            ("bwrap".to_owned(), v)
        },
    }
}

/// What `apply` answers: the original invocation when sandboxing is off or
/// unavailable in `auto`; the wrapped invocation when a launcher exists; the
/// refusal reason when `strict` cannot be honoured.
pub open spec fn applied_invocation(
    mode: SandboxMode,
    launcher: Option<Launcher>,
    command: Seq<char>,
    args: Seq<Seq<char>>,
) -> Result<(Seq<char>, Seq<Seq<char>>), Seq<char>> {
    match (mode, launcher) {
        (SandboxMode::Off, _) => Ok((command, args)),
        (SandboxMode::Auto, None) => Ok((command, args)),
        (_, Some(l)) => Ok(wrapped_invocation(l, mode, command, args)),
        (SandboxMode::Strict, None) => Err(refuse_reason()),
    }
}

/// The views of an `apply` result.
pub open spec fn invocation_view(r: Result<(String, Vec<String>), String>) -> Result<
    (Seq<char>, Seq<Seq<char>>),
    Seq<char>,
> {
    match r {
        Ok((c, a)) => Ok((c@, views(a@))),
        Err(e) => Err(e@),
    }
}

/// Copies `args` into a new vector.
fn to_vec_cloned(args: &[String]) -> (v: Vec<String>)
    ensures
        views(v@) == views(args@),
{
    let mut v: Vec<String> = Vec::new();
    extend_cloned(&mut v, args);
    assert(views(v@) =~= views(args@));
    v
}

/// Rewrite `(command, args)` for the spawn point under the configured `mode`
/// and the detected launcher. An `Err` means the caller must refuse to spawn.
pub fn apply(mode: SandboxMode, launcher: Option<Launcher>, command: &str, args: &[String]) -> (r:
    Result<(String, Vec<String>), String>)
    ensures
        invocation_view(r) == applied_invocation(mode, launcher, command@, views(args@)),
{
    if mode == SandboxMode::Off {
        return Ok((command.to_owned(), to_vec_cloned(args)));
    }
    match plan(mode, launcher) {
        Plan::Direct => Ok((command.to_owned(), to_vec_cloned(args))),
        Plan::Wrap(l) => Ok(wrap_argv(l, mode, command, args)),
        Plan::Refuse(reason) => Err(reason),
    }
}

/// Sandboxing refuses to spawn exactly when `strict` is configured and no
/// launcher is available; every other configuration yields an invocation.
pub proof fn lemma_apply_refuses_only_strict_without_launcher(
    mode: SandboxMode,
    launcher: Option<Launcher>,
    command: Seq<char>,
    args: Seq<Seq<char>>,
)
    ensures
        applied_invocation(mode, launcher, command, args) is Err <==> (mode
            == SandboxMode::Strict && launcher is None),
{
}

/// With sandboxing off, or in `auto` without a launcher, the invocation is left
/// unchanged (zero behavioural change).
pub proof fn lemma_apply_off_is_identity(
    mode: SandboxMode,
    launcher: Option<Launcher>,
    command: Seq<char>,
    args: Seq<Seq<char>>,
)
    requires
        mode == SandboxMode::Off || (mode == SandboxMode::Auto && launcher is None),
    ensures
        applied_invocation(mode, launcher, command, args) == Ok::<
            (Seq<char>, Seq<Seq<char>>),
            Seq<char>,
        >((command, args)),
{
}

/// A wrapped invocation ends with the original command followed by its
/// arguments, unchanged.
pub proof fn lemma_wrap_keeps_invocation(
    launcher: Launcher,
    mode: SandboxMode,
    command: Seq<char>,
    args: Seq<Seq<char>>,
)
    ensures
        ({
            let w = wrapped_invocation(launcher, mode, command, args).1;
            &&& w.len() > args.len()
            &&& w.subrange(w.len() - args.len() - 1, w.len() as int) == seq![command] + args
        }),
{
    let w = wrapped_invocation(launcher, mode, command, args).1;
    assert(w.subrange(w.len() - args.len() - 1, w.len() as int) =~= seq![command] + args);
}

/// Every wrapped invocation isolates the network: the SBPL profile always
/// begins with the network deny, and bubblewrap always unshares the network.
pub proof fn lemma_wrap_isolates_network(
    launcher: Launcher,
    mode: SandboxMode,
    command: Seq<char>,
    args: Seq<Seq<char>>,
)
    ensures
        ({
            let w = wrapped_invocation(launcher, mode, command, args).1;
            let base = "(version 1)\n(allow default)\n(deny network*)\n"@;
            match launcher {
                Launcher::SandboxExec => w[1].subrange(0, base.len() as int) == base,
                Launcher::Bwrap => w[0] == "--unshare-net"@,
            }
        }),
{
    let base = "(version 1)\n(allow default)\n(deny network*)\n"@;
    let p = sbpl_profile_text(mode);
    assert(p.subrange(0, base.len() as int) =~= base);
}

/// In strict mode the sandbox denies file writes (SBPL) or binds the root
/// read-only with a scratch tmpfs (bubblewrap); other modes keep the root writable.
pub proof fn lemma_strict_is_read_only(
    launcher: Launcher,
    mode: SandboxMode,
    command: Seq<char>,
    args: Seq<Seq<char>>,
)
    ensures
        ({
            let w = wrapped_invocation(launcher, mode, command, args).1;
            let base = "(version 1)\n(allow default)\n(deny network*)\n"@;
            let deny = "(deny file-write*)\n"@;
            match launcher {
                Launcher::SandboxExec => (mode == SandboxMode::Strict) == (w[1].len() > base.len())
                    && (mode == SandboxMode::Strict ==> w[1].subrange(
                    base.len() as int,
                    (base.len() + deny.len()) as int,
                ) == deny),
                Launcher::Bwrap => {
                    &&& w[2] == (if mode == SandboxMode::Strict {
                        "--ro-bind"@
                    } else {
                        "--bind"@
                    })
                    &&& mode == SandboxMode::Strict ==> w[9] == "--tmpfs"@ && w[10] == "/tmp"@
                },
            }
        }),
{
    let base = "(version 1)\n(allow default)\n(deny network*)\n"@;
    let deny = "(deny file-write*)\n"@;
    reveal_strlit("(deny file-write*)\n");
    let rest = "(allow file-write* (subpath \"/tmp\") (subpath \"/private/tmp\") (subpath \"/var/folders\"))\n"@;
    if mode == SandboxMode::Strict {
        let p = sbpl_profile_text(mode);
        assert(p =~= base + deny + rest);
        assert(p.subrange(base.len() as int, (base.len() + deny.len()) as int) =~= deny);
    }
}

/// Whenever a launcher is detected and sandboxing is not off, the plan wraps
/// the server in that launcher, and `apply` answers the wrapped invocation:
/// the program run is the launcher and the original command comes after its
/// flags. No mode spawns the server unwrapped when a launcher exists.
pub proof fn lemma_launcher_present_always_wraps(
    mode: SandboxMode,
    l: Launcher,
    p: Plan,
    command: Seq<char>,
    args: Seq<Seq<char>>,
)
    requires
        mode != SandboxMode::Off,
    ensures
        is_plan_for(mode, Some(l), p) ==> p == Plan::Wrap(l),
        applied_invocation(mode, Some(l), command, args) == Ok::<
            (Seq<char>, Seq<Seq<char>>),
            Seq<char>,
        >(wrapped_invocation(l, mode, command, args)),
        applied_invocation(mode, Some(l), command, args)->Ok_0.0 == match l {
            Launcher::SandboxExec => "sandbox-exec"@,
            Launcher::Bwrap => "bwrap"@,
        },
        applied_invocation(mode, Some(l), command, args)->Ok_0.1.len() > args.len() + 1,
{
    let w = wrapped_invocation(l, mode, command, args);
    assert(w.1.len() > args.len() + 1);
}

/// The bubblewrap invocation is exactly the flags `bwrap_flags` gives for the
/// mode, then the command, then its arguments; in every mode those flags
/// unshare the network, die with the parent, bind the root (read-only only in
/// strict mode) and mount `/dev` and `/proc`. The sandbox-exec invocation is
/// `-p`, the profile `sbpl_profile` gives for the mode, the command, then its
/// arguments.
pub proof fn lemma_wrap_uses_launcher_flags(mode: SandboxMode, command: Seq<char>, args: Seq<Seq<char>>)
    ensures
        wrapped_invocation(Launcher::Bwrap, mode, command, args).1 == bwrap_flag_texts(mode) + seq![
            command,
        ] + args,
        wrapped_invocation(Launcher::SandboxExec, mode, command, args).1 == seq![
            "-p"@,
            sbpl_profile_text(mode),
            command,
        ] + args,
        ({
            let w = wrapped_invocation(Launcher::Bwrap, mode, command, args).1;
            &&& w[0] == "--unshare-net"@
            &&& w[1] == "--die-with-parent"@
            &&& w[2] == (if mode == SandboxMode::Strict {
                "--ro-bind"@
            } else {
                "--bind"@
            })
            &&& w[3] == "/"@ && w[4] == "/"@
            &&& w[5] == "--dev"@ && w[6] == "/dev"@
            &&& w[7] == "--proc"@ && w[8] == "/proc"@
            &&& w.len() == bwrap_flag_texts(mode).len() + 1 + args.len()
            &&& w[bwrap_flag_texts(mode).len() as int] == command
        }),
{
    let w = wrapped_invocation(Launcher::Bwrap, mode, command, args).1;
    assert(w =~= bwrap_flag_texts(mode) + seq![command] + args);
    assert(wrapped_invocation(Launcher::SandboxExec, mode, command, args).1 =~= seq![
        "-p"@,
        sbpl_profile_text(mode),
        command,
    ] + args);
}

} // verus!
