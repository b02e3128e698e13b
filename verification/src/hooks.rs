//! Pre-install hooks that let the host package manager refuse packages oil
//! already manages: which backends exist, the files each one writes, and the
//! shell escaping those files rely on.
use vstd::prelude::*;

pub mod brew;
pub mod nix;
pub mod xbps;

use crate::error::{ErrorView, OilError};
use crate::path::{join_spec, path_join};
use crate::system_pm::SystemPm;
use crate::text::{all_ascii, seq_ascii_lower, chars_of, eq_ignore_case, str_eq_ignore_ascii_case, is_ascii_alnum, owned, push_char, push_str, str_eq, to_lowercase, unicode_lowercase};

verus! {

// ---------------------------------------------------------------------------
// Shell escaping
// ---------------------------------------------------------------------------
/// Characters a path may hold and still be written into a shell script bare.
pub open spec fn shell_safe(c: char) -> bool {
    is_ascii_alnum(c) || c == '/' || c == '.' || c == '_' || c == '-' || c == '+' || c == ':' || c
        == '='
}

/// Every `'` replaced by `'\''`.
pub open spec fn quote_inner(s: Seq<char>) -> Seq<char>
    decreases s.len(),
{
    if s.len() == 0 {
        seq![]
    } else {
        quote_inner(s.drop_last()) + if s.last() == '\'' {
            seq!['\'', '\\', '\'', '\'']
        } else {
            seq![s.last()]
        }
    }
}

/// A path as a shell word: unchanged when every character is safe, otherwise
/// single-quoted with embedded quotes escaped.
pub open spec fn shell_escape_spec(s: Seq<char>) -> Seq<char> {
    if forall|i: int| 0 <= i < s.len() ==> shell_safe(#[trigger] s[i]) {
        s
    } else {
        seq!['\''] + quote_inner(s) + seq!['\'']
    }
}

/// Where a POSIX shell stands while it reads one word in argument position.
pub enum ShellMode {
    /// Outside quotes.
    Bare,
    /// Inside single quotes.
    Quoted,
    /// Right after a backslash outside quotes.
    Escaped,
}

/// The shell's reading so far: the word's characters, where it stands, and
/// whether everything read so far was part of one word.
pub struct ShellRead {
    pub word: Seq<char>,
    pub mode: ShellMode,
    pub ok: bool,
}

/// The shell reads the character `c`: inside single quotes everything but
/// `'` is literal and `'` closes them; outside quotes `'` opens them, a
/// backslash quotes the next character (a backslash-newline is dropped), a
/// safe character is literal, and anything else (blanks, operators,
/// expansions) would not leave one plain word.
pub open spec fn shell_read_char(st: ShellRead, c: char) -> ShellRead {
    if !st.ok {
        st
    } else {
        match st.mode {
            ShellMode::Quoted => if c == '\'' {
                ShellRead { mode: ShellMode::Bare, ..st }
            } else {
                ShellRead { word: st.word.push(c), ..st }
            },
            ShellMode::Escaped => if c == '\n' {
                ShellRead { mode: ShellMode::Bare, ..st }
            } else {
                ShellRead { word: st.word.push(c), mode: ShellMode::Bare, ..st }
            },
            ShellMode::Bare => if c == '\'' {
                ShellRead { mode: ShellMode::Quoted, ..st }
            } else if c == '\\' {
                ShellRead { mode: ShellMode::Escaped, ..st }
            } else if shell_safe(c) {
                ShellRead { word: st.word.push(c), ..st }
            } else {
                ShellRead { ok: false, ..st }
            },
        }
    }
}

/// The shell's reading after the characters `t`, starting from `st`.
pub open spec fn shell_read_from(st: ShellRead, t: Seq<char>) -> ShellRead
    decreases t.len(),
{
    if t.len() == 0 {
        st
    } else {
        shell_read_char(shell_read_from(st, t.drop_last()), t.last())
    }
}

/// A reading with nothing amiss so far.
pub open spec fn reading(word: Seq<char>, mode: ShellMode) -> ShellRead {
    ShellRead { word, mode, ok: true }
}

/// The one word a POSIX shell reads from `t`, when `t` is one word.
pub open spec fn shell_word(t: Seq<char>) -> Option<Seq<char>> {
    let r = shell_read_from(reading(seq![], ShellMode::Bare), t);
    if t.len() > 0 && r.ok && r.mode is Bare {
        Some(r.word)
    } else {
        None
    }
}

proof fn lemma_read_concat(st: ShellRead, a: Seq<char>, b: Seq<char>)
    ensures
        shell_read_from(st, a + b) == shell_read_from(shell_read_from(st, a), b),
    decreases b.len(),
{
    if b.len() == 0 {
        assert(a + b =~= a);
    } else {
        assert((a + b).drop_last() =~= a + b.drop_last());
        lemma_read_concat(st, a, b.drop_last());
    }
}

proof fn lemma_read_bare(word: Seq<char>, s: Seq<char>)
    requires
        forall|i: int| 0 <= i < s.len() ==> shell_safe(#[trigger] s[i]),
    ensures
        shell_read_from(reading(word, ShellMode::Bare), s) == reading(word + s, ShellMode::Bare),
    decreases s.len(),
{
    if s.len() > 0 {
        lemma_read_bare(word, s.drop_last());
        assert(word + s =~= (word + s.drop_last()).push(s.last()));
        assert(shell_safe(s[s.len() - 1]));
    } else {
        assert(word + s =~= word);
    }
}

proof fn lemma_read_quoted(word: Seq<char>, s: Seq<char>)
    ensures
        shell_read_from(reading(word, ShellMode::Quoted), quote_inner(s)) == reading(
            word + s,
            ShellMode::Quoted,
        ),
    decreases s.len(),
{
    let st = reading(word, ShellMode::Quoted);
    if s.len() == 0 {
        assert(word + s =~= word);
    } else {
        let q = quote_inner(s.drop_last());
        lemma_read_quoted(word, s.drop_last());
        let mid = reading(word + s.drop_last(), ShellMode::Quoted);
        assert(word + s =~= (word + s.drop_last()).push(s.last()));
        if s.last() == '\'' {
            let piece = seq!['\'', '\\', '\'', '\''];
            assert(quote_inner(s) == q + piece);
            lemma_read_concat(st, q, piece);
            let p1 = seq!['\''];
            let p2 = seq!['\'', '\\'];
            let p3 = seq!['\'', '\\', '\''];
            assert(piece.drop_last() =~= p3);
            assert(p3.drop_last() =~= p2);
            assert(p2.drop_last() =~= p1);
            assert(p1.drop_last() =~= Seq::<char>::empty());
            let r0 = shell_read_from(mid, Seq::<char>::empty());
            assert(r0 == mid);
            let r1 = shell_read_from(mid, p1);
            assert(r1 == ShellRead { mode: ShellMode::Bare, ..mid });
            let r2 = shell_read_from(mid, p2);
            assert(r2 == ShellRead { mode: ShellMode::Escaped, ..mid });
            let r3 = shell_read_from(mid, p3);
            assert(r3 == reading(mid.word.push('\''), ShellMode::Bare));
            assert(shell_read_from(mid, piece) == reading(mid.word.push('\''), ShellMode::Quoted));
        } else {
            let c = s.last();
            assert(quote_inner(s) == q + seq![c]);
            lemma_read_concat(st, q, seq![c]);
            assert(seq![c].drop_last() =~= Seq::<char>::empty());
            assert(shell_read_from(mid, Seq::<char>::empty()) == mid);
            assert(shell_read_from(mid, seq![c]) == reading(mid.word.push(c), ShellMode::Quoted));
        }
    }
}

/// A quoted path reads back as the path: a POSIX shell reads
/// `shell_escape_spec(s)`, in argument position, as exactly the one word `s`,
/// whatever characters `s` holds, provided it is not empty.
pub proof fn law_shell_escape_reads_back(s: Seq<char>)
    requires
        s.len() > 0,
    ensures
        shell_word(shell_escape_spec(s)) == Some(s),
{
    let start = reading(seq![], ShellMode::Bare);
    if forall|i: int| 0 <= i < s.len() ==> shell_safe(#[trigger] s[i]) {
        lemma_read_bare(seq![], s);
        assert(seq![] + s =~= s);
    } else {
        let open = seq!['\''];
        let q = quote_inner(s);
        let t = open + q + open;
        lemma_read_concat(start, open + q, open);
        lemma_read_concat(start, open, q);
        assert(open.drop_last() =~= Seq::<char>::empty());
        assert(shell_read_from(start, open.drop_last()) == start);
        assert(shell_read_from(start, open) == reading(seq![], ShellMode::Quoted));
        lemma_read_quoted(seq![], s);
        assert(seq![] + s =~= s);
        let mid = reading(s, ShellMode::Quoted);
        assert(shell_read_from(mid, open.drop_last()) == mid);
        assert(t.len() > 0);
    }
}

fn is_shell_safe(c: char) -> (b: bool)
    ensures
        b == shell_safe(c),
{
    ('0' <= c && c <= '9') || ('a' <= c && c <= 'z') || ('A' <= c && c <= 'Z') || c == '/' || c
        == '.' || c == '_' || c == '-' || c == '+' || c == ':' || c == '='
}

/// Quote `path` for a POSIX shell (see `shell_escape_spec`).
pub fn shell_escape(path: &str) -> (r: String)
    ensures
        r@ == shell_escape_spec(path@),
{
    let v = chars_of(path);
    let mut i: usize = 0;
    let mut safe = true;
    while i < v.len()
        invariant
            i <= v@.len(),
            v@ == path@,
            safe == (forall|j: int| 0 <= j < i ==> shell_safe(#[trigger] v@[j])),
        decreases v@.len() - i,
    {
        if !is_shell_safe(v[i]) {
            safe = false;
        }
        i = i + 1;
    }
    if safe {
        return path.to_owned();
    }
    let mut r = String::new();
    push_char(&mut r, '\'');
    let mut k: usize = 0;
    while k < v.len()
        invariant
            k <= v@.len(),
            r@ == seq!['\''] + quote_inner(v@.take(k as int)),
        decreases v@.len() - k,
    {
        proof {
            assert(v@.take(k + 1).drop_last() == v@.take(k as int));
        }
        if v[k] == '\'' {
            push_char(&mut r, '\'');
            push_char(&mut r, '\\');
            push_char(&mut r, '\'');
            push_char(&mut r, '\'');
        } else {
            push_char(&mut r, v[k]);
        }
        k = k + 1;
    }
    push_char(&mut r, '\'');
    proof {
        assert(v@.take(v@.len() as int) == v@);
    }
    r
}

/// `prefix`, then `middle`, then `suffix`.
fn around(prefix: &str, middle: &str, suffix: &str) -> (r: String)
    ensures
        r@ == prefix@ + middle@ + suffix@,
{
    let mut r = owned(prefix);
    push_str(&mut r, middle);
    push_str(&mut r, suffix);
    r
}

/// One-line preinstall helper for hook scripts (apt .deb loop, pacman %p, etc.).
pub fn preinstall_shell_fragment(oil_bin: &str) -> (r: String)
    ensures
        r@ == shell_escape_spec(oil_bin@) + " __pm-preinstall --pkg"@,
{
    let mut r = shell_escape(oil_bin);
    push_str(&mut r, " __pm-preinstall --pkg");
    r
}

// ---------------------------------------------------------------------------
// Generated files
// ---------------------------------------------------------------------------
pub open spec fn apt_wrapper_spec(oil_bin: Seq<char>) -> Seq<char> {
    r#"#!/bin/sh
# oil hooks apt — DPkg::Pre-Install-Pkgs (light: dpkg-deb + one oil call per .deb)
set -eu
OIL_BIN="#@ + shell_escape_spec(oil_bin) + r#"
for deb in "$@"; do
  [ -f "$deb" ] || continue
  pkg="$(dpkg-deb -f "$deb" Package 2>/dev/null || true)"
  [ -n "$pkg" ] || continue
  "$OIL_BIN" __pm-preinstall --pkg "$pkg" || exit 1
done
"#@
}

/// The script apt runs before dpkg unpacks `.deb` files: one oil check per package.
pub fn apt_wrapper_script(oil_bin: &str) -> (r: String)
    ensures
        r@ == apt_wrapper_spec(oil_bin@),
{
    let oil = shell_escape(oil_bin);
    around(
        r#"#!/bin/sh
# oil hooks apt — DPkg::Pre-Install-Pkgs (light: dpkg-deb + one oil call per .deb)
set -eu
OIL_BIN="#,
        oil.as_str(),
        r#"
for deb in "$@"; do
  [ -f "$deb" ] || continue
  pkg="$(dpkg-deb -f "$deb" Package 2>/dev/null || true)"
  [ -n "$pkg" ] || continue
  "$OIL_BIN" __pm-preinstall --pkg "$pkg" || exit 1
done
"#,
    )
}

pub open spec fn apt_conf_spec(wrapper: Seq<char>) -> Seq<char> {
    "// oil hooks apt\nDPkg::Pre-Install-Pkgs { \""@ + shell_escape_spec(wrapper) + "\"; };\n"@
}

/// The apt configuration that registers `wrapper` as a `DPkg::Pre-Install-Pkgs` hook.
pub fn apt_conf(wrapper: &str) -> (r: String)
    ensures
        r@ == apt_conf_spec(wrapper@),
{
    let w = shell_escape(wrapper);
    around("// oil hooks apt\nDPkg::Pre-Install-Pkgs { \"", w.as_str(), "\"; };\n")
}

pub open spec fn apk_wrapper_spec(oil_bin: Seq<char>) -> Seq<char> {
    r#"#!/bin/sh
# oil hooks apk — commit hook (light: one oil call per package in APK_INSTALLED_PACKAGES)
set -eu
OIL_BIN="#@ + shell_escape_spec(oil_bin) + r#"
for pkg in $APK_INSTALLED_PACKAGES; do
  name="${pkg%%=*}"
  [ -n "$name" ] || continue
  "$OIL_BIN" __pm-preinstall --pkg "$name" || exit 1
done
"#@
}

/// The apk commit hook: one oil check per package apk is about to install.
pub fn apk_wrapper_script(oil_bin: &str) -> (r: String)
    ensures
        r@ == apk_wrapper_spec(oil_bin@),
{
    let oil = shell_escape(oil_bin);
    around(
        r#"#!/bin/sh
# oil hooks apk — commit hook (light: one oil call per package in APK_INSTALLED_PACKAGES)
set -eu
OIL_BIN="#,
        oil.as_str(),
        r#"
for pkg in $APK_INSTALLED_PACKAGES; do
  name="${pkg%%=*}"
  [ -n "$name" ] || continue
  "$OIL_BIN" __pm-preinstall --pkg "$name" || exit 1
done
"#,
    )
}

pub open spec fn dnf_plugin_spec(oil_bin: Seq<char>) -> Seq<char> {
    r#"# oil hooks dnf — pre_transaction plugin (light: subprocess per pkg)
import dnf
import dnf.plugin
import subprocess

class Plugin(dnf.plugin.Plugin):
    name = "oil_cellar"

    def __init__(self, base, cli):
        super().__init__(base, cli)
        self.base = base

    def pre_transaction(self):
        ts = self.base.transaction
        if ts is None:
            return
        names = set()
        for t in ts.install_set | ts.upgrade_set:
            names.add(t.name)
        oil = "#@ + shell_escape_spec(oil_bin) + r#"
        for name in sorted(names):
            r = subprocess.run([oil, "__pm-preinstall", "--pkg", name], check=False)
            if r.returncode != 0:
                raise dnf.exceptions.Error(f"oil blocked install of {name}")
"#@
}

/// The dnf plugin that runs one oil check per package of a transaction.
pub fn dnf_plugin_py(oil_bin: &str) -> (r: String)
    ensures
        r@ == dnf_plugin_spec(oil_bin@),
{
    let oil = shell_escape(oil_bin);
    around(
        r#"# oil hooks dnf — pre_transaction plugin (light: subprocess per pkg)
import dnf
import dnf.plugin
import subprocess

class Plugin(dnf.plugin.Plugin):
    name = "oil_cellar"

    def __init__(self, base, cli):
        super().__init__(base, cli)
        self.base = base

    def pre_transaction(self):
        ts = self.base.transaction
        if ts is None:
            return
        names = set()
        for t in ts.install_set | ts.upgrade_set:
            names.add(t.name)
        oil = "#,
        oil.as_str(),
        r#"
        for name in sorted(names):
            r = subprocess.run([oil, "__pm-preinstall", "--pkg", name], check=False)
            if r.returncode != 0:
                raise dnf.exceptions.Error(f"oil blocked install of {name}")
"#,
    )
}

pub open spec fn pacman_wrapper_spec(oil_bin: Seq<char>) -> Seq<char> {
    "#!/bin/sh\nset -eu\nexec "@ + shell_escape_spec(oil_bin) + " __pm-preinstall --pkg \"$1\"\n"@
}

/// The wrapper pacman's hook runs for each target package.
pub fn pacman_wrapper_script(oil_bin: &str) -> (r: String)
    ensures
        r@ == pacman_wrapper_spec(oil_bin@),
{
    let oil = shell_escape(oil_bin);
    around("#!/bin/sh\nset -eu\nexec ", oil.as_str(), " __pm-preinstall --pkg \"$1\"\n")
}

pub open spec fn pacman_hook_spec(wrapper: Seq<char>) -> Seq<char> {
    r#"# oil hooks pacman — PreTransaction per package (~1 oil call/pkg)
[Trigger]
Operation = Install
Type = Package
Target = *

[Action]
Description = oil Cellar guard
When = PreTransaction
NeedsTargets
Exec = "#@ + shell_escape_spec(wrapper) + r#" %p
"#@
}

/// The pacman hook that runs `wrapper` before every install transaction.
pub fn pacman_hook(wrapper: &str) -> (r: String)
    ensures
        r@ == pacman_hook_spec(wrapper@),
{
    let w = shell_escape(wrapper);
    around(
        r#"# oil hooks pacman — PreTransaction per package (~1 oil call/pkg)
[Trigger]
Operation = Install
Type = Package
Target = *

[Action]
Description = oil Cellar guard
When = PreTransaction
NeedsTargets
Exec = "#,
        w.as_str(),
        r#" %p
"#,
    )
}

// ---------------------------------------------------------------------------
// Backends
// ---------------------------------------------------------------------------
/// A host package manager oil can hook into.
#[derive(Clone, Copy, Debug, PartialEq, Eq, Structural)]
pub enum HookPm {
    Apt,
    Apk,
    Dnf,
    Pacman,
    Xbps,
    Brew,
    Nix,
}

/// One file-system action of a hook install or removal, in the order given.
#[derive(Clone, Debug, PartialEq, Eq)]
pub enum HookStep {
    /// Create a directory and its parents.
    CreateDir(String),
    /// Write a file (creating its parent directory) and mark it executable.
    WriteExecutable(String, String),
    /// Stop with an install error carrying the second text if the directory is missing.
    RequireDir(String, String),
    /// Like `RequireDir`, but running as root is enough.
    RequireDirOrRoot(String, String),
    /// Write a root-owned file (path, content), through `sudo cp` from the
    /// given scratch directory when not root.
    InstallRootFile(String, String, String),
    /// Write a root-owned executable (path, content): directly when root,
    /// otherwise by `sudo cp` of the given scratch copy and `sudo chmod +x`;
    /// the last text is the error when the copy fails.
    InstallRootExecutable(String, String, String, String),
    /// Remove a root-owned file if it exists (through `sudo rm -f` when not root).
    RemoveRootFile(String),
    /// Remove a file of the user's if it exists, ignoring failure.
    RemoveFileIfExists(String),
    /// Print a line.
    Print(String),
}

/// A hook step as plain character sequences.
pub enum StepView {
    CreateDir(Seq<char>),
    WriteExecutable(Seq<char>, Seq<char>),
    RequireDir(Seq<char>, Seq<char>),
    RequireDirOrRoot(Seq<char>, Seq<char>),
    InstallRootFile(Seq<char>, Seq<char>, Seq<char>),
    InstallRootExecutable(Seq<char>, Seq<char>, Seq<char>, Seq<char>),
    RemoveRootFile(Seq<char>),
    RemoveFileIfExists(Seq<char>),
    Print(Seq<char>),
}

impl View for HookStep {
    type V = StepView;

    open spec fn view(&self) -> StepView {
        match self {
            HookStep::CreateDir(a) => StepView::CreateDir(a@),
            HookStep::WriteExecutable(a, b) => StepView::WriteExecutable(a@, b@),
            HookStep::RequireDir(a, b) => StepView::RequireDir(a@, b@),
            HookStep::RequireDirOrRoot(a, b) => StepView::RequireDirOrRoot(a@, b@),
            HookStep::InstallRootFile(a, b, c) => StepView::InstallRootFile(a@, b@, c@),
            HookStep::InstallRootExecutable(a, b, c, d) => StepView::InstallRootExecutable(
                a@,
                b@,
                c@,
                d@,
            ),
            HookStep::RemoveRootFile(a) => StepView::RemoveRootFile(a@),
            HookStep::RemoveFileIfExists(a) => StepView::RemoveFileIfExists(a@),
            HookStep::Print(a) => StepView::Print(a@),
        }
    }
}

pub open spec fn step_views(v: Seq<HookStep>) -> Seq<StepView> {
    v.map_values(|s: HookStep| s@)
}

/// The backend a lowercased command-line name selects.
pub open spec fn from_cli_spec(lower: Seq<char>) -> Option<HookPm> {
    if lower == "apt"@ {
        Some(HookPm::Apt)
    } else if lower == "apk"@ {
        Some(HookPm::Apk)
    } else if lower == "dnf"@ || lower == "yum"@ {
        Some(HookPm::Dnf)
    } else if lower == "pacman"@ {
        Some(HookPm::Pacman)
    } else if lower == "xbps"@ {
        Some(HookPm::Xbps)
    } else if lower == "brew"@ {
        Some(HookPm::Brew)
    } else if lower == "nix"@ {
        Some(HookPm::Nix)
    } else {
        None
    }
}

pub open spec fn label_spec(h: HookPm) -> Seq<char> {
    match h {
        HookPm::Apt => "apt"@,
        HookPm::Apk => "apk"@,
        HookPm::Dnf => "dnf"@,
        HookPm::Pacman => "pacman"@,
        HookPm::Xbps => "xbps"@,
        HookPm::Brew => "brew"@,
        HookPm::Nix => "nix"@,
    }
}

/// A backend's label names it on the command line: the label is plain ASCII
/// and reads back as the same backend, so no two backends share a label.
pub proof fn law_hook_label_round_trip(h: HookPm)
    ensures
        all_ascii(label_spec(h)),
        from_cli_spec(seq_ascii_lower(label_spec(h))) == Some(h),
{
    reveal_strlit("apt");
    reveal_strlit("apk");
    reveal_strlit("dnf");
    reveal_strlit("yum");
    reveal_strlit("pacman");
    reveal_strlit("xbps");
    reveal_strlit("brew");
    reveal_strlit("nix");
    // the labels tell apart by length, first letter or last letter
    assert("apt"@.len() == 3 && "apt"@[0] == 'a' && "apt"@[2] == 't');
    assert("apk"@.len() == 3 && "apk"@[0] == 'a' && "apk"@[2] == 'k');
    assert("dnf"@.len() == 3 && "dnf"@[0] == 'd');
    assert("yum"@.len() == 3 && "yum"@[0] == 'y');
    assert("nix"@.len() == 3 && "nix"@[0] == 'n');
    assert("pacman"@.len() == 6);
    assert("xbps"@.len() == 4 && "xbps"@[0] == 'x');
    assert("brew"@.len() == 4 && "brew"@[0] == 'b');
    let l = label_spec(h);
    assert forall|i: int| 0 <= i < l.len() implies (#[trigger] l[i] as u32) < 128 by {}
    assert(seq_ascii_lower(l) =~= l);
}

/// Why installing `h`'s hook cannot go ahead on this host, if it cannot.
pub open spec fn host_check_spec(h: HookPm, is_linux: bool, host: Option<SystemPm>) -> Option<
    ErrorView,
> {
    match h {
        HookPm::Apt => if !is_linux {
            Some(ErrorView::Platform("apt hooks: Linux only"@))
        } else if host != Some(SystemPm::Apt) {
            Some(ErrorView::Platform("apt hooks: host is not Debian/Ubuntu (apt)"@))
        } else {
            None
        },
        HookPm::Apk => if !is_linux {
            Some(ErrorView::Platform("apk hooks: Linux only"@))
        } else if host != Some(SystemPm::Apk) {
            Some(ErrorView::Platform("apk hooks: host is not Alpine/Chimera-style (apk)"@))
        } else {
            None
        },
        HookPm::Dnf => if !is_linux {
            Some(ErrorView::Platform("dnf hooks: Linux only"@))
        } else if host != Some(SystemPm::Dnf) && host != Some(SystemPm::Yum) {
            Some(ErrorView::Platform("dnf hooks: host is not Fedora/RHEL-style (dnf/yum)"@))
        } else {
            None
        },
        HookPm::Pacman => if !is_linux {
            Some(ErrorView::Platform("pacman hooks: Linux only"@))
        } else if host != Some(SystemPm::Pacman) {
            Some(ErrorView::Platform("pacman hooks: host is not Arch-style (pacman)"@))
        } else {
            None
        },
        HookPm::Xbps => Some(
            ErrorView::Platform("xbps: no pre-install hook API — use `oil install` host-skip only"@),
        ),
        HookPm::Brew => Some(
            ErrorView::Platform(
                "brew: no supported pre-install hook — oil install already skips if brew has the formula"@,
            ),
        ),
        HookPm::Nix => Some(ErrorView::Platform("nix: no pre-install hook — use oil install host-skip"@)),
    }
}

/// The steps that install `h`'s hook, for an oil binary at `oil_bin` and oil's
/// own directory `oil_dir` (the backends without hooks have none).
pub open spec fn install_steps_spec(h: HookPm, oil_bin: Seq<char>, oil_dir: Seq<char>) -> Seq<
    StepView,
> {
    match h {
        HookPm::Apt => {
            let wrapper = join_spec(oil_dir, "oil-hook-apt"@);
            seq![
                StepView::CreateDir(oil_dir),
                StepView::WriteExecutable(wrapper, apt_wrapper_spec(oil_bin)),
                StepView::RequireDir(
                    "/etc/apt/apt.conf.d"@,
                    "/etc/apt/apt.conf.d missing (need Debian/Ubuntu + root)"@,
                ),
                StepView::InstallRootFile(
                    "/etc/apt/apt.conf.d/99oil-dpkg-hooks"@,
                    apt_conf_spec(wrapper),
                    oil_dir,
                ),
                StepView::Print("oil hooks apt: /etc/apt/apt.conf.d/99oil-dpkg-hooks"@),
            ]
        },
        HookPm::Apk => {
            let tmp = join_spec(oil_dir, "oil-cellar.sh"@);
            seq![
                StepView::RequireDir(
                    "/etc/apk/commit_hooks.d"@,
                    "/etc/apk/commit_hooks.d missing (apk 2.12+ commit hooks?)"@,
                ),
                StepView::WriteExecutable(tmp, apk_wrapper_spec(oil_bin)),
                StepView::InstallRootExecutable(
                    "/etc/apk/commit_hooks.d/oil-cellar.sh"@,
                    tmp,
                    apk_wrapper_spec(oil_bin),
                    "apk hook install failed"@,
                ),
                StepView::Print("oil hooks apk: /etc/apk/commit_hooks.d/oil-cellar.sh"@),
            ]
        },
        HookPm::Dnf => seq![
            StepView::RequireDirOrRoot(
                "/etc/dnf/plugins"@,
                "/etc/dnf/plugins missing — install dnf-plugins-core and retry as root"@,
            ),
            StepView::InstallRootFile(
                "/etc/dnf/plugins/oil_cellar.py"@,
                dnf_plugin_spec(oil_bin),
                oil_dir,
            ),
            StepView::InstallRootFile(
                "/etc/dnf/plugins/oil_cellar.conf"@,
                "[main]\nenabled = 1\n"@,
                oil_dir,
            ),
            StepView::Print("oil hooks dnf: /etc/dnf/plugins/oil_cellar.py"@),
        ],
        HookPm::Pacman => {
            let wrapper = join_spec(oil_dir, "oil-hook-pacman"@);
            seq![
                StepView::WriteExecutable(wrapper, pacman_wrapper_spec(oil_bin)),
                StepView::InstallRootFile(
                    "/etc/pacman.d/hooks/oil-cellar.hook"@,
                    pacman_hook_spec(wrapper),
                    oil_dir,
                ),
                StepView::Print("oil hooks pacman: /etc/pacman.d/hooks/oil-cellar.hook"@),
            ]
        },
        _ => seq![],
    }
}

/// The steps that remove `h`'s hook.
pub open spec fn remove_steps_spec(h: HookPm, oil_dir: Seq<char>) -> Seq<StepView> {
    match h {
        HookPm::Apt => seq![
            StepView::RemoveRootFile("/etc/apt/apt.conf.d/99oil-dpkg-hooks"@),
            StepView::RemoveFileIfExists(join_spec(oil_dir, "oil-hook-apt"@)),
            StepView::Print("oil hooks apt: removed"@),
        ],
        HookPm::Apk => seq![
            StepView::RemoveRootFile("/etc/apk/commit_hooks.d/oil-cellar.sh"@),
            StepView::Print("oil hooks apk: removed"@),
        ],
        HookPm::Dnf => seq![
            StepView::RemoveRootFile("/etc/dnf/plugins/oil_cellar.py"@),
            StepView::RemoveRootFile("/etc/dnf/plugins/oil_cellar.conf"@),
            StepView::Print("oil hooks dnf: removed"@),
        ],
        HookPm::Pacman => seq![
            StepView::RemoveRootFile("/etc/pacman.d/hooks/oil-cellar.hook"@),
            StepView::RemoveFileIfExists(join_spec(oil_dir, "oil-hook-pacman"@)),
            StepView::Print("oil hooks pacman: removed"@),
        ],
        HookPm::Xbps => seq![StepView::Print("xbps: no oil hook to remove"@)],
        HookPm::Brew => seq![StepView::Print("brew: no oil hook to remove"@)],
        HookPm::Nix => seq![StepView::Print("nix: no oil hook to remove"@)],
    }
}

/// The files whose presence means `h`'s hook is installed (all must be files).
pub open spec fn status_paths_spec(h: HookPm, oil_dir: Seq<char>) -> Seq<Seq<char>> {
    match h {
        HookPm::Apt => seq![
            "/etc/apt/apt.conf.d/99oil-dpkg-hooks"@,
            join_spec(oil_dir, "oil-hook-apt"@),
        ],
        HookPm::Apk => seq!["/etc/apk/commit_hooks.d/oil-cellar.sh"@],
        HookPm::Dnf => seq!["/etc/dnf/plugins/oil_cellar.py"@],
        HookPm::Pacman => seq!["/etc/pacman.d/hooks/oil-cellar.hook"@],
        _ => seq![],
    }
}

/// The status line for `h`, given whether its hook files are all present.
pub open spec fn status_line_spec(h: HookPm, installed: bool) -> Seq<char> {
    match h {
        HookPm::Apt => if installed {
            "apt: installed (/etc/apt/apt.conf.d/99oil-dpkg-hooks)"@
        } else {
            "apt: not installed"@
        },
        HookPm::Apk => if installed {
            "apk: installed (/etc/apk/commit_hooks.d/oil-cellar.sh)"@
        } else {
            "apk: not installed"@
        },
        HookPm::Dnf => if installed {
            "dnf: installed (/etc/dnf/plugins/oil_cellar.py)"@
        } else {
            "dnf: not installed"@
        },
        HookPm::Pacman => if installed {
            "pacman: installed (/etc/pacman.d/hooks/oil-cellar.hook)"@
        } else {
            "pacman: not installed"@
        },
        HookPm::Xbps => "xbps: unsupported (Void has no package-manager pre-install hook)"@,
        HookPm::Brew => "brew: unsupported (Homebrew has no dpkg-style pre-install hook)"@,
        HookPm::Nix => "nix: unsupported"@,
    }
}

fn step1(s: HookStep) -> (r: Vec<HookStep>)
    ensures
        step_views(r@) == seq![s@],
{
    let r = vec![s];
    assert(step_views(r@) =~= seq![s@]);
    r
}

fn push_step(v: &mut Vec<HookStep>, s: HookStep)
    ensures
        step_views(final(v)@) == step_views(old(v)@).push(s@),
{
    v.push(s);
    assert(step_views(final(v)@) =~= step_views(old(v)@).push(s@));
}

impl HookPm {
    /// Parse a hooks target named on the command line (case-insensitive;
    /// `yum` means the dnf backend).
    pub fn from_cli(s: &str) -> (r: Result<Self, OilError>)
        ensures
            match r {
                Ok(h) => from_cli_spec(unicode_lowercase(s@)) == Some(h),
                Err(e) => from_cli_spec(unicode_lowercase(s@)) is None && e@ == ErrorView::Input(
                    "unknown hooks target '"@ + s@ + "' (try: apt, dnf, pacman, apk, xbps, brew, nix)"@,
                ),
            },
            all_ascii(s@) ==> match r {
                Ok(h) => from_cli_spec(seq_ascii_lower(s@)) == Some(h),
                Err(_) => from_cli_spec(seq_ascii_lower(s@)) is None,
            },
    {
        let lower = to_lowercase(s);
        let l = lower.as_str();
        if str_eq(l, "apt") {
            Ok(Self::Apt)
        } else if str_eq(l, "apk") {
            Ok(Self::Apk)
        } else if str_eq(l, "dnf") || str_eq(l, "yum") {
            Ok(Self::Dnf)
        } else if str_eq(l, "pacman") {
            Ok(Self::Pacman)
        } else if str_eq(l, "xbps") {
            Ok(Self::Xbps)
        } else if str_eq(l, "brew") {
            Ok(Self::Brew)
        } else if str_eq(l, "nix") {
            Ok(Self::Nix)
        } else {
            Err(
                OilError::InvalidInput(
                    around("unknown hooks target '", s, "' (try: apt, dnf, pacman, apk, xbps, brew, nix)"),
                ),
            )
        }
    }

    /// The backend's short name.
    pub fn label(self) -> (r: &'static str)
        ensures
            r@ == label_spec(self),
    {
        match self {
            Self::Apt => "apt",
            Self::Apk => "apk",
            Self::Dnf => "dnf",
            Self::Pacman => "pacman",
            Self::Xbps => "xbps",
            Self::Brew => "brew",
            Self::Nix => "nix",
        }
    }

    /// Whether this backend's hook can be installed on a host (`is_linux`,
    /// with `host` the detected package manager).
    pub fn check_host(self, is_linux: bool, host: Option<SystemPm>) -> (r: Result<(), OilError>)
        ensures
            match r {
                Ok(()) => host_check_spec(self, is_linux, host) is None,
                Err(e) => host_check_spec(self, is_linux, host) == Some(e@),
            },
    {
        match self {
            Self::Apt => if !is_linux {
                Err(OilError::PlatformNotSupported(owned("apt hooks: Linux only")))
            } else if host != Some(SystemPm::Apt) {
                Err(OilError::PlatformNotSupported(owned("apt hooks: host is not Debian/Ubuntu (apt)")))
            } else {
                Ok(())
            },
            Self::Apk => if !is_linux {
                Err(OilError::PlatformNotSupported(owned("apk hooks: Linux only")))
            } else if host != Some(SystemPm::Apk) {
                Err(
                    OilError::PlatformNotSupported(
                        owned("apk hooks: host is not Alpine/Chimera-style (apk)"),
                    ),
                )
            } else {
                Ok(())
            },
            Self::Dnf => if !is_linux {
                Err(OilError::PlatformNotSupported(owned("dnf hooks: Linux only")))
            } else if host != Some(SystemPm::Dnf) && host != Some(SystemPm::Yum) {
                Err(
                    OilError::PlatformNotSupported(
                        owned("dnf hooks: host is not Fedora/RHEL-style (dnf/yum)"),
                    ),
                )
            } else {
                Ok(())
            },
            Self::Pacman => if !is_linux {
                Err(OilError::PlatformNotSupported(owned("pacman hooks: Linux only")))
            } else if host != Some(SystemPm::Pacman) {
                Err(OilError::PlatformNotSupported(owned("pacman hooks: host is not Arch-style (pacman)")))
            } else {
                Ok(())
            },
            Self::Xbps => xbps::install(),
            Self::Brew => brew::install(),
            Self::Nix => nix::install(),
        }
    }

    /// The steps that install this backend's hook: refused as `check_host`
    /// says; otherwise the files to write for the oil binary `oil_bin` and
    /// oil's directory `oil_dir`.
    pub fn install(self, is_linux: bool, host: Option<SystemPm>, oil_bin: &str, oil_dir: &str) -> (r:
        Result<Vec<HookStep>, OilError>)
        ensures
            match r {
                Ok(steps) => host_check_spec(self, is_linux, host) is None && step_views(steps@)
                    == install_steps_spec(self, oil_bin@, oil_dir@),
                Err(e) => host_check_spec(self, is_linux, host) == Some(e@),
            },
    {
        self.check_host(is_linux, host)?;
        match self {
            Self::Apt => {
                let wrapper = path_join(oil_dir, "oil-hook-apt");
                let mut v = step1(HookStep::CreateDir(owned(oil_dir)));
                push_step(&mut v, HookStep::WriteExecutable(wrapper.clone(), apt_wrapper_script(oil_bin)));
                push_step(
                    &mut v,
                    HookStep::RequireDir(
                        owned("/etc/apt/apt.conf.d"),
                        owned("/etc/apt/apt.conf.d missing (need Debian/Ubuntu + root)"),
                    ),
                );
                push_step(
                    &mut v,
                    HookStep::InstallRootFile(
                        owned("/etc/apt/apt.conf.d/99oil-dpkg-hooks"),
                        apt_conf(wrapper.as_str()),
                        owned(oil_dir),
                    ),
                );
                push_step(&mut v, HookStep::Print(owned("oil hooks apt: /etc/apt/apt.conf.d/99oil-dpkg-hooks")));
                assert(step_views(v@) =~= install_steps_spec(self, oil_bin@, oil_dir@));
                Ok(v)
            },
            Self::Apk => {
                let tmp = path_join(oil_dir, "oil-cellar.sh");
                let body = apk_wrapper_script(oil_bin);
                let mut v = step1(
                    HookStep::RequireDir(
                        owned("/etc/apk/commit_hooks.d"),
                        owned("/etc/apk/commit_hooks.d missing (apk 2.12+ commit hooks?)"),
                    ),
                );
                push_step(&mut v, HookStep::WriteExecutable(tmp.clone(), body.clone()));
                push_step(
                    &mut v,
                    HookStep::InstallRootExecutable(
                        owned("/etc/apk/commit_hooks.d/oil-cellar.sh"),
                        tmp,
                        body,
                        owned("apk hook install failed"),
                    ),
                );
                push_step(&mut v, HookStep::Print(owned("oil hooks apk: /etc/apk/commit_hooks.d/oil-cellar.sh")));
                assert(step_views(v@) =~= install_steps_spec(self, oil_bin@, oil_dir@));
                Ok(v)
            },
            Self::Dnf => {
                let mut v = step1(
                    HookStep::RequireDirOrRoot(
                        owned("/etc/dnf/plugins"),
                        owned("/etc/dnf/plugins missing — install dnf-plugins-core and retry as root"),
                    ),
                );
                push_step(
                    &mut v,
                    HookStep::InstallRootFile(
                        owned("/etc/dnf/plugins/oil_cellar.py"),
                        dnf_plugin_py(oil_bin),
                        owned(oil_dir),
                    ),
                );
                push_step(
                    &mut v,
                    HookStep::InstallRootFile(
                        owned("/etc/dnf/plugins/oil_cellar.conf"),
                        owned("[main]\nenabled = 1\n"),
                        owned(oil_dir),
                    ),
                );
                push_step(&mut v, HookStep::Print(owned("oil hooks dnf: /etc/dnf/plugins/oil_cellar.py")));
                assert(step_views(v@) =~= install_steps_spec(self, oil_bin@, oil_dir@));
                Ok(v)
            },
            Self::Pacman => {
                let wrapper = path_join(oil_dir, "oil-hook-pacman");
                let mut v = step1(HookStep::WriteExecutable(wrapper.clone(), pacman_wrapper_script(oil_bin)));
                push_step(
                    &mut v,
                    HookStep::InstallRootFile(
                        owned("/etc/pacman.d/hooks/oil-cellar.hook"),
                        pacman_hook(wrapper.as_str()),
                        owned(oil_dir),
                    ),
                );
                push_step(&mut v, HookStep::Print(owned("oil hooks pacman: /etc/pacman.d/hooks/oil-cellar.hook")));
                assert(step_views(v@) =~= install_steps_spec(self, oil_bin@, oil_dir@));
                Ok(v)
            },
            _ => {
                let v: Vec<HookStep> = Vec::new();
                assert(step_views(v@) =~= install_steps_spec(self, oil_bin@, oil_dir@));
                Ok(v)
            },
        }
    }

    /// The steps that remove this backend's hook.
    pub fn remove(self, oil_dir: &str) -> (r: Vec<HookStep>)
        ensures
            step_views(r@) == remove_steps_spec(self, oil_dir@),
    {
        match self {
            Self::Apt => {
                let mut v = step1(HookStep::RemoveRootFile(owned("/etc/apt/apt.conf.d/99oil-dpkg-hooks")));
                push_step(&mut v, HookStep::RemoveFileIfExists(path_join(oil_dir, "oil-hook-apt")));
                push_step(&mut v, HookStep::Print(owned("oil hooks apt: removed")));
                assert(step_views(v@) =~= remove_steps_spec(self, oil_dir@));
                v
            },
            Self::Apk => {
                let mut v = step1(HookStep::RemoveRootFile(owned("/etc/apk/commit_hooks.d/oil-cellar.sh")));
                push_step(&mut v, HookStep::Print(owned("oil hooks apk: removed")));
                assert(step_views(v@) =~= remove_steps_spec(self, oil_dir@));
                v
            },
            Self::Dnf => {
                let mut v = step1(HookStep::RemoveRootFile(owned("/etc/dnf/plugins/oil_cellar.py")));
                push_step(&mut v, HookStep::RemoveRootFile(owned("/etc/dnf/plugins/oil_cellar.conf")));
                push_step(&mut v, HookStep::Print(owned("oil hooks dnf: removed")));
                assert(step_views(v@) =~= remove_steps_spec(self, oil_dir@));
                v
            },
            Self::Pacman => {
                let mut v = step1(HookStep::RemoveRootFile(owned("/etc/pacman.d/hooks/oil-cellar.hook")));
                push_step(&mut v, HookStep::RemoveFileIfExists(path_join(oil_dir, "oil-hook-pacman")));
                push_step(&mut v, HookStep::Print(owned("oil hooks pacman: removed")));
                assert(step_views(v@) =~= remove_steps_spec(self, oil_dir@));
                v
            },
            Self::Xbps => step1(HookStep::Print(owned("xbps: no oil hook to remove"))),
            Self::Brew => step1(HookStep::Print(owned("brew: no oil hook to remove"))),
            Self::Nix => step1(HookStep::Print(owned("nix: no oil hook to remove"))),
        }
    }

    /// The files that must all exist for this backend's hook to count as installed.
    pub fn status_paths(self, oil_dir: &str) -> (r: Vec<String>)
        ensures
            r.deep_view() == status_paths_spec(self, oil_dir@),
    {
        let mut v: Vec<String> = Vec::new();
        match self {
            Self::Apt => {
                v.push(owned("/etc/apt/apt.conf.d/99oil-dpkg-hooks"));
                v.push(path_join(oil_dir, "oil-hook-apt"));
            },
            Self::Apk => {
                v.push(owned("/etc/apk/commit_hooks.d/oil-cellar.sh"));
            },
            Self::Dnf => {
                v.push(owned("/etc/dnf/plugins/oil_cellar.py"));
            },
            Self::Pacman => {
                v.push(owned("/etc/pacman.d/hooks/oil-cellar.hook"));
            },
            _ => {},
        }
        assert(v.deep_view() =~= status_paths_spec(self, oil_dir@));
        v
    }

    /// The status line for this backend, given whether all of its
    /// `status_paths` are files.
    pub fn status(self, installed: bool) -> (r: String)
        ensures
            r@ == status_line_spec(self, installed),
    {
        let s = match self {
            Self::Apt => if installed {
                "apt: installed (/etc/apt/apt.conf.d/99oil-dpkg-hooks)"
            } else {
                "apt: not installed"
            },
            Self::Apk => if installed {
                "apk: installed (/etc/apk/commit_hooks.d/oil-cellar.sh)"
            } else {
                "apk: not installed"
            },
            Self::Dnf => if installed {
                "dnf: installed (/etc/dnf/plugins/oil_cellar.py)"
            } else {
                "dnf: not installed"
            },
            Self::Pacman => if installed {
                "pacman: installed (/etc/pacman.d/hooks/oil-cellar.hook)"
            } else {
                "pacman: not installed"
            },
            Self::Xbps => "xbps: unsupported (Void has no package-manager pre-install hook)",
            Self::Brew => "brew: unsupported (Homebrew has no dpkg-style pre-install hook)",
            Self::Nix => "nix: unsupported",
        };
        owned(s)
    }
}

/// The backends `oil hooks status` reports on, in order.
pub open spec fn backends_spec() -> Seq<HookPm> {
    seq![
        HookPm::Apt,
        HookPm::Dnf,
        HookPm::Pacman,
        HookPm::Apk,
        HookPm::Xbps,
        HookPm::Brew,
        HookPm::Nix,
    ]
}

/// A hook counts as installed when each of its status files is present, and
/// it has at least one.
pub open spec fn all_present(present: Seq<bool>) -> bool {
    present.len() > 0 && forall|i: int| 0 <= i < present.len() ==> #[trigger] present[i]
}

fn all_true(present: &[bool]) -> (b: bool)
    ensures
        b == all_present(present@),
{
    if present.len() == 0 {
        return false;
    }
    let mut i: usize = 0;
    while i < present.len()
        invariant
            i <= present@.len(),
            forall|j: int| 0 <= j < i ==> #[trigger] present@[j],
        decreases present@.len() - i,
    {
        if !present[i] {
            return false;
        }
        i = i + 1;
    }
    true
}

/// The status line of `pm`, given which of its `status_paths` are present as
/// files (in the same order).
pub fn status_of(pm: HookPm, present: &[bool]) -> (r: String)
    ensures
        r@ == status_line_spec(pm, all_present(present@)),
{
    pm.status(all_true(present))
}

/// The status lines of every backend, in `status_all` order: `present[i]`
/// tells which of the `i`th backend's `status_paths` are present as files (a
/// backend with no answers counts as not installed).
pub fn status_report(present: &[Vec<bool>]) -> (r: Vec<String>)
    ensures
        r@.len() == backends_spec().len(),
        forall|i: int|
            0 <= i < r@.len() ==> #[trigger] r@[i]@ == status_line_spec(
                backends_spec()[i],
                i < present@.len() && all_present(present@[i]@),
            ),
{
    let all = status_all();
    let mut r: Vec<String> = Vec::new();
    let mut i: usize = 0;
    while i < all.len()
        invariant
            i <= all@.len(),
            all@ == backends_spec(),
            r@.len() == i,
            forall|j: int|
                0 <= j < i ==> #[trigger] r@[j]@ == status_line_spec(
                    backends_spec()[j],
                    j < present@.len() && all_present(present@[j]@),
                ),
        decreases all@.len() - i,
    {
        let installed = i < present.len() && all_true(present[i].as_slice());
        r.push(all[i].status(installed));
        i = i + 1;
    }
    r
}

/// The backends `oil hooks status` reports on, in order.
pub fn status_all() -> (r: Vec<HookPm>)
    ensures
        r@ == backends_spec(),
{
    let r = vec![
        HookPm::Apt,
        HookPm::Dnf,
        HookPm::Pacman,
        HookPm::Apk,
        HookPm::Xbps,
        HookPm::Brew,
        HookPm::Nix,
    ];
    assert(r@ =~= seq![
        HookPm::Apt,
        HookPm::Dnf,
        HookPm::Pacman,
        HookPm::Apk,
        HookPm::Xbps,
        HookPm::Brew,
        HookPm::Nix,
    ]);
    r
}

/// The hook backend for a detected host package manager, if oil has one.
pub open spec fn hook_for_spec(pm: SystemPm) -> Option<HookPm> {
    match pm {
        SystemPm::Apt => Some(HookPm::Apt),
        SystemPm::Apk => Some(HookPm::Apk),
        SystemPm::Dnf | SystemPm::Yum => Some(HookPm::Dnf),
        SystemPm::Pacman => Some(HookPm::Pacman),
        SystemPm::Xbps => Some(HookPm::Xbps),
        SystemPm::Brew => Some(HookPm::Brew),
        SystemPm::Nix => Some(HookPm::Nix),
        _ => None,
    }
}

/// Pick the hook backend for the detected host package manager (`None` when no
/// package manager was detected, or oil has no backend for it).
pub fn install_detected(detected: Option<SystemPm>) -> (r: Result<HookPm, OilError>)
    ensures
        match r {
            Ok(h) => detected matches Some(pm) && hook_for_spec(pm) == Some(h),
            Err(e) => match detected {
                None => e@ == ErrorView::Platform("no host package manager detected"@),
                Some(pm) => hook_for_spec(pm) is None && e@ == ErrorView::Platform(
                    "oil hooks install: no hook backend for "@ + crate::system_pm::name_spec(pm),
                ),
            },
        },
{
    let pm = match detected {
        None => {
            return Err(OilError::PlatformNotSupported(owned("no host package manager detected")));
        },
        Some(p) => p,
    };
    match pm {
        SystemPm::Apt => Ok(HookPm::Apt),
        SystemPm::Apk => Ok(HookPm::Apk),
        SystemPm::Dnf | SystemPm::Yum => Ok(HookPm::Dnf),
        SystemPm::Pacman => Ok(HookPm::Pacman),
        SystemPm::Xbps => Ok(HookPm::Xbps),
        SystemPm::Brew => Ok(HookPm::Brew),
        SystemPm::Nix => Ok(HookPm::Nix),
        _ => {
            let mut msg = owned("oil hooks install: no hook backend for ");
            push_str(&mut msg, pm.name());
            Err(OilError::PlatformNotSupported(msg))
        },
    }
}

// ---------------------------------------------------------------------------
// The pre-install guard
// ---------------------------------------------------------------------------
/// Is `name` (ignoring ASCII case) among the packages in oil's Cellar?
pub open spec fn cellar_has_spec(name: Seq<char>, installed: Seq<String>) -> bool {
    exists|k: int| 0 <= k < installed.len() && eq_ignore_case(#[trigger] installed[k]@, name)
}

/// Whether oil's Cellar (the names of its installed packages) holds `name`,
/// ignoring ASCII case.
pub fn cellar_has_package(name: &str, installed: &[String]) -> (r: bool)
    ensures
        r == cellar_has_spec(name@, installed@),
{
    let mut k: usize = 0;
    while k < installed.len()
        invariant
            k <= installed@.len(),
            forall|j: int| 0 <= j < k ==> !eq_ignore_case(#[trigger] installed@[j]@, name@),
        decreases installed@.len() - k,
    {
        if str_eq_ignore_ascii_case(installed[k].as_str(), name) {
            return true;
        }
        k = k + 1;
    }
    false
}

/// The requested packages oil's Cellar already holds, in request order.
pub fn blocked_packages(package_names: &[String], installed: &[String]) -> (r: Vec<String>)
    ensures
        r@ == package_names@.filter(|n: String| cellar_has_spec(n@, installed@)),
{
    let mut r: Vec<String> = Vec::new();
    let mut i: usize = 0;
    while i < package_names.len()
        invariant
            i <= package_names@.len(),
            r@ == package_names@.take(i as int).filter(|n: String| cellar_has_spec(n@, installed@)),
        decreases package_names@.len() - i,
    {
        proof {
            reveal(Seq::filter);
            assert(package_names@.take(i + 1).drop_last() == package_names@.take(i as int));
        }
        if cellar_has_package(package_names[i].as_str(), installed) {
            r.push(package_names[i].clone());
        }
        i = i + 1;
    }
    proof {
        assert(package_names@.take(package_names@.len() as int) == package_names@);
    }
    r
}

/// Refuse a host package-manager install when oil's Cellar already holds one
/// of the packages (the caller reports which, see `blocked_packages`).
pub fn pm_preinstall_check_packages(package_names: &[String], installed: &[String]) -> (r: Result<
    (),
    OilError,
>)
    ensures
        match r {
            Ok(()) => forall|i: int|
                0 <= i < package_names@.len() ==> !cellar_has_spec(#[trigger] package_names@[i]@, installed@),
            Err(e) => (exists|i: int|
                0 <= i < package_names@.len() && cellar_has_spec(#[trigger] package_names@[i]@, installed@))
                && e@ == ErrorView::Install("host install blocked for oil-managed package(s)"@),
        },
{
    let mut i: usize = 0;
    while i < package_names.len()
        invariant
            i <= package_names@.len(),
            forall|j: int| 0 <= j < i ==> !cellar_has_spec(#[trigger] package_names@[j]@, installed@),
        decreases package_names@.len() - i,
    {
        if cellar_has_package(package_names[i].as_str(), installed) {
            return Err(OilError::InstallError(owned("host install blocked for oil-managed package(s)")));
        }
        i = i + 1;
    }
    Ok(())
}

/// The root-owned file an install step writes, if any.
pub open spec fn root_file_written(s: StepView) -> Option<Seq<char>> {
    match s {
        StepView::InstallRootFile(p, _, _) => Some(p),
        StepView::InstallRootExecutable(p, _, _, _) => Some(p),
        _ => None,
    }
}

/// Removing a hook deletes every root-owned file installing it wrote.
pub proof fn law_hook_remove_undoes_install(h: HookPm, oil_bin: Seq<char>, oil_dir: Seq<char>, i: int)
    requires
        0 <= i < install_steps_spec(h, oil_bin, oil_dir).len(),
        root_file_written(install_steps_spec(h, oil_bin, oil_dir)[i]) is Some,
    ensures
        remove_steps_spec(h, oil_dir).contains(
            StepView::RemoveRootFile(root_file_written(install_steps_spec(h, oil_bin, oil_dir)[i])->0),
        ),
{
    let ins = install_steps_spec(h, oil_bin, oil_dir);
    let rem = remove_steps_spec(h, oil_dir);
    match h {
        HookPm::Apt => {
            assert(i == 3);
            assert(rem[0] == StepView::RemoveRootFile("/etc/apt/apt.conf.d/99oil-dpkg-hooks"@));
        },
        HookPm::Apk => {
            assert(i == 2);
            assert(rem[0] == StepView::RemoveRootFile("/etc/apk/commit_hooks.d/oil-cellar.sh"@));
        },
        HookPm::Dnf => {
            if i == 1 {
                assert(rem[0] == StepView::RemoveRootFile("/etc/dnf/plugins/oil_cellar.py"@));
            } else {
                assert(i == 2);
                assert(rem[1] == StepView::RemoveRootFile("/etc/dnf/plugins/oil_cellar.conf"@));
            }
        },
        HookPm::Pacman => {
            assert(i == 1);
            assert(rem[0] == StepView::RemoveRootFile("/etc/pacman.d/hooks/oil-cellar.hook"@));
        },
        _ => {},
    }
}

/// The file an install step writes, if any.
pub open spec fn file_written(s: StepView) -> Option<Seq<char>> {
    match s {
        StepView::WriteExecutable(p, _) => Some(p),
        _ => root_file_written(s),
    }
}

/// The files `status` looks for are files that installing the hook writes.
pub proof fn law_hook_status_checks_installed_files(h: HookPm, oil_bin: Seq<char>, oil_dir: Seq<char>, i: int)
    requires
        0 <= i < status_paths_spec(h, oil_dir).len(),
    ensures
        exists|k: int|
            0 <= k < install_steps_spec(h, oil_bin, oil_dir).len() && file_written(
                #[trigger] install_steps_spec(h, oil_bin, oil_dir)[k],
            ) == Some(status_paths_spec(h, oil_dir)[i]),
{
    let ins = install_steps_spec(h, oil_bin, oil_dir);
    match h {
        HookPm::Apt => {
            if i == 0 {
                assert(file_written(ins[3]) == Some(status_paths_spec(h, oil_dir)[i]));
            } else {
                assert(file_written(ins[1]) == Some(status_paths_spec(h, oil_dir)[i]));
            }
        },
        HookPm::Apk => {
            assert(file_written(ins[2]) == Some(status_paths_spec(h, oil_dir)[i]));
        },
        HookPm::Dnf => {
            assert(file_written(ins[1]) == Some(status_paths_spec(h, oil_dir)[i]));
        },
        HookPm::Pacman => {
            assert(file_written(ins[1]) == Some(status_paths_spec(h, oil_dir)[i]));
        },
        _ => {},
    }
}

} // verus!
