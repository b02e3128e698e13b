//! Installing a cask (a GUI application) on Linux: the Homebrew cask's own
//! Linux artifact when there is one, then snap, then flatpak, then the host
//! package manager.
use vstd::prelude::*;

use crate::error::{ErrorView, OilError};
use crate::system_pm::{cmd, install_head, strings, CommandLine, SystemPm};
use crate::text::{all_ascii, chars_of, owned, push_char, push_str, seq_ascii_lower, str_eq, to_lowercase, unicode_lowercase};

verus! {

// ---------------------------------------------------------------------------
// The downloaded artifact
// ---------------------------------------------------------------------------
/// `s` up to its first `?` (the URL without its query).
pub open spec fn before_query(s: Seq<char>) -> Seq<char>
    decreases s.len(),
{
    if s.len() == 0 || s[0] == '?' {
        seq![]
    } else {
        seq![s[0]] + before_query(s.drop_first())
    }
}

/// What follows the last `.` of `s` (all of `s` when it has none).
pub open spec fn after_last_dot(s: Seq<char>) -> Seq<char>
    decreases s.len(),
{
    if s.len() == 0 || s.last() == '.' {
        seq![]
    } else {
        after_last_dot(s.drop_last()).push(s.last())
    }
}

/// The artifact type a download URL names: the lowercased extension of its
/// path, the query left out.
pub open spec fn artifact_ext_spec(url: Seq<char>) -> Seq<char> {
    unicode_lowercase(after_last_dot(before_query(url)))
}

/// The extension of the file a URL downloads (see `artifact_ext_spec`); an
/// ASCII extension comes back with its letters lowered.
pub fn artifact_extension(url: &str) -> (r: String)
    ensures
        r@ == artifact_ext_spec(url@),
        all_ascii(after_last_dot(before_query(url@))) ==> r@ == seq_ascii_lower(
            after_last_dot(before_query(url@)),
        ),
{
    let v = chars_of(url);
    let mut q: usize = 0;
    assert(v@.skip(0) =~= v@);
    assert(v@.take(0) + before_query(v@) =~= before_query(v@));
    while q < v.len() && v[q] != '?'
        invariant
            q <= v@.len(),
            v@ == url@,
            before_query(url@) == v@.take(q as int) + before_query(v@.skip(q as int)),
        decreases v@.len() - q,
    {
        proof {
            let t = v@.skip(q as int);
            assert(t.drop_first() == v@.skip(q + 1));
            assert(v@.take(q + 1) == v@.take(q as int).push(v@[q as int]));
            assert(before_query(t) == seq![t[0]] + before_query(t.drop_first()));
        }
        q = q + 1;
    }
    proof {
        assert(v@.take(0) + before_query(v@.skip(0)) =~= before_query(url@)) by {
            assert(v@.skip(0) == v@);
        }
        assert(before_query(v@.skip(q as int)) == Seq::<char>::empty());
        assert(before_query(url@) =~= v@.take(q as int));
    }
    let mut d = q;
    while d > 0 && v[d - 1] != '.'
        invariant
            d <= q <= v@.len(),
            v@ == url@,
            after_last_dot(v@.take(q as int)) == after_last_dot(v@.take(d as int)) + v@.subrange(
                d as int,
                q as int,
            ),
        decreases d,
    {
        proof {
            let t = v@.take(d as int);
            assert(t.drop_last() == v@.take(d - 1));
            assert(v@.subrange(d - 1, q as int) == seq![t.last()] + v@.subrange(d as int, q as int));
            assert(after_last_dot(t) == after_last_dot(t.drop_last()).push(t.last()));
        }
        d = d - 1;
    }
    proof {
        assert(after_last_dot(v@.take(q as int)) =~= v@.subrange(d as int, q as int));
    }
    let ext = crate::text::string_range(v.as_slice(), d, q);
    to_lowercase(ext.as_str())
}

/// What SHA-256 makes of `data`.
pub uninterp spec fn sha256_of(data: Seq<u8>) -> Seq<u8>;

/// `sha2::Sha256::digest` over `data`: the 32-byte digest.
#[verifier::external_body]
fn sha256_digest(data: &[u8]) -> (r: Vec<u8>)
    ensures
        r@ == sha256_of(data@),
        r@.len() == 32,
{
    <sha2::Sha256 as sha2::Digest>::digest(data).to_vec()
}

/// The lowercase hex digit for `n < 16`.
pub open spec fn hex_digit(n: u8) -> char {
    if n < 10 {
        ('0' as u8 + n) as char
    } else {
        ('a' as u8 + (n - 10)) as char
    }
}

/// Bytes as lowercase hex, two digits each (`{:x}` on a digest).
pub open spec fn hex_lower(b: Seq<u8>) -> Seq<char>
    decreases b.len(),
{
    if b.len() == 0 {
        seq![]
    } else {
        hex_lower(b.drop_last()) + seq![hex_digit(b.last() / 16), hex_digit(b.last() % 16)]
    }
}

fn hex_char(n: u8) -> (c: char)
    requires
        n < 16,
    ensures
        c == hex_digit(n),
{
    let digits = ['0', '1', '2', '3', '4', '5', '6', '7', '8', '9', 'a', 'b', 'c', 'd', 'e', 'f'];
    let c = digits[n as usize];
    assert(c == hex_digit(n)) by {
        assert(digits@ =~= seq!['0', '1', '2', '3', '4', '5', '6', '7', '8', '9', 'a', 'b', 'c', 'd', 'e', 'f']);
        assert(('0' as u8) == 48);
        assert(('a' as u8) == 97);
    }
    c
}

/// `bytes` as lowercase hex.
pub fn hex_string(bytes: &[u8]) -> (r: String)
    ensures
        r@ == hex_lower(bytes@),
{
    let mut r = String::new();
    let mut i: usize = 0;
    while i < bytes.len()
        invariant
            i <= bytes@.len(),
            r@ == hex_lower(bytes@.take(i as int)),
        decreases bytes@.len() - i,
    {
        let b = bytes[i];
        push_char(&mut r, hex_char(b / 16));
        push_char(&mut r, hex_char(b % 16));
        proof {
            let t = bytes@.take(i + 1);
            assert(t.drop_last() == bytes@.take(i as int));
            assert(t.last() == b);
        }
        i = i + 1;
    }
    assert(bytes@.take(bytes@.len() as int) == bytes@);
    r
}

/// The SHA-256 of `data` in lowercase hex.
pub fn sha256_hex(data: &[u8]) -> (r: String)
    ensures
        r@ == hex_lower(sha256_of(data@)),
{
    let d = sha256_digest(data);
    hex_string(d.as_slice())
}

/// Check a downloaded artifact against the cask's `sha256`, when it gives one.
pub fn check_artifact_checksum(name: &str, data: &[u8], expected: Option<&str>) -> (r: Result<
    (),
    OilError,
>)
    ensures
        match expected {
            None => r is Ok,
            Some(e) => if hex_lower(sha256_of(data@)) == e@ {
                r is Ok
            } else {
                r matches Err(err) && err@ == ErrorView::Install(
                    name@ + " checksum mismatch: expected "@ + e@ + ", got "@ + hex_lower(
                        sha256_of(data@),
                    ),
                )
            },
        },
{
    match expected {
        None => Ok(()),
        Some(e) => {
            let computed = sha256_hex(data);
            if str_eq(computed.as_str(), e) {
                Ok(())
            } else {
                let mut msg = owned(name);
                push_str(&mut msg, " checksum mismatch: expected ");
                push_str(&mut msg, e);
                push_str(&mut msg, ", got ");
                push_str(&mut msg, computed.as_str());
                Err(OilError::InstallError(msg))
            }
        },
    }
}

/// How a downloaded artifact is installed.
#[derive(Clone, Debug, PartialEq, Eq)]
pub enum ArtifactInstall {
    /// Run this command (it names the downloaded file).
    Run(CommandLine),
    /// Create the directory `dir` (ignoring failure), copy the downloaded file
    /// to `dest`, then run `chmod`.
    AppImage { dir: String, dest: String, chmod: CommandLine },
}

/// The directory AppImages are copied to, under the home directory (`/tmp`
/// when `HOME` is not set).
pub open spec fn appimage_dir(home: Option<Seq<char>>) -> Seq<char> {
    match home {
        Some(h) => h + "/.local/bin"@,
        None => "/tmp"@ + "/.local/bin"@,
    }
}

/// Where the AppImage of `name` goes.
pub open spec fn appimage_dest(home: Option<Seq<char>>, name: Seq<char>) -> Seq<char> {
    appimage_dir(home) + "/"@ + name + ".AppImage"@
}

/// Install a downloaded artifact of type `ext` (see `artifact_extension`),
/// saved at `file`, for the cask `name`; `home` is `$HOME` if set.
pub fn artifact_install(ext: &str, name: &str, file: &str, home: Option<&str>) -> (r: Result<
    ArtifactInstall,
    OilError,
>)
    ensures
        ext@ == "deb"@ ==> (r matches Ok(ArtifactInstall::Run(c)) && c@ == (
            "sudo"@,
            seq!["dpkg"@, "-i"@, file@],
        )),
        ext@ == "rpm"@ ==> (r matches Ok(ArtifactInstall::Run(c)) && c@ == (
            "sudo"@,
            seq!["rpm"@, "-i"@, "--force"@, file@],
        )),
        ext@ == "appimage"@ ==> (r matches Ok(ArtifactInstall::AppImage { dir, dest, chmod })
            && dir@ == appimage_dir(home.deep_view()) && dest@ == appimage_dest(
            home.deep_view(),
            name@,
        ) && chmod@ == ("chmod"@, seq!["+x"@, dest@])),
        ext@ != "deb"@ && ext@ != "rpm"@ && ext@ != "appimage"@ ==> (r matches Err(e) && e@
            == ErrorView::Install(
            "Unsupported artifact extension '."@ + ext@ + "' from Homebrew cask .rb"@,
        )),
{
    proof {
        reveal_strlit("deb");
        reveal_strlit("rpm");
        reveal_strlit("appimage");
        assert("appimage"@.len() == 8);
        assert("rpm"@.len() == 3 && "rpm"@[0] == 'r');
        assert("deb"@.len() == 3 && "deb"@[0] == 'd');
    }
    let file_arg = [file.to_owned()];
    if str_eq(ext, "deb") {
        let c = cmd("sudo", &["dpkg", "-i"], &file_arg);
        assert(c@.1 =~= seq!["dpkg"@, "-i"@, file@]);
        Ok(ArtifactInstall::Run(c))
    } else if str_eq(ext, "rpm") {
        let c = cmd("sudo", &["rpm", "-i", "--force"], &file_arg);
        assert(c@.1 =~= seq!["rpm"@, "-i"@, "--force"@, file@]);
        Ok(ArtifactInstall::Run(c))
    } else if str_eq(ext, "appimage") {
        let mut dir = match home {
            Some(h) => owned(h),
            None => owned("/tmp"),
        };
        push_str(&mut dir, "/.local/bin");
        let mut dest = dir.clone();
        push_str(&mut dest, "/");
        push_str(&mut dest, name);
        push_str(&mut dest, ".AppImage");
        let dest_arg = [dest.clone()];
        let chmod = cmd("chmod", &["+x"], &dest_arg);
        assert(chmod@.1 =~= seq!["+x"@, dest@]);
        Ok(ArtifactInstall::AppImage { dir, dest, chmod })
    } else {
        let mut msg = owned("Unsupported artifact extension '.");
        push_str(&mut msg, ext);
        push_str(&mut msg, "' from Homebrew cask .rb");
        Err(OilError::InstallError(msg))
    }
}

// ---------------------------------------------------------------------------
// The order of attempts
// ---------------------------------------------------------------------------
/// Where a cask install stands.
#[derive(Clone, Copy, Debug, PartialEq, Eq, Structural)]
pub enum CaskStage {
    /// Nothing tried yet.
    Start,
    /// Trying the Homebrew cask's Linux artifact.
    Artifact,
    /// Asking whether `snap` is on PATH.
    SnapProbe,
    /// Trying `snap install`.
    Snap,
    /// Trying `snap install --classic`.
    SnapClassic,
    /// Asking whether `flatpak` is on PATH.
    FlatpakProbe,
    /// Adding the Flathub remote.
    FlatpakRemote,
    /// Trying `flatpak install`.
    FlatpakInstall,
    /// Handed to the host package manager; its result is the answer.
    Native,
    /// Installed.
    Done,
}

/// What to do next.
#[derive(Clone, Debug, PartialEq, Eq)]
pub enum CaskAction {
    /// Fetch the cask's `.rb`, and if it names a Linux artifact, download and
    /// install it; report whether that succeeded.
    TryArtifact,
    /// Report whether the program is on PATH.
    Probe(String),
    /// Run the command quietly; report whether it exited successfully.
    Run(CommandLine),
    /// Run the command and ignore how it went.
    RunIgnoringFailure(CommandLine),
    /// Install through the host package manager: run this command (none when
    /// there is nothing to install); its outcome is the cask install's.
    Native(Option<CommandLine>),
    /// The cask is installed.
    Finished,
}

/// The rank of a stage: every step moves to a higher one.
pub open spec fn stage_rank(s: CaskStage) -> nat {
    match s {
        CaskStage::Start => 0,
        CaskStage::Artifact => 1,
        CaskStage::SnapProbe => 2,
        CaskStage::Snap => 3,
        CaskStage::SnapClassic => 4,
        CaskStage::FlatpakProbe => 5,
        CaskStage::FlatpakRemote => 6,
        CaskStage::FlatpakInstall => 7,
        CaskStage::Native => 8,
        CaskStage::Done => 9,
    }
}

/// The view of an action: which kind it is and the command it carries.
pub enum CaskActionView {
    TryArtifact,
    Probe(Seq<char>),
    Run((Seq<char>, Seq<Seq<char>>)),
    RunIgnoringFailure((Seq<char>, Seq<Seq<char>>)),
    Native(Option<(Seq<char>, Seq<Seq<char>>)>),
    Finished,
}

impl View for CaskAction {
    type V = CaskActionView;

    open spec fn view(&self) -> CaskActionView {
        match self {
            CaskAction::TryArtifact => CaskActionView::TryArtifact,
            CaskAction::Probe(p) => CaskActionView::Probe(p@),
            CaskAction::Run(c) => CaskActionView::Run(c@),
            CaskAction::RunIgnoringFailure(c) => CaskActionView::RunIgnoringFailure(c@),
            CaskAction::Native(c) => CaskActionView::Native(
                match c {
                    Some(c) => Some(c@),
                    None => None,
                },
            ),
            CaskAction::Finished => CaskActionView::Finished,
        }
    }
}

/// The host package manager's install of the cask alone.
pub open spec fn native_spec(pm: SystemPm, cask: Seq<char>) -> CaskActionView {
    CaskActionView::Native(Some((install_head(pm).0, install_head(pm).1 + seq![cask])))
}

/// The next stage and action after `stage`, where `ok` is what the last
/// action reported (ignored at `Start` and after `RunIgnoringFailure`).
pub open spec fn cask_step_spec(pm: SystemPm, cask: Seq<char>, stage: CaskStage, ok: bool) -> (
    CaskStage,
    CaskActionView,
) {
    match stage {
        CaskStage::Start => (CaskStage::Artifact, CaskActionView::TryArtifact),
        CaskStage::Artifact => if ok {
            (CaskStage::Done, CaskActionView::Finished)
        } else {
            (CaskStage::SnapProbe, CaskActionView::Probe("snap"@))
        },
        CaskStage::SnapProbe => if ok {
            (CaskStage::Snap, CaskActionView::Run(("snap"@, seq!["install"@, cask])))
        } else {
            (CaskStage::FlatpakProbe, CaskActionView::Probe("flatpak"@))
        },
        CaskStage::Snap => if ok {
            (CaskStage::Done, CaskActionView::Finished)
        } else {
            (
                CaskStage::SnapClassic,
                CaskActionView::Run(("snap"@, seq!["install"@, "--classic"@, cask])),
            )
        },
        CaskStage::SnapClassic => if ok {
            (CaskStage::Done, CaskActionView::Finished)
        } else {
            (CaskStage::FlatpakProbe, CaskActionView::Probe("flatpak"@))
        },
        CaskStage::FlatpakProbe => if ok {
            (
                CaskStage::FlatpakRemote,
                CaskActionView::RunIgnoringFailure(
                    (
                        "flatpak"@,
                        seq![
                            "remote-add"@,
                            "--if-not-exists"@,
                            "flathub"@,
                            "https://dl.flathub.org/repo/flathub.flatpakrepo"@,
                        ],
                    ),
                ),
            )
        } else {
            (CaskStage::Native, native_spec(pm, cask))
        },
        CaskStage::FlatpakRemote => (
            CaskStage::FlatpakInstall,
            CaskActionView::Run(("flatpak"@, seq!["install"@, "-y"@, "flathub"@, cask])),
        ),
        CaskStage::FlatpakInstall => if ok {
            (CaskStage::Done, CaskActionView::Finished)
        } else {
            (CaskStage::Native, native_spec(pm, cask))
        },
        CaskStage::Native => (CaskStage::Native, CaskActionView::Finished),
        CaskStage::Done => (CaskStage::Done, CaskActionView::Finished),
    }
}

fn command(program: &str, args: Vec<String>) -> (c: CommandLine)
    ensures
        c@ == (program@, args.deep_view()),
{
    CommandLine { program: owned(program), args }
}

impl SystemPm {
    /// One step of installing the cask `cask_name` (see `cask_step_spec`):
    /// from `stage`, with `ok` what the last action reported, the next stage
    /// and what to do there. Starting from `CaskStage::Start`, a run ends at
    /// `Done` (installed) or with the `Native` action, whose outcome is the
    /// install's.
    pub fn install_cask_step(&self, cask_name: &str, stage: CaskStage, ok: bool) -> (r: (
        CaskStage,
        CaskAction,
    ))
        ensures
            (r.0, r.1@) == cask_step_spec(*self, cask_name@, stage, ok),
    {
        match stage {
            CaskStage::Start => (CaskStage::Artifact, CaskAction::TryArtifact),
            CaskStage::Artifact => if ok {
                (CaskStage::Done, CaskAction::Finished)
            } else {
                (CaskStage::SnapProbe, CaskAction::Probe(owned("snap")))
            },
            CaskStage::SnapProbe => if ok {
                let args = vec![owned("install"), owned(cask_name)];
                assert(args.deep_view() =~= seq!["install"@, cask_name@]);
                (CaskStage::Snap, CaskAction::Run(command("snap", args)))
            } else {
                (CaskStage::FlatpakProbe, CaskAction::Probe(owned("flatpak")))
            },
            CaskStage::Snap => if ok {
                (CaskStage::Done, CaskAction::Finished)
            } else {
                let args = vec![owned("install"), owned("--classic"), owned(cask_name)];
                assert(args.deep_view() =~= seq!["install"@, "--classic"@, cask_name@]);
                (CaskStage::SnapClassic, CaskAction::Run(command("snap", args)))
            },
            CaskStage::SnapClassic => if ok {
                (CaskStage::Done, CaskAction::Finished)
            } else {
                (CaskStage::FlatpakProbe, CaskAction::Probe(owned("flatpak")))
            },
            CaskStage::FlatpakProbe => if ok {
                let args = vec![
                    owned("remote-add"),
                    owned("--if-not-exists"),
                    owned("flathub"),
                    owned("https://dl.flathub.org/repo/flathub.flatpakrepo"),
                ];
                assert(args.deep_view() =~= seq![
                    "remote-add"@,
                    "--if-not-exists"@,
                    "flathub"@,
                    "https://dl.flathub.org/repo/flathub.flatpakrepo"@,
                ]);
                (CaskStage::FlatpakRemote, CaskAction::RunIgnoringFailure(command("flatpak", args)))
            } else {
                (CaskStage::Native, self.native_cask(cask_name))
            },
            CaskStage::FlatpakRemote => {
                let args = vec![owned("install"), owned("-y"), owned("flathub"), owned(cask_name)];
                assert(args.deep_view() =~= seq!["install"@, "-y"@, "flathub"@, cask_name@]);
                (CaskStage::FlatpakInstall, CaskAction::Run(command("flatpak", args)))
            },
            CaskStage::FlatpakInstall => if ok {
                (CaskStage::Done, CaskAction::Finished)
            } else {
                (CaskStage::Native, self.native_cask(cask_name))
            },
            CaskStage::Native => (CaskStage::Native, CaskAction::Finished),
            CaskStage::Done => (CaskStage::Done, CaskAction::Finished),
        }
    }

    fn native_cask(&self, cask_name: &str) -> (a: CaskAction)
        ensures
            a@ == native_spec(*self, cask_name@),
    {
        let pkgs = [cask_name.to_owned()];
        let c = self.install_command(&pkgs);
        assert(strings(pkgs@) =~= seq![cask_name@]);
        CaskAction::Native(c)
    }
}

/// Every step of a cask install that has not ended moves to a later stage,
/// so a run from `Start` takes at most nine steps.
pub proof fn law_cask_steps_advance(pm: SystemPm, cask: Seq<char>, stage: CaskStage, ok: bool)
    requires
        stage != CaskStage::Native,
        stage != CaskStage::Done,
    ensures
        stage_rank(cask_step_spec(pm, cask, stage, ok).0) > stage_rank(stage),
{
}

/// The stages whose step reports how an install attempt went: the Homebrew
/// artifact, `snap install`, `snap install --classic` and `flatpak install`.
pub open spec fn install_attempt(stage: CaskStage) -> bool {
    stage == CaskStage::Artifact || stage == CaskStage::Snap || stage == CaskStage::SnapClassic
        || stage == CaskStage::FlatpakInstall
}

/// A successful install attempt ends the cask install at once: nothing is
/// tried or installed after it. A failed one never ends it as installed:
/// the next way of installing is tried.
pub proof fn law_cask_success_stops(pm: SystemPm, cask: Seq<char>, stage: CaskStage)
    requires
        install_attempt(stage),
    ensures
        cask_step_spec(pm, cask, stage, true) == (CaskStage::Done, CaskActionView::Finished),
        cask_step_spec(pm, cask, stage, false).0 != CaskStage::Done,
        cask_step_spec(pm, cask, stage, false).1 != CaskActionView::Finished,
{
}

/// A cask install ends with `Finished` exactly at `Done`, or with the host
/// package manager's install, which installs the cask and nothing else.
pub proof fn law_cask_ends_native_or_done(pm: SystemPm, cask: Seq<char>, stage: CaskStage, ok: bool)
    ensures
        cask_step_spec(pm, cask, stage, ok).0 == CaskStage::Native && stage != CaskStage::Native
            ==> cask_step_spec(pm, cask, stage, ok).1 == native_spec(pm, cask),
        cask_step_spec(pm, cask, stage, ok).1 == CaskActionView::Finished && stage != CaskStage::Native
            ==> cask_step_spec(pm, cask, stage, ok).0 == CaskStage::Done,
{
}

} // verus!
