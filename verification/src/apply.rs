//! The apply phase: upload the cached artifacts, verify their checksums on
//! the target, and only then install them, in manifest order.
//!
//! The phase is a state machine.  `next` says what to do now — upload a
//! file, run a checksum, run an install — and the `on_*` methods feed the
//! outcome back and advance the machine.  The driver outside this crate
//! performs the remote work; every decision, every command line, and the
//! order of the steps are fixed here and verified:
//!
//! * install commands are issued exactly in `install_order` — the ghost log
//!   `issued_installs` always equals the commands for the installed prefix;
//! * a single checksum mismatch aborts the phase before any install — a
//!   machine that has recorded a mismatch has issued no install command and
//!   never enters the installing phase.

use vstd::prelude::*;
use vstd::string::*;
use crate::errors::ApplyError;
use crate::strutil::{concat2, concat3, first_token, first_token_str, has_token, str_eq};
use crate::uri::{ChecksumKind, EntryView, ManifestView, RemoteMode, UriFile};

verus! {

/// Arguments of the install command: the image name and the remote target.
pub struct InstallArgs {
    /// Cache image name.
    pub name: String,
    /// Remote target, `user@host`.
    pub target: String,
}

// ---------------------------------------------------------------------------
// Command lines
// ---------------------------------------------------------------------------

/// A path under a directory.
pub open spec fn path_in(dir: Seq<char>, name: Seq<char>) -> Seq<char> {
    dir + "/"@ + name
}

/// Join a directory and a file name.
pub fn join_path(dir: &str, name: &str) -> (r: String)
    ensures
        r@ == path_in(dir@, name@),
{
    concat3(dir, "/", name)
}

/// The temporary working directory on the target for one image.
pub fn remote_dir_for(name: &str) -> (r: String)
    ensures
        r@ == "/tmp/apt-remote/"@ + name@,
{
    concat2("/tmp/apt-remote/", name)
}

/// The command that creates a remote directory, idempotently.
pub fn mkdir_command(dir: &str) -> (r: String)
    ensures
        r@ == "mkdir -p "@ + dir@,
{
    concat2("mkdir -p ", dir)
}

/// The checksum tool a checksum kind names.
pub open spec fn tool_word(k: ChecksumKind) -> Seq<char> {
    match k {
        ChecksumKind::SHA256 => "sha256sum"@,
        ChecksumKind::MD5 => "md5sum"@,
    }
}

/// The remote checksum invocation for one uploaded file.
pub open spec fn check_cmd_of(k: ChecksumKind, path: Seq<char>) -> Seq<char> {
    tool_word(k) + " "@ + path
}

fn tool_str(k: &ChecksumKind) -> (r: String)
    ensures
        r@ == tool_word(*k),
{
    match k {
        ChecksumKind::SHA256 => String::from_str("sha256sum"),
        ChecksumKind::MD5 => String::from_str("md5sum"),
    }
}

/// Build the remote checksum command for one uploaded file.
pub fn checksum_command(k: &ChecksumKind, path: &str) -> (r: String)
    ensures
        r@ == check_cmd_of(*k, path@),
{
    let tool = tool_str(k);
    concat3(tool.as_str(), " ", path)
}

/// The install command for one uploaded package file.
pub open spec fn install_cmd_of(path: Seq<char>) -> Seq<char> {
    "dpkg -i "@ + path
}

/// Build the install command for one uploaded package file.
pub fn dpkg_install_command(path: &str) -> (r: String)
    ensures
        r@ == install_cmd_of(path@),
{
    concat2("dpkg -i ", path)
}

/// The final reconfiguration command.
pub fn configure_command() -> (r: String)
    ensures
        r@ == "dpkg --configure -a"@,
{
    String::from_str("dpkg --configure -a")
}

/// The command that moves the uploaded artifacts into the system package
/// cache.
pub fn archive_move_command(dir: &str) -> (r: String)
    ensures
        r@ == "mv "@ + dir@ + "/* /var/cache/apt/archives"@,
{
    concat3("mv ", dir, "/* /var/cache/apt/archives")
}

/// The command that removes the temporary remote directory.
pub fn cleanup_command(dir: &str) -> (r: String)
    ensures
        r@ == "rm -rf "@ + dir@,
{
    concat2("rm -rf ", dir)
}

/// Whether a checksum tool's output confirms the expected value: its first
/// whitespace-separated word equals the expected hex string.
pub open spec fn output_confirms(output: Seq<char>, expected: Seq<char>) -> bool {
    has_token(output) && first_token(output) == expected
}

/// Compare a remote checksum tool's output against the recorded value.
pub fn checksum_matches(output: &str, expected: &str) -> (r: bool)
    ensures
        r == output_confirms(output@, expected@),
{
    match first_token_str(output) {
        Some(t) => str_eq(t.as_str(), expected),
        None => false,
    }
}

// ---------------------------------------------------------------------------
// The apply state machine
// ---------------------------------------------------------------------------

/// Where an apply run stands.  `Aborted` is reachable only from `Verifying`;
/// every other failure either continues (best effort) or ends in `Failed`.
#[derive(Debug, Clone, Copy, PartialEq, Eq, Structural)]
pub enum ApplyPhase {
    /// Uploading the cached artifacts, one per step, best effort.
    Uploading,
    /// Running remote checksums for every package that records one.
    Verifying,
    /// Installing, one package of `install_order` per step, best effort.
    Installing,
    /// Running the final reconfiguration.
    Configuring,
    /// Moving the artifacts into the system package cache.
    Archiving,
    /// Removing the temporary remote directory.
    Cleaning,
    /// Finished successfully.
    Done,
    /// A checksum mismatch was found; installation never started.
    Aborted,
    /// A remote step that must succeed did not.
    Failed,
}

/// What the driver must do next.
pub enum ApplyAction {
    /// Upload one cached file to the remote working directory.
    Upload { local: String, remote: String },
    /// Run a remote checksum and feed back its output.
    RunCheck { filename: String, command: String, expected: String },
    /// Run one privileged install command.
    RunInstall { command: String },
    /// Run the privileged reconfiguration command.
    RunConfigure { command: String },
    /// Run the privileged archive-move command.
    RunArchiveMove { command: String },
    /// Run the cleanup command.
    RunCleanup { command: String },
    /// Nothing is left to do; `ok` says whether the run succeeded.
    Report { ok: bool },
}

/// Index of the first package at or after `i` that records a checksum, or
/// the number of packages.
pub open spec fn next_checked(ps: Seq<(Seq<char>, EntryView)>, i: int) -> int
    decreases ps.len() - i,
{
    if i < 0 || i >= ps.len() {
        ps.len() as int
    } else if ps[i].1.checksum is Some {
        i
    } else {
        next_checked(ps, i + 1)
    }
}

/// The phase an apply run enters once verification is complete.
pub open spec fn phase_after_verify(mismatches: int, order_len: int) -> ApplyPhase {
    if mismatches > 0 {
        ApplyPhase::Aborted
    } else if order_len > 0 {
        ApplyPhase::Installing
    } else {
        ApplyPhase::Configuring
    }
}

/// The phase an apply run enters once every upload was attempted.
pub open spec fn phase_after_uploads(v: ManifestView) -> ApplyPhase {
    if next_checked(v.packages, 0) < v.packages.len() {
        ApplyPhase::Verifying
    } else {
        phase_after_verify(0, v.install_order.len() as int)
    }
}

proof fn lemma_next_checked(ps: Seq<(Seq<char>, EntryView)>, i: int)
    requires
        0 <= i <= ps.len(),
    ensures
        i <= next_checked(ps, i) <= ps.len(),
        next_checked(ps, i) < ps.len() ==> ps[next_checked(ps, i)].1.checksum is Some,
    decreases ps.len() - i,
{
    if i < ps.len() && !(ps[i].1.checksum is Some) {
        lemma_next_checked(ps, i + 1);
    }
}

proof fn lemma_next_checked_is(ps: Seq<(Seq<char>, EntryView)>, i: int, k: int)
    requires
        0 <= i <= k <= ps.len(),
        forall|j: int| i <= j < k ==> (#[trigger] ps[j]).1.checksum is None,
        k < ps.len() ==> ps[k].1.checksum is Some,
    ensures
        next_checked(ps, i) == k,
    decreases k - i,
{
    if i < k {
        lemma_next_checked_is(ps, i + 1, k);
    }
}

/// The apply state machine for one image.
pub struct ApplyMachine {
    /// The manifest driving the run; read, never persisted back.
    pub manifest: UriFile,
    /// The local directory the cached artifacts live in.
    pub local_dir: String,
    /// The remote working directory the artifacts are uploaded to.
    pub remote_dir: String,
    /// How many uploads have been attempted.
    pub upload_idx: usize,
    /// The package the next checksum run is for.
    pub verify_idx: usize,
    /// How many install commands have been issued.
    pub install_idx: usize,
    /// The files whose remote checksum did not match.
    pub mismatches: Vec<String>,
    /// Where the run stands.
    pub phase: ApplyPhase,
    /// Every install command issued so far, in order.
    pub issued_installs: Ghost<Seq<Seq<char>>>,
}

impl ApplyMachine {
    /// The machine's invariant: indexes in range, phases entered only with
    /// work left to do, no mismatch recorded once installation has begun —
    /// and the issued install commands are exactly those of the already
    /// installed prefix of `install_order`, in order.
    pub open spec fn inv(self) -> bool {
        let v = self.manifest@;
        &&& !(v.mode is Update)
        &&& self.upload_idx <= v.packages.len()
        &&& self.verify_idx <= v.packages.len()
        &&& self.install_idx <= v.install_order.len()
        &&& (self.phase is Uploading ==> self.upload_idx < v.packages.len() && self.verify_idx
            == next_checked(v.packages, 0))
        &&& (self.phase is Verifying ==> self.verify_idx < v.packages.len()
            && v.packages[self.verify_idx as int].1.checksum is Some)
        &&& (self.phase is Installing ==> self.install_idx < v.install_order.len())
        &&& ((self.phase is Installing || self.phase is Configuring || self.phase is Archiving
            || self.phase is Cleaning || self.phase is Done) ==> self.mismatches@.len() == 0)
        &&& (self.phase is Aborted ==> self.mismatches@.len() > 0)
        &&& (self.phase is Uploading ==> self.mismatches@.len() == 0)
        &&& ((self.phase is Uploading || self.phase is Verifying || self.phase is Aborted)
            ==> self.install_idx == 0)
        &&& (self.mismatches@.len() > 0 ==> self.install_idx == 0)
        &&& self.issued_installs@ == Seq::new(
            self.install_idx as nat,
            |k: int| install_cmd_of(path_in(self.remote_dir@, v.install_order[k])),
        )
    }

    /// Start an apply run.  A manifest resolved for an index update is
    /// refused: that is the update phase's work.
    pub fn new(manifest: UriFile, local_dir: String, remote_dir: String) -> (r: Result<
        ApplyMachine,
        ApplyError,
    >)
        ensures
            r is Ok <==> !(manifest@.mode is Update),
            manifest@.mode is Update ==> r == Err::<ApplyMachine, ApplyError>(
                ApplyError::UpdateMode,
            ),
            r matches Ok(m) ==> {
                &&& m.inv()
                &&& m.manifest == manifest
                &&& m.local_dir == local_dir
                &&& m.remote_dir == remote_dir
                &&& m.upload_idx == 0
                &&& m.verify_idx == next_checked(manifest@.packages, 0)
                &&& m.install_idx == 0
                &&& m.mismatches@.len() == 0
                &&& m.phase == (if manifest@.packages.len() > 0 {
                    ApplyPhase::Uploading
                } else {
                    phase_after_uploads(manifest@)
                })
                &&& m.issued_installs@ == Seq::<Seq<char>>::empty()
            },
    {
        if matches!(manifest.mode, RemoteMode::Update) {
            return Err(ApplyError::UpdateMode);
        }
        let verify_idx = Self::first_checked(&manifest, 0);
        let phase = if manifest.packages.len() > 0 {
            ApplyPhase::Uploading
        } else if verify_idx < manifest.packages.len() {
            ApplyPhase::Verifying
        } else if manifest.install_order.len() > 0 {
            ApplyPhase::Installing
        } else {
            ApplyPhase::Configuring
        };
        let m = ApplyMachine {
            manifest,
            local_dir,
            remote_dir,
            upload_idx: 0,
            verify_idx,
            install_idx: 0,
            mismatches: Vec::new(),
            phase,
            issued_installs: Ghost(Seq::empty()),
        };
        proof {
            lemma_next_checked(m.manifest@.packages, 0);
            assert(m.issued_installs@ =~= Seq::new(
                0,
                |k: int| install_cmd_of(path_in(m.remote_dir@, m.manifest@.install_order[k])),
            ));
        }
        Ok(m)
    }

    /// First package at or after `from` that records a checksum.
    fn first_checked(manifest: &UriFile, from: usize) -> (r: usize)
        requires
            from <= manifest@.packages.len(),
        ensures
            r == next_checked(manifest@.packages, from as int),
    {
        let ghost ps = manifest@.packages;
        let mut i: usize = from;
        while i < manifest.packages.len()
            invariant
                from <= i <= manifest.packages.len(),
                ps == manifest@.packages,
                forall|j: int| from <= j < i ==> (#[trigger] ps[j]).1.checksum is None,
            decreases manifest.packages.len() - i,
        {
            proof {
                assert(ps[i as int] == (manifest.packages[i as int].0@,
                    manifest.packages[i as int].1@));
            }
            if manifest.packages[i].1.checksum.is_some() {
                proof {
                    lemma_next_checked_is(ps, from as int, i as int);
                }
                return i;
            }
            i += 1;
        }
        proof {
            lemma_next_checked_is(ps, from as int, ps.len() as int);
        }
        manifest.packages.len()
    }

    /// What to do now.
    pub fn next(&self) -> (r: ApplyAction)
        requires
            self.inv(),
        ensures
            self.phase is Uploading ==> (r matches ApplyAction::Upload { local, remote } && {
                let key = self.manifest@.packages[self.upload_idx as int].0;
                local@ == path_in(self.local_dir@, key) && remote@ == path_in(
                    self.remote_dir@,
                    key,
                )
            }),
            self.phase is Verifying ==> (r matches ApplyAction::RunCheck {
                filename,
                command,
                expected,
            } && {
                let p = self.manifest@.packages[self.verify_idx as int];
                &&& filename@ == p.0
                &&& command@ == check_cmd_of(
                    p.1.checksum->Some_0.kind,
                    path_in(self.remote_dir@, p.0),
                )
                &&& expected@ == p.1.checksum->Some_0.value
            }),
            self.phase is Installing ==> (r matches ApplyAction::RunInstall { command }
                && command@ == install_cmd_of(
                path_in(
                    self.remote_dir@,
                    self.manifest@.install_order[self.install_idx as int],
                ),
            )),
            self.phase is Configuring ==> (r matches ApplyAction::RunConfigure { command }
                && command@ == "dpkg --configure -a"@),
            self.phase is Archiving ==> (r matches ApplyAction::RunArchiveMove { command }
                && command@ == "mv "@ + self.remote_dir@ + "/* /var/cache/apt/archives"@),
            self.phase is Cleaning ==> (r matches ApplyAction::RunCleanup { command }
                && command@ == "rm -rf "@ + self.remote_dir@),
            self.phase is Done ==> r == (ApplyAction::Report { ok: true }),
            (self.phase is Aborted || self.phase is Failed) ==> r == (ApplyAction::Report {
                ok: false,
            }),
    {
        match self.phase {
            ApplyPhase::Uploading => {
                let key = &self.manifest.packages[self.upload_idx].0;
                ApplyAction::Upload {
                    local: join_path(self.local_dir.as_str(), key.as_str()),
                    remote: join_path(self.remote_dir.as_str(), key.as_str()),
                }
            },
            ApplyPhase::Verifying => {
                let p = &self.manifest.packages[self.verify_idx];
                let ck = match &p.1.checksum {
                    Some(c) => c,
                    None => {
                        proof {
                            assert(false);
                        }
                        unreached()
                    },
                };
                let path = join_path(self.remote_dir.as_str(), p.0.as_str());
                ApplyAction::RunCheck {
                    filename: p.0.clone(),
                    command: checksum_command(&ck.kind, path.as_str()),
                    expected: ck.value.clone(),
                }
            },
            ApplyPhase::Installing => {
                let fname = &self.manifest.install_order[self.install_idx];
                let path = join_path(self.remote_dir.as_str(), fname.as_str());
                ApplyAction::RunInstall { command: dpkg_install_command(path.as_str()) }
            },
            ApplyPhase::Configuring => ApplyAction::RunConfigure {
                command: configure_command(),
            },
            ApplyPhase::Archiving => ApplyAction::RunArchiveMove {
                command: archive_move_command(self.remote_dir.as_str()),
            },
            ApplyPhase::Cleaning => ApplyAction::RunCleanup {
                command: cleanup_command(self.remote_dir.as_str()),
            },
            ApplyPhase::Done => ApplyAction::Report { ok: true },
            ApplyPhase::Aborted => ApplyAction::Report { ok: false },
            ApplyPhase::Failed => ApplyAction::Report { ok: false },
        }
    }

    /// Record the outcome of one upload.  Uploads are best effort: failure
    /// is reported by the driver but does not stop the run.
    pub fn on_upload_result(&mut self, ok: bool)
        requires
            old(self).inv(),
            old(self).phase is Uploading,
        ensures
            final(self).inv(),
            final(self).manifest == old(self).manifest,
            final(self).local_dir == old(self).local_dir,
            final(self).remote_dir == old(self).remote_dir,
            final(self).upload_idx == old(self).upload_idx + 1,
            final(self).verify_idx == old(self).verify_idx,
            final(self).install_idx == old(self).install_idx,
            final(self).mismatches == old(self).mismatches,
            final(self).issued_installs == old(self).issued_installs,
            final(self).phase == (if old(self).upload_idx + 1 < old(self).manifest@.packages.len() {
                ApplyPhase::Uploading
            } else {
                phase_after_uploads(old(self).manifest@)
            }),
    {
        let _ = ok;
        let n = self.manifest.packages.len();
        proof {
            assert(self.upload_idx < n);
        }
        self.upload_idx = self.upload_idx + 1;
        if self.upload_idx >= self.manifest.packages.len() {
            let vi = self.verify_idx;
            proof {
                lemma_next_checked(self.manifest@.packages, 0);
            }
            if vi < self.manifest.packages.len() {
                self.phase = ApplyPhase::Verifying;
            } else if self.manifest.install_order.len() > 0 {
                self.phase = ApplyPhase::Installing;
            } else {
                self.phase = ApplyPhase::Configuring;
            }
        }
    }

    /// Record the output of one remote checksum run: a mismatch is
    /// collected, and when the last checksummed package has been checked the
    /// gate decides — any collected mismatch aborts the run before any
    /// install command is issued.
    pub fn on_check_output(&mut self, output: &str)
        requires
            old(self).inv(),
            old(self).phase is Verifying,
        ensures
            final(self).inv(),
            final(self).manifest == old(self).manifest,
            final(self).local_dir == old(self).local_dir,
            final(self).remote_dir == old(self).remote_dir,
            final(self).upload_idx == old(self).upload_idx,
            final(self).install_idx == old(self).install_idx,
            final(self).issued_installs == old(self).issued_installs,
            final(self).mismatches.deep_view() == {
                let p = old(self).manifest@.packages[old(self).verify_idx as int];
                if output_confirms(output@, p.1.checksum->Some_0.value) {
                    old(self).mismatches.deep_view()
                } else {
                    old(self).mismatches.deep_view().push(p.0)
                }
            },
            final(self).verify_idx == next_checked(
                old(self).manifest@.packages,
                old(self).verify_idx + 1,
            ),
            final(self).phase == (if final(self).verify_idx
                < old(self).manifest@.packages.len() {
                ApplyPhase::Verifying
            } else {
                phase_after_verify(
                    final(self).mismatches@.len() as int,
                    old(self).manifest@.install_order.len() as int,
                )
            }),
    {
        let ghost ps = self.manifest@.packages;
        let p_key;
        let matched;
        {
            let p = &self.manifest.packages[self.verify_idx];
            proof {
                assert(ps[self.verify_idx as int] == (p.0@, p.1@));
            }
            let ck = match &p.1.checksum {
                Some(c) => c,
                None => {
                    proof {
                        assert(false);
                    }
                    unreached()
                },
            };
            matched = checksum_matches(output, ck.value.as_str());
            p_key = p.0.clone();
        }
        if !matched {
            let ghost before = self.mismatches.deep_view();
            self.mismatches.push(p_key);
            proof {
                assert(self.mismatches.deep_view() =~= before.push(p_key@));
            }
        }
        let n = self.manifest.packages.len();
        proof {
            assert(self.verify_idx < n);
        }
        let next_vi = Self::first_checked(&self.manifest, self.verify_idx + 1);
        self.verify_idx = next_vi;
        proof {
            lemma_next_checked(ps, old(self).verify_idx + 1);
        }
        if next_vi < self.manifest.packages.len() {
            self.phase = ApplyPhase::Verifying;
        } else if self.mismatches.len() > 0 {
            self.phase = ApplyPhase::Aborted;
        } else if self.manifest.install_order.len() > 0 {
            self.phase = ApplyPhase::Installing;
        } else {
            self.phase = ApplyPhase::Configuring;
        }
    }

    /// A remote checksum run itself failed (not a mismatch: the command
    /// could not be run).  The run ends; nothing further is attempted.
    pub fn on_remote_check_failure(&mut self)
        requires
            old(self).inv(),
            old(self).phase is Verifying,
        ensures
            final(self).inv(),
            *final(self) == (ApplyMachine { phase: ApplyPhase::Failed, ..*old(self) }),
    {
        self.phase = ApplyPhase::Failed;
    }

    /// Record the outcome of one install command.  Installs are best
    /// effort: a failure is reported by the driver but later packages are
    /// still attempted.
    pub fn on_install_result(&mut self, ok: bool)
        requires
            old(self).inv(),
            old(self).phase is Installing,
        ensures
            final(self).inv(),
            final(self).manifest == old(self).manifest,
            final(self).local_dir == old(self).local_dir,
            final(self).remote_dir == old(self).remote_dir,
            final(self).upload_idx == old(self).upload_idx,
            final(self).verify_idx == old(self).verify_idx,
            final(self).mismatches == old(self).mismatches,
            final(self).install_idx == old(self).install_idx + 1,
            final(self).issued_installs@ == old(self).issued_installs@.push(
                install_cmd_of(
                    path_in(
                        old(self).remote_dir@,
                        old(self).manifest@.install_order[old(self).install_idx as int],
                    ),
                ),
            ),
            final(self).phase == (if old(self).install_idx + 1
                < old(self).manifest@.install_order.len() {
                ApplyPhase::Installing
            } else {
                ApplyPhase::Configuring
            }),
    {
        let _ = ok;
        proof {
            let v = self.manifest@;
            let rd = self.remote_dir@;
            assert(self.issued_installs@.push(
                install_cmd_of(path_in(rd, v.install_order[self.install_idx as int])),
            ) =~= Seq::new(
                (self.install_idx + 1) as nat,
                |k: int| install_cmd_of(path_in(rd, v.install_order[k])),
            ));
        }
        self.issued_installs = Ghost(
            self.issued_installs@.push(
                install_cmd_of(
                    path_in(
                        self.remote_dir@,
                        self.manifest@.install_order[self.install_idx as int],
                    ),
                ),
            ),
        );
        let n = self.manifest.install_order.len();
        proof {
            assert(self.install_idx < n);
        }
        self.install_idx = self.install_idx + 1;
        if self.install_idx >= self.manifest.install_order.len() {
            self.phase = ApplyPhase::Configuring;
        }
    }

    /// Record the outcome of the reconfiguration.  Best effort: the run
    /// moves on to archiving either way.
    pub fn on_configure_result(&mut self, ok: bool)
        requires
            old(self).inv(),
            old(self).phase is Configuring,
        ensures
            final(self).inv(),
            *final(self) == (ApplyMachine { phase: ApplyPhase::Archiving, ..*old(self) }),
    {
        let _ = ok;
        self.phase = ApplyPhase::Archiving;
    }

    /// Record the outcome of the archive move, which must succeed.
    pub fn on_archive_result(&mut self, ok: bool)
        requires
            old(self).inv(),
            old(self).phase is Archiving,
        ensures
            final(self).inv(),
            *final(self) == (ApplyMachine {
                phase: if ok {
                    ApplyPhase::Cleaning
                } else {
                    ApplyPhase::Failed
                },
                ..*old(self)
            }),
    {
        self.phase = if ok {
            ApplyPhase::Cleaning
        } else {
            ApplyPhase::Failed
        };
    }

    /// Record the outcome of the cleanup, which must succeed.
    pub fn on_cleanup_result(&mut self, ok: bool)
        requires
            old(self).inv(),
            old(self).phase is Cleaning,
        ensures
            final(self).inv(),
            *final(self) == (ApplyMachine {
                phase: if ok {
                    ApplyPhase::Done
                } else {
                    ApplyPhase::Failed
                },
                ..*old(self)
            }),
    {
        self.phase = if ok {
            ApplyPhase::Done
        } else {
            ApplyPhase::Failed
        };
    }

    /// Whether the run has ended, successfully or not.
    pub fn finished(&self) -> (r: bool)
        ensures
            r == (self.phase is Done || self.phase is Aborted || self.phase is Failed),
    {
        matches!(self.phase, ApplyPhase::Done | ApplyPhase::Aborted | ApplyPhase::Failed)
    }
}

/// Order preservation: at any point of any run, the install commands issued
/// so far are exactly the commands for the first `install_idx` entries of
/// `install_order`, in that order — never in package-map order.
pub proof fn lemma_installs_follow_order(m: ApplyMachine)
    requires
        m.inv(),
    ensures
        m.install_idx <= m.manifest@.install_order.len(),
        m.issued_installs@.len() == m.install_idx,
        forall|k: int| 0 <= k < m.install_idx ==> m.issued_installs@[k] == install_cmd_of(
            path_in(m.remote_dir@, m.manifest@.install_order[k]),
        ),
{
}

/// The checksum gate: a machine that has recorded any mismatch has issued
/// no install command, is not installing, and can only stand in
/// verification, aborted or failed — installation is unreachable once a
/// mismatch exists.
pub proof fn lemma_mismatch_blocks_install(m: ApplyMachine)
    requires
        m.inv(),
        m.mismatches@.len() > 0,
    ensures
        m.issued_installs@ == Seq::<Seq<char>>::empty(),
        !(m.phase is Installing),
        m.phase is Verifying || m.phase is Aborted || m.phase is Failed,
{
    assert(m.issued_installs@ =~= Seq::<Seq<char>>::empty());
}

} // verus!
