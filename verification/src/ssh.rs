//! The remote session interface: the capabilities every phase drives a
//! target through, and the pure logic around them — splitting a `user@host`
//! target and forming the privileged command line.
//!
//! A concrete session (an SSH transport) lives outside this crate and
//! implements the two traits; the phase logic depends only on them, so a
//! fake in-memory session can drive it in tests.

use vstd::prelude::*;
use vstd::string::StrSliceExecFns;
use crate::errors::{RemoteError, TargetError};
use crate::strutil::{concat2, find_char_at, find_from, lemma_find_char_at};

verus! {

/// Executes one-shot commands over an authenticated remote session.
///
/// A non-zero remote exit status is not an error of these primitives:
/// callers inspect the returned output text to decide success.
pub trait RemoteExecutor {
    /// Run a shell command on the remote host and return its captured
    /// combined output, waiting for the channel to close.
    fn exec(&self, cmd: &str) -> Result<String, RemoteError>;

    /// Run a command with privilege elevation: a pseudo-terminal is
    /// attached, the command is wrapped by `sudo_command`, and the password
    /// followed by a newline is written to the channel's input once.
    fn sudo(&self, cmd: &str, password: &str) -> Result<String, RemoteError>;
}

/// Uploads files and directory trees over the same session.
///
/// Both operations preserve relative structure exactly; neither computes
/// checksums — verification is layered on top by the apply phase.
pub trait SecureUpload {
    /// Upload a file or, recursively, a directory.
    fn scp_upload(&self, local_path: &str, remote_path: &str) -> Result<(), RemoteError>;

    /// Upload a single file, streamed byte for byte.
    fn upload_file(&self, local_path: &str, remote_path: &str) -> Result<(), RemoteError>;

    /// Mirror a directory tree; creating an already existing remote
    /// directory is not an error.
    fn upload_recursive(&self, local: &str, remote: &str) -> Result<(), RemoteError>;
}

/// The user part of a target: everything before the first `@`.
pub open spec fn target_user(t: Seq<char>) -> Seq<char> {
    t.subrange(0, find_char_at(t, 0, '@'))
}

/// The host part of a target: between the first `@` and the second, or the
/// end.
pub open spec fn target_host(t: Seq<char>) -> Seq<char> {
    let i = find_char_at(t, 0, '@');
    let j = find_char_at(t, i + 1, '@');
    t.subrange(i + 1, if j == -1 {
        t.len() as int
    } else {
        j
    })
}

/// Split a `user@host` target into user and host.  Fails exactly when the
/// target holds no `@`.
pub fn split_target(target: &str) -> (r: Result<(String, String), TargetError>)
    ensures
        r is Ok <==> find_char_at(target@, 0, '@') >= 0,
        r matches Ok(p) ==> p.0@ == target_user(target@) && p.1@ == target_host(target@),
        r is Err ==> r == Err::<(String, String), TargetError>(TargetError::MissingHost),
{
    proof {
        lemma_find_char_at(target@, 0, '@');
    }
    match find_from(target, 0, '@') {
        None => Err(TargetError::MissingHost),
        Some(i) => {
            let tlen = target.unicode_len();
            let user = String::from_str(target.substring_char(0, i));
            proof {
                lemma_find_char_at(target@, i + 1 as int, '@');
            }
            let host = match find_from(target, i + 1, '@') {
                None => String::from_str(target.substring_char(i + 1, tlen)),
                Some(j) => String::from_str(target.substring_char(i + 1, j)),
            };
            Ok((user, host))
        },
    }
}

/// The wrapped command a privileged call runs: `sudo -S -p '' <cmd>`, so
/// that the password is read from the input stream with no prompt text.
pub fn sudo_command(cmd: &str) -> (r: String)
    ensures
        r@ == "sudo -S -p '' "@ + cmd@,
{
    concat2("sudo -S -p '' ", cmd)
}

/// The address a session connects to: `host:22`.
pub fn connect_address(host: &str) -> (r: String)
    ensures
        r@ == host@ + ":22"@,
{
    concat2(host, ":22")
}

} // verus!
