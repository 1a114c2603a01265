//! The update-apply phase: replace the target's package index with the
//! locally cached one.
//!
//! The phase is a fixed command sequence around a best-effort upload batch:
//! move the remote index directory aside, prepare a fresh one, upload every
//! cached source file, move the uploads into place and regenerate the
//! package cache.  This module fixes every command line and the upload
//! plan; the driver outside the crate runs them in the order given.

use vstd::prelude::*;
use crate::strutil::concat2;
use crate::apply::path_in;

verus! {

/// Arguments of the update command: the image name and the remote target.
pub struct UpdateArgs {
    /// Cache image name.
    pub name: String,
    /// Remote target, `user@host`.
    pub target: String,
}

/// One remote command of the update sequence, and whether it needs
/// privilege elevation.
pub struct RemoteCommand {
    pub command: String,
    pub privileged: bool,
}

/// The commands run before the uploads: create the remote working
/// directory, move the package-index directory aside, recreate it with its
/// partial subdirectory, and put the lock file in place.
pub fn update_pre_script(remote_dir: &str) -> (r: Vec<RemoteCommand>)
    ensures
        r@.len() == 4,
        r@[0].command@ == "mkdir -p "@ + remote_dir@ && !r@[0].privileged,
        r@[1].command@ == "mv /var/lib/apt/lists /var/lib/apt/lists.old"@ && r@[1].privileged,
        r@[2].command@ == "mkdir -p /var/lib/apt/lists/partial"@ && r@[2].privileged,
        r@[3].command@ == "touch /var/lib/apt/lists/lock"@ && r@[3].privileged,
{
    let mut r: Vec<RemoteCommand> = Vec::new();
    r.push(RemoteCommand { command: concat2("mkdir -p ", remote_dir), privileged: false });
    r.push(
        RemoteCommand {
            command: String::from_str("mv /var/lib/apt/lists /var/lib/apt/lists.old"),
            privileged: true,
        },
    );
    r.push(
        RemoteCommand {
            command: String::from_str("mkdir -p /var/lib/apt/lists/partial"),
            privileged: true,
        },
    );
    r.push(
        RemoteCommand {
            command: String::from_str("touch /var/lib/apt/lists/lock"),
            privileged: true,
        },
    );
    r
}

/// The uploads the update phase performs: one `(filename, remote path)`
/// pair per cached source file that is still present locally; files that
/// have vanished since listing are skipped, best effort.
pub open spec fn upload_jobs_at(
    files: Seq<Seq<char>>,
    present: Seq<bool>,
    rd: Seq<char>,
    i: int,
) -> Seq<(Seq<char>, Seq<char>)>
    decreases files.len() - i,
{
    if i < 0 || i >= files.len() {
        Seq::empty()
    } else if present[i] {
        seq![(files[i], path_in(rd, files[i]))] + upload_jobs_at(files, present, rd, i + 1)
    } else {
        upload_jobs_at(files, present, rd, i + 1)
    }
}

/// Plan the update uploads from the listed source files and their presence.
pub fn update_upload_jobs(files: &Vec<String>, present: &Vec<bool>, remote_dir: &str) -> (r: Vec<
    (String, String),
>)
    requires
        present@.len() == files@.len(),
    ensures
        r.deep_view() == upload_jobs_at(files.deep_view(), present@, remote_dir@, 0),
{
    let ghost fs = files.deep_view();
    let mut r: Vec<(String, String)> = Vec::new();
    let mut i: usize = 0;
    proof {
        assert(r.deep_view() =~= Seq::<(Seq<char>, Seq<char>)>::empty());
        assert(r.deep_view() + upload_jobs_at(fs, present@, remote_dir@, 0) =~= upload_jobs_at(
            fs,
            present@,
            remote_dir@,
            0,
        ));
    }
    while i < files.len()
        invariant
            i <= files.len(),
            fs == files.deep_view(),
            present@.len() == fs.len(),
            upload_jobs_at(fs, present@, remote_dir@, 0) == r.deep_view() + upload_jobs_at(
                fs,
                present@,
                remote_dir@,
                i as int,
            ),
        decreases files.len() - i,
    {
        proof {
            assert(fs[i as int] == files@[i as int]@);
        }
        if present[i] {
            let remote = crate::apply::join_path(remote_dir, files[i].as_str());
            r.push((files[i].clone(), remote));
            proof {
                assert(r.deep_view() =~= r.deep_view().subrange(0, r.deep_view().len() - 1)
                    + seq![(fs[i as int], path_in(remote_dir@, fs[i as int]))]);
                assert(upload_jobs_at(fs, present@, remote_dir@, 0) =~= r.deep_view()
                    + upload_jobs_at(fs, present@, remote_dir@, i + 1 as int));
            }
        }
        i += 1;
    }
    r
}

/// The commands run after the uploads: move the uploaded lists into place
/// and regenerate the package cache.
pub fn update_post_script(remote_dir: &str) -> (r: Vec<RemoteCommand>)
    ensures
        r@.len() == 2,
        r@[0].command@ == "mv "@ + remote_dir@ + "/* /var/lib/apt/lists"@ && r@[0].privileged,
        r@[1].command@ == "apt-cache gencaches"@ && r@[1].privileged,
{
    let mut r: Vec<RemoteCommand> = Vec::new();
    let mv = crate::strutil::concat3("mv ", remote_dir, "/* /var/lib/apt/lists");
    r.push(RemoteCommand { command: mv, privileged: true });
    r.push(RemoteCommand { command: String::from_str("apt-cache gencaches"), privileged: true });
    r
}

} // verus!
