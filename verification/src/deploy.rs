use crate::error::Uf2Error;
use vstd::prelude::*;

verus! {

/// A mounted storage volume as the deployer sees it: its mount point and
/// whether its root carries the bootloader sentinel file.
#[derive(Debug)]
pub struct MountPoint {
    pub path: String,
    pub has_sentinel: bool,
}

/// What the deploy loop must do next: run one more resolve-and-copy attempt
/// after pausing `pause_ms` milliseconds, or give up.
#[derive(Clone, Copy, Debug, PartialEq, Eq, Structural)]
pub enum DeployCommand {
    Attempt { pause_ms: u32 },
    GiveUp,
}

/// The deploy schedule: one attempt per unit of the retry budget, with a
/// fixed 500 ms pause before every attempt but the first.
pub open spec fn spec_deploy_plan(attempts_made: u32, retry_count: u32) -> DeployCommand {
    if attempts_made < retry_count {
        DeployCommand::Attempt { pause_ms: if attempts_made == 0 { 0u32 } else { 500u32 } }
    } else {
        DeployCommand::GiveUp
    }
}

/// Decides the next step of a deploy run after `attempts_made` failed
/// attempts out of a budget of `retry_count`.
pub fn deploy_plan(attempts_made: u32, retry_count: u32) -> (c: DeployCommand)
    ensures
        c == spec_deploy_plan(attempts_made, retry_count),
{
    if attempts_made < retry_count {
        if attempts_made == 0 {
            DeployCommand::Attempt { pause_ms: 0 }
        } else {
            DeployCommand::Attempt { pause_ms: 500 }
        }
    } else {
        DeployCommand::GiveUp
    }
}

/// A deploy run whose attempts all fail performs exactly `retry_count`
/// resolve-and-copy attempts, pauses 500 ms before every attempt but the
/// first, and then gives up.
pub proof fn lemma_deploy_retry_schedule(retry_count: u32)
    ensures
        forall|i: u32|
            i < retry_count ==> spec_deploy_plan(i, retry_count) == (DeployCommand::Attempt {
                pause_ms: if i == 0 { 0u32 } else { 500u32 },
            }),
        spec_deploy_plan(retry_count, retry_count) == DeployCommand::GiveUp,
{
}

/// The index of the first mount, from `i` on, whose root carries the
/// sentinel file.
pub open spec fn spec_first_sentinel(mounts: Seq<MountPoint>, i: int) -> Option<int>
    decreases mounts.len() - i,
{
    if i < 0 || i >= mounts.len() {
        None
    } else if mounts[i].has_sentinel {
        Some(i)
    } else {
        spec_first_sentinel(mounts, i + 1)
    }
}

/// Where a deploy attempt writes: an explicit destination is taken as it
/// stands; "auto" picks the first sentinel-marked volume, and fails the
/// attempt where none is mounted.
pub open spec fn spec_resolve_deploy_dir(deploy_path: Seq<char>, mounts: Seq<MountPoint>) -> Result<
    Seq<char>,
    Uf2Error,
> {
    if deploy_path != "auto"@ {
        Ok(deploy_path)
    } else {
        match spec_first_sentinel(mounts, 0) {
            Some(i) => Ok(mounts[i].path@),
            None => Err(Uf2Error::VolumeNotFound),
        }
    }
}

/// An explicit destination path resolves to itself on the first attempt,
/// whatever volumes are mounted: no volume scan can change the outcome.
pub proof fn lemma_explicit_path_resolves_immediately(
    deploy_path: Seq<char>,
    mounts: Seq<MountPoint>,
)
    requires
        deploy_path != "auto"@,
    ensures
        spec_resolve_deploy_dir(deploy_path, mounts) == Ok::<Seq<char>, Uf2Error>(deploy_path),
{
}

/// True where the destination specifier asks for volume auto-discovery, so
/// that a caller scans mounted volumes only then.
pub fn needs_volume_scan(deploy_path: &String) -> (b: bool)
    ensures
        b == (deploy_path@ == "auto"@),
{
    let auto: String = "auto".to_owned();
    *deploy_path == auto
}

/// Resolves the destination directory of one deploy attempt from the
/// destination specifier and the volumes mounted at that moment.
#[verifier::loop_isolation(false)]
pub fn resolve_deploy_dir(deploy_path: &String, mounts: &Vec<MountPoint>) -> (r: Result<
    String,
    Uf2Error,
>)
    ensures
        (match r {
            Ok(p) => Ok::<Seq<char>, Uf2Error>(p@),
            Err(e) => Err(e),
        }) == spec_resolve_deploy_dir(deploy_path@, mounts@),
{
    if !needs_volume_scan(deploy_path) {
        return Ok(deploy_path.clone());
    }
    let n = mounts.len();
    let mut i: usize = 0;
    while i < n
        invariant
            i <= n,
            n == mounts@.len(),
            spec_first_sentinel(mounts@, 0) == spec_first_sentinel(mounts@, i as int),
        decreases n - i,
    {
        if mounts[i].has_sentinel {
            proof {
                assert(spec_first_sentinel(mounts@, i as int) == Some(i as int));
            }
            return Ok(mounts[i].path.clone());
        }
        i += 1;
    }
    Err(Uf2Error::VolumeNotFound)
}

/// The fixed marker filename whose presence at a volume's root identifies a
/// UF2 bootloader drive.
pub fn uf2_sentinel_file_name() -> (r: &'static str)
    ensures
        r@ == "INFO_UF2.TXT"@,
{
    "INFO_UF2.TXT"
}

} // verus!
