//! Shared-filesystem paths and decimal rendering.

use vstd::prelude::*;

use crate::crash::hex_digits;

verus! {

/// Decimal rendering of a non-negative integer, most significant digit
/// first, with no leading zeroes (a lone zero for zero).
pub open spec fn dec_str(n: int) -> Seq<char>
    decreases n,
{
    if n < 10 {
        seq![hex_digits()[if n < 0 { 0 } else { n }]]
    } else {
        dec_str(n / 10) + seq![hex_digits()[n % 10]]
    }
}

/// Decimal rendering of a number.
pub fn u64_to_string(n: u64) -> (s: String)
    ensures
        s@ == dec_str(n as int),
    decreases n,
{
    if n < 10 {
        crate::crash::hex_char_str(n as u8).to_owned()
    } else {
        let mut s = u64_to_string(n / 10);
        s.append(crate::crash::hex_char_str((n % 10) as u8));
        proof {
            assert(s@ =~= dec_str(n as int));
        }
        s
    }
}

/// The shared-filesystem directory that holds one job's files.
pub fn get_job_dir(nfs_dir: &str, job_guid: &str) -> (r: String)
    ensures
        r@ == nfs_dir@ + "/jobs/"@ + job_guid@,
{
    let mut s = String::new();
    s.append(nfs_dir);
    s.append("/jobs/");
    s.append(job_guid);
    proof {
        assert(s@ =~= nfs_dir@ + "/jobs/"@ + job_guid@);
    }
    s
}

/// Where a materialised crash file lives under the job directory.
pub fn crash_file_path(nfs_dir: &str, job_guid: &str, name: &str) -> (r: String)
    ensures
        r@ == nfs_dir@ + "/jobs/"@ + job_guid@ + "/crashes/"@ + name@,
{
    let mut s = get_job_dir(nfs_dir, job_guid);
    s.append("/crashes/");
    s.append(name);
    proof {
        assert(s@ =~= nfs_dir@ + "/jobs/"@ + job_guid@ + "/crashes/"@ + name@);
    }
    s
}

} // verus!
