//! The daemon's gauges in the Prometheus text format.
use vstd::prelude::*;

use crate::text::{dec, dec_string};

verus! {

pub open spec fn metrics_text(
    snapshots: nat,
    sandboxes: nat,
    in_flight: nat,
    cap: nat,
    build: Seq<char>,
) -> Seq<char> {
    "# HELP forkd_snapshots_total Number of snapshots known to the controller.\n# TYPE forkd_snapshots_total gauge\nforkd_snapshots_total "@
        + dec(snapshots)
        + "\n# HELP forkd_sandboxes_active Number of active sandboxes (child VMs).\n# TYPE forkd_sandboxes_active gauge\nforkd_sandboxes_active "@
        + dec(sandboxes)
        + "\n# HELP forkd_branches_in_flight Number of BRANCH operations currently writing memory.bin.\n# TYPE forkd_branches_in_flight gauge\nforkd_branches_in_flight "@
        + dec(in_flight)
        + "\n# HELP forkd_branch_concurrency_cap Configured maximum concurrent BRANCH operations.\n# TYPE forkd_branch_concurrency_cap gauge\nforkd_branch_concurrency_cap "@
        + dec(cap)
        + "\n# HELP forkd_build_info Build version of the controller binary.\n# TYPE forkd_build_info gauge\nforkd_build_info{version=\""@
        + build + "\"} 1\n"@
}

/// `GET /metrics`.
pub fn metrics(snapshots: usize, sandboxes: usize, in_flight: usize, cap: usize, build: &str) -> (r:
    String)
    ensures
        r@ == metrics_text(
            snapshots as nat,
            sandboxes as nat,
            in_flight as nat,
            cap as nat,
            build@,
        ),
{
    let a = dec_string(snapshots as u64);
    let b = dec_string(sandboxes as u64);
    let c = dec_string(in_flight as u64);
    let d = dec_string(cap as u64);
    "# HELP forkd_snapshots_total Number of snapshots known to the controller.\n# TYPE forkd_snapshots_total gauge\nforkd_snapshots_total ".to_string().concat(
        a.as_str(),
    ).concat(
        "\n# HELP forkd_sandboxes_active Number of active sandboxes (child VMs).\n# TYPE forkd_sandboxes_active gauge\nforkd_sandboxes_active ",
    ).concat(b.as_str()).concat(
        "\n# HELP forkd_branches_in_flight Number of BRANCH operations currently writing memory.bin.\n# TYPE forkd_branches_in_flight gauge\nforkd_branches_in_flight ",
    ).concat(c.as_str()).concat(
        "\n# HELP forkd_branch_concurrency_cap Configured maximum concurrent BRANCH operations.\n# TYPE forkd_branch_concurrency_cap gauge\nforkd_branch_concurrency_cap ",
    ).concat(d.as_str()).concat(
        "\n# HELP forkd_build_info Build version of the controller binary.\n# TYPE forkd_build_info gauge\nforkd_build_info{version=\"",
    ).concat(build).concat("\"} 1\n")
}

} // verus!
