//! NUMA nodes: what the node directories of the kernel say.
//!
//! On Linux every NUMA node has a directory `node<index>` under
//! `/sys/devices/system/node`. Whether these directories are there is for
//! the caller to find out; the functions here say where to look and what
//! the answers mean.

use crate::error::{decimal_text, decimal};
use crate::platform::Platform;
use vstd::prelude::*;
use vstd::string::StringExecFns;

verus! {

/// The directory of the node with the given index.
pub fn node_path(index: u16) -> (r: String)
    ensures
        r@ == "/sys/devices/system/node/node"@ + decimal_text(index as int),
{
    let head: String = "/sys/devices/system/node/node".to_owned();
    head.concat(decimal(index as i32).as_str())
}

/// Whether the system has NUMA nodes: on Linux, whether the directory of
/// node 0 is there; never on other platforms.
pub fn is_supported(platform: Platform, node0_present: bool) -> (r: bool)
    ensures
        r == (platform is Linux && node0_present),
{
    match platform {
        Platform::Linux => node0_present,
        _ => false,
    }
}

/// The number of leading entries that are set.
pub open spec fn leading_present(present: Seq<bool>) -> nat
    decreases present.len(),
{
    if present.len() == 0 || !present[0] {
        0
    } else {
        1 + leading_present(present.drop_first())
    }
}

/// The number of NUMA nodes, where `present[i]` says whether the
/// directory of node `i` is there: on Linux the nodes are counted from
/// node 0 up to the first that is missing; other platforms have one node.
pub fn node_count(platform: Platform, present: &[bool]) -> (r: usize)
    ensures
        r == match platform {
            Platform::Linux => leading_present(present@),
            _ => 1,
        },
{
    match platform {
        Platform::Linux => {
            let mut count: usize = 0;
            assert(present@.subrange(0, present@.len() as int) =~= present@);
            while count < present.len() && present[count]
                invariant
                    count <= present@.len(),
                    leading_present(present@) == count + leading_present(
                        present@.subrange(count as int, present@.len() as int),
                    ),
                decreases present@.len() - count,
            {
                let ghost rest = present@.subrange(count as int, present@.len() as int);
                assert(rest[0] == present@[count as int]);
                assert(rest.drop_first() =~= present@.subrange(
                    count + 1,
                    present@.len() as int,
                ));
                count += 1;
            }
            proof {
                let rest = present@.subrange(count as int, present@.len() as int);
                if count < present@.len() {
                    assert(rest[0] == present@[count as int]);
                }
            }
            count
        },
        _ => 1,
    }
}

/// The NUMA node of the running thread: node 0 on Linux, none elsewhere.
pub fn current_node(platform: Platform) -> (r: Option<u32>)
    ensures
        r == if platform is Linux {
            Some(0u32)
        } else {
            None
        },
{
    match platform {
        Platform::Linux => Some(0),
        _ => None,
    }
}

/// The NUMA node that the running thread prefers: its current node.
pub fn preferred_node(platform: Platform) -> (r: Option<u32>)
    ensures
        r == if platform is Linux {
            Some(0u32)
        } else {
            None
        },
{
    current_node(platform)
}

} // verus!
