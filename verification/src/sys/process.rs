//! Counting processes by owner. The process list itself comes from the
//! caller as the sequence of owner uids, one per process.

use vstd::prelude::*;

verus! {

/// Process counts split by owner: root, the calling user, and everyone.
#[derive(Clone, Copy, Debug, PartialEq, Eq, Structural)]
pub struct ProcessByUser {
    pub root: usize,
    pub user: usize,
    pub all: usize,
}

/// How many owners are root.
pub open spec fn count_root(owners: Seq<u32>) -> nat
    decreases owners.len(),
{
    if owners.len() == 0 {
        0
    } else {
        count_root(owners.drop_last()) + if owners.last() == 0u32 {
            1nat
        } else {
            0nat
        }
    }
}

/// How many owners are the given non-root user.
pub open spec fn count_user(owners: Seq<u32>, euid: u32) -> nat
    decreases owners.len(),
{
    if owners.len() == 0 {
        0
    } else {
        count_user(owners.drop_last(), euid) + if owners.last() != 0u32 && owners.last() == euid {
            1nat
        } else {
            0nat
        }
    }
}

/// Tallies a process owner list: how many processes belong to root, how
/// many to the user with id `euid` (not counting root even when `euid` is
/// zero), and how many there are in all.
pub fn process_by_user(owners: &Vec<u32>, euid: u32) -> (r: ProcessByUser)
    ensures
        r.all == owners@.len(),
        r.root as nat == count_root(owners@),
        r.user as nat == count_user(owners@, euid),
{
    let mut root: usize = 0;
    let mut user: usize = 0;
    let n: usize = owners.len();
    let mut i: usize = 0;
    proof {
        assert(owners@.take(0) =~= Seq::<u32>::empty());
    }
    while i < n
        invariant
            i <= n,
            n == owners@.len(),
            root as nat == count_root(owners@.take(i as int)),
            user as nat == count_user(owners@.take(i as int), euid),
            root <= i,
            user <= i,
        decreases n - i,
    {
        proof {
            assert(owners@.take(i + 1).drop_last() =~= owners@.take(i as int));
            assert(owners@.take(i + 1).last() == owners@[i as int]);
        }
        let owner: u32 = owners[i];
        if owner == 0 {
            root = root + 1;
        } else if owner == euid {
            user = user + 1;
        }
        i = i + 1;
    }
    proof {
        assert(owners@.take(n as int) =~= owners@);
    }
    ProcessByUser { root, user, all: n }
}

} // verus!
