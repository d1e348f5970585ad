//! Picking indices for the network namespaces of new sandboxes, so that none
//! is in use already.
use vstd::prelude::*;
use vstd::arithmetic::div_mod::lemma_fundamental_div_mod_converse;
use vstd::arithmetic::mul::lemma_mul_inequality;
use vstd::set_lib::{lemma_int_range, set_int_range};

use crate::fork::netns_name;
use crate::text::{dec, law_dec_reads_back, parse_dec, parse_unsigned, strip_prefix};

verus! {

/// The index in the name of a child's namespace.
pub open spec fn child_index(name: Seq<char>) -> Option<nat> {
    let p = "forkd-child-"@;
    if p.is_prefix_of(name) {
        parse_dec(name.skip(p.len() as int), usize::MAX as nat)
    } else {
        None
    }
}

pub fn netns_index(name: &str) -> (r: Option<usize>)
    ensures
        match r {
            Some(k) => child_index(name@) == Some(k as nat),
            None => child_index(name@) is None,
        },
{
    match strip_prefix(name, "forkd-child-") {
        Some(rest) => match parse_unsigned(rest.as_str(), usize::MAX as u64) {
            Some(k) => Some(k as usize),
            None => None,
        },
        None => None,
    }
}

/// Whether one of the live sandboxes is in the namespace of index `k`.
pub open spec fn taken(live: Seq<Option<String>>, k: nat) -> bool {
    exists|i: int|
        0 <= i < live.len() && (#[trigger] live[i]) is Some && child_index(live[i]->0@) == Some(k)
}

/// Whether the `n` indices after `offset` are all unused.
pub open spec fn free(live: Seq<Option<String>>, offset: nat, n: nat) -> bool {
    forall|k: nat| offset < k <= offset + n ==> !#[trigger] taken(live, k)
}

spec fn hits(used: Seq<usize>, offset: int, n: int) -> bool {
    exists|i: int| 0 <= i < used.len() && offset < #[trigger] used[i] <= offset + n
}

fn clashes(used: &Vec<usize>, offset: usize, n: usize) -> (r: bool)
    requires
        offset + n <= usize::MAX,
    ensures
        r == hits(used@, offset as int, n as int),
{
    let mut i: usize = 0;
    while i < used.len()
        invariant
            i <= used.len(),
            offset + n <= usize::MAX,
            forall|j: int| 0 <= j < i ==> !(offset < #[trigger] used@[j] <= offset + n),
        decreases used.len() - i,
    {
        if offset < used[i] && used[i] <= offset + n {
            assert(hits(used@, offset as int, n as int));
            return true;
        }
        i += 1;
    }
    false
}

/// Of the windows `(w * n, w * n + n]` no more are hit than there are used
/// indices: each index lies in one of them only.
proof fn lemma_windows_hit(used: Seq<usize>, n: int, windows: Set<int>)
    requires
        n > 0,
        windows.finite(),
        forall|w: int| #[trigger] windows.contains(w) ==> hits(used, w * n, n),
    ensures
        windows.len() <= used.len(),
    decreases used.len(),
{
    if used.len() == 0 {
        if windows.len() > 0 {
            let w = windows.choose();
            assert(windows.contains(w));
            assert(hits(used, w * n, n));
        }
    } else {
        let x = used.last() as int;
        let wx = (x - 1) / n;
        let rest = windows.remove(wx);
        assert forall|w: int| #[trigger] rest.contains(w) implies hits(
            used.drop_last(),
            w * n,
            n,
        ) by {
            assert(windows.contains(w));
            let i = choose|i: int|
                0 <= i < used.len() && w * n < #[trigger] used[i] <= w * n + n;
            if i == used.len() - 1 {
                lemma_fundamental_div_mod_converse(x - 1, n, w, x - 1 - w * n);
                assert(false);
            }
            assert(used.drop_last()[i] == used[i]);
        }
        lemma_windows_hit(used.drop_last(), n, rest);
    }
}

/// An offset at which the first windows are all in use is still small.
proof fn lemma_offset_bound(used: Seq<usize>, n: int, offset: int)
    requires
        n > 0,
        offset >= 0,
        forall|o: int| 0 <= o <= offset ==> #[trigger] hits(used, o, n),
    ensures
        offset < used.len() * n,
{
    if offset >= used.len() * n {
        let windows = set_int_range(0, used.len() as int + 1);
        lemma_int_range(0, used.len() as int + 1);
        assert forall|w: int| #[trigger] windows.contains(w) implies hits(used, w * n, n) by {
            lemma_mul_inequality(w, used.len() as int, n);
            assert(0 <= w * n) by (nonlinear_arith)
                requires
                    0 <= w,
                    n > 0,
            ;
        }
        lemma_windows_hit(used, n, windows);
    }
}

/// The indices of the live sandboxes' namespaces.
fn used_indices(live: &Vec<Option<String>>) -> (r: Vec<usize>)
    ensures
        r@.len() <= live@.len(),
        forall|offset: nat, n: nat| #[trigger]
            free(live@, offset, n) <==> !hits(r@, offset as int, n as int),
{
    let mut used: Vec<usize> = Vec::new();
    let mut i: usize = 0;
    while i < live.len()
        invariant
            i <= live.len(),
            used@.len() <= i,
            forall|j: int|
                0 <= j < i && (#[trigger] live@[j]) is Some && child_index(live@[j]->0@) is Some
                    ==> exists|m: int|
                    0 <= m < used@.len() && child_index(live@[j]->0@) == Some(
                        #[trigger] used@[m] as nat,
                    ),
            forall|m: int|
                0 <= m < used@.len() ==> taken(live@, #[trigger] used@[m] as nat),
        decreases live.len() - i,
    {
        let ghost before = used@;
        match &live[i] {
            Some(name) => match netns_index(name.as_str()) {
                Some(k) => {
                    used.push(k);
                    assert(live@[i as int] is Some && child_index(live@[i as int]->0@) == Some(
                        k as nat,
                    ));
                    assert(used@[before.len() as int] == k);
                },
                None => {},
            },
            None => {},
        }
        proof {
            assert forall|j: int|
                0 <= j < i + 1 && (#[trigger] live@[j]) is Some && child_index(live@[j]->0@)
                    is Some implies exists|m: int|
                0 <= m < used@.len() && child_index(live@[j]->0@) == Some(
                    #[trigger] used@[m] as nat,
                ) by {
                if j < i {
                    let m = choose|m: int|
                        0 <= m < before.len() && child_index(live@[j]->0@) == Some(
                            #[trigger] before[m] as nat,
                        );
                    assert(used@[m] == before[m]);
                }
            }
        }
        i += 1;
    }
    proof {
        assert forall|offset: nat, n: nat| #[trigger] free(live@, offset, n) <==> !hits(
            used@,
            offset as int,
            n as int,
        ) by {
            if hits(used@, offset as int, n as int) {
                let m = choose|m: int|
                    0 <= m < used@.len() && offset < #[trigger] used@[m] <= offset + n;
                assert(taken(live@, used@[m] as nat));
            }
            if !free(live@, offset, n) {
                let k = choose|k: nat| offset < k <= offset + n && #[trigger] taken(live@, k);
                let j = choose|j: int|
                    0 <= j < live@.len() && (#[trigger] live@[j]) is Some && child_index(
                        live@[j]->0@,
                    ) == Some(k);
                let m = choose|m: int|
                    0 <= m < used@.len() && child_index(live@[j]->0@) == Some(
                        #[trigger] used@[m] as nat,
                    );
                assert(offset < used@[m] <= offset + n);
            }
        }
    }
    used
}

/// The smallest offset after which `n` indices in a row are unused, given the
/// namespaces of the live sandboxes.
pub fn pick_netns_offset(live: &Vec<Option<String>>, n: usize) -> (r: usize)
    requires
        (live@.len() + 1) * n <= usize::MAX,
    ensures
        free(live@, r as nat, n as nat),
        forall|o: nat| o < r ==> !#[trigger] free(live@, o, n as nat),
        r + n <= usize::MAX,
{
    let used = used_indices(live);
    let ghost limit = (live@.len() * n) as int;
    proof {
        assert((live@.len() + 1) * n == limit + n) by (nonlinear_arith)
            requires
                limit == live@.len() * n,
        ;
        assert(0 <= limit) by (nonlinear_arith)
            requires
                limit == live@.len() * n,
        ;
    }
    let mut offset: usize = 0;
    loop
        invariant
            limit + n <= usize::MAX,
            limit == live@.len() * n,
            offset <= limit,
            used@.len() <= live@.len(),
            forall|o: nat, k: nat| #[trigger]
                free(live@, o, k) <==> !hits(used@, o as int, k as int),
            forall|o: int| 0 <= o < offset ==> #[trigger] hits(used@, o, n as int),
        decreases limit - offset,
    {
        if !clashes(&used, offset, n) {
            assert(free(live@, offset as nat, n as nat));
            assert forall|o: nat| o < offset implies !#[trigger] free(live@, o, n as nat) by {
                assert(hits(used@, o as int, n as int));
            }
            return offset;
        }
        proof {
            assert(n > 0);
            lemma_offset_bound(used@, n as int, offset as int);
            lemma_mul_inequality(used@.len() as int, live@.len() as int, n as int);
        }
        offset += 1;
    }
}

/// A namespace at a picked index is in use by no live sandbox.
pub proof fn law_picked_namespaces_are_unused(
    live: Seq<Option<String>>,
    offset: nat,
    n: nat,
    k: nat,
    i: int,
)
    requires
        free(live, offset, n),
        offset < k <= offset + n <= usize::MAX,
        0 <= i < live.len(),
        live[i] is Some,
    ensures
        live[i]->0@ != netns_name(k),
{
    if live[i]->0@ == netns_name(k) {
        law_dec_reads_back(k, usize::MAX as nat);
        let p = "forkd-child-"@;
        assert(p.is_prefix_of(netns_name(k)));
        assert(netns_name(k).skip(p.len() as int) =~= dec(k));
        assert(taken(live, k));
    }
}

} // verus!
