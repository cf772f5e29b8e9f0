//! A test workload that keeps creating, rewriting and deleting files in a
//! synced directory; the file work itself is the caller's.
use vstd::prelude::*;

verus! {

/// Relies on `rand::Rng::gen_range` over `rand::thread_rng()`: a value in
/// `0..n`, which must not be empty.
#[verifier::external_body]
fn random_below(n: usize) -> (r: usize)
    requires
        n > 0,
    ensures
        r < n,
{
    rand::Rng::gen_range(&mut rand::thread_rng(), 0..n)
}

/// What the workload does next.
#[derive(Clone, Copy, Debug, PartialEq, Eq, Structural)]
pub enum MonkeyAction {
    Create,
    Update,
    Delete,
}

pub struct UserMonkey {
    pub target: String,
    pub amount_of_files: u32,
    pub seconds: u32,
    pub data_size_kb: usize,
}

impl UserMonkey {
    /// Twenty file names, one action a second, files of a thousand
    /// kilobytes.
    pub fn new(target: String) -> (r: Self)
        ensures
            r.target == target,
            r.amount_of_files == 20,
            r.seconds == 1,
            r.data_size_kb == 1000,
    {
        UserMonkey { target, amount_of_files: 20, seconds: 1, data_size_kb: 1000 }
    }

    /// An action drawn at random.
    pub fn random_action(&self) -> MonkeyAction {
        let k = random_below(3);
        if k == 0 {
            MonkeyAction::Create
        } else if k == 1 {
            MonkeyAction::Update
        } else {
            MonkeyAction::Delete
        }
    }

    /// The numbers below `amount_of_files` that no present file uses.
    pub fn unused_numbers(&self, used: &Vec<u32>) -> (r: Vec<u32>)
        ensures
            forall|i: int| 0 <= i < r@.len() ==> #[trigger] r@[i] < self.amount_of_files && !used@.contains(r@[i]),
            forall|n: u32| n < self.amount_of_files && !used@.contains(n) ==> r@.contains(n),
    {
        let mut r: Vec<u32> = Vec::new();
        let mut n: u32 = 0;
        while n < self.amount_of_files
            invariant
                n <= self.amount_of_files,
                forall|i: int| 0 <= i < r@.len() ==> #[trigger] r@[i] < n && !used@.contains(r@[i]),
                forall|m: u32| m < n && !used@.contains(m) ==> r@.contains(m),
            decreases self.amount_of_files - n,
        {
            let mut found = false;
            let mut k: usize = 0;
            while k < used.len()
                invariant
                    0 <= k <= used@.len(),
                    found == (exists|j: int| 0 <= j < k && used@[j] == n),
                decreases used@.len() - k,
            {
                if used[k] == n {
                    found = true;
                }
                k = k + 1;
            }
            if !found {
                let ghost before = r@;
                r.push(n);
                proof {
                    assert forall|m: u32| before.contains(m) implies r@.contains(m) by {
                        let j = choose|j: int| 0 <= j < before.len() && before[j] == m;
                        assert(r@[j] == m);
                    }
                    assert(r@[r@.len() - 1] == n);
                }
            } else {
                proof {
                    let j = choose|j: int| 0 <= j < used@.len() && used@[j] == n;
                    assert(used@.contains(n));
                }
            }
            n = n + 1;
        }
        r
    }

    /// The byte that a new or rewritten file is filled with, drawn at random
    /// from 0 to 100.
    pub fn random_fill(&self) -> (r: u8)
        ensures
            r <= 100,
    {
        random_below(101) as u8
    }

    /// One of `count` present files, drawn at random.
    pub fn random_file(&self, count: usize) -> (r: usize)
        requires
            count > 0,
        ensures
            r < count,
    {
        random_below(count)
    }
}

} // verus!
