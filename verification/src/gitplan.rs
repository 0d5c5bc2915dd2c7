//! Planning the git history that the builder materialises: one initial
//! commit, one commit per snapshot bucket in ascending timestamp order,
//! and one final commit holding the live contents.

use vstd::prelude::*;

verus! {

/// Ascending order over bucket timestamps.
pub open spec fn spec_sorted_times(s: Seq<i64>) -> bool {
    forall|i: int, j: int| 0 <= i <= j < s.len() ==> s[i] <= s[j]
}

/// The plan the git builder executes.
#[derive(Debug, Clone, PartialEq, Eq)]
pub struct GitPlan {
    /// With a pre-existing repository, history goes to a side branch.
    pub use_side_branch: bool,
    /// Bucket timestamps in commit order, one snapshot commit each.
    pub snapshot_times: Vec<i64>,
    /// The author time of the final commit: the last bucket, or the
    /// repl's creation time if there were no buckets.
    pub final_time: i64,
}

/// How many commits the plan produces: the initial commit, one per
/// bucket, and the final one.
pub open spec fn spec_commit_count(p: GitPlan) -> int {
    2 + p.snapshot_times@.len() as int
}

/// Sorts bucket timestamps ascending, keeping every occurrence.
fn sort_times(v: &Vec<i64>) -> (r: Vec<i64>)
    ensures
        spec_sorted_times(r@),
        r@.to_multiset() == v@.to_multiset(),
        r@.len() == v@.len(),
{
    broadcast use vstd::seq_lib::group_to_multiset_ensures;

    let mut out: Vec<i64> = Vec::new();
    let n = v.len();
    let mut i: usize = 0;
    proof {
        assert(v@.take(0int) =~= Seq::<i64>::empty());
        assert(out@.to_multiset() =~= v@.take(0int).to_multiset());
    }
    while i < n
        invariant
            i <= n,
            n == v@.len(),
            spec_sorted_times(out@),
            out@.to_multiset() == v@.take(i as int).to_multiset(),
            out@.len() == i,
        decreases n - i,
    {
        let x = v[i];
        let m = out.len();
        let mut j: usize = 0;
        while j < m && out[j] <= x
            invariant
                j <= m,
                m == out@.len(),
                forall|k: int| 0 <= k < j ==> out@[k] <= x,
            decreases m - j,
        {
            j = j + 1;
        }
        let ghost before = out@;
        out.insert(j, x);
        proof {
            assert(out@ =~= before.take(j as int) + seq![x] + before.skip(j as int));
            assert forall|a: int, b: int| 0 <= a <= b < out@.len() implies out@[a] <= out@[b] by {
                if a < j && b == j {
                    assert(out@[a] == before[a]);
                } else if a == j && b > j {
                    assert(out@[b] == before[b - 1]);
                    assert(j < m ==> before[j as int] > x);
                    if b - 1 >= j {
                        assert(before[j as int] <= before[b - 1]);
                    }
                }
            }
            vstd::seq_lib::to_multiset_insert(before, j as int, x);
            vstd::seq_lib::to_multiset_build(v@.take(i as int), x);
            assert(out@.to_multiset() == before.to_multiset().insert(x));
            assert(v@.take(i as int + 1) =~= v@.take(i as int).push(x));
            assert(v@.take(i as int).push(x).to_multiset() =~= v@.take(
                i as int,
            ).to_multiset().insert(x));
        }
        i = i + 1;
    }
    proof {
        assert(v@.take(n as int) =~= v@);
    }
    out
}

/// Lays out the whole history: the buckets staged on disk, sorted
/// ascending, become one commit each between the initial and the final
/// commit; the final commit is dated at the last bucket, or at the
/// repl's creation time when no history was staged.
pub fn plan_commits(bucket_times: &Vec<i64>, origin: i64, pre_existing_git: bool) -> (p: GitPlan)
    ensures
        p.use_side_branch == pre_existing_git,
        spec_sorted_times(p.snapshot_times@),
        p.snapshot_times@.to_multiset() == bucket_times@.to_multiset(),
        p.snapshot_times@.len() == bucket_times@.len(),
        p.final_time == if p.snapshot_times@.len() > 0 {
            p.snapshot_times@.last()
        } else {
            origin
        },
        spec_commit_count(p) == 2 + bucket_times@.len(),
{
    let snapshot_times = sort_times(bucket_times);
    let final_time: i64 = if snapshot_times.len() > 0 {
        snapshot_times[snapshot_times.len() - 1]
    } else {
        origin
    };
    GitPlan { use_side_branch: pre_existing_git, snapshot_times, final_time }
}

impl GitPlan {
    /// The message of the empty commit every repository starts with.
    pub fn initial_message(&self) -> (r: String)
        ensures
            r@ == "Initial Commit"@,
    {
        "Initial Commit".to_owned()
    }

    /// The message of each bucket commit.
    pub fn snapshot_message(&self) -> (r: String)
        ensures
            r@ == "History snapshot"@,
    {
        "History snapshot".to_owned()
    }

    /// The message of the closing commit holding the live contents.
    pub fn final_message(&self) -> (r: String)
        ensures
            r@ == "Final history snapshot"@,
    {
        "Final history snapshot".to_owned()
    }

    /// The branch the history goes to when a repository already existed.
    pub fn side_branch_name(&self) -> (r: String)
        ensures
            r@ == "replit-takeout-history"@,
    {
        "replit-takeout-history".to_owned()
    }

    /// The committer name every commit carries.
    pub fn committer_name(&self) -> (r: String)
        ensures
            r@ == "Replit Takeout"@,
    {
        "Replit Takeout".to_owned()
    }
}

/// What goes into `.gitignore`: appended after a blank line when the file
/// already exists, written as-is otherwise.
pub fn gitignore_text(file_exists: bool) -> (r: String)
    ensures
        file_exists ==> r@
            == "\n\n# Replit Takeout Special Files\n.replit-takeout-otbackup/\n.env"@,
        !file_exists ==> r@ == "# Replit Takeout Special Files\n.replit-takeout-otbackup/\n.env"@,
{
    if file_exists {
        "\n\n# Replit Takeout Special Files\n.replit-takeout-otbackup/\n.env".to_owned()
    } else {
        "# Replit Takeout Special Files\n.replit-takeout-otbackup/\n.env".to_owned()
    }
}

} // verus!
