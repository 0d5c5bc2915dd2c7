//! The per-repl download, seen as a state machine: the rich RPC-based
//! download runs first, and only its failure opens the fallback path that
//! fetches a plain zip without history.

use vstd::prelude::*;

verus! {

/// How a finished repl download was obtained.
#[derive(Debug, Clone, Copy, PartialEq, Eq, Structural)]
pub enum DownloadStatus {
    /// The history-carrying download succeeded.
    Full,
    /// Only the fallback zip succeeded.
    NoHistory,
}

/// The staging directories one repl's download writes into.
#[derive(Debug, Clone, PartialEq, Eq)]
pub struct DownloadLocations {
    pub main: String,
    pub git: String,
    pub staging_git: String,
    pub ot: String,
}

/// The repl a download works on.
#[derive(Debug, Clone, PartialEq, Eq)]
pub struct ReplInfo {
    pub id: String,
    /// The username of the owner of the repl.
    pub username: String,
    pub slug: String,
}

/// Where one repl's download stands.
#[derive(Debug, Clone, Copy, PartialEq, Eq, Structural)]
pub enum ReplPhase {
    /// Nothing attempted yet.
    Start,
    /// The RPC-based download with history is running.
    Crosis,
    /// The RPC path failed; the plain zip download is running.
    Fallback,
    /// A download finished, with or without history.
    Zipped(DownloadStatus),
    /// Both paths failed.
    Failed,
}

/// The transition relation: work starts on the RPC path; its failure and
/// only its failure opens the fallback; the fallback's failure fails the
/// repl. Finished phases stay put.
pub open spec fn spec_repl_step(phase: ReplPhase, ok: bool) -> ReplPhase {
    match phase {
        ReplPhase::Start => ReplPhase::Crosis,
        ReplPhase::Crosis => if ok {
            ReplPhase::Zipped(DownloadStatus::Full)
        } else {
            ReplPhase::Fallback
        },
        ReplPhase::Fallback => if ok {
            ReplPhase::Zipped(DownloadStatus::NoHistory)
        } else {
            ReplPhase::Failed
        },
        ReplPhase::Zipped(s) => ReplPhase::Zipped(s),
        ReplPhase::Failed => ReplPhase::Failed,
    }
}

/// Advances the download one step: `ok` reports whether the phase's work
/// succeeded (ignored when entering the first phase).
pub fn repl_step(phase: ReplPhase, ok: bool) -> (r: ReplPhase)
    ensures
        r == spec_repl_step(phase, ok),
{
    match phase {
        ReplPhase::Start => ReplPhase::Crosis,
        ReplPhase::Crosis => if ok {
            ReplPhase::Zipped(DownloadStatus::Full)
        } else {
            ReplPhase::Fallback
        },
        ReplPhase::Fallback => if ok {
            ReplPhase::Zipped(DownloadStatus::NoHistory)
        } else {
            ReplPhase::Failed
        },
        ReplPhase::Zipped(s) => ReplPhase::Zipped(s),
        ReplPhase::Failed => ReplPhase::Failed,
    }
}

/// The fallback zip path is reached only when the RPC path reported an
/// error: no phase other than a failing `Crosis` steps into `Fallback`.
pub proof fn lemma_fallback_only_after_rpc_error(phase: ReplPhase, ok: bool)
    requires
        spec_repl_step(phase, ok) == ReplPhase::Fallback,
    ensures
        phase == ReplPhase::Crosis,
        !ok,
{
}

/// A delivery without history is reached only through the fallback, so
/// only after the RPC path failed.
pub proof fn lemma_no_history_only_from_fallback(phase: ReplPhase, ok: bool)
    requires
        spec_repl_step(phase, ok) == ReplPhase::Zipped(DownloadStatus::NoHistory),
    ensures
        (phase == ReplPhase::Fallback && ok) || phase == ReplPhase::Zipped(
            DownloadStatus::NoHistory,
        ),
{
}

/// The comma-joined form of a list of ids, as the failed-repls column
/// stores it.
pub open spec fn spec_join_ids(ids: Seq<Seq<char>>) -> Seq<char>
    decreases ids.len(),
{
    if ids.len() == 0 {
        Seq::empty()
    } else if ids.len() == 1 {
        ids[0]
    } else {
        ids[0] + seq![','] + spec_join_ids(ids.skip(1))
    }
}

/// Joining one more id appends a comma first unless the list was empty.
pub proof fn lemma_join_ids_push(ids: Seq<Seq<char>>, s: Seq<char>)
    ensures
        spec_join_ids(ids.push(s)) == if ids.len() == 0 {
            s
        } else {
            spec_join_ids(ids) + seq![','] + s
        },
    decreases ids.len(),
{
    if ids.len() == 0 {
        assert(ids.push(s).len() == 1);
        assert(ids.push(s)[0] == s);
    } else if ids.len() == 1 {
        assert(ids.push(s)[0] == ids[0]);
        assert(ids.push(s).skip(1) =~= ids.skip(1).push(s));
        lemma_join_ids_push(ids.skip(1), s);
        assert(spec_join_ids(ids.push(s)) =~= spec_join_ids(ids) + seq![','] + s);
    } else {
        assert(ids.push(s)[0] == ids[0]);
        assert(ids.push(s).skip(1) =~= ids.skip(1).push(s));
        lemma_join_ids_push(ids.skip(1), s);
        assert(spec_join_ids(ids.push(s)) =~= spec_join_ids(ids) + seq![','] + s);
    }
}

/// Joins ids with commas: empty for none, no trailing separator.
pub fn join_ids(ids: &Vec<String>) -> (r: String)
    ensures
        r@ == spec_join_ids(ids@.map_values(|s: String| s@)),
{
    proof {
        reveal_strlit(",");
    }
    let ghost mapped = ids@.map_values(|s: String| s@);
    let mut r = String::new();
    let n = ids.len();
    let mut i: usize = 0;
    while i < n
        invariant
            i <= n,
            n == ids@.len(),
            mapped == ids@.map_values(|s: String| s@),
            i == 0 || i == n ==> r@ == spec_join_ids(mapped.take(i as int)),
            0 < i < n ==> r@ == spec_join_ids(mapped.take(i as int)) + seq![','],
        decreases n - i,
    {
        let ghost r0 = r@;
        r.append(ids[i].as_str());
        if i + 1 < n {
            r.append(",");
        }
        proof {
            reveal_strlit(",");
            assert(","@ =~= seq![',']);
            assert(mapped.take(i as int + 1) =~= mapped.take(i as int).push(mapped[i as int]));
            lemma_join_ids_push(mapped.take(i as int), mapped[i as int]);
            if i == 0 {
                assert(mapped.take(0int) =~= Seq::<Seq<char>>::empty());
                assert(r0 + mapped[0int] =~= mapped[0int]);
                if 1 < n {
                    assert(r@ =~= spec_join_ids(mapped.take(1int)) + seq![',']);
                } else {
                    assert(r@ =~= spec_join_ids(mapped.take(1int)));
                }
            } else {
                assert(spec_join_ids(mapped.take(i as int + 1)) =~= spec_join_ids(
                    mapped.take(i as int),
                ) + seq![','] + mapped[i as int]);
                if i + 1 < n {
                    assert(r@ =~= spec_join_ids(mapped.take(i as int + 1)) + seq![',']);
                } else {
                    assert(r@ =~= spec_join_ids(mapped.take(i as int + 1)));
                }
            }
        }
        i = i + 1;
    }
    proof {
        assert(mapped.take(n as int) =~= mapped);
        if n == 0 {
            assert(r@ =~= spec_join_ids(mapped));
        }
    }
    r
}

} // verus!
