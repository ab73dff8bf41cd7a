//! Input merging: reconciling fetched scratch paths back into the input set.
//!
//! After all fetch tasks finish, the raw input list is rewritten: every entry
//! classified as a remote source is removed, the non-remote entries keep their
//! relative order, and the fetched local paths are appended afterwards. When
//! any fetch failed, no merged list is produced at all; the first failing
//! source's URI is reported instead.

use vstd::prelude::*;

use crate::classify::{is_git, is_git_spec};
use crate::paths::classified;

verus! {

/// The non-remote entries of an input list, in order.
pub open spec fn retained(inputs: Seq<Seq<char>>) -> Seq<Seq<char>>
    decreases inputs.len(),
{
    if inputs.len() == 0 {
        Seq::empty()
    } else if !is_git_spec(inputs.last()) {
        retained(inputs.drop_last()).push(inputs.last())
    } else {
        retained(inputs.drop_last())
    }
}

/// Law: every input entry is either retained or classified as remote, so the
/// two partitions account for the whole list.
pub proof fn lemma_partition_counts(inputs: Seq<Seq<char>>)
    ensures
        retained(inputs).len() + classified(inputs).len() == inputs.len(),
    decreases inputs.len(),
{
    if inputs.len() > 0 {
        lemma_partition_counts(inputs.drop_last());
    }
}

/// Law: no retained entry is remote-looking.
pub proof fn lemma_retained_not_remote(inputs: Seq<Seq<char>>)
    ensures
        forall|k: int|
            0 <= k < retained(inputs).len() ==> !is_git_spec(#[trigger] retained(inputs)[k]),
    decreases inputs.len(),
{
    if inputs.len() > 0 {
        lemma_retained_not_remote(inputs.drop_last());
        assert forall|k: int|
            0 <= k < retained(inputs).len() implies !is_git_spec(
            #[trigger] retained(inputs)[k],
        ) by {
            if !is_git_spec(inputs.last()) {
                if k < retained(inputs.drop_last()).len() {
                    assert(retained(inputs)[k] == retained(inputs.drop_last())[k]);
                } else {
                    assert(retained(inputs)[k] == inputs.last());
                }
            } else {
                assert(retained(inputs)[k] == retained(inputs.drop_last())[k]);
            }
        }
    }
}

/// Law: a merged list replaces the classified remote references, exactly one
/// appended fetched path per classified source, keeps the non-remote entries
/// first, and — as long as the fetched paths themselves do not look remote —
/// holds no remote-looking entry at all.
pub proof fn lemma_merge_shape(inputs: Seq<Seq<char>>, fetched: Seq<Seq<char>>)
    requires
        forall|k: int| 0 <= k < fetched.len() ==> !is_git_spec(#[trigger] fetched[k]),
    ensures
        (retained(inputs) + fetched).len() == inputs.len() - classified(inputs).len()
            + fetched.len(),
        forall|k: int|
            0 <= k < (retained(inputs) + fetched).len() ==> !is_git_spec(
                #[trigger] (retained(inputs) + fetched)[k],
            ),
        forall|k: int|
            0 <= k < fetched.len() ==> (retained(inputs) + fetched)[retained(inputs).len() + k]
                == fetched[k],
{
    lemma_partition_counts(inputs);
    lemma_retained_not_remote(inputs);
    assert forall|k: int|
        0 <= k < (retained(inputs) + fetched).len() implies !is_git_spec(
        (retained(inputs) + fetched)[k],
    ) by {
        if k < retained(inputs).len() {
            assert((retained(inputs) + fetched)[k] == retained(inputs)[k]);
        } else {
            assert((retained(inputs) + fetched)[k] == fetched[k - retained(inputs).len()]);
        }
    }
}

/// Rewrites the input list: classified remote entries are dropped, the
/// non-remote entries keep their order, and the fetched local paths are
/// appended afterwards.
pub fn merge_inputs(input: &Vec<String>, fetched: &Vec<String>) -> (r: Vec<String>)
    ensures
        r.deep_view() == retained(input.deep_view()) + fetched.deep_view(),
{
    let ghost dv = input.deep_view();
    let ghost fv = fetched.deep_view();
    let mut out: Vec<String> = Vec::new();
    let mut i: usize = 0;
    while i < input.len()
        invariant
            dv == input.deep_view(),
            fv == fetched.deep_view(),
            dv.len() == input@.len(),
            forall|k: int| 0 <= k < dv.len() ==> #[trigger] dv[k] == input@[k]@,
            0 <= i <= input@.len(),
            out@.len() == retained(dv.subrange(0, i as int)).len(),
            forall|k: int|
                0 <= k < out@.len() ==> (#[trigger] out@[k])@ == retained(
                    dv.subrange(0, i as int),
                )[k],
        decreases input@.len() - i,
    {
        let ghost pre = dv.subrange(0, i as int);
        let ghost pre1 = dv.subrange(0, i + 1);
        proof {
            assert(pre1.drop_last() =~= pre);
            assert(pre1.last() == dv[i as int]);
        }
        let entry: &String = &input[i];
        if !is_git(entry.as_str()) {
            out.push(entry.clone());
        }
        i += 1;
    }
    proof {
        assert(dv.subrange(0, dv.len() as int) =~= dv);
    }
    let ghost base = retained(dv).len();
    let mut j: usize = 0;
    while j < fetched.len()
        invariant
            dv == input.deep_view(),
            fv == fetched.deep_view(),
            fv.len() == fetched@.len(),
            forall|k: int| 0 <= k < fv.len() ==> #[trigger] fv[k] == fetched@[k]@,
            base == retained(dv).len(),
            0 <= j <= fetched@.len(),
            out@.len() == base + j,
            forall|k: int| 0 <= k < base ==> (#[trigger] out@[k])@ == retained(dv)[k],
            forall|k: int| base <= k < base + j ==> (#[trigger] out@[k])@ == fv[k - base],
        decreases fetched@.len() - j,
    {
        out.push(fetched[j].clone());
        j += 1;
    }
    proof {
        assert forall|k: int|
            0 <= k < out@.len() implies out.deep_view()[k] == (retained(dv) + fv)[k] by {
            assert(out.deep_view()[k] == out@[k]@);
        }
        assert(out.deep_view() =~= retained(dv) + fv);
    }
    out
}

/// What one fetch task came back with: the local path it populated, or the
/// URI it could not clone.
pub enum FetchOutcome {
    Fetched(String),
    Failed(String),
}

/// The local paths of an all-successful outcome list.
pub open spec fn fetched_paths(outs: Seq<FetchOutcome>) -> Seq<Seq<char>> {
    Seq::new(
        outs.len(),
        |i: int|
            match outs[i] {
                FetchOutcome::Fetched(p) => p@,
                FetchOutcome::Failed(u) => u@,
            },
    )
}

/// Reconciles the fetch outcomes with the raw input list. Succeeds with the
/// merged list exactly when every fetch succeeded; otherwise reports the URI
/// of the first failed source, and no merged list exists for the caller to
/// hand to the statistics engine.
pub fn merge_after_fetch(input: &Vec<String>, outcomes: Vec<FetchOutcome>) -> (r: Result<
    Vec<String>,
    String,
>)
    ensures
        match r {
            Ok(v) => {
                &&& forall|k: int| 0 <= k < outcomes@.len() ==> #[trigger] outcomes@[k] is Fetched
                &&& v.deep_view() == retained(input.deep_view()) + fetched_paths(outcomes@)
            },
            Err(u) => {
                exists|k: int|
                    {
                        &&& 0 <= k < outcomes@.len()
                        &&& #[trigger] outcomes@[k] is Failed
                        &&& u@ == outcomes@[k]->Failed_0@
                        &&& forall|j: int| 0 <= j < k ==> outcomes@[j] is Fetched
                    }
            },
        },
{
    let mut paths: Vec<String> = Vec::new();
    let mut i: usize = 0;
    while i < outcomes.len()
        invariant
            0 <= i <= outcomes@.len(),
            forall|k: int| 0 <= k < i ==> #[trigger] outcomes@[k] is Fetched,
            paths@.len() == i,
            forall|k: int| 0 <= k < i ==> (#[trigger] paths@[k])@ == fetched_paths(outcomes@)[k],
        decreases outcomes@.len() - i,
    {
        match &outcomes[i] {
            FetchOutcome::Fetched(p) => {
                paths.push(p.clone());
            },
            FetchOutcome::Failed(u) => {
                return Err(u.clone());
            },
        }
        i += 1;
    }
    proof {
        assert forall|k: int|
            0 <= k < paths@.len() implies paths.deep_view()[k] == fetched_paths(outcomes@)[k] by {
            assert(paths.deep_view()[k] == paths@[k]@);
        }
        assert(paths.deep_view() =~= fetched_paths(outcomes@));
    }
    Ok(merge_inputs(input, &paths))
}

} // verus!
