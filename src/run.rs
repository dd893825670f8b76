//! One lint run, after every linter has finished: the patches to apply and
//! the aggregate to render.
use vstd::prelude::*;
use crate::aggregate::{
    aggregate, conflicting, merge_batch, patch_target, patches_of, patches_view, plan_patches,
    unpatched, without_patches, LintResults, Patch, PatchConflict,
};
use crate::lint_message::LintMessage;
use crate::path::AbsPath;

verus! {

/// The set of paths a person wants to lint.
pub enum PathsOpt {
    /// The files that changed, as version control reports them.
    Auto,
    /// The paths listed in a file, one per line.
    PathsFile(AbsPath),
    /// The paths a shell command prints, one per line.
    PathsCmd(String),
    /// The paths given.
    Paths(Vec<String>),
}

/// The revisions whose changes the automatic paths cover.
pub enum RevisionOpt {
    /// Changes in the head commit and in the working tree.
    Head,
    /// Changes from the revision to the head, and in the working tree.
    Revision(String),
    /// Changes from the merge base of the revision and the head.
    MergeBaseWith(String),
}

/// The record of one run, kept for later inspection.
pub struct RunInfo {
    pub args: Vec<String>,
    pub timestamp: String,
}

/// How a run ended.
pub struct ExitInfo {
    pub code: i32,
    pub err: Option<String>,
}

/// The views of the batches of all linters.
pub open spec fn batches_view(batches: Seq<Vec<LintMessage>>) -> Seq<Seq<LintMessage>> {
    batches.map_values(|b: Vec<LintMessage>| b@)
}

/// All messages of all batches, one batch after the other.
pub open spec fn concat_all(batches: Seq<Seq<LintMessage>>) -> Seq<LintMessage>
    decreases batches.len(),
{
    if batches.len() == 0 {
        Seq::<LintMessage>::empty()
    } else {
        concat_all(batches.drop_last()) + batches.last()
    }
}

/// Each batch without the messages whose fix is applied.
pub open spec fn strip_patches(batches: Seq<Seq<LintMessage>>) -> Seq<Seq<LintMessage>> {
    batches.map_values(|b: Seq<LintMessage>| without_patches(b))
}

/// What a run comes to: the messages to report and the patches to write.
pub struct RunResults {
    pub results: LintResults,
    pub patches: Vec<Patch>,
}

/// Collects the batches of all linters, in the linters' order. Where patches
/// are applied, a conflict fails the run before anything is written;
/// otherwise the patches are handed out and the messages they fix are not
/// reported.
pub fn collect_results(batches: &Vec<Vec<LintMessage>>, should_apply_patches: bool) -> (r: Result<
    RunResults,
    PatchConflict,
>)
    ensures
        r is Err <==> should_apply_patches && conflicting(concat_all(batches_view(batches@))),
        r matches Err(c) ==> exists|i: int, j: int|
            0 <= i < j < concat_all(batches_view(batches@)).len() && patch_target(
                concat_all(batches_view(batches@))[i],
            ) == Some(c.path@) && patch_target(concat_all(batches_view(batches@))[j]) == Some(
                c.path@,
            ),
        r matches Ok(run) ==> {
            &&& run.results.wf()
            &&& run.results@ == aggregate(
                if should_apply_patches {
                    strip_patches(batches_view(batches@))
                } else {
                    batches_view(batches@)
                },
            )
            &&& patches_view(run.patches@) == if should_apply_patches {
                patches_of(concat_all(batches_view(batches@)))
            } else {
                Seq::<(Seq<char>, Seq<char>)>::empty()
            }
        },
{
    let ghost bv = batches_view(batches@);
    let mut patches: Vec<Patch> = Vec::new();
    if should_apply_patches {
        let mut all: Vec<LintMessage> = Vec::new();
        let mut i: usize = 0;
        proof {
            assert(bv.take(0) =~= Seq::<Seq<LintMessage>>::empty());
        }
        while i < batches.len()
            invariant
                bv == batches_view(batches@),
                i <= batches.len(),
                all@ == concat_all(bv.take(i as int)),
            decreases batches.len() - i,
        {
            proof {
                assert(bv.take(i + 1).drop_last() =~= bv.take(i as int));
            }
            let ghost before = all@;
            let mut j: usize = 0;
            while j < batches[i].len()
                invariant
                    i < batches.len(),
                    j <= batches@[i as int]@.len(),
                    all@ == before + batches@[i as int]@.take(j as int),
                decreases batches@[i as int]@.len() - j,
            {
                all.push(batches[i][j].clone());
                proof {
                    assert(before + batches@[i as int]@.take(j + 1) =~= (before
                        + batches@[i as int]@.take(j as int)).push(batches@[i as int]@[j as int]));
                }
                j = j + 1;
            }
            proof {
                assert(batches@[i as int]@.take(j as int) =~= batches@[i as int]@);
            }
            i = i + 1;
        }
        proof {
            assert(bv.take(batches.len() as int) =~= bv);
        }
        match plan_patches(&all) {
            Err(c) => {
                return Err(c);
            },
            Ok(ps) => {
                patches = ps;
            },
        }
    } else {
        assert(patches_view(patches@) =~= Seq::<(Seq<char>, Seq<char>)>::empty());
    }
    let ghost target = if should_apply_patches {
        strip_patches(bv)
    } else {
        bv
    };
    let mut results = LintResults::new();
    let mut i: usize = 0;
    proof {
        assert(target.take(0) =~= Seq::<Seq<LintMessage>>::empty());
    }
    while i < batches.len()
        invariant
            bv == batches_view(batches@),
            target == if should_apply_patches {
                strip_patches(bv)
            } else {
                bv
            },
            i <= batches.len(),
            results.wf(),
            results@ == aggregate(target.take(i as int)),
        decreases batches.len() - i,
    {
        proof {
            assert(target.take(i + 1).drop_last() =~= target.take(i as int));
        }
        if should_apply_patches {
            let kept = unpatched(&batches[i]);
            merge_batch(&mut results, &kept);
        } else {
            merge_batch(&mut results, &batches[i]);
        }
        i = i + 1;
    }
    proof {
        assert(target.take(batches.len() as int) =~= target);
    }
    Ok(RunResults { results, patches })
}

} // verus!
