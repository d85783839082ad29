//! The check that follows a deployment or a removal: for each (skill, agent)
//! pair, whether the store and the disk show what was asked for, the issues
//! to report where they do not, and the error that sums them up. What is on
//! disk is looked at by the caller and handed in as a [`PathState`].
use crate::cli::{deployment_target, is_pair_target};
use crate::skills::SkillTargetRecord;
use crate::text::{decimal, join_lines, join_with, opt_view, push_str, str_eq, strs_view, to_decimal};
use vstd::prelude::*;

verus! {

/// What a look at a deployment's path on disk found.
#[derive(Debug)]
pub enum PathState {
    /// Something is there and it still is this deployment (or that could not
    /// be told).
    Ours,
    /// Something is there, but not this deployment: something else has taken
    /// the path over.
    Foreign,
    /// Nothing is there; the text of the error that said so.
    NotFound(String),
    /// The path could not be looked at; the text of the error.
    Unreadable(String),
}

/// The start of every issue about a pair: `skill@agent: `.
pub open spec fn pair_label(skill_id: Seq<char>, agent: Seq<char>) -> Seq<char> {
    skill_id + "@"@ + agent + ": "@
}

/// Whether the store records the pair as deployed: the first target of the
/// pair is in the `ok` state.
pub open spec fn pair_live(targets: Seq<SkillTargetRecord>, skill_id: Seq<char>, agent: Seq<char>) -> bool {
    exists|k: int|
        0 <= k < targets.len() && is_pair_target(#[trigger] targets[k], skill_id, agent)
            && (forall|t: int| 0 <= t < k ==> !is_pair_target(#[trigger] targets[t], skill_id, agent))
            && targets[k].status@ == "ok"@
}

/// The issue with a pair after a deployment, if any: no live target
/// record, or a live one whose path is not on disk (`state` is what the look
/// at that path found).
pub open spec fn spec_deployed_pair_issue(
    targets: Seq<SkillTargetRecord>,
    skill_id: Seq<char>,
    agent: Seq<char>,
    state: PathState,
) -> Option<Seq<char>> {
    if !pair_live(targets, skill_id, agent) {
        Some(pair_label(skill_id, agent) + "target was not created"@)
    } else {
        match state {
            PathState::NotFound(e) => Some(pair_label(skill_id, agent) + "target is missing ("@ + e@ + ")"@),
            PathState::Unreadable(e) => Some(pair_label(skill_id, agent) + "target is missing ("@ + e@ + ")"@),
            _ => None,
        }
    }
}

/// Appends `skill@agent: ` to `out`.
fn push_label(out: &mut String, skill_id: &str, agent: &str)
    ensures
        final(out)@ == old(out)@ + pair_label(skill_id@, agent@),
{
    push_str(out, skill_id);
    push_str(out, "@");
    push_str(out, agent);
    push_str(out, ": ");
}

/// After deploying `skill_id` to `agent`: the issue to report, or `None`
/// where the pair is deployed. `targets` are the target records after the
/// deployment, and `state` what was found at the path of the pair's live
/// record (it is not read where there is none).
pub fn deployed_pair_issue(
    targets: &Vec<SkillTargetRecord>,
    skill_id: &str,
    agent: &str,
    state: &PathState,
) -> (r: Option<String>)
    ensures
        opt_view(r) == spec_deployed_pair_issue(targets@, skill_id@, agent@, *state),
{
    let live = match deployment_target(targets, skill_id, agent) {
        Some(k) => {
            let ok = str_eq(targets[k].status.as_str(), "ok");
            proof {
                if !ok && pair_live(targets@, skill_id@, agent@) {
                    let w = choose|w: int|
                        0 <= w < targets@.len() && is_pair_target(#[trigger] targets@[w], skill_id@, agent@)
                            && (forall|t: int| 0 <= t < w ==> !is_pair_target(#[trigger] targets@[t], skill_id@, agent@))
                            && targets@[w].status@ == "ok"@;
                    assert(w == k);
                }
            }
            ok
        },
        None => false,
    };
    let mut out = String::new();
    push_label(&mut out, skill_id, agent);
    if !live {
        push_str(&mut out, "target was not created");
        return Some(out);
    }
    match state {
        PathState::NotFound(e) => {
            push_str(&mut out, "target is missing (");
            push_str(&mut out, e.as_str());
            push_str(&mut out, ")");
            Some(out)
        },
        PathState::Unreadable(e) => {
            push_str(&mut out, "target is missing (");
            push_str(&mut out, e.as_str());
            push_str(&mut out, ")");
            Some(out)
        },
        _ => None,
    }
}

/// The issue with one path left behind by a removal, if any: still our
/// deployment, or not to be looked at.
pub open spec fn removal_issue(label: Seq<char>, state: PathState) -> Option<Seq<char>> {
    match state {
        PathState::Ours => Some(label + "target path still exists"@),
        PathState::Unreadable(e) => Some(label + "cannot verify removal ("@ + e@ + ")"@),
        _ => None,
    }
}

/// The issues with the paths left behind by a removal, in order.
pub open spec fn removal_issues(label: Seq<char>, left: Seq<(String, PathState)>) -> Seq<Seq<char>>
    decreases left.len(),
{
    if left.len() == 0 {
        seq![]
    } else {
        removal_issues(label, left.drop_last()) + match removal_issue(label, left.last().1) {
            Some(x) => seq![x],
            None => seq![],
        }
    }
}

/// The paths left behind by a removal that something else has taken over:
/// kept on purpose, in order.
pub open spec fn preserved_paths(left: Seq<(String, PathState)>) -> Seq<Seq<char>>
    decreases left.len(),
{
    if left.len() == 0 {
        seq![]
    } else {
        preserved_paths(left.drop_last()) + match left.last().1 {
            PathState::Foreign => seq![left.last().0@],
            _ => seq![],
        }
    }
}

/// What the check finds for one pair: whether it is verified, the issues
/// to report, and the paths kept on purpose.
pub struct PairCheck {
    pub verified: bool,
    pub issues: Vec<String>,
    pub preserved: Vec<String>,
}

/// After removing `skill_id` from `agent`: a target record of the pair that
/// is still there is the one issue; otherwise each path left behind (the
/// pair's earlier targets whose paths no record uses any more, with what
/// was found there) gives its issue or is kept on purpose, and the pair is
/// verified where no path gave an issue.
pub open spec fn spec_removed_pair_check(
    targets: Seq<SkillTargetRecord>,
    skill_id: Seq<char>,
    agent: Seq<char>,
    left: Seq<(String, PathState)>,
) -> (bool, Seq<Seq<char>>, Seq<Seq<char>>) {
    if exists|k: int| 0 <= k < targets.len() && is_pair_target(#[trigger] targets[k], skill_id, agent) {
        (false, seq![pair_label(skill_id, agent) + "target record still exists"@], seq![])
    } else {
        let issues = removal_issues(pair_label(skill_id, agent), left);
        (issues.len() == 0, issues, preserved_paths(left))
    }
}

/// After removing `skill_id` from `agent`: what the check finds (see
/// [`spec_removed_pair_check`]). `targets` are the target records after the
/// removal; `left` the paths left behind with what was found at each.
pub fn removed_pair_check(
    targets: &Vec<SkillTargetRecord>,
    skill_id: &str,
    agent: &str,
    left: &Vec<(String, PathState)>,
) -> (r: PairCheck)
    ensures
        (r.verified, strs_view(r.issues@), strs_view(r.preserved@)) == spec_removed_pair_check(
            targets@,
            skill_id@,
            agent@,
            left@,
        ),
{
    let mut label = String::new();
    push_label(&mut label, skill_id, agent);
    if let Some(k) = deployment_target(targets, skill_id, agent) {
        let mut issue = String::new();
        push_str(&mut issue, label.as_str());
        push_str(&mut issue, "target record still exists");
        let mut issues = Vec::new();
        issues.push(issue);
        assert(is_pair_target(targets@[k as int], skill_id@, agent@));
        assert(strs_view(issues@) =~= seq![pair_label(skill_id@, agent@) + "target record still exists"@]);
        return PairCheck { verified: false, issues, preserved: Vec::new() };
    }
    let mut issues: Vec<String> = Vec::new();
    let mut preserved: Vec<String> = Vec::new();
    let mut i: usize = 0;
    while i < left.len()
        invariant
            i <= left.len(),
            label@ == pair_label(skill_id@, agent@),
            strs_view(issues@) == removal_issues(label@, left@.take(i as int)),
            strs_view(preserved@) == preserved_paths(left@.take(i as int)),
        decreases left.len() - i,
    {
        let ghost before_i = issues@;
        let ghost before_p = preserved@;
        assert(left@.take(i + 1).drop_last() =~= left@.take(i as int));
        assert(left@.take(i + 1).last() == left@[i as int]);
        let path = &left[i].0;
        match &left[i].1 {
            PathState::Ours => {
                let mut s = String::new();
                push_str(&mut s, label.as_str());
                push_str(&mut s, "target path still exists");
                issues.push(s);
                assert(strs_view(issues@) =~= strs_view(before_i).push(label@ + "target path still exists"@));
            },
            PathState::Unreadable(e) => {
                let mut s = String::new();
                push_str(&mut s, label.as_str());
                push_str(&mut s, "cannot verify removal (");
                push_str(&mut s, e.as_str());
                push_str(&mut s, ")");
                issues.push(s);
                assert(strs_view(issues@) =~= strs_view(before_i).push(
                    label@ + "cannot verify removal ("@ + e@ + ")"@,
                ));
            },
            PathState::Foreign => {
                preserved.push(path.clone());
                assert(strs_view(preserved@) =~= strs_view(before_p).push(path@));
            },
            PathState::NotFound(_) => {},
        }
        i = i + 1;
    }
    assert(left@.take(left.len() as int) =~= left@);
    proof {
        assert(!exists|k: int| 0 <= k < targets@.len() && is_pair_target(#[trigger] targets@[k], skill_id@, agent@));
    }
    PairCheck { verified: issues.len() == 0, issues, preserved }
}

/// The error that a deployment with issues ends in:
/// `deployment incomplete: N pair(s) verified, M verification issue(s): ...`,
/// the issues joined with `; `.
pub open spec fn spec_incomplete_message(verified: nat, issues: Seq<Seq<char>>) -> Seq<char> {
    "deployment incomplete: "@ + decimal(verified) + " pair(s) verified, "@ + decimal(issues.len())
        + " verification issue(s): "@ + join_with(issues, "; "@)
}

/// The error that a deployment with issues ends in (see
/// [`spec_incomplete_message`]), from the number of verified pairs and the
/// issues.
pub fn incomplete_message(verified: usize, issues: &Vec<String>) -> (r: String)
    ensures
        r@ == spec_incomplete_message(verified as nat, strs_view(issues@)),
{
    let mut out = String::new();
    push_str(&mut out, "deployment incomplete: ");
    let a = to_decimal(verified as u128);
    push_str(&mut out, a.as_str());
    push_str(&mut out, " pair(s) verified, ");
    let b = to_decimal(issues.len() as u128);
    push_str(&mut out, b.as_str());
    push_str(&mut out, " verification issue(s): ");
    let j = join_lines(issues, "; ");
    push_str(&mut out, j.as_str());
    out
}

} // verus!
