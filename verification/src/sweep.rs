//! The sweep orchestrator, as a state machine that a host program drives:
//! each step consumes the outcome of the previous action (a subprocess call
//! or a prompt) and yields the next state and the next action.  The host
//! performs the actions; every decision is taken here.

use vstd::prelude::*;

use crate::parse::{
    exclude_skips, exclude_spec, list_local_merged, list_remote_candidates, local_merged_spec,
    merged_verdict, remote_candidates_spec, trim_str,
};
use crate::text::trim_spec;

verus! {

/// The parameters of one sweep, fixed for its whole run.
pub struct SweepParams {
    /// Remote scope (delete on the remote) or local scope (delete local refs).
    pub remote: bool,
    /// The remote's name; read only in remote scope.
    pub origin: String,
    /// The baseline branch that merge status is judged against.
    pub master: String,
    /// Fetch from the remote before listing; read only in remote scope.
    pub fetch: bool,
    /// Branch names excluded from the sweep.
    pub skips: Vec<String>,
    /// Preview only: report and suggest, never delete.
    pub dry_run: bool,
    /// Delete without asking for confirmation.
    pub force: bool,
}

/// Where the sweep stands between two actions.
pub enum SweepState {
    Start,
    Fetching,
    Listing,
    Classifying { pending: Vec<String>, idx: usize, merged: Vec<String> },
    Reported { merged: Vec<String> },
    Confirming { merged: Vec<String> },
    Deleting { merged: Vec<String>, next: usize },
    Done { ok: bool },
}

/// The outcome of the previous action, fed back by the host.
pub enum SweepEvent {
    Begin,
    Fetched { ok: bool },
    Listed { ok: bool, output: String },
    Compared { ok: bool, output: String },
    Proceed,
    Answered { text: String },
    Deleted { ok: bool },
}

/// What the host must do next.
pub enum SweepAction {
    RunFetch { origin: String },
    RunListRemote { origin: String },
    RunListLocal { master: String },
    RunCompare { origin: String, master: String, branch: String },
    Report { merged: Vec<String>, suggestion: Option<String> },
    AskConfirm,
    RunDeleteRemote { origin: String, branch: String },
    RunDeleteLocal { branch: String },
    Stop { ok: bool },
}

/// Which event each state waits for.
pub open spec fn accepts(s: SweepState, e: SweepEvent) -> bool {
    match (s, e) {
        (SweepState::Start, SweepEvent::Begin) => true,
        (SweepState::Fetching, SweepEvent::Fetched { .. }) => true,
        (SweepState::Listing, SweepEvent::Listed { .. }) => true,
        (SweepState::Classifying { .. }, SweepEvent::Compared { .. }) => true,
        (SweepState::Reported { .. }, SweepEvent::Proceed) => true,
        (SweepState::Confirming { .. }, SweepEvent::Answered { .. }) => true,
        (SweepState::Deleting { .. }, SweepEvent::Deleted { .. }) => true,
        _ => false,
    }
}

/// What holds of every state the machine can reach.  In particular a
/// preview (dry run) never stands in a confirming or deleting state.
pub open spec fn state_inv(p: SweepParams, s: SweepState) -> bool {
    match s {
        SweepState::Classifying { pending, idx, merged } => {
            &&& p.remote
            &&& (idx as int) < pending.deep_view().len()
            &&& merged.deep_view().len() <= idx as int
        },
        SweepState::Confirming { merged } => {
            &&& !p.dry_run
            &&& merged.deep_view().len() > 0
        },
        SweepState::Deleting { merged, next } => {
            &&& !p.dry_run
            &&& (next as int) < merged.deep_view().len()
        },
        _ => true,
    }
}

/// The names joined with commas, for the suggested follow-up command.
pub open spec fn join_comma(xs: Seq<Seq<char>>) -> Seq<char>
    decreases xs.len(),
{
    if xs.len() == 0 {
        Seq::<char>::empty()
    } else if xs.len() == 1 {
        xs[0]
    } else {
        xs[0] + seq![','] + join_comma(xs.drop_first())
    }
}

pub proof fn lemma_join_comma_push(s: Seq<Seq<char>>, x: Seq<char>)
    requires
        s.len() >= 1,
    ensures
        join_comma(s.push(x)) == join_comma(s) + seq![','] + x,
    decreases s.len(),
{
    if s.len() == 1 {
        assert(s.push(x).drop_first() =~~= seq![x]);
        assert(join_comma(seq![x]) == x);
        assert(s.push(x)[0] == s[0]);
    } else {
        assert(s.push(x).drop_first() =~~= s.drop_first().push(x));
        lemma_join_comma_push(s.drop_first(), x);
        assert(s[0] + seq![','] + (join_comma(s.drop_first()) + seq![','] + x) =~= (s[0]
            + seq![','] + join_comma(s.drop_first())) + seq![','] + x);
        assert(s.push(x)[0] == s[0]);
    }
}

/// The skip names joined with commas.
pub fn join_with_commas(xs: &Vec<String>) -> (r: String)
    ensures
        r@ == join_comma(xs.deep_view()),
{
    let mut r = String::new();
    if xs.len() == 0 {
        return r;
    }
    r.append(xs[0].as_str());
    proof {
        assert(Seq::<char>::empty() + xs.deep_view()[0] =~= xs.deep_view()[0]);
        assert(xs.deep_view().take(1) =~= seq![xs.deep_view()[0]]);
        assert(join_comma(seq![xs.deep_view()[0]]) == xs.deep_view()[0]);
    }
    let mut i: usize = 1;
    while i < xs.len()
        invariant
            1 <= i <= xs.len(),
            xs.deep_view().len() == xs@.len(),
            r@ == join_comma(xs.deep_view().take(i as int)),
        decreases xs.len() - i,
    {
        r.append(",");
        r.append(xs[i].as_str());
        proof {
            reveal_strlit(",");
            assert(","@ =~= seq![',']);
            lemma_join_comma_push(xs.deep_view().take(i as int), xs.deep_view()[i as int]);
            assert(xs.deep_view().take(i + 1) =~= xs.deep_view().take(i as int).push(
                xs.deep_view()[i as int],
            ));
        }
        i = i + 1;
    }
    proof {
        assert(xs.deep_view().take(xs.len() as int) =~= xs.deep_view());
    }
    r
}

/// The ready-to-paste cleanup command that a remote preview suggests.
pub open spec fn remote_suggestion_spec(
    origin: Seq<char>,
    master: Seq<char>,
    fetch: bool,
    skips: Seq<Seq<char>>,
) -> Seq<char> {
    "git-sweep cleanup --origin "@ + origin + " --master "@ + master + (if !fetch {
        " --nofetch"@
    } else {
        Seq::<char>::empty()
    }) + (if skips.len() > 0 {
        " --skip "@ + join_comma(skips)
    } else {
        Seq::<char>::empty()
    })
}

/// The ready-to-paste cleanup command that a local preview suggests.
pub open spec fn local_suggestion_spec(master: Seq<char>, skips: Seq<Seq<char>>) -> Seq<char> {
    "git-sweep-rs cleanup-local --master "@ + master + (if skips.len() > 0 {
        " --skip "@ + join_comma(skips)
    } else {
        Seq::<char>::empty()
    })
}

pub fn remote_suggestion(origin: &str, master: &str, fetch: bool, skips: &Vec<String>) -> (r:
    String)
    ensures
        r@ == remote_suggestion_spec(origin@, master@, fetch, skips.deep_view()),
{
    let mut r = String::from_str("git-sweep cleanup --origin ");
    r.append(origin);
    r.append(" --master ");
    r.append(master);
    if !fetch {
        r.append(" --nofetch");
    }
    if skips.len() > 0 {
        r.append(" --skip ");
        let joined = join_with_commas(skips);
        r.append(joined.as_str());
    }
    proof {
        assert(r@ =~= remote_suggestion_spec(origin@, master@, fetch, skips.deep_view()));
    }
    r
}

pub fn local_suggestion(master: &str, skips: &Vec<String>) -> (r: String)
    ensures
        r@ == local_suggestion_spec(master@, skips.deep_view()),
{
    let mut r = String::from_str("git-sweep-rs cleanup-local --master ");
    r.append(master);
    if skips.len() > 0 {
        r.append(" --skip ");
        let joined = join_with_commas(skips);
        r.append(joined.as_str());
    }
    proof {
        assert(r@ =~= local_suggestion_spec(master@, skips.deep_view()));
    }
    r
}

/// Does a confirmation answer count as yes: its trimmed form starts with
/// `y` or `Y`.
pub open spec fn answer_yes(t: Seq<char>) -> bool {
    trim_spec(t).len() > 0 && (trim_spec(t)[0] == 'y' || trim_spec(t)[0] == 'Y')
}

pub fn is_affirmative(answer: &str) -> (r: bool)
    ensures
        r == answer_yes(answer@),
{
    let t = trim_str(answer);
    if t.as_str().unicode_len() == 0 {
        return false;
    }
    let c = t.as_str().get_char(0);
    c == 'y' || c == 'Y'
}

/// The merged branch list a remote sweep reports for enumeration output
/// `output`: listed candidates with the baseline, the head marker and the
/// skip set excluded (classification then walks this list).
pub open spec fn remote_cands_of(p: SweepParams, output: Seq<char>) -> Seq<Seq<char>> {
    exclude_spec(
        remote_candidates_spec(output, p.origin@, p.master@),
        p.master@,
        p.skips.deep_view(),
    )
}

/// The merged branch list a local sweep reports for enumeration output
/// `output`: the tool reports merge status directly, so no classification
/// pass follows.
pub open spec fn local_list_of(p: SweepParams, output: Seq<char>) -> Seq<Seq<char>> {
    exclude_spec(local_merged_spec(output, p.master@), p.master@, p.skips.deep_view())
}

pub open spec fn suggestion_spec(p: SweepParams) -> Seq<char> {
    if p.remote {
        remote_suggestion_spec(p.origin@, p.master@, p.fetch, p.skips.deep_view())
    } else {
        local_suggestion_spec(p.master@, p.skips.deep_view())
    }
}

/// The reporting action for merged list `m`: carries the list, and in a
/// preview with a non-empty list also the suggested follow-up command.
pub open spec fn report_matches(p: SweepParams, m: Seq<Seq<char>>, a: SweepAction) -> bool {
    &&& a matches SweepAction::Report { merged, suggestion }
    &&& merged.deep_view() == m
    &&& if p.dry_run && m.len() > 0 {
        suggestion matches Some(sg) && sg@ == suggestion_spec(p)
    } else {
        suggestion is None
    }
}

/// The comparison action for candidate `b`.
pub open spec fn compare_matches(p: SweepParams, b: Seq<char>, a: SweepAction) -> bool {
    &&& a matches SweepAction::RunCompare { origin, master, branch }
    &&& origin@ == p.origin@
    &&& master@ == p.master@
    &&& branch@ == b
}

/// The deletion action for branch `b` in the sweep's scope.
pub open spec fn delete_matches(p: SweepParams, b: Seq<char>, a: SweepAction) -> bool {
    if p.remote {
        &&& a matches SweepAction::RunDeleteRemote { origin, branch }
        &&& origin@ == p.origin@
        &&& branch@ == b
    } else {
        &&& a matches SweepAction::RunDeleteLocal { branch }
        &&& branch@ == b
    }
}

pub open spec fn is_delete_action(a: SweepAction) -> bool {
    a is RunDeleteRemote || a is RunDeleteLocal
}

pub open spec fn done_state(ok: bool, s: SweepState) -> bool {
    s matches SweepState::Done { ok: o } && o == ok
}

pub open spec fn stop_action(ok: bool, a: SweepAction) -> bool {
    a matches SweepAction::Stop { ok: o } && o == ok
}

/// The transition relation of the sweep: from state `s` under event `e`,
/// the machine moves to `s2` and asks the host to perform `a`.
pub open spec fn sweep_step(
    p: SweepParams,
    s: SweepState,
    e: SweepEvent,
    s2: SweepState,
    a: SweepAction,
) -> bool {
    match (s, e) {
        (SweepState::Start, SweepEvent::Begin) => if p.remote && p.fetch {
            &&& s2 is Fetching
            &&& a matches SweepAction::RunFetch { origin }
            &&& origin@ == p.origin@
        } else if p.remote {
            &&& s2 is Listing
            &&& a matches SweepAction::RunListRemote { origin }
            &&& origin@ == p.origin@
        } else {
            &&& s2 is Listing
            &&& a matches SweepAction::RunListLocal { master }
            &&& master@ == p.master@
        },
        (SweepState::Fetching, SweepEvent::Fetched { ok }) => if ok {
            &&& s2 is Listing
            &&& a matches SweepAction::RunListRemote { origin }
            &&& origin@ == p.origin@
        } else {
            done_state(false, s2) && stop_action(false, a)
        },
        (SweepState::Listing, SweepEvent::Listed { ok, output }) => if !ok {
            done_state(false, s2) && stop_action(false, a)
        } else if p.remote {
            let cands = remote_cands_of(p, output@);
            if cands.len() == 0 {
                &&& s2 matches SweepState::Reported { merged }
                &&& merged.deep_view() == cands
                &&& report_matches(p, cands, a)
            } else {
                &&& s2 matches SweepState::Classifying { pending, idx, merged }
                &&& pending.deep_view() == cands
                &&& idx == 0
                &&& merged.deep_view().len() == 0
                &&& compare_matches(p, cands[0], a)
            }
        } else {
            let m = local_list_of(p, output@);
            &&& s2 matches SweepState::Reported { merged }
            &&& merged.deep_view() == m
            &&& report_matches(p, m, a)
        },
        (
            SweepState::Classifying { pending, idx, merged },
            SweepEvent::Compared { ok, output },
        ) => {
            let m2 = if ok && output@.len() == 0 {
                merged.deep_view().push(pending.deep_view()[idx as int])
            } else {
                merged.deep_view()
            };
            if idx as int + 1 < pending.deep_view().len() {
                &&& s2 matches SweepState::Classifying { pending: q, idx: j, merged: mm }
                &&& q.deep_view() == pending.deep_view()
                &&& j as int == idx as int + 1
                &&& mm.deep_view() == m2
                &&& compare_matches(p, pending.deep_view()[idx as int + 1], a)
            } else {
                &&& s2 matches SweepState::Reported { merged: mm }
                &&& mm.deep_view() == m2
                &&& report_matches(p, m2, a)
            }
        },
        (SweepState::Reported { merged }, SweepEvent::Proceed) => if p.dry_run
            || merged.deep_view().len() == 0 {
            done_state(true, s2) && stop_action(true, a)
        } else if p.force {
            &&& s2 matches SweepState::Deleting { merged: m, next }
            &&& m.deep_view() == merged.deep_view()
            &&& next == 0
            &&& delete_matches(p, merged.deep_view()[0], a)
        } else {
            &&& s2 matches SweepState::Confirming { merged: m }
            &&& m.deep_view() == merged.deep_view()
            &&& a is AskConfirm
        },
        (SweepState::Confirming { merged }, SweepEvent::Answered { text }) => if answer_yes(
            text@,
        ) {
            &&& s2 matches SweepState::Deleting { merged: m, next }
            &&& m.deep_view() == merged.deep_view()
            &&& next == 0
            &&& delete_matches(p, merged.deep_view()[0], a)
        } else {
            done_state(true, s2) && stop_action(true, a)
        },
        (SweepState::Deleting { merged, next }, SweepEvent::Deleted { ok }) => if !ok {
            done_state(false, s2) && stop_action(false, a)
        } else if next as int + 1 < merged.deep_view().len() {
            &&& s2 matches SweepState::Deleting { merged: m, next: n2 }
            &&& m.deep_view() == merged.deep_view()
            &&& n2 as int == next as int + 1
            &&& delete_matches(p, merged.deep_view()[next as int + 1], a)
        } else {
            done_state(true, s2) && stop_action(true, a)
        },
        _ => false,
    }
}

fn clone_names(m: &Vec<String>) -> (r: Vec<String>)
    ensures
        r.deep_view() == m.deep_view(),
{
    let mut r: Vec<String> = Vec::new();
    let mut i: usize = 0;
    while i < m.len()
        invariant
            i <= m.len(),
            r.deep_view() == m.deep_view().take(i as int),
        decreases m.len() - i,
    {
        let ghost old_dv = r.deep_view();
        r.push(m[i].clone());
        proof {
            assert(r.deep_view() =~= old_dv.push(m.deep_view()[i as int]));
            assert(m.deep_view().take(i + 1) =~= m.deep_view().take(i as int).push(
                m.deep_view()[i as int],
            ));
        }
        i = i + 1;
    }
    proof {
        assert(m.deep_view().take(m.len() as int) =~= m.deep_view());
    }
    r
}

fn report_action(p: &SweepParams, m: &Vec<String>) -> (a: SweepAction)
    ensures
        report_matches(*p, m.deep_view(), a),
{
    let suggestion: Option<String> = if p.dry_run && m.len() > 0 {
        if p.remote {
            Some(remote_suggestion(p.origin.as_str(), p.master.as_str(), p.fetch, &p.skips))
        } else {
            Some(local_suggestion(p.master.as_str(), &p.skips))
        }
    } else {
        None
    };
    SweepAction::Report { merged: clone_names(m), suggestion }
}

fn delete_action(p: &SweepParams, b: String) -> (a: SweepAction)
    ensures
        delete_matches(*p, b@, a),
{
    if p.remote {
        SweepAction::RunDeleteRemote { origin: p.origin.clone(), branch: b }
    } else {
        SweepAction::RunDeleteLocal { branch: b }
    }
}

/// One step of the sweep: the decision logic of the whole workflow.
/// The host performs `r.1` and feeds the outcome back as the next event.
pub fn sweep_next(p: &SweepParams, s: SweepState, e: SweepEvent) -> (r: (SweepState, SweepAction))
    requires
        accepts(s, e),
        state_inv(*p, s),
    ensures
        sweep_step(*p, s, e, r.0, r.1),
        state_inv(*p, r.0),
{
    match (s, e) {
        (SweepState::Start, SweepEvent::Begin) => {
            if p.remote && p.fetch {
                (SweepState::Fetching, SweepAction::RunFetch { origin: p.origin.clone() })
            } else if p.remote {
                (SweepState::Listing, SweepAction::RunListRemote { origin: p.origin.clone() })
            } else {
                (SweepState::Listing, SweepAction::RunListLocal { master: p.master.clone() })
            }
        },
        (SweepState::Fetching, SweepEvent::Fetched { ok }) => {
            if ok {
                (SweepState::Listing, SweepAction::RunListRemote { origin: p.origin.clone() })
            } else {
                (SweepState::Done { ok: false }, SweepAction::Stop { ok: false })
            }
        },
        (SweepState::Listing, SweepEvent::Listed { ok, output }) => {
            if !ok {
                (SweepState::Done { ok: false }, SweepAction::Stop { ok: false })
            } else if p.remote {
                let listed = list_remote_candidates(
                    output.as_str(),
                    p.origin.as_str(),
                    p.master.as_str(),
                );
                let cands = exclude_skips(&listed, p.master.as_str(), &p.skips);
                if cands.len() == 0 {
                    let act = report_action(p, &cands);
                    (SweepState::Reported { merged: cands }, act)
                } else {
                    let b = cands[0].clone();
                    let act = SweepAction::RunCompare {
                        origin: p.origin.clone(),
                        master: p.master.clone(),
                        branch: b,
                    };
                    (SweepState::Classifying { pending: cands, idx: 0, merged: Vec::new() }, act)
                }
            } else {
                let listed = list_local_merged(output.as_str(), p.master.as_str());
                let m = exclude_skips(&listed, p.master.as_str(), &p.skips);
                let act = report_action(p, &m);
                (SweepState::Reported { merged: m }, act)
            }
        },
        (SweepState::Classifying { pending, idx, merged }, SweepEvent::Compared { ok, output }) => {
            proof {
                assert(pending.deep_view().len() == pending@.len());
                assert(pending.len() == pending@.len());
            }
            let keep_it = merged_verdict(ok, output.as_str());
            let mut m2 = merged;
            let ghost old_dv = m2.deep_view();
            if keep_it {
                m2.push(pending[idx].clone());
                proof {
                    assert(m2.deep_view() =~= old_dv.push(pending.deep_view()[idx as int]));
                }
            }
            if idx + 1 < pending.len() {
                let b = pending[idx + 1].clone();
                let act = SweepAction::RunCompare {
                    origin: p.origin.clone(),
                    master: p.master.clone(),
                    branch: b,
                };
                (SweepState::Classifying { pending, idx: idx + 1, merged: m2 }, act)
            } else {
                let act = report_action(p, &m2);
                (SweepState::Reported { merged: m2 }, act)
            }
        },
        (SweepState::Reported { merged }, SweepEvent::Proceed) => {
            if p.dry_run || merged.len() == 0 {
                (SweepState::Done { ok: true }, SweepAction::Stop { ok: true })
            } else if p.force {
                let b = merged[0].clone();
                let act = delete_action(p, b);
                (SweepState::Deleting { merged, next: 0 }, act)
            } else {
                (SweepState::Confirming { merged }, SweepAction::AskConfirm)
            }
        },
        (SweepState::Confirming { merged }, SweepEvent::Answered { text }) => {
            if is_affirmative(text.as_str()) {
                let b = merged[0].clone();
                let act = delete_action(p, b);
                (SweepState::Deleting { merged, next: 0 }, act)
            } else {
                (SweepState::Done { ok: true }, SweepAction::Stop { ok: true })
            }
        },
        (SweepState::Deleting { merged, next }, SweepEvent::Deleted { ok }) => {
            proof {
                assert(merged.deep_view().len() == merged@.len());
                assert(merged.len() == merged@.len());
            }
            if !ok {
                (SweepState::Done { ok: false }, SweepAction::Stop { ok: false })
            } else if next + 1 < merged.len() {
                let b = merged[next + 1].clone();
                let act = delete_action(p, b);
                (SweepState::Deleting { merged, next: next + 1 }, act)
            } else {
                (SweepState::Done { ok: true }, SweepAction::Stop { ok: true })
            }
        },
        _ => {
            proof {
                assert(false);
            }
            (SweepState::Done { ok: false }, SweepAction::Stop { ok: false })
        },
    }
}

/// Every transition keeps the reachable-state invariant.
pub proof fn lemma_step_preserves_inv(
    p: SweepParams,
    s: SweepState,
    e: SweepEvent,
    s2: SweepState,
    a: SweepAction,
)
    requires
        state_inv(p, s),
        sweep_step(p, s, e, s2, a),
    ensures
        state_inv(p, s2),
{
}

/// A preview never mutates the repository: under the dry-run flag no
/// reachable transition issues a delete action, and the machine never
/// reaches a deleting state.
pub proof fn lemma_preview_never_deletes(
    p: SweepParams,
    s: SweepState,
    e: SweepEvent,
    s2: SweepState,
    a: SweepAction,
)
    requires
        p.dry_run,
        state_inv(p, s),
        sweep_step(p, s, e, s2, a),
    ensures
        !is_delete_action(a),
        !(s2 is Deleting),
        !(s2 is Confirming),
        state_inv(p, s2),
{
}

/// Forced cleanup on a non-empty merged list proceeds straight to deleting
/// its first branch, with no confirmation asked.
pub proof fn lemma_force_deletes_first(
    p: SweepParams,
    merged: Vec<String>,
    s2: SweepState,
    a: SweepAction,
)
    requires
        !p.dry_run,
        p.force,
        merged.deep_view().len() > 0,
        sweep_step(p, SweepState::Reported { merged }, SweepEvent::Proceed, s2, a),
    ensures
        delete_matches(p, merged.deep_view()[0], a),
        ({
            &&& s2 matches SweepState::Deleting { merged: m, next }
            &&& m.deep_view() == merged.deep_view()
            &&& next == 0
        }),
{
}

/// Deletion handles the branches in list order, one delete per branch: after
/// a success the next branch follows (or the sweep finishes after the last),
/// and a failure halts the sweep at once with no further delete issued.
pub proof fn lemma_deletes_in_order(
    p: SweepParams,
    merged: Vec<String>,
    next: usize,
    ok: bool,
    s2: SweepState,
    a: SweepAction,
)
    requires
        (next as int) < merged.deep_view().len(),
        sweep_step(
            p,
            SweepState::Deleting { merged, next },
            SweepEvent::Deleted { ok },
            s2,
            a,
        ),
    ensures
        ok && next as int + 1 < merged.deep_view().len() ==> ({
            &&& s2 matches SweepState::Deleting { merged: m, next: n2 }
            &&& m.deep_view() == merged.deep_view()
            &&& n2 as int == next as int + 1
            &&& delete_matches(p, merged.deep_view()[next as int + 1], a)
        }),
        ok && next as int + 1 == merged.deep_view().len() ==> done_state(true, s2)
            && stop_action(true, a) && !is_delete_action(a),
        !ok ==> done_state(false, s2) && stop_action(false, a) && !is_delete_action(a),
{
}

/// Did a comparison event report its candidate as merged: the comparison
/// succeeded and its output was empty.
pub open spec fn event_merged(e: SweepEvent) -> bool {
    e matches SweepEvent::Compared { ok, output } && ok && output@.len() == 0
}

/// The merged list after the first `i` comparison events: the candidates
/// reported merged, in candidate order.
pub open spec fn classified(
    pdv: Seq<Seq<char>>,
    events: Seq<SweepEvent>,
    i: int,
) -> Seq<Seq<char>>
    decreases i,
{
    if i <= 0 {
        Seq::<Seq<char>>::empty()
    } else {
        classified(pdv, events, i - 1) + (if event_merged(events[i - 1]) {
            seq![pdv[i - 1]]
        } else {
            Seq::<Seq<char>>::empty()
        })
    }
}

/// Along the classification phase, the machine walks the candidates in
/// order and carries exactly the ones reported merged so far.
pub proof fn lemma_classification_at(
    p: SweepParams,
    pending: Vec<String>,
    merged0: Vec<String>,
    states: Seq<SweepState>,
    events: Seq<SweepEvent>,
    actions: Seq<SweepAction>,
    j: int,
)
    requires
        states.len() == actions.len() + 1,
        events.len() == actions.len(),
        actions.len() == pending.deep_view().len(),
        merged0.deep_view().len() == 0,
        states[0] == (SweepState::Classifying { pending, idx: 0, merged: merged0 }),
        forall|i: int|
            0 <= i < actions.len() ==> sweep_step(
                p,
                #[trigger] states[i],
                events[i],
                states[i + 1],
                actions[i],
            ),
        0 <= j < actions.len(),
    ensures
        ({
            &&& states[j] matches SweepState::Classifying { pending: q, idx, merged: m }
            &&& q.deep_view() == pending.deep_view()
            &&& idx as int == j
            &&& m.deep_view() == classified(pending.deep_view(), events, j)
        }),
    decreases j,
{
    let pdv = pending.deep_view();
    if j == 0 {
        assert(merged0.deep_view() =~~= classified(pdv, events, 0));
    } else {
        lemma_classification_at(p, pending, merged0, states, events, actions, j - 1);
        assert(sweep_step(p, states[j - 1], events[j - 1], states[j], actions[j - 1]));
        match states[j - 1] {
            SweepState::Classifying { pending: q, idx, merged: m } => {
                match events[j - 1] {
                    SweepEvent::Compared { ok, output } => {
                        if ok && output@.len() == 0 {
                            assert(m.deep_view().push(pdv[j - 1]) =~~= classified(
                                pdv,
                                events,
                                j,
                            ));
                        } else {
                            assert(m.deep_view() =~~= classified(pdv, events, j));
                        }
                    },
                    _ => {},
                }
            },
            _ => {},
        }
    }
}

/// Over the whole classification phase: one comparison per candidate, in
/// candidate order, and the reported merged list holds exactly the
/// candidates whose comparison succeeded with empty output, in that order.
pub proof fn lemma_classification_trace(
    p: SweepParams,
    pending: Vec<String>,
    merged0: Vec<String>,
    states: Seq<SweepState>,
    events: Seq<SweepEvent>,
    actions: Seq<SweepAction>,
)
    requires
        pending.deep_view().len() > 0,
        states.len() == actions.len() + 1,
        events.len() == actions.len(),
        actions.len() == pending.deep_view().len(),
        merged0.deep_view().len() == 0,
        states[0] == (SweepState::Classifying { pending, idx: 0, merged: merged0 }),
        forall|i: int|
            0 <= i < actions.len() ==> sweep_step(
                p,
                #[trigger] states[i],
                events[i],
                states[i + 1],
                actions[i],
            ),
    ensures
        ({
            &&& states[states.len() - 1] matches SweepState::Reported { merged }
            &&& merged.deep_view() == classified(
                pending.deep_view(),
                events,
                events.len() as int,
            )
        }),
{
    let pdv = pending.deep_view();
    let n = actions.len() as int;
    lemma_classification_at(p, pending, merged0, states, events, actions, n - 1);
    assert(sweep_step(p, states[n - 1], events[n - 1], states[n], actions[n - 1]));
    match states[n - 1] {
        SweepState::Classifying { pending: q, idx, merged: m } => {
            match events[n - 1] {
                SweepEvent::Compared { ok, output } => {
                    if ok && output@.len() == 0 {
                        assert(m.deep_view().push(pdv[n - 1]) =~~= classified(pdv, events, n));
                    } else {
                        assert(m.deep_view() =~~= classified(pdv, events, n));
                    }
                },
                _ => {},
            }
        },
        _ => {},
    }
}

/// The branch a delete action names.
pub open spec fn deleted_branch(a: SweepAction) -> Seq<char> {
    match a {
        SweepAction::RunDeleteRemote { branch, .. } => branch@,
        SweepAction::RunDeleteLocal { branch } => branch@,
        _ => Seq::<char>::empty(),
    }
}

/// The branches that a sequence of actions deletes, in order.
pub open spec fn deletes_of(actions: Seq<SweepAction>) -> Seq<Seq<char>> {
    actions.filter(|a: SweepAction| is_delete_action(a)).map_values(
        |a: SweepAction| deleted_branch(a),
    )
}

pub proof fn lemma_deletes_of_empty()
    ensures
        deletes_of(Seq::<SweepAction>::empty()) == Seq::<Seq<char>>::empty(),
{
    reveal(Seq::filter);
    assert(deletes_of(Seq::<SweepAction>::empty()) =~= Seq::<Seq<char>>::empty());
}

pub proof fn lemma_deletes_of_push(actions: Seq<SweepAction>, a: SweepAction)
    ensures
        deletes_of(actions.push(a)) == (if is_delete_action(a) {
            deletes_of(actions).push(deleted_branch(a))
        } else {
            deletes_of(actions)
        }),
{
    reveal(Seq::filter);
    assert(actions.push(a).drop_last() =~= actions);
    assert(actions.push(a).last() == a);
    let pred = |x: SweepAction| is_delete_action(x);
    if pred(a) {
        assert(actions.push(a).filter(pred) == actions.filter(pred).push(a));
        assert(actions.filter(pred).push(a).map_values(|x: SweepAction| deleted_branch(x))
            =~= deletes_of(actions).push(deleted_branch(a)));
    }
}

/// Relates a mid-cleanup state to the deletes issued so far: before the
/// decision nothing is deleted; while deleting, exactly the branches up to
/// and including the current one have been asked for, in list order; a
/// finished sweep has deleted a prefix of the list, and a sweep that ended
/// well has deleted all of it or (user abort, empty list) none.
pub open spec fn cleanup_trace_inv(dv: Seq<Seq<char>>, s: SweepState, ds: Seq<Seq<char>>) -> bool {
    match s {
        SweepState::Reported { merged } => merged.deep_view() == dv && ds == Seq::<Seq<
            char,
        >>::empty(),
        SweepState::Confirming { merged } => merged.deep_view() == dv && dv.len() > 0 && ds
            == Seq::<Seq<char>>::empty(),
        SweepState::Deleting { merged, next } => {
            &&& merged.deep_view() == dv
            &&& (next as int) < dv.len()
            &&& ds == dv.take(next as int + 1)
        },
        SweepState::Done { ok } => {
            &&& exists|j: int| 0 <= j <= dv.len() && ds == #[trigger] dv.take(j)
            &&& (ok ==> ds == Seq::<Seq<char>>::empty() || ds == dv)
        },
        _ => false,
    }
}

/// One cleanup transition keeps the deletion bookkeeping: the new deletes
/// are the old ones plus whatever the issued action deletes.
pub proof fn lemma_cleanup_trace_step(
    p: SweepParams,
    dv: Seq<Seq<char>>,
    s: SweepState,
    e: SweepEvent,
    s2: SweepState,
    a: SweepAction,
    ds: Seq<Seq<char>>,
)
    requires
        !p.dry_run,
        cleanup_trace_inv(dv, s, ds),
        sweep_step(p, s, e, s2, a),
    ensures
        cleanup_trace_inv(dv, s2, ds + deletes_of(seq![a])),
{
    lemma_deletes_of_empty();
    lemma_deletes_of_push(Seq::<SweepAction>::empty(), a);
    assert(Seq::<SweepAction>::empty().push(a) =~= seq![a]);
    let step = deletes_of(seq![a]);
    match s {
        SweepState::Reported { .. } => {
            if dv.len() == 0 {
                assert(ds + step =~= dv.take(0));
            } else if p.force {
                assert(ds + step =~= dv.take(1));
            } else {
                assert(ds + step =~= ds);
            }
        },
        SweepState::Confirming { .. } => {
            match e {
                SweepEvent::Answered { text } => {
                    if answer_yes(text@) {
                        assert(ds + step =~= dv.take(1));
                    } else {
                        assert(ds + step =~= ds);
                        assert(ds == dv.take(0));
                    }
                },
                _ => {},
            }
        },
        SweepState::Deleting { next, .. } => {
            let k = next as int;
            match e {
                SweepEvent::Deleted { ok } => {
                    if ok && k + 1 < dv.len() {
                        assert(ds + step =~= dv.take(k + 2));
                    } else if ok {
                        assert(ds + step =~= dv.take(k + 1));
                        assert(dv.take(k + 1) =~= dv);
                    } else {
                        assert(ds + step =~= dv.take(k + 1));
                    }
                },
                _ => {},
            }
        },
        _ => {},
    }
}

/// Over a whole cleanup run: from the report of merged list `merged`, the
/// delete actions issued are exactly a prefix of that list, in list order,
/// one per branch; a run that ends well has swept the whole list or (after
/// a declined confirmation or an empty list) none of it, and a failed
/// delete ends the run with no further delete issued.
pub proof fn lemma_cleanup_trace(
    p: SweepParams,
    merged: Vec<String>,
    states: Seq<SweepState>,
    events: Seq<SweepEvent>,
    actions: Seq<SweepAction>,
)
    requires
        !p.dry_run,
        states.len() == actions.len() + 1,
        events.len() == actions.len(),
        states[0] == (SweepState::Reported { merged }),
        forall|i: int|
            0 <= i < actions.len() ==> sweep_step(
                p,
                #[trigger] states[i],
                events[i],
                states[i + 1],
                actions[i],
            ),
    ensures
        cleanup_trace_inv(merged.deep_view(), states[states.len() - 1], deletes_of(actions)),
    decreases actions.len(),
{
    if actions.len() == 0 {
        lemma_deletes_of_empty();
        assert(actions =~= Seq::<SweepAction>::empty());
    } else {
        let n = actions.len() as int;
        assert forall|i: int|
            0 <= i < n - 1 implies sweep_step(
                p,
                #[trigger] states.drop_last()[i],
                events.drop_last()[i],
                states.drop_last()[i + 1],
                actions.drop_last()[i],
            ) by {
            assert(states.drop_last()[i] == states[i]);
            assert(events.drop_last()[i] == events[i]);
            assert(states.drop_last()[i + 1] == states[i + 1]);
            assert(actions.drop_last()[i] == actions[i]);
            assert(sweep_step(p, states[i], events[i], states[i + 1], actions[i]));
        }
        lemma_cleanup_trace(p, merged, states.drop_last(), events.drop_last(),
            actions.drop_last());
        assert(states.drop_last()[0] == states[0]);
        assert(states.drop_last()[states.drop_last().len() - 1] == states[n - 1]);
        lemma_cleanup_trace_step(
            p,
            merged.deep_view(),
            states[n - 1],
            events[n - 1],
            states[n],
            actions[n - 1],
            deletes_of(actions.drop_last()),
        );
        let pred = |x: SweepAction| is_delete_action(x);
        let name_of = |x: SweepAction| deleted_branch(x);
        Seq::filter_distributes_over_add(actions.drop_last(), seq![actions[n - 1]], pred);
        assert(actions.drop_last() + seq![actions[n - 1]] =~= actions);
        assert((actions.drop_last().filter(pred) + seq![actions[n - 1]].filter(pred)).map_values(
            name_of,
        ) =~= actions.drop_last().filter(pred).map_values(name_of) + seq![actions[n
            - 1]].filter(pred).map_values(name_of));
        assert(deletes_of(actions.drop_last()) + deletes_of(seq![actions[n - 1]]) == deletes_of(
            actions,
        ));
    }
}

/// The reachable-state invariant holds along a whole run.
pub proof fn lemma_inv_along_trace(
    p: SweepParams,
    states: Seq<SweepState>,
    events: Seq<SweepEvent>,
    actions: Seq<SweepAction>,
    i: int,
)
    requires
        states.len() == actions.len() + 1,
        events.len() == actions.len(),
        state_inv(p, states[0]),
        forall|i: int|
            0 <= i < actions.len() ==> sweep_step(
                p,
                #[trigger] states[i],
                events[i],
                states[i + 1],
                actions[i],
            ),
        0 <= i < states.len(),
    ensures
        state_inv(p, states[i]),
    decreases i,
{
    if i > 0 {
        lemma_inv_along_trace(p, states, events, actions, i - 1);
        lemma_step_preserves_inv(p, states[i - 1], events[i - 1], states[i], actions[i - 1]);
    }
}

/// Over a whole preview run: from any reachable state, a dry run never
/// issues a delete action.
pub proof fn lemma_preview_trace(
    p: SweepParams,
    states: Seq<SweepState>,
    events: Seq<SweepEvent>,
    actions: Seq<SweepAction>,
)
    requires
        p.dry_run,
        states.len() == actions.len() + 1,
        events.len() == actions.len(),
        state_inv(p, states[0]),
        forall|i: int|
            0 <= i < actions.len() ==> sweep_step(
                p,
                #[trigger] states[i],
                events[i],
                states[i + 1],
                actions[i],
            ),
    ensures
        forall|i: int| 0 <= i < actions.len() ==> !is_delete_action(#[trigger] actions[i]),
    decreases actions.len(),
{
    if actions.len() > 0 {
        let n = actions.len() as int;
        assert forall|i: int|
            0 <= i < n - 1 implies sweep_step(
                p,
                #[trigger] states.drop_last()[i],
                events.drop_last()[i],
                states.drop_last()[i + 1],
                actions.drop_last()[i],
            ) by {
            assert(states.drop_last()[i] == states[i]);
            assert(events.drop_last()[i] == events[i]);
            assert(states.drop_last()[i + 1] == states[i + 1]);
            assert(actions.drop_last()[i] == actions[i]);
            assert(sweep_step(p, states[i], events[i], states[i + 1], actions[i]));
        }
        lemma_preview_trace(p, states.drop_last(), events.drop_last(), actions.drop_last());
        assert(states.drop_last()[0] == states[0]);
        lemma_inv_along_trace(p, states, events, actions, n - 1);
        lemma_preview_never_deletes(p, states[n - 1], events[n - 1], states[n], actions[n - 1]);
        assert forall|i: int| 0 <= i < n implies !is_delete_action(#[trigger] actions[i]) by {
            if i < n - 1 {
                assert(actions.drop_last()[i] == actions[i]);
                assert(!is_delete_action(actions.drop_last()[i]));
            }
        }
    }
}

/// The confirmation rule: an answer whose trimmed form starts with `y` or
/// `Y` proceeds to delete the first branch; any other answer aborts the
/// sweep as a success, with no delete issued.
pub proof fn lemma_confirmation(
    p: SweepParams,
    merged: Vec<String>,
    text: String,
    s2: SweepState,
    a: SweepAction,
)
    requires
        merged.deep_view().len() > 0,
        sweep_step(
            p,
            SweepState::Confirming { merged },
            SweepEvent::Answered { text },
            s2,
            a,
        ),
    ensures
        answer_yes(text@) ==> ({
            &&& s2 matches SweepState::Deleting { merged: m, next }
            &&& m.deep_view() == merged.deep_view()
            &&& next == 0
            &&& delete_matches(p, merged.deep_view()[0], a)
        }),
        !answer_yes(text@) ==> done_state(true, s2) && stop_action(true, a) && !is_delete_action(
            a,
        ),
{
}

} // verus!
