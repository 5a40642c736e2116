//! Clustering of business processes: the state of a clustering attempt and how it moves,
//! the walk over the pairs of processes, and the grouping of similar processes into
//! connected components.
use vstd::prelude::*;
use crate::individual::{Individual, IndividualV, Lang, ResourceV};
use crate::json::{decimal_text, u64_to_string};
use crate::fresh::new_uuid;
use crate::schema::has_literal;
use crate::text::{
    str_eq, str_to_string, concat2, concat3, split_char, split_spec, parse_usize, parse_usize_spec,
    views_of,
};

verus! {

/// The pair of processes to compare next, by their positions in the list.
#[derive(PartialEq, Eq, Structural, Clone, Copy, Debug)]
pub struct ComparisonState {
    pub x: usize,
    pub y: usize,
}

/// The pair after `(x, y)` among `len` processes: the next `y`, or the first pair of the
/// next `x`.
pub open spec fn next_pair_spec(s: ComparisonState, len: int) -> (int, int) {
    if s.y + 1 < len {
        (s.x as int, s.y + 1)
    } else {
        (s.x + 1, s.x + 2)
    }
}

/// The number of pairs `(a, b)`, `a < b < n`, with `a < x`.
pub open spec fn pairs_before(x: int, n: int) -> int
    decreases x,
{
    if x <= 0 {
        0
    } else {
        pairs_before(x - 1, n) + (n - x)
    }
}

proof fn lemma_pairs_before_double(x: int, n: int)
    requires
        x >= 0,
    ensures
        2 * pairs_before(x, n) == x * (2 * n - x - 1),
    decreases x,
{
    if x > 0 {
        lemma_pairs_before_double(x - 1, n);
        let p = pairs_before(x - 1, n);
        assert(2 * (p + (n - x)) == x * (2 * n - x - 1)) by (nonlinear_arith)
            requires
                2 * p == (x - 1) * (2 * n - (x - 1) - 1),
        ;
    } else {
        assert(x * (2 * n - x - 1) == 0) by (nonlinear_arith)
            requires
                x == 0,
        ;
    }
}

proof fn lemma_pairs_before_mono(x: int, n: int)
    requires
        0 <= x <= n,
    ensures
        0 <= pairs_before(x, n) <= pairs_before(n, n),
    decreases n - x,
{
    if x < n {
        lemma_pairs_before_mono(x + 1, n);
        lemma_pairs_before_nonneg(x, n);
    } else {
        lemma_pairs_before_nonneg(n, n);
    }
}

proof fn lemma_pairs_before_nonneg(x: int, n: int)
    requires
        0 <= x <= n,
    ensures
        0 <= pairs_before(x, n),
    decreases x,
{
    if x > 0 {
        lemma_pairs_before_nonneg(x - 1, n);
    }
}

/// The pairs compared so far and all pairs: the pairs before `(x, y)` in the walk, and
/// `n (n - 1) / 2`. A `y` past the last process counts on as if the walk went on.
pub fn clustering_counts(state: &ComparisonState, total_processes: usize) -> (r: (usize, usize))
    requires
        1 <= total_processes,
        state.x < state.y,
        state.x <= total_processes,
        total_processes * (total_processes - 1) <= usize::MAX,
        pairs_before(state.x as int, total_processes as int) + (state.y - state.x - 1) <= usize::MAX,
    ensures
        r.0 == pairs_before(state.x as int, total_processes as int) + (state.y - state.x - 1),
        r.1 == total_processes * (total_processes - 1) / 2,
        state.y <= total_processes ==> r.0 <= r.1,
{
    let n = total_processes;
    proof {
        lemma_pairs_before_double(n as int, n as int);
        lemma_pairs_before_mono(state.x as int, n as int);
    }
    let total_pairs = (n * (n - 1)) / 2;
    let mut completed: usize = 0;
    let mut k: usize = 0;
    while k < state.x
        invariant
            k <= state.x <= n,
            2 * pairs_before(n as int, n as int) == n * (n - 1),
            n * (n - 1) <= usize::MAX,
            completed == pairs_before(k as int, n as int),
        decreases state.x - k,
    {
        proof {
            lemma_pairs_before_mono((k + 1) as int, n as int);
        }
        completed = completed + (n - (k + 1));
        k = k + 1;
    }
    proof {
        if state.y <= n {
            lemma_pairs_before_mono((state.x + 1) as int, n as int);
            let pb = pairs_before((state.x + 1) as int, n as int);
            assert(pb == completed + (n - state.x - 1));
            assert(completed + (state.y - state.x - 1) <= pb);
            assert(2 * pb <= n * (n - 1));
            assert(pb <= (n * (n - 1)) / 2);
        }
    }
    completed = completed + (state.y - state.x - 1);
    (completed, total_pairs)
}

/// The estimate of the time left, five seconds per pair not yet compared.
pub fn remaining_time(completed: usize, total: usize) -> (r: i64)
    requires
        completed <= total,
        (total - completed) * 5 <= usize::MAX,
    ensures
        r == ((total - completed) * 5) as i64,
{
    ((total - completed) * 5) as i64
}

// ---- the attempt's state ----
/// Where a clustering attempt stands, by its `v-bpa:hasClusterizationStatus`.
#[derive(PartialEq, Eq, Structural, Clone, Copy, Debug)]
pub enum ClusterStage {
    New,
    Paused,
    ComparingPairs,
    PairsCompared,
    Completed,
    Failed,
    Cancelled,
    Unknown,
}

pub open spec fn status_text(a: IndividualV) -> Seq<char> {
    match a.first_literal("v-bpa:hasClusterizationStatus"@) {
        Some(s) => s,
        None => Seq::empty(),
    }
}

pub open spec fn stage_of(t: Seq<char>) -> ClusterStage {
    if t == Seq::<char>::empty() {
        ClusterStage::New
    } else if t == "v-bpa:Paused"@ {
        ClusterStage::Paused
    } else if t == "v-bpa:ComparingPairs"@ {
        ClusterStage::ComparingPairs
    } else if t == "v-bpa:PairsCompared"@ {
        ClusterStage::PairsCompared
    } else if t == "v-bpa:Completed"@ {
        ClusterStage::Completed
    } else if t == "v-bpa:Failed"@ {
        ClusterStage::Failed
    } else if t == "v-bpa:Cancelled"@ {
        ClusterStage::Cancelled
    } else {
        ClusterStage::Unknown
    }
}

/// Each of the seven status texts of an attempt gives its own stage (none gives `New`),
/// and every other text gives `Unknown`.
pub proof fn law_status_stages(t: Seq<char>)
    ensures
        (stage_of(t) == ClusterStage::New) <==> t == Seq::<char>::empty(),
        (stage_of(t) == ClusterStage::Paused) <==> t == "v-bpa:Paused"@,
        (stage_of(t) == ClusterStage::ComparingPairs) <==> t == "v-bpa:ComparingPairs"@,
        (stage_of(t) == ClusterStage::PairsCompared) <==> t == "v-bpa:PairsCompared"@,
        (stage_of(t) == ClusterStage::Completed) <==> t == "v-bpa:Completed"@,
        (stage_of(t) == ClusterStage::Failed) <==> t == "v-bpa:Failed"@,
        (stage_of(t) == ClusterStage::Cancelled) <==> t == "v-bpa:Cancelled"@,
        (stage_of(t) == ClusterStage::Unknown) <==> (t != Seq::<char>::empty() && t != "v-bpa:Paused"@ && t
            != "v-bpa:ComparingPairs"@ && t != "v-bpa:PairsCompared"@ && t != "v-bpa:Completed"@ && t
            != "v-bpa:Failed"@ && t != "v-bpa:Cancelled"@),
{
    reveal_strlit("v-bpa:Paused");
    reveal_strlit("v-bpa:ComparingPairs");
    reveal_strlit("v-bpa:PairsCompared");
    reveal_strlit("v-bpa:Completed");
    reveal_strlit("v-bpa:Failed");
    reveal_strlit("v-bpa:Cancelled");
    assert("v-bpa:Paused"@[6] != "v-bpa:Failed"@[6]);
    assert("v-bpa:Completed"@[7] != "v-bpa:Cancelled"@[7]);
    assert("v-bpa:Paused"@.len() == 12 && "v-bpa:Failed"@.len() == 12);
    assert("v-bpa:ComparingPairs"@.len() == 20 && "v-bpa:PairsCompared"@.len() == 19);
    assert("v-bpa:Completed"@.len() == 15 && "v-bpa:Cancelled"@.len() == 15);
}

pub fn clustering_stage(attempt: &Individual) -> (r: ClusterStage)
    ensures
        r == stage_of(status_text(attempt@)),
{
    let s = match attempt.get_first_literal("v-bpa:hasClusterizationStatus") {
        Some(s) => s,
        None => String::new(),
    };
    proof {
        reveal_strlit("");
        assert(""@ =~= Seq::<char>::empty());
    }
    if str_eq(s.as_str(), "") {
        ClusterStage::New
    } else if str_eq(s.as_str(), "v-bpa:Paused") {
        ClusterStage::Paused
    } else if str_eq(s.as_str(), "v-bpa:ComparingPairs") {
        ClusterStage::ComparingPairs
    } else if str_eq(s.as_str(), "v-bpa:PairsCompared") {
        ClusterStage::PairsCompared
    } else if str_eq(s.as_str(), "v-bpa:Completed") {
        ClusterStage::Completed
    } else if str_eq(s.as_str(), "v-bpa:Failed") {
        ClusterStage::Failed
    } else if str_eq(s.as_str(), "v-bpa:Cancelled") {
        ClusterStage::Cancelled
    } else {
        ClusterStage::Unknown
    }
}

/// An attempt starts only on a start or resume command.
pub fn should_start(attempt: &Individual) -> (r: bool)
    ensures
        r == attempt@.any_exists(
            "v-bpa:controlAction"@,
            seq!["v-bpa:StartExecution"@, "v-bpa:ResumeExecution"@],
        ),
{
    let texts: [&str; 2] = ["v-bpa:StartExecution", "v-bpa:ResumeExecution"];
    let r = attempt.any_exists("v-bpa:controlAction", &texts);
    assert(texts@.map_values(|t: &str| t@) =~= seq!["v-bpa:StartExecution"@, "v-bpa:ResumeExecution"@]);
    r
}

/// The search for other attempts in progress.
pub fn active_attempts_query(attempt_id: &str) -> (r: String)
    ensures
        r@ == "'rdf:type' == 'v-bpa:ClusterizationAttempt' && 'v-bpa:hasExecutionState' == 'v-bpa:ExecutionInProgress' && '@' != '"@
            + attempt_id@ + "'"@,
{
    concat3(
        "'rdf:type' == 'v-bpa:ClusterizationAttempt' && 'v-bpa:hasExecutionState' == 'v-bpa:ExecutionInProgress' && '@' != '",
        attempt_id,
        "'",
    )
}

/// The activity times after a step with status `status`: the last activity is `now`; a
/// start also sets the start and clears the end; completion, failure and cancelling set
/// the end.
pub open spec fn timestamps_spec(a: IndividualV, status: Seq<char>, now: i64) -> IndividualV {
    let a1 = a.with("v-bpa:lastActivityAt"@, seq![ResourceV::Datetime(now)]);
    if status == Seq::<char>::empty() {
        a1.with("v-bpa:startDate"@, seq![ResourceV::Datetime(now)]).without("v-bpa:endDate"@)
    } else if status == "v-bpa:Completed"@ || status == "v-bpa:Failed"@ || status == "v-bpa:Cancelled"@ {
        a1.with("v-bpa:endDate"@, seq![ResourceV::Datetime(now)])
    } else {
        a1
    }
}

pub fn update_activity_timestamps_at(attempt: &mut Individual, status: &str, now: i64)
    ensures
        final(attempt)@ == timestamps_spec(old(attempt)@, status@, now),
{
    attempt.set_datetime("v-bpa:lastActivityAt", now);
    proof {
        reveal_strlit("");
        assert(""@ =~= Seq::<char>::empty());
    }
    if str_eq(status, "") {
        attempt.set_datetime("v-bpa:startDate", now);
        attempt.remove("v-bpa:endDate");
    } else if str_eq(status, "v-bpa:Completed") || str_eq(status, "v-bpa:Failed") || str_eq(
        status,
        "v-bpa:Cancelled",
    ) {
        attempt.set_datetime("v-bpa:endDate", now);
    }
}

/// Updates the activity times at the current time.
pub fn update_activity_timestamps(attempt: &mut Individual, status: &str)
    ensures
        exists|now: i64| final(attempt)@ == #[trigger] timestamps_spec(old(attempt)@, status@, now),
{
    let now = crate::fresh::now_timestamp();
    update_activity_timestamps_at(attempt, status, now);
}

pub open spec fn with_uri(a: IndividualV, pred: Seq<char>, v: Seq<char>) -> IndividualV {
    a.with(pred, seq![ResourceV::Uri(v)])
}

/// Reacts to the control command in the attempt's stored state `current`: a stop pauses
/// the attempt, a cancel cancels it (both end the run: `false`); any other command is
/// cleared on the attempt; no command changes nothing.
pub fn check_control_action(attempt: &mut Individual, current: &Individual, now: i64) -> (r: bool)
    ensures
        current@.first_literal("v-bpa:controlAction"@) == Some("v-bpa:StopExecution"@) ==> !r
            && final(attempt)@ == timestamps_spec(
            with_uri(
                with_uri(old(attempt)@, "v-bpa:hasClusterizationStatus"@, "v-bpa:Paused"@),
                "v-bpa:hasExecutionState"@,
                "v-bpa:ExecutionPaused"@,
            ),
            "v-bpa:Paused"@,
            now,
        ),
        current@.first_literal("v-bpa:controlAction"@) == Some("v-bpa:CancelExecution"@) ==> !r
            && final(attempt)@ == timestamps_spec(
            with_uri(
                with_uri(old(attempt)@, "v-bpa:hasClusterizationStatus"@, "v-bpa:Cancelled"@),
                "v-bpa:hasExecutionState"@,
                "v-bpa:ExecutionTerminated"@,
            ),
            "v-bpa:Cancelled"@,
            now,
        ),
        current@.first_literal("v-bpa:controlAction"@) matches Some(c) ==> (c != "v-bpa:StopExecution"@ && c
            != "v-bpa:CancelExecution"@ ==> r && final(attempt)@ == with_uri(
            old(attempt)@,
            "v-bpa:controlAction"@,
            "v-bpa:NoActionExecution"@,
        )),
        current@.first_literal("v-bpa:controlAction"@) is None ==> r && final(attempt)@ == old(attempt)@,
{
    proof {
        reveal_strlit("v-bpa:StopExecution");
        reveal_strlit("v-bpa:CancelExecution");
        assert("v-bpa:StopExecution"@[6] != "v-bpa:CancelExecution"@[6]);
    }
    match current.get_first_literal("v-bpa:controlAction") {
        Some(c) => {
            if str_eq(c.as_str(), "v-bpa:StopExecution") {
                attempt.set_uri("v-bpa:hasClusterizationStatus", "v-bpa:Paused");
                attempt.set_uri("v-bpa:hasExecutionState", "v-bpa:ExecutionPaused");
                update_activity_timestamps_at(attempt, "v-bpa:Paused", now);
                false
            } else if str_eq(c.as_str(), "v-bpa:CancelExecution") {
                attempt.set_uri("v-bpa:hasClusterizationStatus", "v-bpa:Cancelled");
                attempt.set_uri("v-bpa:hasExecutionState", "v-bpa:ExecutionTerminated");
                update_activity_timestamps_at(attempt, "v-bpa:Cancelled", now);
                false
            } else {
                attempt.set_uri("v-bpa:controlAction", "v-bpa:NoActionExecution");
                true
            }
        },
        None => true,
    }
}

/// An attempt that may not start because another one runs: it fails with that reason.
pub fn refuse_concurrent(attempt: &mut Individual, now: i64) -> (r: String)
    ensures
        r@ == "Невозможно начать расчет - уже существует активный процесс кластеризации"@,
        final(attempt)@ == timestamps_spec(
            with_uri(
                with_uri(
                    old(attempt)@.with("v-bpa:lastError"@, seq![ResourceV::Str(r@, Lang::NoLang)]),
                    "v-bpa:hasClusterizationStatus"@,
                    "v-bpa:Failed"@,
                ),
                "v-bpa:hasExecutionState"@,
                "v-bpa:ExecutionError"@,
            ),
            "v-bpa:Failed"@,
            now,
        ),
{
    let msg = String::from_str("Невозможно начать расчет - уже существует активный процесс кластеризации");
    attempt.set_string("v-bpa:lastError", msg.as_str(), Lang::NoLang);
    attempt.set_uri("v-bpa:hasClusterizationStatus", "v-bpa:Failed");
    attempt.set_uri("v-bpa:hasExecutionState", "v-bpa:ExecutionError");
    update_activity_timestamps_at(attempt, "v-bpa:Failed", now);
    msg
}

/// The attempt prepared for comparing all pairs of `process_ids`: the processes, the first
/// pair `0,1`, the status `ComparingPairs`, no similar pairs and no command, progress 0,
/// and five seconds per pair as the estimate. Fails when there is no process.
pub fn initialize_clustering(attempt: &mut Individual, process_ids: &Vec<String>) -> (r: Result<(), String>)
    requires
        process_ids@.len() * (process_ids@.len() - 1) <= usize::MAX,
        process_ids@.len() * (process_ids@.len() - 1) / 2 * 5 <= usize::MAX,
    ensures
        process_ids@.len() == 0 ==> r is Err && r->Err_0@ == "No business processes found for clustering"@
            && final(attempt)@ == old(attempt)@,
        process_ids@.len() > 0 ==> r is Ok && final(attempt)@ == old(attempt)@.with(
            "v-bpa:processesToAnalyze"@,
            process_ids@.map_values(|s: String| ResourceV::Uri(s@)),
        ).with("v-bpa:currentPairIndex"@, seq![ResourceV::Str("0,1"@, Lang::NoLang)]).with(
            "v-bpa:hasClusterizationStatus"@,
            seq![ResourceV::Uri("v-bpa:ComparingPairs"@)],
        ).without("v-bpa:similarPairs"@).without("v-bpa:controlAction"@).with(
            "v-bpa:clusterizationProgress"@,
            seq![ResourceV::Integer(0)],
        ).with(
            "v-bpa:estimatedTime"@,
            seq![
                ResourceV::Integer(
                    (process_ids@.len() * (process_ids@.len() - 1) / 2 * 5) as i64,
                ),
            ],
        ),
{
    let n = process_ids.len();
    if n == 0 {
        return Err(String::from_str("No business processes found for clustering"));
    }
    attempt.set_uris("v-bpa:processesToAnalyze", process_ids);
    attempt.set_string("v-bpa:currentPairIndex", "0,1", Lang::NoLang);
    attempt.set_uri("v-bpa:hasClusterizationStatus", "v-bpa:ComparingPairs");
    attempt.remove("v-bpa:similarPairs");
    attempt.remove("v-bpa:controlAction");
    attempt.set_integer("v-bpa:clusterizationProgress", 0);
    let estimate = ((n * (n - 1)) / 2 * 5) as i64;
    attempt.set_integer("v-bpa:estimatedTime", estimate);
    Ok(())
}

/// A fresh attempt once prepared: started now and in progress.
pub fn begin_comparison(attempt: &mut Individual, now: i64)
    ensures
        final(attempt)@ == with_uri(
            timestamps_spec(old(attempt)@, Seq::empty(), now),
            "v-bpa:hasExecutionState"@,
            "v-bpa:ExecutionInProgress"@,
        ),
{
    update_activity_timestamps_at(attempt, "", now);
    proof {
        reveal_strlit("");
        assert(""@ =~= Seq::<char>::empty());
    }
    attempt.set_uri("v-bpa:hasExecutionState", "v-bpa:ExecutionInProgress");
}

/// What a paused attempt does.
#[derive(PartialEq, Eq, Structural, Clone, Copy, Debug)]
pub enum PausedOutcome {
    /// Resumed: comparing again.
    Resumed,
    /// Cancelled: the run ends.
    Cancelled,
    /// Still waiting for a command.
    Waiting,
}

/// A paused attempt resumes on a resume command and is cancelled on a cancel command; the
/// command is then cleared.
pub fn paused_step(attempt: &mut Individual, now: i64) -> (r: PausedOutcome)
    ensures
        old(attempt)@.first_literal("v-bpa:controlAction"@) == Some("v-bpa:ResumeExecution"@) ==> r
            == PausedOutcome::Resumed && final(attempt)@ == with_uri(
            with_uri(
                with_uri(old(attempt)@, "v-bpa:controlAction"@, "v-bpa:NoActionExecution"@),
                "v-bpa:hasClusterizationStatus"@,
                "v-bpa:ComparingPairs"@,
            ),
            "v-bpa:hasExecutionState"@,
            "v-bpa:ExecutionInProgress"@,
        ),
        old(attempt)@.first_literal("v-bpa:controlAction"@) == Some("v-bpa:CancelExecution"@) ==> r
            == PausedOutcome::Cancelled && final(attempt)@ == with_uri(
            timestamps_spec(
                with_uri(
                    with_uri(old(attempt)@, "v-bpa:hasClusterizationStatus"@, "v-bpa:Cancelled"@),
                    "v-bpa:hasExecutionState"@,
                    "v-bpa:ExecutionTerminated"@,
                ),
                "v-bpa:Cancelled"@,
                now,
            ),
            "v-bpa:controlAction"@,
            "v-bpa:NoActionExecution"@,
        ),
        old(attempt)@.first_literal("v-bpa:controlAction"@) != Some("v-bpa:ResumeExecution"@)
            && old(attempt)@.first_literal("v-bpa:controlAction"@) != Some("v-bpa:CancelExecution"@)
            ==> r == PausedOutcome::Waiting && final(attempt)@ == old(attempt)@,
{
    proof {
        reveal_strlit("v-bpa:ResumeExecution");
        reveal_strlit("v-bpa:CancelExecution");
        assert("v-bpa:ResumeExecution"@[6] != "v-bpa:CancelExecution"@[6]);
    }
    match attempt.get_first_literal("v-bpa:controlAction") {
        Some(c) => {
            if str_eq(c.as_str(), "v-bpa:ResumeExecution") {
                attempt.set_uri("v-bpa:controlAction", "v-bpa:NoActionExecution");
                attempt.set_uri("v-bpa:hasClusterizationStatus", "v-bpa:ComparingPairs");
                attempt.set_uri("v-bpa:hasExecutionState", "v-bpa:ExecutionInProgress");
                PausedOutcome::Resumed
            } else if str_eq(c.as_str(), "v-bpa:CancelExecution") {
                attempt.set_uri("v-bpa:hasClusterizationStatus", "v-bpa:Cancelled");
                attempt.set_uri("v-bpa:hasExecutionState", "v-bpa:ExecutionTerminated");
                update_activity_timestamps_at(attempt, "v-bpa:Cancelled", now);
                attempt.set_uri("v-bpa:controlAction", "v-bpa:NoActionExecution");
                PausedOutcome::Cancelled
            } else {
                PausedOutcome::Waiting
            }
        },
        None => PausedOutcome::Waiting,
    }
}

/// The text of the stored pair index is one number alone: the pair cannot be read.
pub open spec fn pair_index_incomplete(t: Seq<char>) -> bool {
    split_spec(t, ',').len() < 2 && all_parts_parse(t)
}

/// The stored pair index text of an attempt.
pub open spec fn pair_index_of(a: IndividualV) -> Option<Seq<char>> {
    match a.literals("v-bpa:currentPairIndex"@) {
        Some(l) => if l.len() > 0 {
            Some(l[0])
        } else {
            None
        },
        None => None,
    }
}

/// All parts of the text, split at `,`, read as numbers.
pub open spec fn all_parts_parse(t: Seq<char>) -> bool {
    forall|k: int| 0 <= k < split_spec(t, ',').len() ==> parse_usize_spec(#[trigger] split_spec(t, ',')[k]) is Some
}

/// Reads the stored pair `x,y` of an attempt that resumes comparing.
pub fn comparison_state_from(attempt: &Individual) -> (r: Result<ComparisonState, String>)
    requires
        pair_index_of(attempt@) matches Some(t) ==> !pair_index_incomplete(t),
    ensures
        pair_index_of(attempt@) is None ==> r is Err && r->Err_0@ == "No current pair index found"@,
        pair_index_of(attempt@) matches Some(t) ==> (all_parts_parse(t) ==> (r matches Ok(st) && st.x
            == parse_usize_spec(split_spec(t, ',')[0])->0 as usize && st.y == parse_usize_spec(
            split_spec(t, ',')[1],
        )->0 as usize)),
        pair_index_of(attempt@) matches Some(t) ==> (!all_parts_parse(t) ==> r is Err && r->Err_0@
            == "invalid pair index"@),
{
    let l = match attempt.get_literals("v-bpa:currentPairIndex") {
        Some(l) => l,
        None => {
            return Err(String::from_str("No current pair index found"));
        },
    };
    if l.len() == 0 {
        return Err(String::from_str("No current pair index found"));
    }
    assert(l@.map_values(|s: String| s@)[0] == l@[0]@);
    assert(pair_index_of(attempt@) == Some(l@[0]@));
    let parts = split_char(l[0].as_str(), ',');
    let mut nums: Vec<usize> = Vec::new();
    let mut i: usize = 0;
    while i < parts.len()
        invariant
            i <= parts@.len(),
            l@.len() > 0,
            pair_index_of(attempt@) == Some(l@[0]@),
            parts@.len() == split_spec(l@[0]@, ',').len(),
            forall|k: int| 0 <= k < parts@.len() ==> #[trigger] parts@[k]@ == split_spec(l@[0]@, ',')[k],
            nums@.len() == i,
            forall|k: int|
                0 <= k < i ==> parse_usize_spec(#[trigger] split_spec(l@[0]@, ',')[k]) is Some
                    && nums@[k] == parse_usize_spec(split_spec(l@[0]@, ',')[k])->0 as usize,
        decreases parts@.len() - i,
    {
        match parse_usize(parts[i].as_str()) {
            Some(v) => {
                nums.push(v);
            },
            None => {
                assert(parse_usize_spec(split_spec(l@[0]@, ',')[i as int]) is None);
                return Err(String::from_str("invalid pair index"));
            },
        }
        i = i + 1;
    }
    if nums.len() < 2 {
        assert(pair_index_incomplete(l@[0]@));
        return Err(String::from_str("invalid pair index"));
    }
    Ok(ComparisonState { x: nums[0], y: nums[1] })
}

/// The pair of processes to compare in state `state`, none once the walk is past the end.
pub fn pair_to_compare(attempt: &Individual, state: &ComparisonState) -> (r: Result<Option<(String, String)>, String>)
    ensures
        attempt@.literals("v-bpa:processesToAnalyze"@) is None ==> r is Err && r->Err_0@
            == "No processes to analyze found"@,
        attempt@.literals("v-bpa:processesToAnalyze"@) matches Some(ps) ==> (state.x >= ps.len() || state.y
            >= ps.len() ==> r == Ok::<Option<(String, String)>, String>(None)),
        attempt@.literals("v-bpa:processesToAnalyze"@) matches Some(ps) ==> (state.x < ps.len() && state.y
            < ps.len() ==> (r matches Ok(Some((a, b))) && a@ == ps[state.x as int] && b@ == ps[state.y as int])),
{
    let ps = match attempt.get_literals("v-bpa:processesToAnalyze") {
        Some(p) => p,
        None => {
            return Err(String::from_str("No processes to analyze found"));
        },
    };
    if state.x >= ps.len() || state.y >= ps.len() {
        return Ok(None);
    }
    assert(ps@.map_values(|s: String| s@)[state.x as int] == ps@[state.x as int]@);
    assert(ps@.map_values(|s: String| s@)[state.y as int] == ps@[state.y as int]@);
    Ok(Some((ps[state.x].clone(), ps[state.y].clone())))
}

/// Records one comparison: a similar pair is added as `first,second`; the walk moves to
/// the next pair. Returns whether the attempt is to be saved now: after a similar pair or
/// when the first process of the pair changes.
pub fn record_comparison(
    attempt: &mut Individual,
    first: &str,
    second: &str,
    state: &mut ComparisonState,
    total: usize,
    is_similar: bool,
) -> (r: bool)
    requires
        old(state).x < total,
        old(state).y < total,
        total < usize::MAX,
    ensures
        is_similar ==> final(attempt)@ == old(attempt)@.with_added(
            "v-bpa:similarPairs"@,
            ResourceV::Str(first@ + ","@ + second@, Lang::NoLang),
        ),
        !is_similar ==> final(attempt)@ == old(attempt)@,
        (final(state).x as int, final(state).y as int) == next_pair_spec(*old(state), total as int),
        r == (is_similar || final(state).x != old(state).x),
        old(state).x < old(state).y ==> final(state).x < final(state).y <= total,
{
    if is_similar {
        let pair = concat3(first, ",", second);
        attempt.add_string("v-bpa:similarPairs", pair.as_str(), Lang::NoLang);
    }
    let old_x = state.x;
    if state.y + 1 < total {
        state.y = state.y + 1;
    } else {
        state.x = state.x + 1;
        state.y = state.x + 1;
    }
    is_similar || state.x != old_x
}

/// The text `x,y` of a pair.
pub fn pair_index_text(state: &ComparisonState) -> (r: String)
    ensures
        r@ == decimal_text(state.x as nat) + ","@ + decimal_text(state.y as nat),
{
    let xs = u64_to_string(state.x as u64);
    let ys = u64_to_string(state.y as u64);
    concat3(xs.as_str(), ",", ys.as_str())
}

/// Stores the walk's position and its progress figures.
pub fn set_clustering_metrics(attempt: &mut Individual, state: &ComparisonState, progress: i64, estimated_time: i64)
    ensures
        final(attempt)@ == old(attempt)@.with(
            "v-bpa:currentPairIndex"@,
            seq![
                ResourceV::Str(
                    decimal_text(state.x as nat) + ","@ + decimal_text(state.y as nat),
                    Lang::NoLang,
                ),
            ],
        ).with("v-bpa:clusterizationProgress"@, seq![ResourceV::Integer(progress)]).with(
            "v-bpa:estimatedTime"@,
            seq![ResourceV::Integer(estimated_time)],
        ),
{
    let t = pair_index_text(state);
    attempt.set_string("v-bpa:currentPairIndex", t.as_str(), Lang::NoLang);
    attempt.set_integer("v-bpa:clusterizationProgress", progress);
    attempt.set_integer("v-bpa:estimatedTime", estimated_time);
}

/// All pairs compared.
pub fn finish_comparisons(attempt: &mut Individual, now: i64)
    ensures
        final(attempt)@ == timestamps_spec(
            with_uri(old(attempt)@, "v-bpa:hasClusterizationStatus"@, "v-bpa:PairsCompared"@),
            "v-bpa:PairsCompared"@,
            now,
        ),
{
    attempt.set_uri("v-bpa:hasClusterizationStatus", "v-bpa:PairsCompared");
    update_activity_timestamps_at(attempt, "v-bpa:PairsCompared", now);
}

/// The clusters are built: completed, and the command cleared.
pub fn complete_clustering(attempt: &mut Individual, now: i64)
    ensures
        final(attempt)@ == with_uri(
            timestamps_spec(
                with_uri(
                    with_uri(old(attempt)@, "v-bpa:hasClusterizationStatus"@, "v-bpa:Completed"@),
                    "v-bpa:hasExecutionState"@,
                    "v-bpa:ExecutionCompleted"@,
                ),
                "v-bpa:Completed"@,
                now,
            ),
            "v-bpa:controlAction"@,
            "v-bpa:NoActionExecution"@,
        ),
{
    attempt.set_uri("v-bpa:hasClusterizationStatus", "v-bpa:Completed");
    attempt.set_uri("v-bpa:hasExecutionState", "v-bpa:ExecutionCompleted");
    update_activity_timestamps_at(attempt, "v-bpa:Completed", now);
    attempt.set_uri("v-bpa:controlAction", "v-bpa:NoActionExecution");
}

/// An attempt that failed with `error`.
pub fn handle_error(attempt: &mut Individual, error: &str, now: i64)
    ensures
        final(attempt)@ == timestamps_spec(
            with_uri(
                with_uri(
                    old(attempt)@.with("v-bpa:lastError"@, seq![ResourceV::Str(error@, Lang::NoLang)]),
                    "v-bpa:hasClusterizationStatus"@,
                    "v-bpa:Failed"@,
                ),
                "v-bpa:hasExecutionState"@,
                "v-bpa:ExecutionError"@,
            ),
            "v-bpa:Failed"@,
            now,
        ),
{
    attempt.set_string("v-bpa:lastError", error, Lang::NoLang);
    attempt.set_uri("v-bpa:hasClusterizationStatus", "v-bpa:Failed");
    attempt.set_uri("v-bpa:hasExecutionState", "v-bpa:ExecutionError");
    update_activity_timestamps_at(attempt, "v-bpa:Failed", now);
}

/// An attempt with a status the process does not know: it fails, and the command is
/// cleared.
pub fn reject_unknown_status(attempt: &mut Individual, now: i64)
    ensures
        final(attempt)@ == timestamps_spec(
            with_uri(
                with_uri(
                    with_uri(
                        old(attempt)@.with(
                            "v-bpa:lastError"@,
                            seq![ResourceV::Str("Invalid clustering status"@, Lang::NoLang)],
                        ),
                        "v-bpa:hasClusterizationStatus"@,
                        "v-bpa:Failed"@,
                    ),
                    "v-bpa:hasExecutionState"@,
                    "v-bpa:ExecutionError"@,
                ),
                "v-bpa:controlAction"@,
                "v-bpa:NoActionExecution"@,
            ),
            "v-bpa:Failed"@,
            now,
        ),
{
    attempt.set_string("v-bpa:lastError", "Invalid clustering status", Lang::NoLang);
    attempt.set_uri("v-bpa:hasClusterizationStatus", "v-bpa:Failed");
    attempt.set_uri("v-bpa:hasExecutionState", "v-bpa:ExecutionError");
    attempt.set_uri("v-bpa:controlAction", "v-bpa:NoActionExecution");
    update_activity_timestamps_at(attempt, "v-bpa:Failed", now);
}

/// The error of a failed attempt.
pub fn failure_message(attempt: &Individual) -> (r: String)
    ensures
        r@ == (match attempt@.first_literal("v-bpa:lastError"@) {
            Some(e) => e,
            None => "Unknown error"@,
        }),
{
    match attempt.get_first_literal("v-bpa:lastError") {
        Some(e) => e,
        None => String::from_str("Unknown error"),
    }
}

// ---- clusters: connected components of the similarity graph ----
pub open spec fn adj_view(adj: Seq<Vec<usize>>) -> Seq<Seq<usize>> {
    adj.map_values(|v: Vec<usize>| v@)
}

/// `b` is a neighbour of `a`.
pub open spec fn edge(adj: Seq<Seq<usize>>, a: int, b: int) -> bool {
    0 <= a < adj.len() && 0 <= b < adj.len() && adj[a].contains(b as usize)
}

/// Every neighbour is a node, and every edge goes both ways.
pub open spec fn wf_adj(adj: Seq<Seq<usize>>) -> bool {
    &&& forall|a: int, k: int| 0 <= a < adj.len() && 0 <= k < adj[a].len() ==> (#[trigger] adj[a][k]) < adj.len()
    &&& forall|a: int, b: int| #[trigger] edge(adj, a, b) ==> edge(adj, b, a)
}

/// `v` is in one of the groups.
pub open spec fn in_some(comps: Seq<Seq<usize>>, v: int) -> bool {
    exists|c: int| 0 <= c < comps.len() && #[trigger] comps[c].contains(v as usize)
}

/// No node occurs twice among the groups.
pub open spec fn all_distinct(comps: Seq<Seq<usize>>) -> bool {
    forall|c1: int, k1: int, c2: int, k2: int|
        0 <= c1 < comps.len() && 0 <= k1 < comps[c1].len() && 0 <= c2 < comps.len() && 0 <= k2
            < comps[c2].len() && (c1 != c2 || k1 != k2) ==> #[trigger] comps[c1][k1] != #[trigger] comps[c2][k2]
}

/// `par` gives, for each member of a group after its first, an earlier member that it is a
/// neighbour of.
pub open spec fn linked_by(adj: Seq<Seq<usize>>, g: Seq<usize>, par: Seq<int>) -> bool {
    &&& par.len() == g.len()
    &&& forall|k: int|
        0 < k < g.len() ==> 0 <= #[trigger] par[k] < k && edge(adj, g[par[k]] as int, g[k] as int)
}

/// Each member of a group after its first is a neighbour of an earlier member.
pub open spec fn linked(adj: Seq<Seq<usize>>, g: Seq<usize>) -> bool {
    exists|par: Seq<int>| #[trigger] linked_by(adj, g, par)
}

/// Every neighbour of a member of a group is in the group.
pub open spec fn closed(adj: Seq<Seq<usize>>, g: Seq<usize>) -> bool {
    forall|k: int, b: int| 0 <= k < g.len() && #[trigger] edge(adj, g[k] as int, b) ==> g.contains(b as usize)
}

/// Groups that are components of the graph, as far as they go: non-empty, made of nodes,
/// disjoint, each closed under the edges and connected.
pub open spec fn partial_components(adj: Seq<Seq<usize>>, comps: Seq<Seq<usize>>) -> bool {
    &&& forall|c: int| 0 <= c < comps.len() ==> (#[trigger] comps[c]).len() > 0
    &&& forall|c: int, k: int| 0 <= c < comps.len() && 0 <= k < comps[c].len() ==> (#[trigger] comps[c][k]) < adj.len()
    &&& all_distinct(comps)
    &&& forall|c: int| 0 <= c < comps.len() ==> closed(adj, #[trigger] comps[c])
    &&& forall|c: int| 0 <= c < comps.len() ==> linked(adj, #[trigger] comps[c])
}

/// The groups are exactly the connected components of the graph: each node is in one
/// group, no edge leaves a group, and each group is connected.
pub open spec fn is_components(adj: Seq<Seq<usize>>, comps: Seq<Seq<usize>>) -> bool {
    &&& partial_components(adj, comps)
    &&& forall|v: int| 0 <= v < adj.len() ==> in_some(comps, v)
}

/// The number of `false` entries.
pub open spec fn count_false(s: Seq<bool>) -> nat
    decreases s.len(),
{
    if s.len() == 0 {
        0
    } else {
        count_false(s.drop_last()) + if s.last() {
            0nat
        } else {
            1nat
        }
    }
}

proof fn lemma_count_false_set(s: Seq<bool>, i: int)
    requires
        0 <= i < s.len(),
        !s[i],
    ensures
        count_false(s.update(i, true)) + 1 == count_false(s),
    decreases s.len(),
{
    if i == s.len() - 1 {
        assert(s.update(i, true).drop_last() =~= s.drop_last());
    } else {
        lemma_count_false_set(s.drop_last(), i);
        assert(s.update(i, true).drop_last() =~= s.drop_last().update(i, true));
    }
}

/// Closing a walked group: a group whose members have all their neighbours visited, and
/// which shares no node with the earlier (closed) groups, is closed.
proof fn lemma_group_closed(g: Seq<Seq<usize>>, cv: Seq<Seq<usize>>, comp: Seq<usize>, visited: Seq<bool>)
    requires
        g.len() <= usize::MAX,
        wf_adj(g),
        partial_components(g, cv),
        visited.len() == g.len(),
        forall|v: int| 0 <= v < g.len() ==> (#[trigger] visited[v] <==> (in_some(cv, v) || comp.contains(v as usize))),
        forall|k: int| 0 <= k < comp.len() ==> !in_some(cv, #[trigger] comp[k] as int),
        forall|u: int, b: int| comp.contains(u as usize) && #[trigger] edge(g, u, b) ==> visited[b],
    ensures
        closed(g, comp),
{
    assert forall|k: int, b: int| 0 <= k < comp.len() && #[trigger] edge(g, comp[k] as int, b) implies comp.contains(
        b as usize,
    ) by {
        let u = comp[k] as int;
        assert(comp.contains(u as usize));
        assert(visited[b]);
        assert(0 <= b < g.len());
        if !comp.contains(b as usize) {
            assert(in_some(cv, b));
            let c = choose|c: int| 0 <= c < cv.len() && #[trigger] cv[c].contains(b as usize);
            let kb = choose|kb: int| 0 <= kb < cv[c].len() && cv[c][kb] == b as usize;
            assert(edge(g, b, u));
            assert(closed(g, cv[c]));
            assert(edge(g, cv[c][kb] as int, u));
            assert(cv[c].contains(u as usize));
            assert(in_some(cv, u));
        }
    }
}

proof fn lemma_linked_push(g: Seq<Seq<usize>>, c0: Seq<usize>, v: usize, ku: int)
    requires
        linked(g, c0),
        0 <= ku < c0.len(),
        edge(g, c0[ku] as int, v as int),
    ensures
        linked(g, c0.push(v)),
{
    let c1 = c0.push(v);
    let par = choose|par: Seq<int>| #[trigger] linked_by(g, c0, par);
    let par1 = par.push(ku);
    assert forall|k: int| 0 < k < c1.len() implies 0 <= #[trigger] par1[k] < k && edge(
        g,
        c1[par1[k]] as int,
        c1[k] as int,
    ) by {
        if k < c0.len() {
            assert(par1[k] == par[k]);
            assert(c1[k] == c0[k]);
            assert(c1[par[k]] == c0[par[k]]);
        } else {
            assert(par1[k] == ku);
            assert(c1[ku] == c0[ku]);
        }
    }
    assert(linked_by(g, c1, par1));
}

/// Splits the nodes of a graph into its connected components, by a depth-first walk from
/// each node not yet reached, in node order.
pub fn components_of(adj: &Vec<Vec<usize>>) -> (comps: Vec<Vec<usize>>)
    requires
        wf_adj(adj_view(adj@)),
    ensures
        is_components(adj_view(adj@), adj_view(comps@)),
{
    let ghost g = adj_view(adj@);
    let n = adj.len();
    let mut visited: Vec<bool> = Vec::new();
    let mut i: usize = 0;
    while i < n
        invariant
            visited@.len() == i,
            i <= n,
            forall|v: int| 0 <= v < i ==> !visited@[v],
        decreases n - i,
    {
        visited.push(false);
        i = i + 1;
    }
    let mut comps: Vec<Vec<usize>> = Vec::new();
    proof {
        assert(adj_view(comps@) =~= Seq::<Seq<usize>>::empty());
    }
    let mut s: usize = 0;
    while s < n
        invariant
            g == adj_view(adj@),
            n == g.len(),
            wf_adj(g),
            s <= n,
            visited@.len() == n,
            forall|v: int| 0 <= v < n ==> (#[trigger] visited@[v] <==> in_some(adj_view(comps@), v)),
            forall|v: int| 0 <= v < s ==> #[trigger] visited@[v],
            partial_components(g, adj_view(comps@)),
        decreases n - s,
    {
        if !visited[s] {
            let ghost cv = adj_view(comps@);
            let mut comp: Vec<usize> = Vec::new();
            let mut stack: Vec<usize> = Vec::new();
            proof {
                assert(!in_some(cv, s as int));
            }
            comp.push(s);
            stack.push(s);
            proof {
                lemma_count_false_set(visited@, s as int);
            }
            visited.set(s, true);
            proof {
                assert(comp@[0] == s);
                assert(linked_by(g, comp@, seq![0int]));
                assert forall|v: int| 0 <= v < n implies (#[trigger] visited@[v] <==> (in_some(cv, v)
                    || comp@.contains(v as usize))) by {
                    if v == s as int {
                        assert(comp@[0] == s);
                    } else {
                        if comp@.contains(v as usize) {
                            let k = choose|k: int| 0 <= k < comp@.len() && comp@[k] == v as usize;
                            assert(k == 0);
                        }
                    }
                }
                assert forall|u: int, b: int|
                    comp@.contains(u as usize) && !stack@.contains(u as usize) && #[trigger] edge(g, u, b)
                        implies visited@[b] by {
                    let k = choose|k: int| 0 <= k < comp@.len() && comp@[k] == u as usize;
                    assert(k == 0);
                    assert(stack@[0] == s);
                }
            }
            while stack.len() > 0
                invariant
                    g == adj_view(adj@),
                    n == g.len(),
                    wf_adj(g),
                    s < n,
                    cv == adj_view(comps@),
                    partial_components(g, cv),
                    visited@.len() == n,
                    forall|v: int| 0 <= v < n ==> (#[trigger] visited@[v] <==> (in_some(cv, v)
                        || comp@.contains(v as usize))),
                    forall|v: int| 0 <= v < s ==> #[trigger] visited@[v],
                    comp@.len() > 0,
                    comp@[0] == s,
                    forall|k: int| 0 <= k < comp@.len() ==> (#[trigger] comp@[k]) < n,
                    forall|k: int| 0 <= k < comp@.len() ==> !in_some(cv, #[trigger] comp@[k] as int),
                    forall|k1: int, k2: int|
                        0 <= k1 < k2 < comp@.len() ==> #[trigger] comp@[k1] != #[trigger] comp@[k2],
                    linked(g, comp@),
                    forall|k: int| 0 <= k < stack@.len() ==> comp@.contains(#[trigger] stack@[k]),
                    forall|k1: int, k2: int|
                        0 <= k1 < k2 < stack@.len() ==> #[trigger] stack@[k1] != #[trigger] stack@[k2],
                    forall|u: int, b: int|
                        comp@.contains(u as usize) && !stack@.contains(u as usize) && #[trigger] edge(g, u, b)
                            ==> visited@[b],
                decreases count_false(visited@), stack@.len(),
            {
                let ghost st0 = stack@;
                let ghost cf0 = count_false(visited@);
                let u = stack.pop().unwrap();
                proof {
                    assert(stack@ =~= st0.drop_last());
                    assert(u == st0[st0.len() - 1]);
                    assert(comp@.contains(u));
                    if stack@.contains(u) {
                        let k = choose|k: int| 0 <= k < stack@.len() && stack@[k] == u;
                        assert(st0[k] == st0[st0.len() - 1]);
                    }
                    assert forall|w: int, b: int|
                        comp@.contains(w as usize) && !stack@.contains(w as usize) && w != u as int
                            && #[trigger] edge(g, w, b) implies visited@[b] by {
                        if st0.contains(w as usize) {
                            let k = choose|k: int| 0 <= k < st0.len() && st0[k] == w as usize;
                            if k < st0.len() - 1 {
                                assert(stack@[k] == w as usize);
                            }
                        }
                    }
                }
                let nb = &adj[u];
                let ghost nbv = nb@;
                let ghost pushed: nat = 0;
                let mut j: usize = 0;
                while j < nb.len()
                    invariant
                        g == adj_view(adj@),
                        n == g.len(),
                        wf_adj(g),
                        s < n,
                        cv == adj_view(comps@),
                        partial_components(g, cv),
                        visited@.len() == n,
                        forall|v: int| 0 <= v < n ==> (#[trigger] visited@[v] <==> (in_some(cv, v)
                            || comp@.contains(v as usize))),
                        forall|v: int| 0 <= v < s ==> #[trigger] visited@[v],
                        comp@.len() > 0,
                        comp@[0] == s,
                        forall|k: int| 0 <= k < comp@.len() ==> (#[trigger] comp@[k]) < n,
                        forall|k: int| 0 <= k < comp@.len() ==> !in_some(cv, #[trigger] comp@[k] as int),
                        forall|k1: int, k2: int|
                            0 <= k1 < k2 < comp@.len() ==> #[trigger] comp@[k1] != #[trigger] comp@[k2],
                        linked(g, comp@),
                        forall|k: int| 0 <= k < stack@.len() ==> comp@.contains(#[trigger] stack@[k]),
                        forall|k1: int, k2: int|
                            0 <= k1 < k2 < stack@.len() ==> #[trigger] stack@[k1] != #[trigger] stack@[k2],
                        u < n,
                        comp@.contains(u),
                        !stack@.contains(u),
                        nbv == nb@,
                        nbv == g[u as int],
                        j <= nbv.len(),
                        forall|j2: int| 0 <= j2 < j ==> visited@[#[trigger] nbv[j2] as int],
                        forall|w: int, b: int|
                            comp@.contains(w as usize) && !stack@.contains(w as usize) && w != u as int
                                && #[trigger] edge(g, w, b) ==> visited@[b],
                        count_false(visited@) + pushed == cf0,
                        stack@.len() == st0.len() - 1 + pushed,
                    decreases nbv.len() - j,
                {
                    let v = nb[j];
                    proof {
                        assert(g[u as int][j as int] == v);
                        assert(v < n);
                    }
                    if !visited[v] {
                        proof {
                            lemma_count_false_set(visited@, v as int);
                            assert(!comp@.contains(v));
                            assert(!in_some(cv, v as int));
                        }
                        let ghost c0 = comp@;
                        let ghost s0 = stack@;
                        visited.set(v, true);
                        comp.push(v);
                        stack.push(v);
                        proof {
                            pushed = pushed + 1;
                            let ku = choose|ku: int| 0 <= ku < c0.len() && c0[ku] == u;
                            assert(g[u as int].contains(v));
                            assert(edge(g, c0[ku] as int, v as int));
                            assert(comp@ =~= c0.push(v));
                            lemma_linked_push(g, c0, v, ku);
                            assert forall|v2: int| 0 <= v2 < n implies (#[trigger] visited@[v2] <==> (in_some(cv, v2)
                                || comp@.contains(v2 as usize))) by {
                                if comp@.contains(v2 as usize) {
                                    let k = choose|k: int| 0 <= k < comp@.len() && comp@[k] == v2 as usize;
                                    if k < c0.len() {
                                        assert(c0[k] == v2 as usize);
                                    }
                                }
                                if c0.contains(v2 as usize) {
                                    let k = choose|k: int| 0 <= k < c0.len() && c0[k] == v2 as usize;
                                    assert(comp@[k] == v2 as usize);
                                }
                                if v2 == v as int {
                                    assert(comp@[c0.len() as int] == v);
                                }
                            }
                            assert forall|k: int| 0 <= k < stack@.len() implies comp@.contains(#[trigger] stack@[k]) by {
                                if k < s0.len() {
                                    let kk = choose|kk: int| 0 <= kk < c0.len() && c0[kk] == s0[k];
                                    assert(comp@[kk] == s0[k]);
                                } else {
                                    assert(comp@[c0.len() as int] == v);
                                }
                            }
                            assert(comp@.contains(u)) by {
                                assert(comp@[ku] == u);
                            }
                            assert forall|w: int, b: int|
                                comp@.contains(w as usize) && !stack@.contains(w as usize) && w != u as int
                                    && #[trigger] edge(g, w, b) implies visited@[b] by {
                                if w != v as int {
                                    let k = choose|k: int| 0 <= k < comp@.len() && comp@[k] == w as usize;
                                    assert(k < c0.len());
                                    assert(c0[k] == w as usize);
                                    if s0.contains(w as usize) {
                                        let k2 = choose|k2: int| 0 <= k2 < s0.len() && s0[k2] == w as usize;
                                        assert(stack@[k2] == w as usize);
                                    }
                                } else {
                                    assert(stack@[s0.len() as int] == v);
                                }
                            }
                        }
                    }
                    j = j + 1;
                }
                proof {
                    assert forall|w: int, b: int|
                        comp@.contains(w as usize) && !stack@.contains(w as usize) && #[trigger] edge(g, w, b)
                            implies visited@[b] by {
                        if w == u as int {
                            let j2 = choose|j2: int| 0 <= j2 < nbv.len() && nbv[j2] == b as usize;
                            assert(visited@[nbv[j2] as int]);
                        }
                    }
                }
            }
            proof {
                assert forall|u: int, b: int| comp@.contains(u as usize) && #[trigger] edge(g, u, b) implies visited@[b] by {
                    assert(!stack@.contains(u as usize));
                }
                lemma_group_closed(g, cv, comp@, visited@);
            }
            let ghost compv = comp@;
            comps.push(comp);
            proof {
                let cv2 = adj_view(comps@);
                assert(cv2 =~= cv.push(compv));
                assert forall|v: int| 0 <= v < n implies (#[trigger] visited@[v] <==> in_some(cv2, v)) by {
                    if compv.contains(v as usize) {
                        assert(cv2[cv.len() as int] == compv);
                    }
                    if in_some(cv, v) {
                        let c = choose|c: int| 0 <= c < cv.len() && #[trigger] cv[c].contains(v as usize);
                        assert(cv2[c] == cv[c]);
                    }
                    if in_some(cv2, v) {
                        let c = choose|c: int| 0 <= c < cv2.len() && #[trigger] cv2[c].contains(v as usize);
                        if c < cv.len() {
                            assert(cv[c] == cv2[c]);
                        }
                    }
                }
                assert(all_distinct(cv2)) by {
                    assert forall|c1: int, k1: int, c2: int, k2: int|
                        0 <= c1 < cv2.len() && 0 <= k1 < cv2[c1].len() && 0 <= c2 < cv2.len() && 0 <= k2
                            < cv2[c2].len() && (c1 != c2 || k1 != k2) implies #[trigger] cv2[c1][k1]
                        != #[trigger] cv2[c2][k2] by {
                        if c1 == cv.len() && c2 == cv.len() {
                            if k1 < k2 {
                                assert(compv[k1] != compv[k2]);
                            } else {
                                assert(compv[k2] != compv[k1]);
                            }
                        } else if c1 == cv.len() {
                            assert(!in_some(cv, compv[k1] as int));
                            assert(cv2[c2] == cv[c2]);
                            assert(!cv[c2].contains((compv[k1] as int) as usize));
                        } else if c2 == cv.len() {
                            assert(!in_some(cv, compv[k2] as int));
                            assert(cv2[c1] == cv[c1]);
                            assert(!cv[c1].contains((compv[k2] as int) as usize));
                        } else {
                            assert(cv2[c1] == cv[c1]);
                            assert(cv2[c2] == cv[c2]);
                        }
                    }
                }
                assert forall|c: int| 0 <= c < cv2.len() implies closed(g, #[trigger] cv2[c]) by {
                    if c < cv.len() {
                        assert(cv2[c] == cv[c]);
                    }
                }
                assert forall|c: int| 0 <= c < cv2.len() implies linked(g, #[trigger] cv2[c]) by {
                    if c < cv.len() {
                        assert(cv2[c] == cv[c]);
                    }
                }
                assert forall|c: int, k: int| 0 <= c < cv2.len() && 0 <= k < cv2[c].len() implies (#[trigger] cv2[c][k])
                    < n by {
                    if c < cv.len() {
                        assert(cv2[c] == cv[c]);
                    }
                }
                assert forall|c: int| 0 <= c < cv2.len() implies (#[trigger] cv2[c]).len() > 0 by {
                    if c < cv.len() {
                        assert(cv2[c] == cv[c]);
                    }
                }
            }
        }
        s = s + 1;
    }
    proof {
        assert forall|v: int| 0 <= v < n implies in_some(adj_view(comps@), v) by {
            assert(visited@[v]);
        }
    }
    comps
}

// ---- the graph of similar pairs ----
/// The graph of similar processes: the processes named in a pair, in order of first
/// appearance, and for each the positions of the processes it was found similar to.
pub struct ProcessGraph {
    pub nodes: Vec<String>,
    pub adjacency: Vec<Vec<usize>>,
}

/// A stored similar pair `first,second` that splits into exactly two names.
pub open spec fn valid_pair(t: Seq<char>) -> bool {
    split_spec(t, ',').len() == 2
}

/// The pair names `a` and `b`, in either order.
pub open spec fn pair_joins(t: Seq<char>, a: Seq<char>, b: Seq<char>) -> bool {
    valid_pair(t) && ((split_spec(t, ',')[0] == a && split_spec(t, ',')[1] == b) || (split_spec(t, ',')[0] == b
        && split_spec(t, ',')[1] == a))
}

/// A name of one of the valid pairs.
pub open spec fn named_in(pairs: Seq<Seq<char>>, x: Seq<char>) -> bool {
    exists|i: int|
        0 <= i < pairs.len() && valid_pair(#[trigger] pairs[i]) && (split_spec(pairs[i], ',')[0] == x
            || split_spec(pairs[i], ',')[1] == x)
}

pub open spec fn distinct_names(nodes: Seq<Seq<char>>) -> bool {
    forall|i: int, j: int| 0 <= i < j < nodes.len() ==> #[trigger] nodes[i] != #[trigger] nodes[j]
}

/// The graph stands for the valid pairs: its nodes are their names, once each; an edge
/// joins two nodes exactly where a valid pair names them.
pub open spec fn graph_of(pairs: Seq<Seq<char>>, nodes: Seq<Seq<char>>, adj: Seq<Seq<usize>>) -> bool {
    &&& adj.len() == nodes.len()
    &&& wf_adj(adj)
    &&& distinct_names(nodes)
    &&& forall|i: int| 0 <= i < nodes.len() ==> named_in(pairs, #[trigger] nodes[i])
    &&& forall|x: Seq<char>| named_in(pairs, x) ==> #[trigger] nodes.contains(x)
    &&& forall|a: int, b: int|
        #[trigger] edge(adj, a, b) <==> (0 <= a < nodes.len() && 0 <= b < nodes.len() && exists|i: int|
            0 <= i < pairs.len() && #[trigger] pair_joins(pairs[i], nodes[a], nodes[b]))
}

fn copy_row(v: &Vec<usize>) -> (r: Vec<usize>)
    ensures
        r@ == v@,
{
    let mut out: Vec<usize> = Vec::new();
    let mut i: usize = 0;
    while i < v.len()
        invariant
            i <= v@.len(),
            out@ == v@.take(i as int),
        decreases v@.len() - i,
    {
        out.push(v[i]);
        i = i + 1;
        assert(out@ =~= v@.take(i as int));
    }
    assert(v@.take(v@.len() as int) =~= v@);
    out
}

/// The position of `name` among the nodes, adding it (with no neighbours) when new.
fn node_index(nodes: &mut Vec<String>, adj: &mut Vec<Vec<usize>>, name: &str) -> (r: usize)
    requires
        old(adj)@.len() == old(nodes)@.len(),
        distinct_names(views_of(old(nodes)@)),
        old(nodes)@.len() < usize::MAX,
    ensures
        final(adj)@.len() == final(nodes)@.len(),
        distinct_names(views_of(final(nodes)@)),
        r < final(nodes)@.len(),
        final(nodes)@[r as int]@ == name@,
        old(nodes)@.len() <= final(nodes)@.len() <= old(nodes)@.len() + 1,
        views_of(final(nodes)@) == (if views_of(old(nodes)@).contains(name@) {
            views_of(old(nodes)@)
        } else {
            views_of(old(nodes)@).push(name@)
        }),
        adj_view(final(adj)@) == (if views_of(old(nodes)@).contains(name@) {
            adj_view(old(adj)@)
        } else {
            adj_view(old(adj)@).push(Seq::<usize>::empty())
        }),
        views_of(old(nodes)@).contains(name@) ==> final(nodes)@ == old(nodes)@ && final(adj)@ == old(adj)@,
        !views_of(old(nodes)@).contains(name@) ==> views_of(final(nodes)@) == views_of(old(nodes)@).push(name@)
            && adj_view(final(adj)@) == adj_view(old(adj)@).push(Seq::<usize>::empty()),
{
    let mut i: usize = 0;
    while i < nodes.len()
        invariant
            i <= nodes@.len(),
            nodes@ == old(nodes)@,
            adj@ == old(adj)@,
            adj@.len() == nodes@.len(),
            distinct_names(views_of(nodes@)),
            forall|k: int| 0 <= k < i ==> nodes@[k]@ != name@,
        decreases nodes@.len() - i,
    {
        if str_eq(nodes[i].as_str(), name) {
            assert(views_of(nodes@)[i as int] == name@);
            return i;
        }
        i = i + 1;
    }
    assert(!views_of(nodes@).contains(name@)) by {
        if views_of(nodes@).contains(name@) {
            let k = choose|k: int| 0 <= k < views_of(nodes@).len() && views_of(nodes@)[k] == name@;
            assert(nodes@[k]@ == name@);
        }
    }
    let ghost nv0 = views_of(nodes@);
    let ghost av0 = adj_view(adj@);
    nodes.push(str_to_string(name));
    adj.push(Vec::new());
    assert(views_of(nodes@) =~= nv0.push(name@));
    assert(adj_view(adj@) =~= av0.push(Seq::<usize>::empty()));
    assert(distinct_names(views_of(nodes@))) by {
        assert forall|a: int, b: int| 0 <= a < b < views_of(nodes@).len() implies #[trigger] views_of(nodes@)[a]
            != #[trigger] views_of(nodes@)[b] by {
            if b == nv0.len() {
                assert(views_of(nodes@)[a] == nv0[a]);
            } else {
                assert(views_of(nodes@)[a] == nv0[a]);
                assert(views_of(nodes@)[b] == nv0[b]);
            }
        }
    }
    nodes.len() - 1
}

proof fn lemma_push_contains(s: Seq<usize>, e: usize, x: usize)
    ensures
        s.push(e).contains(x) <==> (s.contains(x) || x == e),
{
    if s.push(e).contains(x) {
        let k = choose|k: int| 0 <= k < s.push(e).len() && s.push(e)[k] == x;
        if k < s.len() {
            assert(s[k] == x);
        }
    }
    if s.contains(x) {
        let k = choose|k: int| 0 <= k < s.len() && s[k] == x;
        assert(s.push(e)[k] == x);
    }
    if x == e {
        assert(s.push(e)[s.len() as int] == e);
    }
}

/// `adj` with `b` added to the neighbours of `a` and `a` to those of `b`.
pub open spec fn add_edge(adj: Seq<Seq<usize>>, a: int, b: int) -> Seq<Seq<usize>> {
    let adj1 = adj.update(a, adj[a].push(b as usize));
    adj1.update(b, adj1[b].push(a as usize))
}

proof fn lemma_add_edge(adj: Seq<Seq<usize>>, a: int, b: int, x: int, y: int)
    requires
        adj.len() <= usize::MAX,
        0 <= a < adj.len(),
        0 <= b < adj.len(),
    ensures
        edge(add_edge(adj, a, b), x, y) <==> (edge(adj, x, y) || (x == a && y == b) || (x == b && y == a)),
        add_edge(adj, a, b).len() == adj.len(),
{
    let adj1 = adj.update(a, adj[a].push(b as usize));
    let adj2 = adj1.update(b, adj1[b].push(a as usize));
    assert(adj2 == add_edge(adj, a, b));
    assert(adj2.len() == adj.len());
    if 0 <= x < adj.len() && 0 <= y < adj.len() {
        if x == b && a == b {
            assert(adj2[x] == adj[a].push(b as usize).push(a as usize));
            lemma_push_contains(adj[a], b as usize, y as usize);
            lemma_push_contains(adj[a].push(b as usize), a as usize, y as usize);
        } else if x == b {
            assert(adj2[x] == adj[b].push(a as usize));
            lemma_push_contains(adj[b], a as usize, y as usize);
        } else if x == a {
            assert(adj2[x] == adj[a].push(b as usize));
            lemma_push_contains(adj[a], b as usize, y as usize);
        } else {
            assert(adj2[x] == adj[x]);
        }
    }
}

proof fn lemma_wf_add_edge(adj: Seq<Seq<usize>>, a: int, b: int)
    requires
        adj.len() <= usize::MAX,
        wf_adj(adj),
        0 <= a < adj.len(),
        0 <= b < adj.len(),
    ensures
        wf_adj(add_edge(adj, a, b)),
{
    let adj2 = add_edge(adj, a, b);
    let adj1 = adj.update(a, adj[a].push(b as usize));
    assert forall|x: int, k: int| 0 <= x < adj2.len() && 0 <= k < adj2[x].len() implies (#[trigger] adj2[x][k])
        < adj2.len() by {
        if x == b {
            if k < adj1[b].len() {
                if a == b {
                    if k < adj[a].len() {
                        assert(adj1[b][k] == adj[a][k]);
                    }
                } else {
                    assert(adj1[b][k] == adj[b][k]);
                }
            }
        } else if x == a {
            if k < adj[a].len() {
                assert(adj2[x][k] == adj[a][k]);
            }
        } else {
            assert(adj2[x] == adj[x]);
        }
    }
    assert forall|x: int, y: int| #[trigger] edge(adj2, x, y) implies edge(adj2, y, x) by {
        lemma_add_edge(adj, a, b, x, y);
        lemma_add_edge(adj, a, b, y, x);
    }
}

/// One valid pair added to a graph that stands for the earlier pairs.
proof fn lemma_graph_step(
    p0: Seq<Seq<char>>,
    t: Seq<char>,
    nv0: Seq<Seq<char>>,
    av0: Seq<Seq<usize>>,
    nv2: Seq<Seq<char>>,
    av2: Seq<Seq<usize>>,
    a: int,
    b: int,
)
    requires
        graph_of(p0, nv0, av0),
        valid_pair(t),
        nv0.len() <= nv2.len(),
        av2.len() == nv2.len(),
        forall|k: int| 0 <= k < nv0.len() ==> nv2[k] == #[trigger] nv0[k],
        forall|k: int| 0 <= k < nv0.len() ==> av2[k] == #[trigger] av0[k],
        forall|k: int| nv0.len() <= k < nv2.len() ==> #[trigger] av2[k] == Seq::<usize>::empty(),
        forall|k: int| nv0.len() <= k < nv2.len() ==> #[trigger] nv2[k] == split_spec(t, ',')[0] || nv2[k] == split_spec(t, ',')[1],
        distinct_names(nv2),
        0 <= a < nv2.len(),
        0 <= b < nv2.len(),
        nv2[a] == split_spec(t, ',')[0],
        nv2[b] == split_spec(t, ',')[1],
        nv2.len() <= usize::MAX,
    ensures
        graph_of(p0.push(t), nv2, add_edge(av2, a, b)),
{
    let p1 = p0.push(t);
    let t0 = split_spec(t, ',')[0];
    let t1 = split_spec(t, ',')[1];
    assert(wf_adj(av2)) by {
        assert forall|x: int, k: int| 0 <= x < av2.len() && 0 <= k < av2[x].len() implies (#[trigger] av2[x][k])
            < av2.len() by {
            assert(x < av0.len());
            assert(av2[x] == av0[x]);
        }
        assert forall|x: int, y: int| #[trigger] edge(av2, x, y) implies edge(av2, y, x) by {
            assert(x < av0.len());
            assert(av2[x] == av0[x]);
            assert(edge(av0, x, y));
            assert(edge(av0, y, x));
            assert(av2[y] == av0[y]);
        }
    }
    lemma_wf_add_edge(av2, a, b);
    let ga = add_edge(av2, a, b);
    assert forall|k: int| 0 <= k < nv2.len() implies named_in(p1, #[trigger] nv2[k]) by {
        if k < nv0.len() {
            assert(named_in(p0, nv0[k]));
            let w = choose|w: int|
                0 <= w < p0.len() && valid_pair(#[trigger] p0[w]) && (split_spec(p0[w], ',')[0] == nv0[k]
                    || split_spec(p0[w], ',')[1] == nv0[k]);
            assert(p1[w] == p0[w]);
        } else {
            assert(p1[p0.len() as int] == t);
        }
    }
    assert forall|x: Seq<char>| named_in(p1, x) implies #[trigger] nv2.contains(x) by {
        let w = choose|w: int|
            0 <= w < p1.len() && valid_pair(#[trigger] p1[w]) && (split_spec(p1[w], ',')[0] == x
                || split_spec(p1[w], ',')[1] == x);
        if w < p0.len() {
            assert(p0[w] == p1[w]);
            assert(named_in(p0, x));
            assert(nv0.contains(x));
            let k = choose|k: int| 0 <= k < nv0.len() && nv0[k] == x;
            assert(nv2[k] == x);
        } else if x == t0 {
            assert(nv2[a] == x);
        } else {
            assert(nv2[b] == x);
        }
    }
    assert forall|x: int, y: int| #[trigger] edge(ga, x, y) <==> (0 <= x < nv2.len() && 0 <= y < nv2.len()
        && exists|w: int| 0 <= w < p1.len() && #[trigger] pair_joins(p1[w], nv2[x], nv2[y])) by {
        lemma_graph_step_edge(p0, t, nv0, av0, nv2, av2, a, b, x, y);
    }
}

proof fn lemma_graph_step_edge(
    p0: Seq<Seq<char>>,
    t: Seq<char>,
    nv0: Seq<Seq<char>>,
    av0: Seq<Seq<usize>>,
    nv2: Seq<Seq<char>>,
    av2: Seq<Seq<usize>>,
    a: int,
    b: int,
    x: int,
    y: int,
)
    requires
        graph_of(p0, nv0, av0),
        valid_pair(t),
        nv0.len() <= nv2.len(),
        av2.len() == nv2.len(),
        forall|k: int| 0 <= k < nv0.len() ==> nv2[k] == #[trigger] nv0[k],
        forall|k: int| 0 <= k < nv0.len() ==> av2[k] == #[trigger] av0[k],
        forall|k: int| nv0.len() <= k < nv2.len() ==> #[trigger] av2[k] == Seq::<usize>::empty(),
        distinct_names(nv2),
        0 <= a < nv2.len(),
        0 <= b < nv2.len(),
        nv2[a] == split_spec(t, ',')[0],
        nv2[b] == split_spec(t, ',')[1],
        nv2.len() <= usize::MAX,
    ensures
        edge(add_edge(av2, a, b), x, y) <==> (0 <= x < nv2.len() && 0 <= y < nv2.len() && exists|w: int|
            0 <= w < p0.push(t).len() && #[trigger] pair_joins(p0.push(t)[w], nv2[x], nv2[y])),
{
    let p1 = p0.push(t);
    let t0 = split_spec(t, ',')[0];
    let t1 = split_spec(t, ',')[1];
    lemma_add_edge(av2, a, b, x, y);
    if 0 <= x < nv2.len() && 0 <= y < nv2.len() {
        if edge(av2, x, y) {
            assert(x < av0.len());
            assert(av2[x] == av0[x]);
            assert(y < av0.len()) by {
                let k = choose|k: int| 0 <= k < av2[x].len() && av2[x][k] == y as usize;
                assert(av0[x][k] < av0.len());
            }
            assert(edge(av0, x, y));
            let w = choose|w: int| 0 <= w < p0.len() && #[trigger] pair_joins(p0[w], nv0[x], nv0[y]);
            assert(p1[w] == p0[w]);
            assert(pair_joins(p1[w], nv2[x], nv2[y]));
        }
        if (x == a && y == b) || (x == b && y == a) {
            assert(p1[p0.len() as int] == t);
            assert(pair_joins(p1[p0.len() as int], nv2[x], nv2[y]));
        }
        if exists|w: int| 0 <= w < p1.len() && #[trigger] pair_joins(p1[w], nv2[x], nv2[y]) {
            let w = choose|w: int| 0 <= w < p1.len() && #[trigger] pair_joins(p1[w], nv2[x], nv2[y]);
            if w < p0.len() {
                assert(p0[w] == p1[w]);
                assert(valid_pair(p0[w]));
                assert(named_in(p0, nv2[x]));
                assert(named_in(p0, nv2[y]));
                assert(nv0.contains(nv2[x]));
                assert(nv0.contains(nv2[y]));
                let kx = choose|kx: int| 0 <= kx < nv0.len() && nv0[kx] == nv2[x];
                let ky = choose|ky: int| 0 <= ky < nv0.len() && nv0[ky] == nv2[y];
                assert(nv2[kx] == nv2[x]);
                assert(nv2[ky] == nv2[y]);
                if kx < x {
                    assert(nv2[kx] != nv2[x]);
                } else if x < kx {
                    assert(nv2[x] != nv2[kx]);
                }
                if ky < y {
                    assert(nv2[ky] != nv2[y]);
                } else if y < ky {
                    assert(nv2[y] != nv2[ky]);
                }
                assert(pair_joins(p0[w], nv0[x], nv0[y]));
                assert(edge(av0, x, y));
                assert(av2[x] == av0[x]);
                assert(edge(av2, x, y));
            } else {
                assert(p1[w] == t);
                if x != a && x != b {
                    if nv2[x] == t0 {
                        if x < a {
                            assert(nv2[x] != nv2[a]);
                        } else {
                            assert(nv2[a] != nv2[x]);
                        }
                    } else {
                        if x < b {
                            assert(nv2[x] != nv2[b]);
                        } else {
                            assert(nv2[b] != nv2[x]);
                        }
                    }
                }
                if y != a && y != b {
                    if nv2[y] == t0 {
                        if y < a {
                            assert(nv2[y] != nv2[a]);
                        } else {
                            assert(nv2[a] != nv2[y]);
                        }
                    } else {
                        if y < b {
                            assert(nv2[y] != nv2[b]);
                        } else {
                            assert(nv2[b] != nv2[y]);
                        }
                    }
                }
                if nv2[x] == t0 && nv2[y] == t1 {
                    if x != a {
                        if x < a { assert(nv2[x] != nv2[a]); } else { assert(nv2[a] != nv2[x]); }
                    }
                    if y != b {
                        if y < b { assert(nv2[y] != nv2[b]); } else { assert(nv2[b] != nv2[y]); }
                    }
                } else {
                    assert(nv2[x] == t1 && nv2[y] == t0);
                    if x != b {
                        if x < b { assert(nv2[x] != nv2[b]); } else { assert(nv2[b] != nv2[x]); }
                    }
                    if y != a {
                        if y < a { assert(nv2[y] != nv2[a]); } else { assert(nv2[a] != nv2[y]); }
                    }
                }
            }
        }
    }
}

/// A text that is no valid pair leaves the graph as it is.
proof fn lemma_graph_skip(p0: Seq<Seq<char>>, t: Seq<char>, nv: Seq<Seq<char>>, ga: Seq<Seq<usize>>)
    requires
        graph_of(p0, nv, ga),
        !valid_pair(t),
    ensures
        graph_of(p0.push(t), nv, ga),
{
    let p1 = p0.push(t);
    assert forall|k: int| 0 <= k < nv.len() implies named_in(p1, #[trigger] nv[k]) by {
        assert(named_in(p0, nv[k]));
        let w = choose|w: int|
            0 <= w < p0.len() && valid_pair(#[trigger] p0[w]) && (split_spec(p0[w], ',')[0] == nv[k]
                || split_spec(p0[w], ',')[1] == nv[k]);
        assert(p1[w] == p0[w]);
    }
    assert forall|x: Seq<char>| named_in(p1, x) implies #[trigger] nv.contains(x) by {
        let w = choose|w: int|
            0 <= w < p1.len() && valid_pair(#[trigger] p1[w]) && (split_spec(p1[w], ',')[0] == x
                || split_spec(p1[w], ',')[1] == x);
        assert(w < p0.len());
        assert(p0[w] == p1[w]);
        assert(named_in(p0, x));
    }
    assert forall|x: int, y: int| #[trigger] edge(ga, x, y) <==> (0 <= x < nv.len() && 0 <= y < nv.len()
        && exists|w: int| 0 <= w < p1.len() && #[trigger] pair_joins(p1[w], nv[x], nv[y])) by {
        if exists|w: int| 0 <= w < p1.len() && #[trigger] pair_joins(p1[w], nv[x], nv[y]) {
            let w = choose|w: int| 0 <= w < p1.len() && #[trigger] pair_joins(p1[w], nv[x], nv[y]);
            assert(w < p0.len());
            assert(p0[w] == p1[w]);
        }
        if exists|w: int| 0 <= w < p0.len() && #[trigger] pair_joins(p0[w], nv[x], nv[y]) {
            let w = choose|w: int| 0 <= w < p0.len() && #[trigger] pair_joins(p0[w], nv[x], nv[y]);
            assert(p0[w] == p1[w]);
        }
    }
}

/// Adds the edge between positions `a` and `b`.
fn push_edge(adj: &mut Vec<Vec<usize>>, a: usize, b: usize)
    requires
        a < old(adj)@.len(),
        b < old(adj)@.len(),
    ensures
        adj_view(final(adj)@) == add_edge(adj_view(old(adj)@), a as int, b as int),
{
    let ghost av = adj_view(adj@);
    let mut ra = copy_row(&adj[a]);
    ra.push(b);
    adj.set(a, ra);
    let ghost av1 = adj_view(adj@);
    assert(av1 =~= av.update(a as int, av[a as int].push(b)));
    let mut rb = copy_row(&adj[b]);
    rb.push(a);
    adj.set(b, rb);
    assert(adj_view(adj@) =~= av1.update(b as int, av1[b as int].push(a)));
}

/// Builds the graph of the stored similar pairs; a text that does not split into exactly
/// two names at `,` is left out.
pub fn build_graph(similar_pairs: &Vec<String>) -> (r: ProcessGraph)
    requires
        similar_pairs@.len() * 2 < usize::MAX,
    ensures
        graph_of(views_of(similar_pairs@), views_of(r.nodes@), adj_view(r.adjacency@)),
{
    let ghost pv = views_of(similar_pairs@);
    let mut nodes: Vec<String> = Vec::new();
    let mut adj: Vec<Vec<usize>> = Vec::new();
    proof {
        assert(views_of(nodes@) =~= Seq::<Seq<char>>::empty());
        assert(adj_view(adj@) =~= Seq::<Seq<usize>>::empty());
        assert(pv.take(0) =~= Seq::<Seq<char>>::empty());
    }
    let mut i: usize = 0;
    while i < similar_pairs.len()
        invariant
            pv == views_of(similar_pairs@),
            similar_pairs@.len() * 2 < usize::MAX,
            i <= similar_pairs@.len(),
            nodes@.len() <= 2 * i,
            adj@.len() == nodes@.len(),
            graph_of(pv.take(i as int), views_of(nodes@), adj_view(adj@)),
        decreases similar_pairs@.len() - i,
    {
        let ghost p0 = pv.take(i as int);
        let ghost t = pv[i as int];
        proof {
            assert(pv.take(i + 1) =~= p0.push(t));
            assert(similar_pairs@[i as int]@ == t);
        }
        let parts = split_char(similar_pairs[i].as_str(), ',');
        if parts.len() == 2 {
            let ghost nv0 = views_of(nodes@);
            let ghost av0 = adj_view(adj@);
            let a = node_index(&mut nodes, &mut adj, parts[0].as_str());
            let b = node_index(&mut nodes, &mut adj, parts[1].as_str());
            let ghost nv2 = views_of(nodes@);
            let ghost av2 = adj_view(adj@);
            proof {
                assert(a < nodes@.len());
                assert(nv2[a as int] == split_spec(t, ',')[0]) by {
                    assert(parts@[0]@ == split_spec(t, ',')[0]);
                }
                assert(nv2[b as int] == split_spec(t, ',')[1]) by {
                    assert(parts@[1]@ == split_spec(t, ',')[1]);
                }
            }
            push_edge(&mut adj, a, b);
            proof {
                assert(forall|k: int| 0 <= k < nv0.len() ==> nv2[k] == #[trigger] nv0[k]);
                assert(forall|k: int| 0 <= k < nv0.len() ==> av2[k] == #[trigger] av0[k]);
                lemma_graph_step(p0, t, nv0, av0, nv2, av2, a as int, b as int);
            }
        } else {
            proof {
                assert(!valid_pair(t)) by {
                    assert(parts@.len() == split_spec(t, ',').len());
                }
                lemma_graph_skip(p0, t, views_of(nodes@), adj_view(adj@));
            }
        }
        i = i + 1;
    }
    proof {
        assert(pv.take(similar_pairs@.len() as int) =~= pv);
    }
    ProcessGraph { nodes, adjacency: adj }
}

/// The names of the members of each group.
pub open spec fn group_names(nodes: Seq<Seq<char>>, comps: Seq<Seq<usize>>) -> Seq<Seq<Seq<char>>> {
    comps.map_values(|g: Seq<usize>| g.map_values(|v: usize| nodes[v as int]))
}

pub open spec fn name_groups(r: Seq<Vec<String>>) -> Seq<Seq<Seq<char>>> {
    r.map_values(|g: Vec<String>| views_of(g@))
}

fn names_of_group(nodes: &Vec<String>, g: &Vec<usize>) -> (r: Vec<String>)
    requires
        forall|k: int| 0 <= k < g@.len() ==> (#[trigger] g@[k]) < nodes@.len(),
    ensures
        views_of(r@) == g@.map_values(|v: usize| views_of(nodes@)[v as int]),
{
    let mut out: Vec<String> = Vec::new();
    let mut i: usize = 0;
    while i < g.len()
        invariant
            i <= g@.len(),
            forall|k: int| 0 <= k < g@.len() ==> (#[trigger] g@[k]) < nodes@.len(),
            views_of(out@) == g@.take(i as int).map_values(|v: usize| views_of(nodes@)[v as int]),
        decreases g@.len() - i,
    {
        let ghost o0 = out@;
        out.push(nodes[g[i]].clone());
        proof {
            assert(views_of(out@) =~= views_of(o0).push(nodes@[g@[i as int] as int]@));
            assert(g@.take(i + 1).map_values(|v: usize| views_of(nodes@)[v as int]) =~= g@.take(i as int).map_values(
                |v: usize| views_of(nodes@)[v as int],
            ).push(views_of(nodes@)[g@[i as int] as int]));
        }
        i = i + 1;
    }
    assert(g@.take(g@.len() as int) =~= g@);
    out
}

/// The connected components of the graph, as groups of process names: each process of the
/// graph is in exactly one group, no similar pair joins two groups, and within a group each
/// process after the first is similar to an earlier one.
pub fn find_connected_components(graph: &ProcessGraph) -> (r: Vec<Vec<String>>)
    requires
        graph.adjacency@.len() == graph.nodes@.len(),
        wf_adj(adj_view(graph.adjacency@)),
    ensures
        exists|comps: Seq<Seq<usize>>|
            #[trigger] is_components(adj_view(graph.adjacency@), comps) && name_groups(r@) == group_names(
                views_of(graph.nodes@),
                comps,
            ),
{
    let comps = components_of(&graph.adjacency);
    let ghost cv = adj_view(comps@);
    let mut out: Vec<Vec<String>> = Vec::new();
    let mut c: usize = 0;
    while c < comps.len()
        invariant
            cv == adj_view(comps@),
            is_components(adj_view(graph.adjacency@), cv),
            graph.adjacency@.len() == graph.nodes@.len(),
            c <= comps@.len(),
            name_groups(out@) == group_names(views_of(graph.nodes@), cv.take(c as int)),
        decreases comps@.len() - c,
    {
        proof {
            assert(cv[c as int] == comps@[c as int]@);
            assert forall|k: int| 0 <= k < comps@[c as int]@.len() implies (#[trigger] comps@[c as int]@[k])
                < graph.nodes@.len() by {
                assert(cv[c as int][k] < adj_view(graph.adjacency@).len());
            }
        }
        let names = names_of_group(&graph.nodes, &comps[c]);
        let ghost o0 = out@;
        out.push(names);
        proof {
            assert(name_groups(out@) =~= name_groups(o0).push(views_of(names@)));
            assert(cv.take(c + 1) =~= cv.take(c as int).push(cv[c as int]));
            assert(group_names(views_of(graph.nodes@), cv.take(c + 1)) =~= group_names(
                views_of(graph.nodes@),
                cv.take(c as int),
            ).push(cv[c as int].map_values(|v: usize| views_of(graph.nodes@)[v as int])));
        }
        c = c + 1;
    }
    assert(cv.take(comps@.len() as int) =~= cv);
    out
}

/// The groups of at least two processes.
pub open spec fn big_groups(gs: Seq<Seq<Seq<char>>>) -> Seq<Seq<Seq<char>>>
    decreases gs.len(),
{
    if gs.len() == 0 {
        Seq::empty()
    } else if gs.last().len() >= 2 {
        big_groups(gs.drop_last()).push(gs.last())
    } else {
        big_groups(gs.drop_last())
    }
}

/// The clusters to make from the stored similar pairs: the connected components of the
/// graph of the pairs that hold at least two processes.
pub fn cluster_groups(similar_pairs: &Vec<String>) -> (r: Vec<Vec<String>>)
    requires
        similar_pairs@.len() * 2 < usize::MAX,
    ensures
        exists|nodes: Seq<Seq<char>>, adj: Seq<Seq<usize>>, comps: Seq<Seq<usize>>|
            #[trigger] graph_of(views_of(similar_pairs@), nodes, adj) && #[trigger] is_components(adj, comps)
                && name_groups(r@) == big_groups(group_names(nodes, comps)),
{
    let graph = build_graph(similar_pairs);
    let groups = find_connected_components(&graph);
    let ghost gv = name_groups(groups@);
    let mut out: Vec<Vec<String>> = Vec::new();
    let mut i: usize = 0;
    while i < groups.len()
        invariant
            gv == name_groups(groups@),
            i <= groups@.len(),
            name_groups(out@) == big_groups(gv.take(i as int)),
        decreases groups@.len() - i,
    {
        proof {
            assert(gv.take(i + 1).drop_last() =~= gv.take(i as int));
            assert(gv[i as int] == views_of(groups@[i as int]@));
        }
        if groups[i].len() >= 2 {
            let ghost o0 = out@;
            out.push(groups[i].clone());
            proof {
                assert(views_of(out@.last()@) == views_of(groups@[i as int]@)) by {
                    assert(out@.last()@ == groups@[i as int]@);
                }
                assert(name_groups(out@) =~= name_groups(o0).push(gv[i as int]));
            }
        }
        i = i + 1;
    }
    assert(gv.take(groups@.len() as int) =~= gv);
    out
}

/// A cluster: its id, type `v-bpa:ProcessCluster` and its processes.
pub open spec fn cluster_spec(cluster_id: Seq<char>, processes: Seq<String>) -> IndividualV {
    (IndividualV { id: cluster_id, props: Map::empty() }).with(
        "rdf:type"@,
        seq![ResourceV::Uri("v-bpa:ProcessCluster"@)],
    ).with("v-bpa:hasProcess"@, processes.map_values(|s: String| ResourceV::Uri(s@)))
}

/// A cluster individual: its id, type `v-bpa:ProcessCluster` and its processes.
pub fn cluster_individual(cluster_id: &str, processes: &Vec<String>) -> (r: Individual)
    ensures
        r@ == cluster_spec(cluster_id@, processes@),
{
    let mut c = Individual::with_id(cluster_id);
    c.set_uri("rdf:type", "v-bpa:ProcessCluster");
    c.set_uris("v-bpa:hasProcess", processes);
    c
}

/// A new cluster of `processes`, with the fresh id `d:bpa_cluster_<uuid>`; the contract holds
/// for the UUID drawn.
pub fn new_cluster(processes: &Vec<String>) -> (r: Individual)
    ensures
        exists|u: Seq<char>| r@ == #[trigger] cluster_spec("d:bpa_cluster_"@ + u, processes@),
{
    let u = new_uuid();
    let id = concat2("d:bpa_cluster_", u.as_str());
    let r = cluster_individual(id.as_str(), processes);
    assert(r@ == cluster_spec("d:bpa_cluster_"@ + u@, processes@));
    r
}

/// The clusters to create once all pairs are compared. Without similar pairs there is none,
/// and the attempt is completed; otherwise its previous clusters are forgotten and the
/// groups of two or more similar processes are returned.
pub fn clusters_to_build(attempt: &mut Individual) -> (r: Vec<Vec<String>>)
    requires
        old(attempt)@.literals("v-bpa:similarPairs"@) matches Some(l) ==> l.len() * 2 < usize::MAX,
    ensures
        (match old(attempt)@.literals("v-bpa:similarPairs"@) {
            Some(l) => l.len() == 0,
            None => true,
        }) ==> r@.len() == 0 && final(attempt)@ == with_uri(
            old(attempt)@,
            "v-bpa:hasClusterizationStatus"@,
            "v-bpa:Completed"@,
        ),
        old(attempt)@.literals("v-bpa:similarPairs"@) matches Some(l) ==> (l.len() > 0 ==> final(attempt)@
            == old(attempt)@.without("v-bpa:foundClusters"@) && exists|
            nodes: Seq<Seq<char>>,
            adj: Seq<Seq<usize>>,
            comps: Seq<Seq<usize>>,
        |
            #[trigger] graph_of(l, nodes, adj) && #[trigger] is_components(adj, comps) && name_groups(r@)
                == big_groups(group_names(nodes, comps))),
{
    let pairs = stored_similar_pairs(attempt);
    if pairs.len() == 0 {
        attempt.set_uri("v-bpa:hasClusterizationStatus", "v-bpa:Completed");
        return Vec::new();
    }
    attempt.remove("v-bpa:foundClusters");
    cluster_groups(&pairs)
}

/// The attempt once a cluster is saved: it lists the cluster among those found.
pub fn record_cluster(attempt: &mut Individual, cluster_id: &str)
    ensures
        final(attempt)@ == old(attempt)@.with_added("v-bpa:foundClusters"@, ResourceV::Uri(cluster_id@)),
{
    attempt.add_uri("v-bpa:foundClusters", cluster_id);
}

/// The stored similar pairs of an attempt.
pub fn stored_similar_pairs(attempt: &Individual) -> (r: Vec<String>)
    ensures
        attempt@.literals("v-bpa:similarPairs"@) matches Some(l) ==> views_of(r@) == l,
        attempt@.literals("v-bpa:similarPairs"@) is None ==> r@.len() == 0,
{
    match attempt.get_literals("v-bpa:similarPairs") {
        Some(l) => l,
        None => Vec::new(),
    }
}


/// The number of pairs compared before the pair `(x, y)` of the walk.
pub open spec fn compared_before(x: int, y: int, n: int) -> int {
    pairs_before(x, n) + (y - x - 1)
}

/// Each step of the walk over pairs counts exactly one more pair as compared, and the walk
/// has compared all `n (n - 1) / 2` pairs once it has passed the last one.
pub proof fn law_pair_walk_counts(s: ComparisonState, n: int)
    requires
        s.x < s.y < n,
    ensures
        compared_before(next_pair_spec(s, n).0, next_pair_spec(s, n).1, n) == compared_before(
            s.x as int,
            s.y as int,
            n,
        ) + 1,
        compared_before(n - 1, n, n) == n * (n - 1) / 2,
{
    lemma_pairs_before_double(n, n);
    assert(pairs_before(n, n) == pairs_before(n - 1, n) + (n - n));
}

// ---- how one more edge changes the components ----
/// The group that holds node `v`.
pub open spec fn group_of(comps: Seq<Seq<usize>>, v: int) -> int {
    choose|c: int| 0 <= c < comps.len() && #[trigger] comps[c].contains(v as usize)
}

/// `x` and `y` are in one group.
pub open spec fn together(comps: Seq<Seq<usize>>, x: int, y: int) -> bool {
    exists|c: int| 0 <= c < comps.len() && #[trigger] comps[c].contains(x as usize) && comps[c].contains(y as usize)
}

proof fn lemma_group_of(adj: Seq<Seq<usize>>, comps: Seq<Seq<usize>>, v: int, c: int)
    requires
        adj.len() <= usize::MAX,
        is_components(adj, comps),
        0 <= v < adj.len(),
    ensures
        0 <= group_of(comps, v) < comps.len(),
        comps[group_of(comps, v)].contains(v as usize),
        0 <= c < comps.len() && comps[c].contains(v as usize) ==> c == group_of(comps, v),
{
    assert(in_some(comps, v));
    let g = group_of(comps, v);
    if 0 <= c < comps.len() && comps[c].contains(v as usize) && c != g {
        let k1 = choose|k: int| 0 <= k < comps[c].len() && comps[c][k] == v as usize;
        let k2 = choose|k: int| 0 <= k < comps[g].len() && comps[g][k] == v as usize;
        assert(comps[c][k1] != comps[g][k2]);
    }
}

proof fn lemma_together_group(adj: Seq<Seq<usize>>, comps: Seq<Seq<usize>>, x: int, y: int)
    requires
        adj.len() <= usize::MAX,
        is_components(adj, comps),
        0 <= x < adj.len(),
        0 <= y < adj.len(),
    ensures
        together(comps, x, y) <==> group_of(comps, x) == group_of(comps, y),
{
    lemma_group_of(adj, comps, x, group_of(comps, y));
    lemma_group_of(adj, comps, y, group_of(comps, x));
    if together(comps, x, y) {
        let c = choose|c: int| 0 <= c < comps.len() && #[trigger] comps[c].contains(x as usize) && comps[c].contains(y as usize);
        lemma_group_of(adj, comps, x, c);
        lemma_group_of(adj, comps, y, c);
    }
}

proof fn lemma_edge_same_group(adj: Seq<Seq<usize>>, comps: Seq<Seq<usize>>, w: int, w2: int)
    requires
        adj.len() <= usize::MAX,
        is_components(adj, comps),
        edge(adj, w, w2),
    ensures
        group_of(comps, w) == group_of(comps, w2),
{
    lemma_group_of(adj, comps, w, 0);
    let g = group_of(comps, w);
    let k = choose|k: int| 0 <= k < comps[g].len() && comps[g][k] == w as usize;
    assert(closed(adj, comps[g]));
    assert(edge(adj, comps[g][k] as int, w2));
    lemma_group_of(adj, comps, w2, g);
}

proof fn lemma_chain_kept(adj: Seq<Seq<usize>>, adj2: Seq<Seq<usize>>, comps2: Seq<Seq<usize>>, g: Seq<usize>, par: Seq<int>, k: int)
    requires
        adj2.len() <= usize::MAX,
        is_components(adj2, comps2),
        forall|x: int, y: int| #[trigger] edge(adj, x, y) ==> edge(adj2, x, y),
        linked_by(adj, g, par),
        0 <= k < g.len(),
    ensures
        group_of(comps2, g[k] as int) == group_of(comps2, g[0] as int),
    decreases k,
{
    if k > 0 {
        let p = par[k];
        lemma_chain_kept(adj, adj2, comps2, g, par, p);
        assert(edge(adj, g[p] as int, g[k] as int));
        lemma_edge_same_group(adj2, comps2, g[p] as int, g[k] as int);
    }
}

/// After the edge, `w` is with `z`, by the groups before: in the group of `z`, or `z` and `w`
/// are with `a` and `b`, one each.
pub open spec fn joined(comps: Seq<Seq<usize>>, a: int, b: int, z: int, w: int) -> bool {
    ||| group_of(comps, z) == group_of(comps, w)
    ||| group_of(comps, z) == group_of(comps, a) && group_of(comps, w) == group_of(comps, b)
    ||| group_of(comps, z) == group_of(comps, b) && group_of(comps, w) == group_of(comps, a)
}

proof fn lemma_chain_joined(adj: Seq<Seq<usize>>, comps: Seq<Seq<usize>>, a: int, b: int, g: Seq<usize>, par: Seq<int>, k: int)
    requires
        adj.len() <= usize::MAX,
        is_components(adj, comps),
        0 <= a < adj.len(),
        0 <= b < adj.len(),
        linked_by(add_edge(adj, a, b), g, par),
        forall|j: int| 0 <= j < g.len() ==> (#[trigger] g[j]) < adj.len(),
        0 <= k < g.len(),
    ensures
        joined(comps, a, b, g[0] as int, g[k] as int),
    decreases k,
{
    if k > 0 {
        let p = par[k];
        lemma_chain_joined(adj, comps, a, b, g, par, p);
        let w = g[p] as int;
        let w2 = g[k] as int;
        lemma_add_edge(adj, a, b, w, w2);
        if edge(adj, w, w2) {
            lemma_edge_same_group(adj, comps, w, w2);
        }
    }
}

/// Adding an edge between `a` and `b` merges their components, or leaves the grouping as it
/// was where they are in one already: after the edge, two nodes are in one group exactly where
/// they were before, or one was with `a` and the other with `b`.
pub proof fn law_edge_joins_components(
    adj: Seq<Seq<usize>>,
    comps: Seq<Seq<usize>>,
    comps2: Seq<Seq<usize>>,
    a: int,
    b: int,
    x: int,
    y: int,
)
    requires
        adj.len() <= usize::MAX,
        wf_adj(adj),
        0 <= a < adj.len(),
        0 <= b < adj.len(),
        is_components(adj, comps),
        is_components(add_edge(adj, a, b), comps2),
        0 <= x < adj.len(),
        0 <= y < adj.len(),
    ensures
        together(comps2, x, y) <==> (together(comps, x, y) || (together(comps, x, a) && together(comps, y, b))
            || (together(comps, x, b) && together(comps, y, a))),
        together(comps, a, b) ==> (together(comps2, x, y) <==> together(comps, x, y)),
{
    let adj2 = add_edge(adj, a, b);
    lemma_add_edge(adj, a, b, a, b);
    assert forall|u: int, v: int| #[trigger] edge(adj, u, v) implies edge(adj2, u, v) by {
        lemma_add_edge(adj, a, b, u, v);
    }
    lemma_together_group(adj, comps, x, y);
    lemma_together_group(adj, comps, x, a);
    lemma_together_group(adj, comps, y, b);
    lemma_together_group(adj, comps, x, b);
    lemma_together_group(adj, comps, y, a);
    lemma_together_group(adj, comps, a, b);
    lemma_together_group(adj2, comps2, x, y);
    // before ==> after: each old group lies in one new group, and the new edge joins a and b
    assert forall|u: int| 0 <= u < adj.len() implies group_of(comps2, u) == group_of(comps2, comps[group_of(comps, u)][0] as int) by {
        lemma_group_of(adj, comps, u, 0);
        let c = group_of(comps, u);
        let g = comps[c];
        assert(linked(adj, g));
        let par = choose|par: Seq<int>| #[trigger] linked_by(adj, g, par);
        let k = choose|k: int| 0 <= k < g.len() && g[k] == u as usize;
        lemma_chain_kept(adj, adj2, comps2, g, par, k);
    }
    lemma_edge_same_group(adj2, comps2, a, b);
    // after ==> before: the new group of x and y grew from one node by old edges and the new one
    if group_of(comps2, x) == group_of(comps2, y) {
        lemma_group_of(adj2, comps2, x, 0);
        let c2 = group_of(comps2, x);
        let g2 = comps2[c2];
        lemma_group_of(adj2, comps2, y, c2);
        assert(linked(adj2, g2));
        let par = choose|par: Seq<int>| #[trigger] linked_by(adj2, g2, par);
        assert forall|j: int| 0 <= j < g2.len() implies (#[trigger] g2[j]) < adj.len() by {
            assert(g2[j] == comps2[c2][j]);
        }
        let kx = choose|k: int| 0 <= k < g2.len() && g2[k] == x as usize;
        let ky = choose|k: int| 0 <= k < g2.len() && g2[k] == y as usize;
        lemma_chain_joined(adj, comps, a, b, g2, par, kx);
        lemma_chain_joined(adj, comps, a, b, g2, par, ky);
    }
}

} // verus!
