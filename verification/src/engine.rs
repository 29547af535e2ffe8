//! The sort engine's decision core: given the discovered entries and
//! the names already present in the target, it fixes which files are
//! skipped, which are moved and to which destination name, and which
//! are recorded as failures. The filesystem work itself is the
//! caller's: it performs each planned move and reports the outcomes,
//! which [`finish`] folds into the final result.

use vstd::prelude::*;
use crate::config::{DateType, SortConfig};
use crate::filter::{should_process, should_process_spec};
use crate::naming::{candidate_spec, dest_stem_spec, ext_of, first_free_spec,
    lemma_first_free_fresh, pick_fresh_name, split_extension, MAX_DISAMBIGUATION};
use crate::text::{normalize_spec, push_char, views_of};
use crate::timestamp::{format_spec, format_timestamp, Timestamp};

verus! {

/// Why one file could not be sorted. The run itself never aborts on
/// these; they are collected in the result.
#[derive(Clone, Copy, PartialEq, Eq, Structural, Debug)]
pub enum FailureCause {
    /// The selected timestamp could not be read.
    MetadataUnavailable,
    /// The move itself failed.
    MoveFailed,
    /// The move was refused for lack of permission.
    PermissionDenied,
    /// No free destination name was found within the disambiguation
    /// budget.
    DestinationExists,
}

/// One filesystem object discovered directly under the source
/// directory: its name and the timestamps the caller could read.
pub struct SourceEntry {
    /// The file name, extension included.
    pub name: String,
    /// Creation time, when readable.
    pub created: Option<Timestamp>,
    /// Last access time, when readable.
    pub accessed: Option<Timestamp>,
    /// Last modification time, when readable.
    pub modified: Option<Timestamp>,
    /// Byte size; progress accounting only, never sorting logic.
    pub size: u64,
}

/// One planned move: which source file goes to which destination name.
pub struct PlannedMove {
    pub source_name: String,
    pub dest_name: String,
}

/// One recorded per-file failure.
pub struct Failure {
    pub name: String,
    pub cause: FailureCause,
}

/// What the engine decided for one run.
pub struct SortPlan {
    /// The moves to perform, in directory-listing order.
    pub moves: Vec<PlannedMove>,
    /// Names of the files the filter skipped.
    pub skipped: Vec<String>,
    /// Failures already known at planning time.
    pub failures: Vec<Failure>,
    /// How many entries passed the filter: moves plus planned failures.
    pub total: usize,
    /// How many entries were looked at in all.
    pub scanned: usize,
}

/// The ghost mirror of a plan: names only, plus the destination names
/// taken so far.
pub ghost struct PlanV {
    pub moves: Seq<(Seq<char>, Seq<char>)>,
    pub failures: Seq<(Seq<char>, FailureCause)>,
    pub skipped: Seq<Seq<char>>,
    pub used: Seq<Seq<char>>,
}

/// The views of a sequence of planned moves.
pub open spec fn moves_v(ms: Seq<PlannedMove>) -> Seq<(Seq<char>, Seq<char>)> {
    Seq::new(ms.len(), |i: int| (ms[i].source_name@, ms[i].dest_name@))
}

/// The views of a sequence of failures.
pub open spec fn failures_v(fs: Seq<Failure>) -> Seq<(Seq<char>, FailureCause)> {
    Seq::new(fs.len(), |i: int| (fs[i].name@, fs[i].cause))
}

/// Whether the filter lets this entry take part in the run.
pub open spec fn entry_passes(cfg: SortConfig, e: SourceEntry) -> bool {
    should_process_spec(
        normalize_spec(ext_of(e.name@)),
        views_of(cfg.only_type@),
        views_of(cfg.exclude_type@),
    )
}

/// The timestamp that the configured date type selects.
pub open spec fn selected_spec(e: SourceEntry, dt: DateType) -> Option<Timestamp> {
    match dt {
        DateType::Created => e.created,
        DateType::Accessed => e.accessed,
        DateType::Modified => e.modified,
    }
}

/// The destination stem an entry gets once its timestamp is known.
pub open spec fn entry_stem_spec(cfg: SortConfig, e: SourceEntry, ts: Timestamp) -> Seq<char> {
    dest_stem_spec(format_spec(cfg.date_format@, ts), e.name@, cfg.preserve_name)
}

/// What the engine decides for the entries from position `i` on, with
/// `used` the destination names already taken. Each entry is, in
/// order: skipped by the filter; failed for unreadable metadata;
/// failed for want of a free destination name; or moved to the first
/// free candidate name, which is then taken for the rest of the run.
pub open spec fn plan_suffix(
    cfg: SortConfig,
    entries: Seq<SourceEntry>,
    i: int,
    used: Seq<Seq<char>>,
) -> PlanV
    decreases entries.len() - i,
{
    if !(0 <= i < entries.len()) {
        PlanV { moves: Seq::empty(), failures: Seq::empty(), skipped: Seq::empty(), used }
    } else {
        let e = entries[i];
        if !entry_passes(cfg, e) {
            let rest = plan_suffix(cfg, entries, i + 1, used);
            PlanV {
                moves: rest.moves,
                failures: rest.failures,
                skipped: seq![e.name@] + rest.skipped,
                used: rest.used,
            }
        } else {
            match selected_spec(e, cfg.date_type) {
                Option::None => {
                    let rest = plan_suffix(cfg, entries, i + 1, used);
                    PlanV {
                        moves: rest.moves,
                        failures: seq![(e.name@, FailureCause::MetadataUnavailable)]
                            + rest.failures,
                        skipped: rest.skipped,
                        used: rest.used,
                    }
                },
                Option::Some(ts) => {
                    let stem = entry_stem_spec(cfg, e, ts);
                    let ext = ext_of(e.name@);
                    match first_free_spec(stem, ext, used, 0, MAX_DISAMBIGUATION as nat) {
                        Option::None => {
                            let rest = plan_suffix(cfg, entries, i + 1, used);
                            PlanV {
                                moves: rest.moves,
                                failures: seq![(e.name@, FailureCause::DestinationExists)]
                                    + rest.failures,
                                skipped: rest.skipped,
                                used: rest.used,
                            }
                        },
                        Option::Some(d) => {
                            let rest = plan_suffix(cfg, entries, i + 1, used.push(d));
                            PlanV {
                                moves: seq![(e.name@, d)] + rest.moves,
                                failures: rest.failures,
                                skipped: rest.skipped,
                                used: rest.used,
                            }
                        },
                    }
                },
            }
        }
    }
}

/// How many of the entries from position `i` on pass the filter.
pub open spec fn count_passing_from(cfg: SortConfig, entries: Seq<SourceEntry>, i: int) -> int
    decreases entries.len() - i,
{
    if !(0 <= i < entries.len()) {
        0
    } else {
        (if entry_passes(cfg, entries[i]) {
            1int
        } else {
            0int
        }) + count_passing_from(cfg, entries, i + 1)
    }
}

/// Every entry that passes the filter is attempted exactly once: the
/// planned moves and the planned failures together number the passing
/// entries, and the skipped list holds exactly the others.
pub proof fn lemma_plan_counts(
    cfg: SortConfig,
    entries: Seq<SourceEntry>,
    i: int,
    used: Seq<Seq<char>>,
)
    requires
        0 <= i <= entries.len(),
    ensures
        plan_suffix(cfg, entries, i, used).moves.len() + plan_suffix(
            cfg,
            entries,
            i,
            used,
        ).failures.len() == count_passing_from(cfg, entries, i),
        plan_suffix(cfg, entries, i, used).skipped.len() == (entries.len() - i)
            - count_passing_from(cfg, entries, i),
    decreases entries.len() - i,
{
    if i < entries.len() {
        let e = entries[i];
        if !entry_passes(cfg, e) {
            lemma_plan_counts(cfg, entries, i + 1, used);
        } else {
            match selected_spec(e, cfg.date_type) {
                Option::None => {
                    lemma_plan_counts(cfg, entries, i + 1, used);
                },
                Option::Some(ts) => {
                    let stem = entry_stem_spec(cfg, e, ts);
                    let ext = ext_of(e.name@);
                    match first_free_spec(stem, ext, used, 0, MAX_DISAMBIGUATION as nat) {
                        Option::None => {
                            lemma_plan_counts(cfg, entries, i + 1, used);
                        },
                        Option::Some(d) => {
                            lemma_plan_counts(cfg, entries, i + 1, used.push(d));
                        },
                    }
                },
            }
        }
    }
}

proof fn lemma_push_not_contains(s: Seq<Seq<char>>, d: Seq<char>, x: Seq<char>)
    requires
        !s.push(d).contains(x),
    ensures
        !s.contains(x),
        x != d,
{
    if s.contains(x) {
        let j = choose|j: int| 0 <= j < s.len() && s[j] == x;
        assert(s.push(d)[j] == x);
    }
    assert(s.push(d)[s.len() as int] == d);
}

proof fn lemma_plan_same_moves(p: PlanV, q: PlanV, used: Seq<Seq<char>>)
    requires
        p.moves == q.moves,
        forall|a: int, b: int|
            0 <= a < b < q.moves.len() ==> (#[trigger] q.moves[a]).1 != (#[trigger] q.moves[b]).1,
        forall|a: int| 0 <= a < q.moves.len() ==> !used.contains((#[trigger] q.moves[a]).1),
    ensures
        forall|a: int, b: int|
            0 <= a < b < p.moves.len() ==> (#[trigger] p.moves[a]).1 != (#[trigger] p.moves[b]).1,
        forall|a: int| 0 <= a < p.moves.len() ==> !used.contains((#[trigger] p.moves[a]).1),
{
}

/// The collision policy never hands out the same destination name
/// twice in one run, nor one of the names that were already taken.
pub proof fn lemma_plan_dests_distinct(
    cfg: SortConfig,
    entries: Seq<SourceEntry>,
    i: int,
    used: Seq<Seq<char>>,
)
    ensures
        forall|a: int, b: int|
            0 <= a < b < plan_suffix(cfg, entries, i, used).moves.len() ==> (
            #[trigger] plan_suffix(cfg, entries, i, used).moves[a]).1 != (#[trigger] plan_suffix(
                cfg,
                entries,
                i,
                used,
            ).moves[b]).1,
        forall|a: int|
            0 <= a < plan_suffix(cfg, entries, i, used).moves.len() ==> !used.contains(
                (#[trigger] plan_suffix(cfg, entries, i, used).moves[a]).1,
            ),
    decreases entries.len() - i,
{
    if 0 <= i < entries.len() {
        let e = entries[i];
        let p = plan_suffix(cfg, entries, i, used);
        if !entry_passes(cfg, e) {
            lemma_plan_dests_distinct(cfg, entries, i + 1, used);
            lemma_plan_same_moves(p, plan_suffix(cfg, entries, i + 1, used), used);
        } else {
            match selected_spec(e, cfg.date_type) {
                Option::None => {
                    lemma_plan_dests_distinct(cfg, entries, i + 1, used);
                    lemma_plan_same_moves(p, plan_suffix(cfg, entries, i + 1, used), used);
                },
                Option::Some(ts) => {
                    let stem = entry_stem_spec(cfg, e, ts);
                    let ext = ext_of(e.name@);
                    match first_free_spec(stem, ext, used, 0, MAX_DISAMBIGUATION as nat) {
                        Option::None => {
                            lemma_plan_dests_distinct(cfg, entries, i + 1, used);
                            lemma_plan_same_moves(p, plan_suffix(cfg, entries, i + 1, used), used);
                        },
                        Option::Some(d) => {
                            lemma_first_free_fresh(stem, ext, used, 0, MAX_DISAMBIGUATION as nat);
                            lemma_plan_dests_distinct(cfg, entries, i + 1, used.push(d));
                            let rest = plan_suffix(cfg, entries, i + 1, used.push(d));
                            assert(p.moves == seq![(e.name@, d)] + rest.moves);
                            assert forall|a: int, b: int|
                                0 <= a < b < p.moves.len() implies (#[trigger] p.moves[a]).1 != (
                            #[trigger] p.moves[b]).1 by {
                                if a == 0 {
                                    assert(p.moves[b] == rest.moves[b - 1]);
                                    lemma_push_not_contains(used, d, rest.moves[b - 1].1);
                                } else {
                                    assert(p.moves[a] == rest.moves[a - 1]);
                                    assert(p.moves[b] == rest.moves[b - 1]);
                                }
                            }
                            assert forall|a: int| 0 <= a < p.moves.len() implies !used.contains(
                                (#[trigger] p.moves[a]).1,
                            ) by {
                                if a == 0 {
                                    assert(p.moves[0].1 == d);
                                } else {
                                    assert(p.moves[a] == rest.moves[a - 1]);
                                    lemma_push_not_contains(used, d, rest.moves[a - 1].1);
                                }
                            }
                        },
                    }
                },
            }
        }
    }
}

fn get_selected(e: &SourceEntry, dt: DateType) -> (r: Option<Timestamp>)
    ensures
        r == selected_spec(*e, dt),
{
    match dt {
        DateType::Created => e.created,
        DateType::Accessed => e.accessed,
        DateType::Modified => e.modified,
    }
}

fn build_dest_stem(formatted: String, original_stem: &str, preserve: bool, Ghost(name): Ghost<
    Seq<char>,
>) -> (r: String)
    requires
        original_stem@ == crate::naming::stem_of(name),
    ensures
        r@ == dest_stem_spec(formatted@, name, preserve),
{
    if preserve {
        let ghost f0 = formatted@;
        let mut s = formatted;
        push_char(&mut s, ' ');
        s.append(original_stem);
        proof {
            assert(s@ =~= f0 + seq![' '] + crate::naming::stem_of(name));
        }
        s
    } else {
        formatted
    }
}

/// Decide the whole run: which entries are skipped, which are moved
/// and to which names, and which fail at planning time. `existing`
/// holds the names already present in the target directory; no chosen
/// destination name repeats one of them or another chosen name.
pub fn plan_run(config: &SortConfig, entries: &Vec<SourceEntry>, existing: &Vec<String>) -> (r:
    SortPlan)
    ensures
        ({
            let p = plan_suffix(*config, entries@, 0, views_of(existing@));
            &&& moves_v(r.moves@) == p.moves
            &&& failures_v(r.failures@) == p.failures
            &&& views_of(r.skipped@) == p.skipped
            &&& r.total == p.moves.len() + p.failures.len()
            &&& r.scanned == entries@.len()
        }),
        r.total == count_passing_from(*config, entries@, 0),
        forall|a: int, b: int|
            0 <= a < b < r.moves@.len() ==> (#[trigger] r.moves@[a]).dest_name@ != (
            #[trigger] r.moves@[b]).dest_name@,
        forall|a: int|
            0 <= a < r.moves@.len() ==> !views_of(existing@).contains(
                (#[trigger] r.moves@[a]).dest_name@,
            ),
{
    let ghost p0 = plan_suffix(*config, entries@, 0, views_of(existing@));
    let n = entries.len();
    let mut moves: Vec<PlannedMove> = Vec::new();
    let mut skipped: Vec<String> = Vec::new();
    let mut failures: Vec<Failure> = Vec::new();
    let mut used: Vec<String> = Vec::new();
    let mut total: usize = 0;
    let mut idx: usize = 0;
    // seed the taken names with what the target already holds
    let mut k: usize = 0;
    while k < existing.len()
        invariant
            k <= existing@.len(),
            used@.len() == k,
            forall|j: int| 0 <= j < k ==> used@[j]@ == existing@[j]@,
        decreases existing@.len() - k,
    {
        used.push(existing[k].clone());
        k = k + 1;
    }
    proof {
        assert(views_of(used@) =~= views_of(existing@));
    }
    while idx < n
        invariant
            idx <= n,
            n == entries@.len(),
            p0 == plan_suffix(*config, entries@, 0, views_of(existing@)),
            moves_v(moves@) + plan_suffix(*config, entries@, idx as int, views_of(used@)).moves
                == p0.moves,
            failures_v(failures@) + plan_suffix(
                *config,
                entries@,
                idx as int,
                views_of(used@),
            ).failures == p0.failures,
            views_of(skipped@) + plan_suffix(
                *config,
                entries@,
                idx as int,
                views_of(used@),
            ).skipped == p0.skipped,
            total == moves@.len() + failures@.len(),
            total <= idx,
        decreases n - idx,
    {
        let ghost u0 = views_of(used@);
        let ghost rest = plan_suffix(*config, entries@, idx as int, u0);
        let ghost e = entries@[idx as int];
        let entry = &entries[idx];
        let (orig_stem, orig_ext) = split_extension(entry.name.as_str());
        let passes = should_process(orig_ext.as_str(), config);
        proof {
            assert(passes == entry_passes(*config, e));
        }
        if !passes {
            let ghost old_sk = views_of(skipped@);
            skipped.push(entry.name.clone());
            proof {
                let rest2 = plan_suffix(*config, entries@, idx + 1, u0);
                assert(rest.skipped == seq![e.name@] + rest2.skipped);
                assert(views_of(skipped@) =~= old_sk.push(e.name@));
                assert(views_of(skipped@) + rest2.skipped =~= old_sk + rest.skipped);
            }
        } else {
            let ts_opt = get_selected(entry, config.date_type);
            match ts_opt {
                Option::None => {
                    let ghost old_f = failures_v(failures@);
                    failures.push(
                        Failure { name: entry.name.clone(), cause: FailureCause::MetadataUnavailable },
                    );
                    total = total + 1;
                    proof {
                        let rest2 = plan_suffix(*config, entries@, idx + 1, u0);
                        assert(rest.failures == seq![(e.name@, FailureCause::MetadataUnavailable)]
                            + rest2.failures);
                        assert(failures_v(failures@) =~= old_f.push(
                            (e.name@, FailureCause::MetadataUnavailable),
                        ));
                        assert(failures_v(failures@) + rest2.failures =~= old_f + rest.failures);
                    }
                },
                Option::Some(ts) => {
                    let formatted = format_timestamp(config.date_format.as_str(), &ts);
                    let stem = build_dest_stem(
                        formatted,
                        orig_stem.as_str(),
                        config.preserve_name,
                        Ghost(e.name@),
                    );
                    proof {
                        assert(stem@ == entry_stem_spec(*config, e, ts));
                    }
                    match pick_fresh_name(stem.as_str(), orig_ext.as_str(), &used) {
                        Option::None => {
                            let ghost old_f = failures_v(failures@);
                            failures.push(
                                Failure {
                                    name: entry.name.clone(),
                                    cause: FailureCause::DestinationExists,
                                },
                            );
                            total = total + 1;
                            proof {
                                let rest2 = plan_suffix(*config, entries@, idx + 1, u0);
                                assert(rest.failures == seq![
                                    (e.name@, FailureCause::DestinationExists),
                                ] + rest2.failures);
                                assert(failures_v(failures@) =~= old_f.push(
                                    (e.name@, FailureCause::DestinationExists),
                                ));
                                assert(failures_v(failures@) + rest2.failures =~= old_f
                                    + rest.failures);
                            }
                        },
                        Option::Some(dest) => {
                            let ghost old_m = moves_v(moves@);
                            let ghost d = dest@;
                            moves.push(
                                PlannedMove {
                                    source_name: entry.name.clone(),
                                    dest_name: dest.clone(),
                                },
                            );
                            used.push(dest);
                            total = total + 1;
                            proof {
                                assert(views_of(used@) =~= u0.push(d));
                                let rest2 = plan_suffix(*config, entries@, idx + 1, u0.push(d));
                                assert(rest.moves == seq![(e.name@, d)] + rest2.moves);
                                assert(moves_v(moves@) =~= old_m.push((e.name@, d)));
                                assert(moves_v(moves@) + rest2.moves =~= old_m + rest.moves);
                            }
                        },
                    }
                },
            }
        }
        idx = idx + 1;
    }
    proof {
        let tail = plan_suffix(*config, entries@, n as int, views_of(used@));
        assert(moves_v(moves@) + tail.moves =~= moves_v(moves@));
        assert(failures_v(failures@) + tail.failures =~= failures_v(failures@));
        assert(views_of(skipped@) + tail.skipped =~= views_of(skipped@));
        lemma_plan_dests_distinct(*config, entries@, 0, views_of(existing@));
        lemma_plan_counts(*config, entries@, 0, views_of(existing@));
        assert forall|a: int, b: int| 0 <= a < b < moves@.len() implies (
        #[trigger] moves@[a]).dest_name@ != (#[trigger] moves@[b]).dest_name@ by {
            assert(moves_v(moves@)[a] == p0.moves[a]);
            assert(moves_v(moves@)[b] == p0.moves[b]);
        }
        assert forall|a: int| 0 <= a < moves@.len() implies !views_of(existing@).contains(
            (#[trigger] moves@[a]).dest_name@,
        ) by {
            assert(moves_v(moves@)[a] == p0.moves[a]);
        }
    }
    SortPlan { moves, skipped, failures, total, scanned: n }
}

/// A date-only pattern ignores the time of day: a file `photo.jpg`
/// stamped at any time on 2024-03-07, sorted with names preserved and
/// no collision pending, is destined for `2024-03-07 photo.jpg`.
pub proof fn lemma_date_pattern_ignores_time(ts: Timestamp)
    requires
        ts.wf(),
        ts.year == 2024,
        ts.month == 3,
        ts.day == 7,
    ensures
        candidate_spec(
            dest_stem_spec(format_spec("%Y-%m-%d"@, ts), "photo.jpg"@, true),
            ext_of("photo.jpg"@),
            0,
        ) == "2024-03-07 photo.jpg"@,
{
    reveal_strlit("%Y-%m-%d");
    reveal_strlit("photo.jpg");
    reveal_strlit("2024-03-07 photo.jpg");
    reveal_with_fuel(format_spec, 10);
    reveal_with_fuel(crate::naming::last_dot, 12);
    assert(candidate_spec(
        dest_stem_spec(format_spec("%Y-%m-%d"@, ts), "photo.jpg"@, true),
        ext_of("photo.jpg"@),
        0,
    ) =~= "2024-03-07 photo.jpg"@);
}

/// How many planned moves succeeded, given the reported outcomes.
pub open spec fn count_none(os: Seq<Option<FailureCause>>) -> int
    decreases os.len(),
{
    if os.len() == 0 {
        0
    } else {
        count_none(os.drop_last()) + if os.last() is None {
            1int
        } else {
            0int
        }
    }
}

/// The failures among the performed moves: one per reported cause,
/// under the move's source name.
pub open spec fn move_failures(
    ms: Seq<(Seq<char>, Seq<char>)>,
    os: Seq<Option<FailureCause>>,
) -> Seq<(Seq<char>, FailureCause)>
    decreases os.len(),
{
    if os.len() == 0 || ms.len() != os.len() {
        Seq::empty()
    } else {
        let pre = move_failures(ms.drop_last(), os.drop_last());
        match os.last() {
            Option::None => pre,
            Option::Some(c) => pre.push((ms.last().0, c)),
        }
    }
}

/// The terminal outcome of one run.
pub struct SortResult {
    /// How many entries were looked at in all.
    pub scanned: usize,
    /// How many files were moved.
    pub moved: usize,
    /// How many files the filter skipped.
    pub skipped: usize,
    /// Every per-file failure: those known at planning time, then
    /// those the move outcomes reported.
    pub failures: Vec<Failure>,
}

/// Fold the plan and the outcome of each performed move into the final
/// result. `outcomes` holds, for each planned move in order, `None`
/// on success or the failure cause the caller saw.
pub fn finish(plan: &SortPlan, outcomes: &Vec<Option<FailureCause>>) -> (r: SortResult)
    requires
        outcomes@.len() == plan.moves@.len(),
    ensures
        r.scanned == plan.scanned,
        r.skipped == plan.skipped@.len(),
        r.moved == count_none(outcomes@),
        failures_v(r.failures@) == failures_v(plan.failures@) + move_failures(
            moves_v(plan.moves@),
            outcomes@,
        ),
{
    let n = plan.moves.len();
    let mut failures: Vec<Failure> = Vec::new();
    let mut i: usize = 0;
    while i < plan.failures.len()
        invariant
            i <= plan.failures@.len(),
            failures@.len() == i,
            forall|j: int|
                0 <= j < i ==> (#[trigger] failures@[j]).name@ == plan.failures@[j].name@
                    && failures@[j].cause == plan.failures@[j].cause,
        decreases plan.failures@.len() - i,
    {
        let f = &plan.failures[i];
        failures.push(Failure { name: f.name.clone(), cause: f.cause });
        i = i + 1;
    }
    proof {
        assert(failures_v(failures@) =~= failures_v(plan.failures@));
    }
    let mut moved: usize = 0;
    let mut j: usize = 0;
    while j < n
        invariant
            j <= n,
            n == plan.moves@.len(),
            outcomes@.len() == n,
            moved == count_none(outcomes@.subrange(0, j as int)),
            moved <= j,
            failures_v(failures@) =~= failures_v(plan.failures@) + move_failures(
                moves_v(plan.moves@).subrange(0, j as int),
                outcomes@.subrange(0, j as int),
            ),
        decreases n - j,
    {
        let ghost mpre = moves_v(plan.moves@).subrange(0, j as int);
        let ghost opre = outcomes@.subrange(0, j as int);
        proof {
            assert(outcomes@.subrange(0, j + 1).drop_last() =~= opre);
            assert(moves_v(plan.moves@).subrange(0, j + 1).drop_last() =~= mpre);
            assert(outcomes@.subrange(0, j + 1).last() == outcomes@[j as int]);
            assert(moves_v(plan.moves@).subrange(0, j + 1).last() == moves_v(plan.moves@)[j as int]);
        }
        match &outcomes[j] {
            Option::None => {
                moved = moved + 1;
            },
            Option::Some(c) => {
                let ghost old_f = failures_v(failures@);
                failures.push(Failure { name: plan.moves[j].source_name.clone(), cause: *c });
                proof {
                    assert(failures_v(failures@) =~= old_f.push(
                        (plan.moves@[j as int].source_name@, *c),
                    ));
                }
            },
        }
        j = j + 1;
    }
    proof {
        assert(outcomes@.subrange(0, n as int) =~= outcomes@);
        assert(moves_v(plan.moves@).subrange(0, n as int) =~= moves_v(plan.moves@));
    }
    SortResult { scanned: plan.scanned, moved, skipped: plan.skipped.len(), failures }
}

} // verus!
