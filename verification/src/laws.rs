//! What holds of every plan, proved over the model of the bus.

use crate::model::{assembled, without, MonitorsView};
use crate::probe::ReportView;
use crate::vcp::{
    effect, lemma_outcome_concat, lemma_outcome_elsewhere, lemma_paced_concat, lemma_replay,
    on_bus, outcome, paced, scalar_of, settled, targets, writes_to, Feature, Levels, Step,
};
use vstd::prelude::*;

verus! {

/// A plan of one step has the effect of that step.
pub proof fn lemma_outcome_one(levels: Levels, step: Step)
    ensures
        outcome(levels, seq![step]) == effect(levels, step),
{
    let plan = seq![step];
    assert(plan.drop_last() =~= Seq::<Step>::empty());
    assert(outcome(levels, plan.drop_last()) == levels);
    assert(plan.last() == step);
}

/// What a plan of at most one write, a pause and at most one more write
/// does.
proof fn lemma_outcome_pair(levels: Levels, first: Seq<Step>, second: Seq<Step>)
    requires
        first.len() <= 1,
        second.len() <= 1,
    ensures
        outcome(levels, first + seq![Step::Pause] + second) == {
            let begun = if first.len() == 1 {
                effect(levels, first[0])
            } else {
                levels
            };
            if second.len() == 1 {
                effect(begun, second[0])
            } else {
                begun
            }
        },
{
    let pause = seq![Step::Pause];
    lemma_outcome_concat(levels, first + pause, second);
    lemma_outcome_concat(levels, first, pause);
    lemma_outcome_one(outcome(levels, first), Step::Pause);
    if first.len() == 1 {
        assert(first =~= seq![first[0]]);
        lemma_outcome_one(levels, first[0]);
    } else {
        assert(first =~= Seq::<Step>::empty());
    }
    if second.len() == 1 {
        assert(second =~= seq![second[0]]);
        lemma_outcome_one(outcome(levels, first + pause), second[0]);
    } else {
        assert(second =~= Seq::<Step>::empty());
    }
}

/// Dimming a display sets each feature that it supports to zero.
pub proof fn lemma_dim_reaches_zero(
    monitors: MonitorsView,
    id: Seq<char>,
    feature: Feature,
    levels: Levels,
)
    requires
        monitors.supports(id, feature),
    ensures
        outcome(levels, monitors.dim_plan(id)).contains_key((id, feature.spec_code())),
        outcome(levels, monitors.dim_plan(id))[(id, feature.spec_code())] == 0,
{
    lemma_outcome_pair(
        levels,
        monitors.dim_step(id, Feature::Luminance),
        monitors.dim_step(id, Feature::Contrast),
    );
}

/// Restoring a display sets each feature that it supports and has a
/// baseline for to the value of that baseline.
pub proof fn lemma_restore_reaches_baseline(
    monitors: MonitorsView,
    id: Seq<char>,
    feature: Feature,
    levels: Levels,
)
    requires
        monitors.supports(id, feature),
        monitors.baselines.contains_key((id, feature)),
    ensures
        outcome(levels, monitors.restore_plan(id)).contains_key((id, feature.spec_code())),
        outcome(levels, monitors.restore_plan(id))[(id, feature.spec_code())] == scalar_of(
            monitors.baselines[(id, feature)],
        ),
{
    lemma_outcome_pair(
        levels,
        monitors.restore_step(id, Feature::Luminance),
        monitors.restore_step(id, Feature::Contrast),
    );
}

/// Dimming a display and then restoring it returns each feature that the
/// display supports and has a baseline for to exactly the captured value.
pub proof fn lemma_dim_then_restore(
    monitors: MonitorsView,
    id: Seq<char>,
    feature: Feature,
    levels: Levels,
)
    requires
        monitors.supports(id, feature),
        monitors.baselines.contains_key((id, feature)),
    ensures
        outcome(outcome(levels, monitors.dim_plan(id)), monitors.restore_plan(id))[(
            id,
            feature.spec_code(),
        )] == scalar_of(monitors.baselines[(id, feature)]),
{
    lemma_restore_reaches_baseline(monitors, id, feature, outcome(levels, monitors.dim_plan(id)));
}

/// The plans for one display write to that display only.
pub proof fn lemma_plans_stay_on_their_display(
    monitors: MonitorsView,
    id: Seq<char>,
    other: Seq<char>,
    code: u8,
)
    requires
        other != id,
    ensures
        !writes_to(monitors.dim_plan(id), other, code),
        !writes_to(monitors.restore_plan(id), other, code),
        !writes_to(monitors.dim_plan(id) + seq![Step::Pause], other, code),
        !writes_to(monitors.restore_plan(id) + seq![Step::Pause], other, code),
{
    let dim = monitors.dim_plan(id);
    let restore = monitors.restore_plan(id);
    assert forall|i: int| 0 <= i < dim.len() implies !targets(#[trigger] dim[i], other, code) by {}
    assert forall|i: int| 0 <= i < restore.len() implies !targets(
        #[trigger] restore[i],
        other,
        code,
    ) by {}
    let paused_dim = dim + seq![Step::Pause];
    assert forall|i: int| 0 <= i < paused_dim.len() implies !targets(
        #[trigger] paused_dim[i],
        other,
        code,
    ) by {
        if i < dim.len() {
            assert(paused_dim[i] == dim[i]);
        }
    }
    let paused_restore = restore + seq![Step::Pause];
    assert forall|i: int| 0 <= i < paused_restore.len() implies !targets(
        #[trigger] paused_restore[i],
        other,
        code,
    ) by {
        if i < restore.len() {
            assert(paused_restore[i] == restore[i]);
        }
    }
}

/// A display whose capability set is empty is never written to: the plans
/// that dim and restore it hold no command for the bus and leave every
/// level as it is.
pub proof fn lemma_display_without_capabilities_is_left_alone(
    monitors: MonitorsView,
    id: Seq<char>,
    levels: Levels,
)
    requires
        monitors.knows(id) ==> monitors.capabilities[id] == Set::<u8>::empty(),
    ensures
        forall|i: int| 0 <= i < monitors.dim_plan(id).len() ==> !on_bus(monitors.dim_plan(id)[i]),
        forall|i: int|
            0 <= i < monitors.restore_plan(id).len() ==> !on_bus(monitors.restore_plan(id)[i]),
        outcome(levels, monitors.dim_plan(id)) == levels,
        outcome(levels, monitors.restore_plan(id)) == levels,
{
    lemma_outcome_pair(
        levels,
        monitors.dim_step(id, Feature::Luminance),
        monitors.dim_step(id, Feature::Contrast),
    );
    lemma_outcome_pair(
        levels,
        monitors.restore_step(id, Feature::Luminance),
        monitors.restore_step(id, Feature::Contrast),
    );
}

/// Restoring a list of displays writes only to displays of the list.
pub proof fn lemma_restore_each_stays_on_its_displays(
    monitors: MonitorsView,
    ids: Seq<Seq<char>>,
    other: Seq<char>,
    code: u8,
)
    requires
        !ids.contains(other),
    ensures
        !writes_to(monitors.restore_each(ids), other, code),
    decreases ids.len(),
{
    if ids.len() > 0 {
        let front = monitors.restore_each(ids.drop_last());
        let back = monitors.restore_plan(ids.last()) + seq![Step::Pause];
        assert(ids.last() == ids[ids.len() - 1]);
        assert forall|i: int| 0 <= i < ids.drop_last().len() implies ids.drop_last()[i] != other by {
            assert(ids.drop_last()[i] == ids[i]);
        }
        lemma_restore_each_stays_on_its_displays(monitors, ids.drop_last(), other, code);
        lemma_plans_stay_on_their_display(monitors, ids.last(), other, code);
        let plan = monitors.restore_each(ids);
        assert(plan =~= front + back);
        assert forall|i: int| 0 <= i < plan.len() implies !targets(#[trigger] plan[i], other, code) by {
            if i < front.len() {
                assert(plan[i] == front[i]);
            } else {
                assert(plan[i] == back[i - front.len()]);
            }
        }
    }
}

/// Dimming each display of a list leaves every display of the list at zero
/// in each feature that it supports.
pub proof fn lemma_dim_each_reaches_zero(
    monitors: MonitorsView,
    ids: Seq<Seq<char>>,
    id: Seq<char>,
    feature: Feature,
    levels: Levels,
)
    requires
        ids.contains(id),
        monitors.supports(id, feature),
    ensures
        outcome(levels, monitors.dim_each(ids)).contains_key((id, feature.spec_code())),
        outcome(levels, monitors.dim_each(ids))[(id, feature.spec_code())] == 0,
    decreases ids.len(),
{
    let front = monitors.dim_each(ids.drop_last());
    let one = monitors.dim_plan(ids.last());
    let pause = seq![Step::Pause];
    let code = feature.spec_code();
    assert(monitors.dim_each(ids) =~= front + (one + pause));
    lemma_outcome_concat(levels, front, one + pause);
    lemma_outcome_concat(outcome(levels, front), one, pause);
    lemma_outcome_one(outcome(outcome(levels, front), one), Step::Pause);
    if ids.last() == id {
        lemma_dim_reaches_zero(monitors, id, feature, outcome(levels, front));
    } else {
        let at = choose|i: int| 0 <= i < ids.len() && ids[i] == id;
        assert(ids.drop_last()[at] == id);
        lemma_dim_each_reaches_zero(monitors, ids.drop_last(), id, feature, levels);
        lemma_plans_stay_on_their_display(monitors, ids.last(), id, code);
        lemma_outcome_elsewhere(outcome(levels, front), one, id, code);
    }
}

/// Restoring each display of a list leaves every display of the list at its
/// baseline in each feature that it supports and has a baseline for.
pub proof fn lemma_restore_each_reaches_baseline(
    monitors: MonitorsView,
    ids: Seq<Seq<char>>,
    id: Seq<char>,
    feature: Feature,
    levels: Levels,
)
    requires
        ids.contains(id),
        monitors.supports(id, feature),
        monitors.baselines.contains_key((id, feature)),
    ensures
        outcome(levels, monitors.restore_each(ids)).contains_key((id, feature.spec_code())),
        outcome(levels, monitors.restore_each(ids))[(id, feature.spec_code())] == scalar_of(
            monitors.baselines[(id, feature)],
        ),
    decreases ids.len(),
{
    let front = monitors.restore_each(ids.drop_last());
    let one = monitors.restore_plan(ids.last());
    let pause = seq![Step::Pause];
    let code = feature.spec_code();
    assert(monitors.restore_each(ids) =~= front + (one + pause));
    lemma_outcome_concat(levels, front, one + pause);
    lemma_outcome_concat(outcome(levels, front), one, pause);
    lemma_outcome_one(outcome(outcome(levels, front), one), Step::Pause);
    if ids.last() == id {
        lemma_restore_reaches_baseline(monitors, id, feature, outcome(levels, front));
    } else {
        let at = choose|i: int| 0 <= i < ids.len() && ids[i] == id;
        assert(ids.drop_last()[at] == id);
        lemma_restore_each_reaches_baseline(monitors, ids.drop_last(), id, feature, levels);
        lemma_plans_stay_on_their_display(monitors, ids.last(), id, code);
        lemma_outcome_elsewhere(outcome(levels, front), one, id, code);
    }
}

/// Restoring all displays returns every known display to its baselines,
/// whatever was done to it before.
pub proof fn lemma_restore_all_reaches_baseline(
    monitors: MonitorsView,
    id: Seq<char>,
    feature: Feature,
    levels: Levels,
)
    requires
        monitors.wf(),
        monitors.supports(id, feature),
        monitors.baselines.contains_key((id, feature)),
    ensures
        outcome(levels, monitors.restore_each(monitors.ids))[(id, feature.spec_code())]
            == scalar_of(monitors.baselines[(id, feature)]),
{
    lemma_restore_each_reaches_baseline(monitors, monitors.ids, id, feature, levels);
}

/// Restoring all displays twice in a row leaves every level where restoring
/// them once leaves it.
pub proof fn lemma_restore_all_is_idempotent(monitors: MonitorsView, levels: Levels)
    ensures
        outcome(
            outcome(levels, monitors.restore_each(monitors.ids)),
            monitors.restore_each(monitors.ids),
        ) == outcome(levels, monitors.restore_each(monitors.ids)),
{
    lemma_replay(levels, monitors.restore_each(monitors.ids));
}

/// An identity is among those to dim exactly if it is known and not among
/// those to keep.
pub proof fn lemma_without(ids: Seq<Seq<char>>, keep: Seq<Seq<char>>)
    ensures
        forall|id: Seq<char>|
            without(ids, keep).contains(id) <==> ids.contains(id) && !keep.contains(id),
        ids.no_duplicates() ==> without(ids, keep).no_duplicates(),
    decreases ids.len(),
{
    if ids.len() > 0 {
        let front = ids.drop_last();
        let last = ids.last();
        lemma_without(front, keep);
        assert(ids =~= front.push(last));
        let kept = without(front, keep);
        assert forall|id: Seq<char>| ids.contains(id) <==> front.contains(id) || id == last by {
            if ids.contains(id) {
                let at = choose|i: int| 0 <= i < ids.len() && ids[i] == id;
                if at < front.len() {
                    assert(front[at] == id);
                }
            }
            if front.contains(id) {
                let at = choose|i: int| 0 <= i < front.len() && front[i] == id;
                assert(ids[at] == id);
            }
            if id == last {
                assert(ids[ids.len() - 1] == id);
            }
        }
        if !keep.contains(last) {
            let all = kept.push(last);
            assert forall|id: Seq<char>| all.contains(id) <==> kept.contains(id) || id
                == last by {
                if all.contains(id) {
                    let at = choose|i: int| 0 <= i < all.len() && all[i] == id;
                    if at < kept.len() {
                        assert(kept[at] == id);
                    }
                }
                if kept.contains(id) {
                    let at = choose|i: int| 0 <= i < kept.len() && kept[i] == id;
                    assert(all[at] == id);
                }
                if id == last {
                    assert(all[all.len() - 1] == id);
                }
            }
            if ids.no_duplicates() {
                assert(front.no_duplicates()) by {
                    assert forall|i: int, j: int|
                        0 <= i < front.len() && 0 <= j < front.len() && i != j implies front[i]
                        != front[j] by {
                        assert(front[i] == ids[i] && front[j] == ids[j]);
                    }
                }
                assert(!front.contains(last)) by {
                    if front.contains(last) {
                        let at = choose|i: int| 0 <= i < front.len() && front[i] == last;
                        assert(ids[at] == ids[ids.len() - 1]);
                    }
                }
                assert(!kept.contains(last));
                assert forall|i: int, j: int|
                    0 <= i < all.len() && 0 <= j < all.len() && i != j implies all[i] != all[j] by {
                    if i < kept.len() {
                        assert(kept.contains(all[i]));
                    }
                    if j < kept.len() {
                        assert(kept.contains(all[j]));
                    }
                }
            }
        } else if ids.no_duplicates() {
            assert(front.no_duplicates()) by {
                assert forall|i: int, j: int|
                    0 <= i < front.len() && 0 <= j < front.len() && i != j implies front[i]
                    != front[j] by {
                    assert(front[i] == ids[i] && front[j] == ids[j]);
                }
            }
        }
    }
}

/// Every identity that a spotlight request keeps comes from the list of one
/// of the named outputs; where the identity map is grounded it is a known
/// display.
pub proof fn lemma_keep_list_is_mapped(
    monitors: MonitorsView,
    os_names: Seq<Seq<char>>,
    id: Seq<char>,
)
    requires
        monitors.keep_list(os_names).contains(id),
    ensures
        exists|i: int|
            0 <= i < os_names.len() && monitors.os_to_ddc.contains_key(#[trigger] os_names[i])
                && monitors.os_to_ddc[os_names[i]].contains(id),
        monitors.grounded() ==> monitors.ids.contains(id),
    decreases os_names.len(),
{
    let keep = monitors.keep_list(os_names);
    let at = choose|i: int| 0 <= i < keep.len() && keep[i] == id;
    let front = monitors.keep_list(os_names.drop_last());
    let name = os_names.last();
    if monitors.os_to_ddc.contains_key(name) && at >= front.len() {
        let list = monitors.os_to_ddc[name];
        assert(keep[at] == list[at - front.len()]);
        assert(list.contains(id));
        assert(os_names[os_names.len() - 1] == name);
    } else {
        assert(front[at] == id);
        lemma_keep_list_is_mapped(monitors, os_names.drop_last(), id);
        let found = choose|i: int|
            0 <= i < os_names.drop_last().len() && monitors.os_to_ddc.contains_key(
                #[trigger] os_names.drop_last()[i],
            ) && monitors.os_to_ddc[os_names.drop_last()[i]].contains(id);
        assert(os_names[found] == os_names.drop_last()[found]);
    }
}

/// A spotlight request splits the known displays in two: no display is both
/// dimmed and kept, every display that is dimmed is known, and every known
/// display is dimmed or kept.
pub proof fn lemma_spotlight_splits_the_known_displays(
    monitors: MonitorsView,
    os_names: Seq<Seq<char>>,
)
    ensures
        forall|id: Seq<char>|
            !(monitors.dim_list(os_names).contains(id) && monitors.keep_list(os_names).contains(
                id,
            )),
        forall|id: Seq<char>|
            monitors.dim_list(os_names).contains(id) ==> #[trigger] monitors.ids.contains(id),
        forall|id: Seq<char>| #[trigger]
            monitors.ids.contains(id) ==> monitors.dim_list(os_names).contains(id)
                || monitors.keep_list(os_names).contains(id),
{
    lemma_without(monitors.ids, monitors.keep_list(os_names));
}

/// Where every identity of the identity map is a known display, the
/// displays to dim and the displays to keep are disjoint and together are
/// exactly the known displays.
pub proof fn lemma_spotlight_partitions(monitors: MonitorsView, os_names: Seq<Seq<char>>)
    requires
        monitors.grounded(),
    ensures
        monitors.dim_list(os_names).to_set().disjoint(monitors.keep_list(os_names).to_set()),
        monitors.dim_list(os_names).to_set().union(monitors.keep_list(os_names).to_set())
            == monitors.ids.to_set(),
{
    let dim = monitors.dim_list(os_names);
    let keep = monitors.keep_list(os_names);
    lemma_without(monitors.ids, keep);
    assert forall|id: Seq<char>| keep.contains(id) implies monitors.ids.contains(id) by {
        lemma_keep_list_is_mapped(monitors, os_names, id);
    }
    assert(dim.to_set().union(keep.to_set()) =~= monitors.ids.to_set());
}

/// The displays to keep for two lists of names, one after the other, are
/// those of the first list followed by those of the second.
pub proof fn lemma_keep_list_concat(
    monitors: MonitorsView,
    first: Seq<Seq<char>>,
    second: Seq<Seq<char>>,
)
    ensures
        monitors.keep_list(first + second) == monitors.keep_list(first) + monitors.keep_list(
            second,
        ),
    decreases second.len(),
{
    if second.len() == 0 {
        assert(first + second =~= first);
        assert(monitors.keep_list(first) + monitors.keep_list(second) =~= monitors.keep_list(
            first,
        ));
    } else {
        assert((first + second).drop_last() =~= first + second.drop_last());
        assert((first + second).last() == second.last());
        lemma_keep_list_concat(monitors, first, second.drop_last());
        let name = second.last();
        if monitors.os_to_ddc.contains_key(name) {
            assert(monitors.keep_list(first + second) =~= monitors.keep_list(first)
                + monitors.keep_list(second));
        }
    }
}

/// A name that the identity map lacks affects no display: the request
/// without it keeps and dims the same displays and gives the same plan.
pub proof fn lemma_unmapped_name_is_inert(
    monitors: MonitorsView,
    os_names: Seq<Seq<char>>,
    i: int,
)
    requires
        0 <= i < os_names.len(),
        !monitors.os_to_ddc.contains_key(os_names[i]),
    ensures
        monitors.keep_list(seq![os_names[i]]) == Seq::<Seq<char>>::empty(),
        monitors.keep_list(os_names) == monitors.keep_list(os_names.remove(i)),
        monitors.dim_list(os_names) == monitors.dim_list(os_names.remove(i)),
        monitors.spotlight_plan(os_names) == monitors.spotlight_plan(os_names.remove(i)),
{
    let before = os_names.take(i);
    let alone = seq![os_names[i]];
    let after = os_names.skip(i + 1);
    assert(alone.drop_last() =~= Seq::<Seq<char>>::empty());
    assert(monitors.keep_list(alone.drop_last()) == Seq::<Seq<char>>::empty());
    assert(monitors.keep_list(alone) =~= Seq::<Seq<char>>::empty());
    assert(os_names =~= before + alone + after);
    assert(os_names.remove(i) =~= before + after);
    lemma_keep_list_concat(monitors, before + alone, after);
    lemma_keep_list_concat(monitors, before, alone);
    lemma_keep_list_concat(monitors, before, after);
    assert(monitors.keep_list(before) + monitors.keep_list(alone) =~= monitors.keep_list(before));
}

/// What a spotlight request does to the displays: each known display that
/// belongs to none of the named outputs ends at zero in every feature that
/// it supports, and each display of a named output ends at its baseline in
/// every feature that it supports and has a baseline for.
pub proof fn lemma_spotlight_effect(
    monitors: MonitorsView,
    os_names: Seq<Seq<char>>,
    id: Seq<char>,
    feature: Feature,
    levels: Levels,
)
    requires
        monitors.supports(id, feature),
    ensures
        monitors.dim_list(os_names).contains(id) ==> outcome(
            levels,
            monitors.spotlight_plan(os_names),
        )[(id, feature.spec_code())] == 0,
        monitors.keep_list(os_names).contains(id) && monitors.baselines.contains_key((id, feature))
            ==> outcome(levels, monitors.spotlight_plan(os_names))[(id, feature.spec_code())]
            == scalar_of(monitors.baselines[(id, feature)]),
{
    let dim = monitors.dim_list(os_names);
    let keep = monitors.keep_list(os_names);
    let dimming = monitors.dim_each(dim);
    let restoring = monitors.restore_each(keep);
    let code = feature.spec_code();
    lemma_outcome_concat(levels, dimming, restoring);
    lemma_without(monitors.ids, keep);
    if dim.contains(id) {
        lemma_dim_each_reaches_zero(monitors, dim, id, feature, levels);
        lemma_restore_each_stays_on_its_displays(monitors, keep, id, code);
        lemma_outcome_elsewhere(outcome(levels, dimming), restoring, id, code);
    }
    if keep.contains(id) && monitors.baselines.contains_key((id, feature)) {
        lemma_restore_each_reaches_baseline(monitors, keep, id, feature, outcome(levels, dimming));
    }
}

/// A display that is not known is never written to: the plans that dim and
/// restore it are empty.
pub proof fn lemma_unknown_display_is_inert(monitors: MonitorsView, id: Seq<char>)
    requires
        !monitors.knows(id),
    ensures
        monitors.dim_plan(id) == Seq::<Step>::empty(),
        monitors.restore_plan(id) == Seq::<Step>::empty(),
{
}

/// A further report changes no baseline that is already there, and adds
/// baselines for its own identity only.
pub proof fn lemma_report_keeps_baselines(
    monitors: MonitorsView,
    report: ReportView,
    id: Seq<char>,
    feature: Feature,
)
    ensures
        monitors.baselines.contains_key((id, feature)) ==> monitors.with_report(
            report,
        ).baselines.contains_key((id, feature)) && monitors.with_report(report).baselines[(
            id,
            feature,
        )] == monitors.baselines[(id, feature)],
        id != report.id ==> monitors.with_report(report).baselines.contains_key((id, feature))
            == monitors.baselines.contains_key((id, feature)),
{
}

/// The monitors that reports give are well-formed: no display is known
/// twice, and each known display has its capabilities.
pub proof fn lemma_assembled_is_wf(
    reports: Seq<ReportView>,
    os_to_ddc: Map<Seq<char>, Seq<Seq<char>>>,
)
    ensures
        assembled(reports, os_to_ddc).wf(),
        assembled(reports, os_to_ddc).os_to_ddc == os_to_ddc,
    decreases reports.len(),
{
    if reports.len() > 0 {
        let earlier = assembled(reports.drop_last(), os_to_ddc);
        let report = reports.last();
        lemma_assembled_is_wf(reports.drop_last(), os_to_ddc);
        let now = earlier.with_report(report);
        if !earlier.ids.contains(report.id) {
            assert forall|id: Seq<char>| now.ids.contains(id) <==> earlier.ids.contains(id) || id
                == report.id by {
                if now.ids.contains(id) {
                    let at = choose|i: int| 0 <= i < now.ids.len() && now.ids[i] == id;
                    if at < earlier.ids.len() {
                        assert(earlier.ids[at] == id);
                    }
                }
                if earlier.ids.contains(id) {
                    let at = choose|i: int| 0 <= i < earlier.ids.len() && earlier.ids[i] == id;
                    assert(now.ids[at] == id);
                }
                if id == report.id {
                    assert(now.ids[now.ids.len() - 1] == id);
                }
            }
            assert forall|i: int, j: int|
                0 <= i < now.ids.len() && 0 <= j < now.ids.len() && i != j implies now.ids[i]
                != now.ids[j] by {
                if i < earlier.ids.len() {
                    assert(earlier.ids.contains(now.ids[i]));
                }
                if j < earlier.ids.len() {
                    assert(earlier.ids.contains(now.ids[j]));
                }
            }
        }
    }
}

/// The plans for one display never put two commands on the bus without a
/// pause between them.
pub proof fn lemma_display_plans_are_paced(monitors: MonitorsView, id: Seq<char>)
    ensures
        paced(monitors.dim_plan(id)),
        paced(monitors.restore_plan(id)),
        paced(monitors.dim_plan(id) + seq![Step::Pause]),
        paced(monitors.restore_plan(id) + seq![Step::Pause]),
        settled(monitors.dim_plan(id) + seq![Step::Pause]),
        settled(monitors.restore_plan(id) + seq![Step::Pause]),
{
}

/// The plans for a list of displays never put two commands on the bus
/// without a pause between them, and leave the bus settled.
pub proof fn lemma_sweeps_are_paced(monitors: MonitorsView, ids: Seq<Seq<char>>)
    ensures
        paced(monitors.dim_each(ids)),
        settled(monitors.dim_each(ids)),
        paced(monitors.restore_each(ids)),
        settled(monitors.restore_each(ids)),
    decreases ids.len(),
{
    if ids.len() > 0 {
        lemma_sweeps_are_paced(monitors, ids.drop_last());
        lemma_display_plans_are_paced(monitors, ids.last());
        let pause = seq![Step::Pause];
        let dim = monitors.dim_plan(ids.last()) + pause;
        let restore = monitors.restore_plan(ids.last()) + pause;
        lemma_paced_concat(monitors.dim_each(ids.drop_last()), dim);
        lemma_paced_concat(monitors.restore_each(ids.drop_last()), restore);
        assert(monitors.dim_each(ids) =~= monitors.dim_each(ids.drop_last()) + dim);
        assert(monitors.restore_each(ids) =~= monitors.restore_each(ids.drop_last()) + restore);
    }
}

/// A spotlight plan never puts two commands on the bus without a pause
/// between them, and leaves the bus settled.
pub proof fn lemma_spotlight_is_paced(monitors: MonitorsView, os_names: Seq<Seq<char>>)
    ensures
        paced(monitors.spotlight_plan(os_names)),
        settled(monitors.spotlight_plan(os_names)),
{
    lemma_sweeps_are_paced(monitors, monitors.dim_list(os_names));
    lemma_sweeps_are_paced(monitors, monitors.keep_list(os_names));
    lemma_paced_concat(
        monitors.dim_each(monitors.dim_list(os_names)),
        monitors.restore_each(monitors.keep_list(os_names)),
    );
}

/// The reads that follow a probe never put two commands on the bus without
/// a pause between them, and leave the bus settled.
pub proof fn lemma_probe_is_paced(report: ReportView)
    ensures
        paced(report.plan()),
        settled(report.plan()),
{
}

} // verus!
