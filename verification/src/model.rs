//! The monitors as a mathematical value, and the plans that follow from it.

use crate::baseline::Baselines;
use crate::probe::ReportView;
use crate::vcp::{scalar_of, Feature, Step};
use vstd::prelude::*;

verus! {

/// What the monitors know, as sequences, sets and maps.
pub struct MonitorsView {
    /// The identities of the known displays, in the order in which they were
    /// first reported.
    pub ids: Seq<Seq<char>>,
    /// The feature codes that each known display supports.
    pub capabilities: Map<Seq<char>, Set<u8>>,
    /// The hardware displays behind each output of the operating system.
    pub os_to_ddc: Map<Seq<char>, Seq<Seq<char>>>,
    /// The captured baselines.
    pub baselines: Baselines,
}

/// The identities of `ids` that do not occur in `keep`, in the order of
/// `ids`.
pub open spec fn without(ids: Seq<Seq<char>>, keep: Seq<Seq<char>>) -> Seq<Seq<char>>
    decreases ids.len(),
{
    if ids.len() == 0 {
        Seq::empty()
    } else if keep.contains(ids.last()) {
        without(ids.drop_last(), keep)
    } else {
        without(ids.drop_last(), keep).push(ids.last())
    }
}

impl MonitorsView {
    /// No display is known twice, and the capabilities are those of the
    /// known displays.
    pub open spec fn wf(self) -> bool {
        &&& self.ids.no_duplicates()
        &&& forall|id: Seq<char>| self.capabilities.contains_key(id) <==> self.ids.contains(id)
    }

    /// Every identity that the identity map names is a known display.
    pub open spec fn grounded(self) -> bool {
        forall|name: Seq<char>, i: int|
            self.os_to_ddc.contains_key(name) && 0 <= i < self.os_to_ddc[name].len()
                ==> self.ids.contains(#[trigger] self.os_to_ddc[name][i])
    }

    /// Whether a display of that identity is known.
    pub open spec fn knows(self, id: Seq<char>) -> bool {
        self.capabilities.contains_key(id)
    }

    /// Whether a display of that identity is known and its capability set
    /// holds the feature.
    pub open spec fn supports(self, id: Seq<char>, feature: Feature) -> bool {
        self.knows(id) && self.capabilities[id].contains(feature.spec_code())
    }

    /// The monitors with one more probed display. The display's
    /// capabilities replace those reported for its identity before; its
    /// readings become baselines only where the identity has none yet.
    pub open spec fn with_report(self, report: ReportView) -> MonitorsView {
        MonitorsView {
            ids: if self.ids.contains(report.id) {
                self.ids
            } else {
                self.ids.push(report.id)
            },
            capabilities: self.capabilities.insert(report.id, report.codes()),
            os_to_ddc: self.os_to_ddc,
            baselines: report.banked(
                Feature::Contrast,
                report.banked(Feature::Luminance, self.baselines),
            ),
        }
    }

    /// The write that dims one feature, where the display supports it.
    pub open spec fn dim_step(self, id: Seq<char>, feature: Feature) -> Seq<Step> {
        if self.supports(id, feature) {
            seq![Step::Write { display: id, code: feature.spec_code(), value: 0 }]
        } else {
            Seq::empty()
        }
    }

    /// The write that restores one feature, where the display supports it
    /// and has a baseline for it.
    pub open spec fn restore_step(self, id: Seq<char>, feature: Feature) -> Seq<Step> {
        if self.supports(id, feature) && self.baselines.contains_key((id, feature)) {
            seq![
                Step::Write {
                    display: id,
                    code: feature.spec_code(),
                    value: scalar_of(self.baselines[(id, feature)]),
                },
            ]
        } else {
            Seq::empty()
        }
    }

    /// Dimming one display: luminance to zero, a pause, contrast to zero.
    /// Nothing for a display that is not known.
    pub open spec fn dim_plan(self, id: Seq<char>) -> Seq<Step> {
        if self.knows(id) {
            self.dim_step(id, Feature::Luminance) + seq![Step::Pause] + self.dim_step(
                id,
                Feature::Contrast,
            )
        } else {
            Seq::empty()
        }
    }

    /// Restoring one display: luminance to its baseline, a pause, contrast
    /// to its baseline. Nothing for a display that is not known.
    pub open spec fn restore_plan(self, id: Seq<char>) -> Seq<Step> {
        if self.knows(id) {
            self.restore_step(id, Feature::Luminance) + seq![Step::Pause] + self.restore_step(
                id,
                Feature::Contrast,
            )
        } else {
            Seq::empty()
        }
    }

    /// Dimming each of `ids` in turn, with a pause after each.
    pub open spec fn dim_each(self, ids: Seq<Seq<char>>) -> Seq<Step>
        decreases ids.len(),
    {
        if ids.len() == 0 {
            Seq::empty()
        } else {
            self.dim_each(ids.drop_last()) + self.dim_plan(ids.last()) + seq![Step::Pause]
        }
    }

    /// Restoring each of `ids` in turn, with a pause after each.
    pub open spec fn restore_each(self, ids: Seq<Seq<char>>) -> Seq<Step>
        decreases ids.len(),
    {
        if ids.len() == 0 {
            Seq::empty()
        } else {
            self.restore_each(ids.drop_last()) + self.restore_plan(ids.last()) + seq![Step::Pause]
        }
    }

    /// The hardware displays of the named outputs, list after list in the
    /// order of the names. A name that the identity map lacks adds none.
    pub open spec fn keep_list(self, os_names: Seq<Seq<char>>) -> Seq<Seq<char>>
        decreases os_names.len(),
    {
        if os_names.len() == 0 {
            Seq::empty()
        } else if self.os_to_ddc.contains_key(os_names.last()) {
            self.keep_list(os_names.drop_last()) + self.os_to_ddc[os_names.last()]
        } else {
            self.keep_list(os_names.drop_last())
        }
    }

    /// The known displays that are not among those to keep.
    pub open spec fn dim_list(self, os_names: Seq<Seq<char>>) -> Seq<Seq<char>> {
        without(self.ids, self.keep_list(os_names))
    }

    /// Putting the named outputs in the spotlight: every other known display
    /// is dimmed first, then the displays of the named outputs are restored.
    pub open spec fn spotlight_plan(self, os_names: Seq<Seq<char>>) -> Seq<Step> {
        self.dim_each(self.dim_list(os_names)) + self.restore_each(self.keep_list(os_names))
    }
}

/// The monitors that a run of display reports gives, with the identity map
/// as it was built.
pub open spec fn assembled(
    reports: Seq<ReportView>,
    os_to_ddc: Map<Seq<char>, Seq<Seq<char>>>,
) -> MonitorsView
    decreases reports.len(),
{
    if reports.len() == 0 {
        MonitorsView {
            ids: Seq::empty(),
            capabilities: Map::empty(),
            os_to_ddc,
            baselines: Map::empty(),
        }
    } else {
        assembled(reports.drop_last(), os_to_ddc).with_report(reports.last())
    }
}

} // verus!
