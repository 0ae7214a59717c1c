//! What probing one display gave: its capabilities and the values read at
//! startup.

use crate::baseline::{captured, Baselines};
use crate::capability::{feature_codes, supported};
use crate::vcp::{
    paced, settled, steps, Command, Feature, Step, VCP_CONTRAST, VCP_LUMINANCE,
};
use ddc_hi::VcpValue;
use mccs_db::Database;
use vstd::prelude::*;

verus! {

/// One enumerated display, with what the probe learned of it.
pub struct DisplayReport {
    /// The display's identity.
    pub id: String,
    /// The database that the capability probe filled; `None` where the probe
    /// failed.
    pub capabilities: Option<Database>,
    /// The reply to reading the luminance, where one came.
    pub luminance: Option<VcpValue>,
    /// The reply to reading the contrast, where one came.
    pub contrast: Option<VcpValue>,
}

/// A display report, with the identity as a character sequence and the
/// database as the set of feature codes that it holds.
pub struct ReportView {
    pub id: Seq<char>,
    pub capabilities: Option<Set<u8>>,
    pub luminance: Option<VcpValue>,
    pub contrast: Option<VcpValue>,
}

impl View for DisplayReport {
    type V = ReportView;

    open spec fn view(&self) -> ReportView {
        ReportView {
            id: self.id@,
            capabilities: match self.capabilities {
                Some(database) => Some(feature_codes(database)),
                None => None,
            },
            luminance: self.luminance,
            contrast: self.contrast,
        }
    }
}

/// The reports of a list of displays, in order.
pub open spec fn report_views(reports: Seq<DisplayReport>) -> Seq<ReportView> {
    Seq::new(reports.len(), |i: int| reports[i]@)
}

impl ReportView {
    /// The feature codes that the display supports: none where its probe
    /// failed.
    pub open spec fn codes(self) -> Set<u8> {
        match self.capabilities {
            Some(codes) => codes,
            None => Set::empty(),
        }
    }

    /// The reply that the report holds for a feature.
    pub open spec fn reply(self, feature: Feature) -> Option<VcpValue> {
        match feature {
            Feature::Luminance => self.luminance,
            Feature::Contrast => self.contrast,
        }
    }

    /// The reply that counts as a reading: one for a feature that the
    /// display supports.
    pub open spec fn reading(self, feature: Feature) -> Option<VcpValue> {
        if self.codes().contains(feature.spec_code()) {
            self.reply(feature)
        } else {
            None
        }
    }

    /// The baselines after this report's reading of `feature` was offered
    /// to them.
    pub open spec fn banked(self, feature: Feature, store: Baselines) -> Baselines {
        match self.reading(feature) {
            Some(value) => captured(store, self.id, feature, value),
            None => store,
        }
    }

    /// The read of one feature, where the display supports it.
    pub open spec fn read_step(self, feature: Feature) -> Seq<Step> {
        if self.codes().contains(feature.spec_code()) {
            seq![Step::Read { display: self.id, code: feature.spec_code() }]
        } else {
            Seq::empty()
        }
    }

    /// The reads that follow a probe. After a failed probe nothing is read.
    /// After a successful one the luminance is read, then the contrast, each
    /// where the display supports it, and each followed by a pause.
    pub open spec fn plan(self) -> Seq<Step> {
        if self.capabilities is Some {
            self.read_step(Feature::Luminance) + seq![Step::Pause] + self.read_step(
                Feature::Contrast,
            ) + seq![Step::Pause]
        } else {
            Seq::empty()
        }
    }

    /// The report after the reply to a read of `code` came in. A code that
    /// is neither the luminance's nor the contrast's is not kept.
    pub open spec fn recorded(self, code: u8, reply: VcpValue) -> ReportView {
        if code == VCP_LUMINANCE {
            ReportView { luminance: Some(reply), ..self }
        } else if code == VCP_CONTRAST {
            ReportView { contrast: Some(reply), ..self }
        } else {
            self
        }
    }
}

impl DisplayReport {
    /// The report of a display of which nothing has been read yet.
    pub fn new(id: String, capabilities: Option<Database>) -> (report: Self)
        ensures
            report.id == id,
            report.capabilities == capabilities,
            report.luminance is None,
            report.contrast is None,
    {
        DisplayReport { id, capabilities, luminance: None, contrast: None }
    }

    /// The commands to send to the display before its report is complete:
    /// the reads of the features that it supports, each followed by a pause.
    pub fn plan(&self) -> (plan: Vec<Command>)
        ensures
            steps(plan@) == self@.plan(),
            paced(steps(plan@)),
            settled(steps(plan@)),
    {
        let mut plan: Vec<Command> = Vec::new();
        if self.capabilities.is_some() {
            if let Some(code) = supported(&self.capabilities, VCP_LUMINANCE) {
                plan.push(Command::Read { display: self.id.clone(), code });
            }
            plan.push(Command::Pause);
            if let Some(code) = supported(&self.capabilities, VCP_CONTRAST) {
                plan.push(Command::Read { display: self.id.clone(), code });
            }
            plan.push(Command::Pause);
        }
        assert(steps(plan@) =~= self@.plan());
        plan
    }

    /// Keeps the reply to a read of `code`.
    pub fn record(&mut self, code: u8, reply: VcpValue)
        ensures
            final(self)@ == old(self)@.recorded(code, reply),
            final(self).id == old(self).id,
            final(self).capabilities == old(self).capabilities,
    {
        if code == VCP_LUMINANCE {
            self.luminance = Some(reply);
        } else if code == VCP_CONTRAST {
            self.contrast = Some(reply);
        }
    }
}

} // verus!
