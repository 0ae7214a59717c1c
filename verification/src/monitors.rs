//! The monitors of one process: every known display, the identity map and
//! the baselines, and the plans that dim and restore them.

use crate::baseline::BaselineStore;
use crate::capability::{codes_of, supported};
use crate::identity::IdentityMap;
use crate::laws::{
    lemma_display_plans_are_paced, lemma_spotlight_is_paced, lemma_sweeps_are_paced,
};
use crate::model::{assembled, without, MonitorsView};
use crate::probe::{report_views, DisplayReport};
use crate::table::Table;
use crate::text::{append_copies, occurs, texts};
use crate::vcp::{paced, settled, steps, Command, Feature, Step};
use mccs_db::Database;
use vstd::prelude::*;

verus! {

/// Every display that can be commanded, with what its probe found; the
/// identity map; and the baselines. It is built once and not changed
/// afterwards: a request is answered with a plan, and the monitors stay as
/// they are.
pub struct Monitors {
    ddc_displays: Table<Option<Database>>,
    os_to_ddc: IdentityMap,
    baselines: BaselineStore,
}

impl View for Monitors {
    type V = MonitorsView;

    /// The known displays in the order of their first report, what each
    /// supports, the identity map and the baselines.
    closed spec fn view(&self) -> MonitorsView {
        MonitorsView {
            ids: self.ddc_displays.names(),
            capabilities: Map::new(
                |id: Seq<char>| self.ddc_displays@.contains_key(id),
                |id: Seq<char>| codes_of(self.ddc_displays@[id]),
            ),
            os_to_ddc: self.os_to_ddc@,
            baselines: self.baselines@,
        }
    }
}

/// The names of a spotlight request, as character sequences.
pub open spec fn name_texts(os_names: Seq<&str>) -> Seq<Seq<char>> {
    Seq::new(os_names.len(), |i: int| os_names[i]@)
}

impl Monitors {
    /// The tables inside are well-formed.
    pub closed spec fn wf(&self) -> bool {
        &&& self.ddc_displays.wf()
        &&& self.os_to_ddc.wf()
        &&& self.baselines.wf()
    }

    /// Well-formed monitors have a well-formed view.
    pub proof fn lemma_view_wf(&self)
        requires
            self.wf(),
        ensures
            self@.wf(),
    {
        self.ddc_displays.lemma_shape();
    }

    /// Builds the monitors from the reports of the probed displays, in the
    /// order of their enumeration, and from the identity map. Where the
    /// identity map could not be built there are no monitors, and its error
    /// is handed on.
    pub fn new<E>(reports: Vec<DisplayReport>, mapping: Result<IdentityMap, E>) -> (built: Result<
        Monitors,
        E,
    >)
        requires
            mapping matches Ok(map) ==> map.wf(),
        ensures
            match mapping {
                Ok(map) => built matches Ok(monitors) && monitors.wf() && monitors@ == assembled(
                    report_views(reports@),
                    map@,
                ),
                Err(error) => built matches Err(handed) && handed == error,
            },
    {
        let os_to_ddc = match mapping {
            Ok(map) => map,
            Err(error) => {
                return Err(error);
            },
        };
        let ghost all = report_views(reports@);
        let ghost listed = reports@;
        let mut monitors = Monitors {
            ddc_displays: Table::new(),
            os_to_ddc,
            baselines: BaselineStore::new(),
        };
        assert(monitors@ =~= assembled(all.take(0), os_to_ddc@)) by {
            assert(monitors@.capabilities =~= Map::<Seq<char>, Set<u8>>::empty());
        }
        for report in it: reports
            invariant
                it.seq() == listed,
                all == report_views(listed),
                monitors.wf(),
                monitors.os_to_ddc == os_to_ddc,
                monitors@ == assembled(all.take(it.index()), os_to_ddc@),
        {
            let ghost before = monitors@;
            proof {
                let done = it.index();
                assert(all.take(done + 1).drop_last() =~= all.take(done));
                assert(all.take(done + 1).last() == report@);
                monitors.ddc_displays.lemma_shape();
            }
            let DisplayReport { id, capabilities, luminance, contrast } = report;
            if supported(&capabilities, Feature::Luminance.code()).is_some() {
                if let Some(value) = luminance {
                    monitors.baselines.capture(id.clone(), Feature::Luminance, value);
                }
            }
            if supported(&capabilities, Feature::Contrast.code()).is_some() {
                if let Some(value) = contrast {
                    monitors.baselines.capture(id.clone(), Feature::Contrast, value);
                }
            }
            monitors.ddc_displays.insert(id, capabilities);
            proof {
                let after = before.with_report(report@);
                assert(monitors@.capabilities =~= after.capabilities);
                assert(monitors@.baselines =~= after.baselines);
                assert(monitors@.ids =~= after.ids);
            }
        }
        assert(all.take(all.len() as int) =~= all);
        Ok(monitors)
    }

    /// The write of `value` to one feature of a known display, where the
    /// display supports the feature.
    fn write_step(capabilities: &Option<Database>, id: &String, feature: Feature, value: u16) -> (plan:
        Vec<Command>)
        ensures
            steps(plan@) == if codes_of(*capabilities).contains(feature.spec_code()) {
                seq![Step::Write { display: id@, code: feature.spec_code(), value }]
            } else {
                Seq::<Step>::empty()
            },
    {
        let mut plan: Vec<Command> = Vec::new();
        if let Some(code) = supported(capabilities, feature.code()) {
            plan.push(Command::Write { display: id.clone(), code, value });
        }
        assert(steps(plan@) =~= if codes_of(*capabilities).contains(feature.spec_code()) {
            seq![Step::Write { display: id@, code: feature.spec_code(), value }]
        } else {
            Seq::<Step>::empty()
        });
        plan
    }

    /// The plan that dims the display `id`: its luminance to zero, a pause,
    /// its contrast to zero, each write only where the display supports the
    /// feature. The plan is empty where no display has that identity. It
    /// ends with a write, not with a pause: whoever sends something after
    /// it lets the bus settle first, as the plans for all displays do.
    pub fn dim(&self, id: &String) -> (plan: Vec<Command>)
        requires
            self.wf(),
        ensures
            steps(plan@) == self@.dim_plan(id@),
            paced(steps(plan@)),
    {
        proof {
            lemma_display_plans_are_paced(self@, id@);
        }
        let mut plan: Vec<Command> = Vec::new();
        if let Some(display) = self.ddc_displays.get(id) {
            let mut luminance = Self::write_step(display, id, Feature::Luminance, 0);
            let mut contrast = Self::write_step(display, id, Feature::Contrast, 0);
            plan.append(&mut luminance);
            plan.push(Command::Pause);
            plan.append(&mut contrast);
        }
        assert(steps(plan@) =~= self@.dim_plan(id@));
        plan
    }

    /// The plan that restores the display `id`: its luminance to the
    /// baseline, a pause, its contrast to the baseline, each write only
    /// where the display supports the feature and a baseline was captured.
    /// The plan is empty where no display has that identity. Like the plan
    /// of `dim` it does not end with a pause.
    pub fn restore(&self, id: &String) -> (plan: Vec<Command>)
        requires
            self.wf(),
        ensures
            steps(plan@) == self@.restore_plan(id@),
            paced(steps(plan@)),
    {
        proof {
            lemma_display_plans_are_paced(self@, id@);
        }
        let mut plan: Vec<Command> = Vec::new();
        if let Some(display) = self.ddc_displays.get(id) {
            if let Some(old_luminance) = self.baselines.lookup(id, Feature::Luminance) {
                let mut luminance = Self::write_step(
                    display,
                    id,
                    Feature::Luminance,
                    old_luminance.value(),
                );
                plan.append(&mut luminance);
            }
            plan.push(Command::Pause);
            if let Some(old_contrast) = self.baselines.lookup(id, Feature::Contrast) {
                let mut contrast = Self::write_step(
                    display,
                    id,
                    Feature::Contrast,
                    old_contrast.value(),
                );
                plan.append(&mut contrast);
            }
        }
        assert(steps(plan@) =~= self@.restore_plan(id@));
        plan
    }

    /// The plan that dims each of `ids` in turn, with a pause after each.
    fn dim_each(&self, ids: &Vec<String>) -> (plan: Vec<Command>)
        requires
            self.wf(),
        ensures
            steps(plan@) == self@.dim_each(texts(ids@)),
    {
        let ghost wanted = texts(ids@);
        let mut plan: Vec<Command> = Vec::new();
        assert(steps(plan@) =~= self@.dim_each(wanted.take(0)));
        let mut i: usize = 0;
        while i < ids.len()
            invariant
                self.wf(),
                i <= ids.len(),
                wanted == texts(ids@),
                steps(plan@) == self@.dim_each(wanted.take(i as int)),
            decreases ids.len() - i,
        {
            let ghost so_far = steps(plan@);
            let mut one = self.dim(&ids[i]);
            let ghost added = steps(one@);
            plan.append(&mut one);
            plan.push(Command::Pause);
            proof {
                assert(wanted.take(i + 1).drop_last() =~= wanted.take(i as int));
                assert(wanted.take(i + 1).last() == ids[i as int]@);
                assert(steps(plan@) =~= so_far + added + seq![Step::Pause]);
            }
            i += 1;
        }
        assert(wanted.take(ids.len() as int) =~= wanted);
        plan
    }

    /// The plan that restores each of `ids` in turn, with a pause after each.
    fn restore_each(&self, ids: &Vec<String>) -> (plan: Vec<Command>)
        requires
            self.wf(),
        ensures
            steps(plan@) == self@.restore_each(texts(ids@)),
    {
        let ghost wanted = texts(ids@);
        let mut plan: Vec<Command> = Vec::new();
        assert(steps(plan@) =~= self@.restore_each(wanted.take(0)));
        let mut i: usize = 0;
        while i < ids.len()
            invariant
                self.wf(),
                i <= ids.len(),
                wanted == texts(ids@),
                steps(plan@) == self@.restore_each(wanted.take(i as int)),
            decreases ids.len() - i,
        {
            let ghost so_far = steps(plan@);
            let mut one = self.restore(&ids[i]);
            let ghost added = steps(one@);
            plan.append(&mut one);
            plan.push(Command::Pause);
            proof {
                assert(wanted.take(i + 1).drop_last() =~= wanted.take(i as int));
                assert(wanted.take(i + 1).last() == ids[i as int]@);
                assert(steps(plan@) =~= so_far + added + seq![Step::Pause]);
            }
            i += 1;
        }
        assert(wanted.take(ids.len() as int) =~= wanted);
        plan
    }

    /// The plan that dims every known display, in the order in which the
    /// displays were first reported, with a pause after each display.
    pub fn dim_all(&self) -> (plan: Vec<Command>)
        requires
            self.wf(),
        ensures
            steps(plan@) == self@.dim_each(self@.ids),
            paced(steps(plan@)),
            settled(steps(plan@)),
    {
        proof {
            lemma_sweeps_are_paced(self@, self@.ids);
        }
        let ids = self.ddc_displays.keys();
        self.dim_each(&ids)
    }

    /// The plan that restores every known display to its baselines, in the
    /// order in which the displays were first reported, with a pause after
    /// each display.
    pub fn restore_all(&self) -> (plan: Vec<Command>)
        requires
            self.wf(),
        ensures
            steps(plan@) == self@.restore_each(self@.ids),
            paced(steps(plan@)),
            settled(steps(plan@)),
    {
        proof {
            lemma_sweeps_are_paced(self@, self@.ids);
        }
        let ids = self.ddc_displays.keys();
        self.restore_each(&ids)
    }

    /// The identities of the hardware displays of the named outputs.
    fn keep_list(&self, os_names: &Vec<String>) -> (keep: Vec<String>)
        requires
            self.wf(),
        ensures
            texts(keep@) == self@.keep_list(texts(os_names@)),
    {
        let ghost wanted = texts(os_names@);
        let mut keep: Vec<String> = Vec::new();
        assert(texts(keep@) =~= self@.keep_list(wanted.take(0)));
        let mut i: usize = 0;
        while i < os_names.len()
            invariant
                self.wf(),
                i <= os_names.len(),
                wanted == texts(os_names@),
                texts(keep@) == self@.keep_list(wanted.take(i as int)),
            decreases os_names.len() - i,
        {
            proof {
                assert(wanted.take(i + 1).drop_last() =~= wanted.take(i as int));
                assert(wanted.take(i + 1).last() == os_names[i as int]@);
            }
            if let Some(monitors) = self.os_to_ddc.get(&os_names[i]) {
                append_copies(&mut keep, monitors);
            }
            i += 1;
        }
        assert(wanted.take(os_names.len() as int) =~= wanted);
        keep
    }

    /// The identities of the known displays that are not in `keep`.
    fn dim_list(&self, keep: &Vec<String>) -> (dim: Vec<String>)
        requires
            self.wf(),
        ensures
            texts(dim@) == without(self@.ids, texts(keep@)),
    {
        let ids = self.ddc_displays.keys();
        let ghost known = texts(ids@);
        let mut dim: Vec<String> = Vec::new();
        assert(texts(dim@) =~= without(known.take(0), texts(keep@)));
        let mut i: usize = 0;
        while i < ids.len()
            invariant
                i <= ids.len(),
                known == texts(ids@),
                texts(dim@) == without(known.take(i as int), texts(keep@)),
            decreases ids.len() - i,
        {
            proof {
                assert(known.take(i + 1).drop_last() =~= known.take(i as int));
                assert(known.take(i + 1).last() == ids[i as int]@);
            }
            if !occurs(keep, &ids[i]) {
                let ghost so_far = texts(dim@);
                dim.push(ids[i].clone());
                assert(texts(dim@) =~= so_far.push(ids[i as int]@));
            }
            i += 1;
        }
        assert(known.take(ids.len() as int) =~= known);
        dim
    }

    /// The plan that puts the named outputs in the spotlight, for names that
    /// are held as strings.
    pub fn spotlight_names(&self, os_names: &Vec<String>) -> (plan: Vec<Command>)
        requires
            self.wf(),
        ensures
            steps(plan@) == self@.spotlight_plan(texts(os_names@)),
            paced(steps(plan@)),
            settled(steps(plan@)),
    {
        proof {
            lemma_spotlight_is_paced(self@, texts(os_names@));
        }
        let to_spotlight = self.keep_list(os_names);
        let to_dim = self.dim_list(&to_spotlight);
        let mut plan = self.dim_each(&to_dim);
        let ghost dimming = steps(plan@);
        let mut restoring = self.restore_each(&to_spotlight);
        let ghost restored = steps(restoring@);
        plan.append(&mut restoring);
        assert(steps(plan@) =~= dimming + restored);
        plan
    }

    /// The plan that puts the named outputs in the spotlight. Every known
    /// display that belongs to none of them is dimmed, in the order in which
    /// the displays were first reported; after that the displays of the
    /// named outputs are restored, in the order of the names. A pause
    /// follows each display. A name that the identity map lacks names no
    /// display.
    pub fn spotlight(&self, os_names: Vec<&str>) -> (plan: Vec<Command>)
        requires
            self.wf(),
        ensures
            steps(plan@) == self@.spotlight_plan(name_texts(os_names@)),
            paced(steps(plan@)),
            settled(steps(plan@)),
    {
        let mut names: Vec<String> = Vec::new();
        let mut i: usize = 0;
        while i < os_names.len()
            invariant
                i <= os_names.len(),
                texts(names@) == name_texts(os_names@).take(i as int),
            decreases os_names.len() - i,
        {
            let ghost so_far = texts(names@);
            names.push(os_names[i].to_owned());
            assert(texts(names@) =~= so_far.push(os_names[i as int]@));
            assert(name_texts(os_names@).take(i + 1) =~= so_far.push(os_names[i as int]@));
            i += 1;
        }
        assert(name_texts(os_names@).take(os_names.len() as int) =~= name_texts(os_names@));
        self.spotlight_names(&names)
    }
}

} // verus!
