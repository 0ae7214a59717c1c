//! The values that each display had before anything dimmed it.

use crate::table::Table;
use crate::vcp::Feature;
use ddc_hi::VcpValue;
use vstd::prelude::*;

verus! {

/// A store from display identity and feature to the reply that was read
/// first.
pub type Baselines = Map<(Seq<char>, Feature), VcpValue>;

/// The store after an attempt to capture `value`: unchanged where the
/// display already has a baseline for the feature.
pub open spec fn captured(
    store: Baselines,
    id: Seq<char>,
    feature: Feature,
    value: VcpValue,
) -> Baselines {
    if store.contains_key((id, feature)) {
        store
    } else {
        store.insert((id, feature), value)
    }
}

/// The first capture for a display and a feature decides: whatever is
/// captured for them afterwards leaves the store as it was.
pub proof fn lemma_first_capture_wins(
    store: Baselines,
    id: Seq<char>,
    feature: Feature,
    first: VcpValue,
    second: VcpValue,
)
    ensures
        captured(store, id, feature, first).contains_key((id, feature)),
        captured(captured(store, id, feature, first), id, feature, second) == captured(
            store,
            id,
            feature,
            first,
        ),
        store.contains_key((id, feature)) ==> captured(store, id, feature, first)[(id, feature)]
            == store[(id, feature)],
        !store.contains_key((id, feature)) ==> captured(store, id, feature, first)[(id, feature)]
            == first,
{
}

/// Capturing for one display and feature leaves every other baseline as it
/// was.
pub proof fn lemma_capture_is_local(
    store: Baselines,
    id: Seq<char>,
    feature: Feature,
    value: VcpValue,
    other_id: Seq<char>,
    other_feature: Feature,
)
    requires
        (other_id, other_feature) != (id, feature),
    ensures
        captured(store, id, feature, value).contains_key((other_id, other_feature))
            == store.contains_key((other_id, other_feature)),
        captured(store, id, feature, value)[(other_id, other_feature)] == store[(
            other_id,
            other_feature,
        )],
{
}

/// The baselines of all displays. A baseline, once captured, stays until
/// the store is dropped.
pub struct BaselineStore {
    saved_luminance: Table<VcpValue>,
    saved_contrast: Table<VcpValue>,
}

impl View for BaselineStore {
    type V = Baselines;

    /// The baselines that the store holds.
    closed spec fn view(&self) -> Baselines {
        Map::new(
            |key: (Seq<char>, Feature)| self.shelf(key.1)@.contains_key(key.0),
            |key: (Seq<char>, Feature)| self.shelf(key.1)@[key.0],
        )
    }
}

impl BaselineStore {
    /// The tables inside are well-formed.
    pub closed spec fn wf(&self) -> bool {
        self.saved_luminance.wf() && self.saved_contrast.wf()
    }

    spec fn shelf(&self, feature: Feature) -> Table<VcpValue> {
        match feature {
            Feature::Luminance => self.saved_luminance,
            Feature::Contrast => self.saved_contrast,
        }
    }

    /// A store without any baseline.
    pub fn new() -> (store: Self)
        ensures
            store.wf(),
            store@ == Map::<(Seq<char>, Feature), VcpValue>::empty(),
    {
        let store = BaselineStore { saved_luminance: Table::new(), saved_contrast: Table::new() };
        assert(store@ =~= Map::<(Seq<char>, Feature), VcpValue>::empty());
        store
    }

    /// Stores `value` as the baseline of `feature` for the display `id`,
    /// unless that display already has one: then the store stays as it is
    /// and the answer is `false`.
    pub fn capture(&mut self, id: String, feature: Feature, value: VcpValue) -> (stored: bool)
        requires
            old(self).wf(),
        ensures
            final(self).wf(),
            stored == !old(self)@.contains_key((id@, feature)),
            final(self)@ == captured(old(self)@, id@, feature, value),
    {
        let ghost before = *self;
        match feature {
            Feature::Luminance => {
                if self.saved_luminance.contains_key(&id) {
                    return false;
                }
                self.saved_luminance.insert(id, value);
            },
            Feature::Contrast => {
                if self.saved_contrast.contains_key(&id) {
                    return false;
                }
                self.saved_contrast.insert(id, value);
            },
        }
        assert(self@ =~= before@.insert((id@, feature), value));
        true
    }

    /// The baseline of `feature` for the display `id`, if one was captured.
    pub fn lookup(&self, id: &String, feature: Feature) -> (found: Option<VcpValue>)
        requires
            self.wf(),
        ensures
            found == if self@.contains_key((id@, feature)) {
                Some(self@[(id@, feature)])
            } else {
                None::<VcpValue>
            },
    {
        let found = match feature {
            Feature::Luminance => self.saved_luminance.get(id),
            Feature::Contrast => self.saved_contrast.get(id),
        };
        match found {
            Some(value) => Some(*value),
            None => None,
        }
    }
}

} // verus!
