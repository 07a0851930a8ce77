//! Preparing a company for an operator who attaches to its CEO.

use vstd::prelude::*;

use crate::company::{Company, CompanyModel};
use crate::error::{ChiefdError, ErrorModel};
use crate::org_ops::pause::root_head;
use crate::rows::feed::events_of;
use crate::table::listing;
use crate::text::Text;

verus! {

/// The refusal of a company whose organization cannot be read.
pub open spec fn manifest_absent() -> ErrorModel {
    ErrorModel { code: "unknown-company"@, detail: "organization manifest is absent"@ }
}

impl CompanyModel {
    /// What preparing makes of the rows: of everybody, only the CEO stays
    /// wanted up and is to be started, and mail from before is not delivered.
    pub open spec fn ceo_only(self, at: Text, actor: Text) -> CompanyModel {
        let chief = self.root_head()->0;
        self.retract_non_kept(chief, at).clear_fences_but(chief).insert_fence(
            chief,
        ).upsert_quiesce(self.settings->0.display_slug, at).emitted(at, actor)
    }
}

/// Nobody is retracted twice.
proof fn lemma_retracts_fit(c: CompanyModel, people: Seq<Text>, keep: Text, at: Text)
    ensures
        c.retract_in(people, keep, at).touches.len() <= c.touches.len() + people.len(),
        c.retract_in(people, keep, at).fences == c.fences,
        c.retract_in(people, keep, at).events == c.events,
        c.retract_in(people, keep, at).event_base == c.event_base,
        c.retract_in(people, keep, at).settings == c.settings,
    decreases people.len(),
{
    if people.len() > 0 {
        lemma_retracts_fit(c, people.drop_last(), keep, at);
    }
}

/// No start decision is cleared twice.
proof fn lemma_clears_fit(c: CompanyModel, people: Seq<Text>, keep: Text)
    ensures
        c.clear_fences_in(people, keep).touches.len() <= c.touches.len() + people.len(),
        c.clear_fences_in(people, keep).events == c.events,
        c.clear_fences_in(people, keep).event_base == c.event_base,
        c.clear_fences_in(people, keep).settings == c.settings,
    decreases people.len(),
{
    if people.len() > 0 {
        lemma_clears_fit(c, people.drop_last(), keep);
    }
}

/// Prepare a company for an operator who attaches to its CEO, and answer the
/// number of the last event. The operator's arrival is what asks for the CEO.
pub fn prepare_ceo_only(company: &mut Company, at: &str, actor: &str) -> (r: Result<
    i64,
    ChiefdError,
>)
    requires
        old(company).wf(),
        old(company)@.last_seq() + old(company)@.touches.len() + listing(
            old(company)@.activity.dom(),
        ).len() + listing(old(company)@.fences.dom()).len() + 2 <= i64::MAX,
    ensures
        final(company).wf(),
        match r {
            Ok(seq) => old(company)@.readable() && final(company)@ == old(company)@.ceo_only(
                at@,
                actor@,
            ) && seq == final(company)@.last_seq(),
            Err(e) => !old(company)@.readable() && e@ == manifest_absent() && final(company)@
                == old(company)@,
        },
{
    let display = match &company.settings {
        Some(row) => row.display_slug.clone(),
        None => {
            return Err(ChiefdError::refused("unknown-company", "organization manifest is absent"));
        },
    };
    let chief = match root_head(company) {
        Some(chief) => chief,
        None => {
            return Err(ChiefdError::refused("unknown-company", "organization manifest is absent"));
        },
    };
    let ghost c0 = company@;
    company.retract_non_kept(chief.as_str(), at);
    let ghost c1 = company@;
    company.clear_fences_but(chief.as_str());
    company.insert_fence(chief.as_str());
    company.upsert_quiesce(display.as_str(), at);
    proof {
        lemma_retracts_fit(c0, listing(c0.activity.dom()), chief@, at@);
        lemma_clears_fit(c1, listing(c1.fences.dom()), chief@);
        assert(events_of(company@.touches, at@, actor@).len() == company@.touches.len());
    }
    company.emit(at, actor);
    Ok(company.last_seq())
}

} // verus!
