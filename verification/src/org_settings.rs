//! The settings row of a company. Publishing the launcher root writes that
//! column alone, so it can never change policy.

use vstd::prelude::*;

pub use crate::company::OrgSettings;
use crate::company::{Company, CompanyModel, Entity, EventOp, SettingsModel, SettingsRowModel};
use crate::error::{ChiefdError, ErrorModel};
use crate::table::Duplicate;
use crate::text::{cat3, opt, owned, Text};

verus! {

/// The code of a company that has no settings row yet.
pub const UNKNOWN_COMPANY: &'static str = "unknown-company";

/// The refusal of a company that has no name yet.
pub open spec fn unnamed(slug: Text) -> ErrorModel {
    ErrorModel {
        code: UNKNOWN_COMPANY@,
        detail: "no org_settings row for company '"@ + slug
            + "', so it has no display slug yet"@,
    }
}

/// The refusal of a company that has no settings row yet.
pub open spec fn unknown(slug: Text) -> ErrorModel {
    ErrorModel {
        code: UNKNOWN_COMPANY@,
        detail: "no org_settings row for company '"@ + slug + "'"@,
    }
}

impl CompanyModel {
    /// The settings.
    pub open spec fn org_settings(self) -> Option<SettingsModel> {
        match self.settings {
            Some(row) => Some(row.settings),
            None => None,
        }
    }

    /// The name the company goes by.
    pub open spec fn display_slug(self) -> Option<Text> {
        match self.settings {
            Some(row) => Some(row.display_slug),
            None => None,
        }
    }

    /// The launcher root is this, and everything else in the settings as it
    /// was.
    pub open spec fn launcher_root_set(self, launcher_root: Text) -> CompanyModel {
        let row = self.settings->0;
        CompanyModel {
            settings: Some(
                SettingsRowModel {
                    settings: SettingsModel { launcher_root: Some(launcher_root), ..row.settings },
                    ..row
                },
            ),
            ..self
        }
    }

    /// What publishing the launcher root makes of the rows.
    pub open spec fn launcher_root_published(self, at: Text, launcher_root: Text) -> CompanyModel {
        self.launcher_root_set(launcher_root).touch(
            Entity::Org,
            self.slug,
            EventOp::Upsert,
        ).emitted(at, ""@)
    }
}

/// The settings, launcher root included; none where the company has not been
/// created.
pub fn read(company: &Company) -> (r: Option<OrgSettings>)
    ensures
        opt(r) == company@.org_settings(),
{
    match &company.settings {
        Some(row) => Some(row.settings.duplicate()),
        None => None,
    }
}

/// The name the company goes by; none where it has not been created.
pub fn read_display_slug(company: &Company) -> (r: Option<String>)
    ensures
        opt(r) == company@.display_slug(),
{
    match &company.settings {
        Some(row) => Some(row.display_slug.clone()),
        None => None,
    }
}

/// The name the company goes by. A company without one is refused: its key is
/// no name.
pub fn display_slug(company: &Company) -> (r: Result<String, ChiefdError>)
    ensures
        match r {
            Ok(name) => company@.display_slug() == Some(name@),
            Err(e) => company@.display_slug() is None && e@ == unnamed(company@.slug),
        },
{
    match read_display_slug(company) {
        Some(name) => Ok(name),
        None => {
            let detail = cat3(
                "no org_settings row for company '",
                company.slug.as_str(),
                "', so it has no display slug yet",
            );
            Err(ChiefdError::refused(UNKNOWN_COMPANY, detail.as_str()))
        },
    }
}

/// Publish the launcher root, and answer the number of the event that says so.
/// A company that has not been created is refused: its settings are not this
/// operation's to make up.
pub fn publish_launcher_root(company: &mut Company, at: &str, launcher_root: &str) -> (r: Result<
    i64,
    ChiefdError,
>)
    requires
        old(company).wf(),
        old(company)@.last_seq() + old(company)@.touches.len() < i64::MAX,
    ensures
        final(company).wf(),
        match r {
            Ok(seq) => old(company)@.settings is Some && final(company)@ == old(
                company)@.launcher_root_published(at@, launcher_root@) && seq
                == final(company)@.last_seq(),
            Err(e) => old(company)@.settings is None && e@ == unknown(old(company)@.slug)
                && final(company)@ == old(company)@,
        },
{
    let ghost before = company@;
    let row = match &company.settings {
        Some(row) => {
            let mut row = row.duplicate();
            row.settings.launcher_root = Some(owned(launcher_root));
            row
        },
        None => {
            let detail = cat3(
                "no org_settings row for company '",
                company.slug.as_str(),
                "'",
            );
            return Err(ChiefdError::refused(UNKNOWN_COMPANY, detail.as_str()));
        },
    };
    company.settings = Some(row);
    proof {
        assert(company@ == before.launcher_root_set(launcher_root@));
    }
    let slug = company.slug.clone();
    company.touch(Entity::Org, slug.as_str(), EventOp::Upsert);
    company.emit(at, "");
    Ok(company.last_seq())
}

} // verus!
