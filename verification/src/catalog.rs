//! A catalog: its images, their metadata and how they are organized.
use crate::catalog_images::organization;
use crate::catalog_images::organization::Organization;
use crate::catalog_metadata_write;
use crate::catalog_metadata_write::Writes;
use crate::catalog_migration::evidence::EvidenceStore;
use crate::catalog_migration::Migration;
use crate::tables;
use crate::tables::Tables;
use vstd::prelude::*;
use vstd::string::*;

verus! {

/// A catalog.
pub struct Catalog {
    /// The session that opened the catalog.
    pub session: u64,
    pub tables: Tables,
    pub organization: Organization,
    pub writes: Writes,
    pub evidence: EvidenceStore,
    pub migration: Migration,
}

impl Catalog {
    /// A catalog without anything in it.
    pub fn new(session: u64) -> (c: Self)
        ensures
            c.session == session,
            c.tables@ == tables::TablesModel::empty(),
            c.organization@ == organization::OrganizationModel::empty(),
            c.organization.membership.wf(),
            c.writes@ == (catalog_metadata_write::WritesModel {
                receipts: Seq::empty(),
                plans: Seq::empty(),
                plan_high: 0,
            }),
            c.evidence.rows@.len() == 0,
            c.evidence.wf(),
    {
        Catalog {
            session,
            tables: Tables::new(),
            organization: Organization::new(),
            writes: Writes::new(),
            evidence: EvidenceStore::new(),
            migration: Migration::new(),
        }
    }

    /// Sets the time that changes are recorded with.
    pub fn set_clock(&mut self, now: &str)
        ensures
            final(self).tables_only(*old(self)),
            final(self).tables@ == (tables::TablesModel { clock: now@, ..old(self).tables@ }),
    {
        self.tables.clock = now.to_owned();
    }

    /// Nothing but the tables may have changed.
    pub open spec fn tables_only(self, before: Self) -> bool {
        self.organization == before.organization && self.apart(before)
    }

    /// Nothing but the organization may have changed.
    pub open spec fn organization_only(self, before: Self) -> bool {
        self.tables == before.tables && self.apart(before)
    }

    /// Nothing but the tables and the receipts and plans may have changed.
    pub open spec fn writes_only(self, before: Self) -> bool {
        self.session == before.session && self.organization == before.organization
            && self.evidence == before.evidence && self.migration == before.migration
    }

    /// Nothing but the retained evidence may have changed.
    pub open spec fn evidence_only(self, before: Self) -> bool {
        self.session == before.session && self.tables == before.tables && self.organization
            == before.organization && self.writes == before.writes && self.migration
            == before.migration
    }

    /// Nothing but the tables and the organization may have changed.
    pub open spec fn apart(self, before: Self) -> bool {
        self.session == before.session && self.writes == before.writes && self.evidence
            == before.evidence && self.migration == before.migration
    }

    /// Nothing but the tables and the projected images may have changed.
    pub open spec fn images_only(self, before: Self) -> bool {
        self.tables_and(before) && self.migration == (Migration {
            images: self.migration.images,
            ..before.migration
        })
    }

    /// Nothing but the tables and the files' metadata may have changed.
    pub open spec fn files_only(self, before: Self) -> bool {
        self.tables_and(before) && self.migration == (Migration {
            files: self.migration.files,
            ..before.migration
        })
    }

    /// Nothing but the tables and what is known of the sources may have changed.
    pub open spec fn tables_and(self, before: Self) -> bool {
        self.session == before.session && self.organization == before.organization && self.writes
            == before.writes && self.evidence == before.evidence
    }

    /// Nothing but the runs may have changed.
    pub open spec fn runs_only(self, before: Self) -> bool {
        self.tables_and(before) && self.tables == before.tables && self.migration == (Migration {
            runs: self.migration.runs,
            ..before.migration
        })
    }

    /// Nothing but the runs, and what they import of images and files, may have changed.
    pub open spec fn imports_only(self, before: Self) -> bool {
        self.tables_and(before) && self.migration == (Migration {
            runs: self.migration.runs,
            images: self.migration.images,
            files: self.migration.files,
            ..before.migration
        })
    }

    /// Nothing but the runs and their repairs may have changed.
    pub open spec fn repairs_only(self, before: Self) -> bool {
        self.tables_and(before) && self.tables == before.tables && self.migration == (Migration {
            runs: self.migration.runs,
            repairs: self.migration.repairs,
            ..before.migration
        })
    }

    /// Nothing but the retained evidence and the custody of files may have changed.
    pub open spec fn custody_only(self, before: Self) -> bool {
        self.session == before.session && self.tables == before.tables && self.organization
            == before.organization && self.writes == before.writes && self.migration == (
        Migration { artifacts: self.migration.artifacts, ..before.migration })
    }
}

} // verus!
