//! What a display's capability database says it supports.
//!
//! A successful capability probe fills an `mccs_db::Database` with one
//! descriptor for each feature code that the display reports. The database
//! is kept as it comes; what it holds is read through `described`.

use mccs_db::Database;
use vstd::prelude::*;

verus! {

/// The capability database of a display, as `mccs_db` builds it.
#[verifier::external_type_specification]
#[verifier::external_body]
pub struct ExDatabase(Database);

/// The feature codes that a database holds a descriptor for.
pub uninterp spec fn feature_codes(database: Database) -> Set<u8>;

/// Looks a feature code up with `Database::get` and hands out the code that
/// the descriptor found there carries. A descriptor is stored under its own
/// code, so the answer is the code asked for, or nothing where the database
/// has no descriptor for it.
#[verifier::external_body]
pub(crate) fn described(database: &Database, code: u8) -> (found: Option<u8>)
    ensures
        found == if feature_codes(*database).contains(code) {
            Some(code)
        } else {
            None::<u8>
        },
{
    database.get(code).map(|feature| feature.code)
}

/// The feature codes that a display is known to support: those of its
/// database, and none where the probe failed and left no database.
pub open spec fn codes_of(capabilities: Option<Database>) -> Set<u8> {
    match capabilities {
        Some(database) => feature_codes(database),
        None => Set::empty(),
    }
}

/// The code under which a display takes commands for `code`, if it supports
/// that feature.
pub fn supported(capabilities: &Option<Database>, code: u8) -> (found: Option<u8>)
    ensures
        found == if codes_of(*capabilities).contains(code) {
            Some(code)
        } else {
            None::<u8>
        },
{
    match capabilities {
        Some(database) => described(database, code),
        None => None,
    }
}

} // verus!
