//! Where the tool finds its files: rate history, initial positions,
//! intermediate results, and the statements of each year.

use vstd::prelude::*;

use crate::error::Error;

verus! {

/// The files of one year: the statement and the cash report.
pub struct YearlySettings {
    pub kontoauszug: String,
    pub cashbericht: String,
}

/// The settings of the tool; paths are kept as text.
pub struct Settings {
    pub fx_rates: String,
    pub initial_position: String,
    pub zwischenergebnisse: String,
    pub jaehrliche_daten: std::collections::HashMap<u32, YearlySettings>,
}

impl Settings {
    /// The files of year `jahr`; a year that the settings do not list is an
    /// error (`KontoauszugFehlt`).
    pub fn jahresdaten(&self, jahr: u32) -> (r: Result<&YearlySettings, Error>)
        ensures
            r is Ok <==> self.jaehrliche_daten@.contains_key(jahr),
            r matches Ok(y) ==> *y == self.jaehrliche_daten@[jahr],
            r matches Err(e) ==> e == Error::KontoauszugFehlt(jahr),
    {
        proof {
            broadcast use vstd::std_specs::hash::group_hash_axioms;
        }
        match self.jaehrliche_daten.get(&jahr) {
            Some(y) => Ok(y),
            None => Err(Error::KontoauszugFehlt(jahr)),
        }
    }
}

} // verus!
