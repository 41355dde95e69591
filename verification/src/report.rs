//! Pieces of the yearly report that are decided on the statement's rows.

use vstd::prelude::*;

use crate::error::Error;

verus! {

/// `Zinsen` – interest income (`N` is the amount). A total row has its label
/// in `beschreibung` and no currency.
pub struct ZinsRow<N> {
    pub waehrung: String,
    pub datum: String,
    pub beschreibung: String,
    pub betrag: N,
}

/// The label of the row with the total interest in EUR.
pub open spec fn gesamt_label() -> Seq<char> {
    "Gesamt Zinsen in EUR"@
}

/// The amount of the first interest row labelled `Gesamt Zinsen in EUR`;
/// without one, `GesamtZinsenNichtGefunden`.
pub fn gesamt_eur_zinsen<N: Copy>(zinsen: &Vec<ZinsRow<N>>) -> (r: Result<N, Error>)
    ensures
        r is Ok <==> exists|k: int| 0 <= k < zinsen@.len() && (#[trigger] zinsen@[k]).beschreibung@
            == gesamt_label(),
        r matches Ok(b) ==> exists|k: int|
            0 <= k < zinsen@.len() && (#[trigger] zinsen@[k]).beschreibung@ == gesamt_label() && b
                == zinsen@[k].betrag && forall|j: int|
                0 <= j < k ==> (#[trigger] zinsen@[j]).beschreibung@ != gesamt_label(),
        r matches Err(e) ==> e == Error::GesamtZinsenNichtGefunden,
{
    let mut k: usize = 0;
    while k < zinsen.len()
        invariant
            k <= zinsen@.len(),
            forall|j: int| 0 <= j < k ==> (#[trigger] zinsen@[j]).beschreibung@ != gesamt_label(),
        decreases zinsen@.len() - k,
    {
        if crate::text::str_eq(zinsen[k].beschreibung.as_str(), "Gesamt Zinsen in EUR") {
            return Ok(zinsen[k].betrag);
        }
        k = k + 1;
    }
    Err(Error::GesamtZinsenNichtGefunden)
}

} // verus!
