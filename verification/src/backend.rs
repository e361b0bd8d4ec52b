//! The hand-over between the process that launches the layout editor and the
//! editor itself: one slot for the editor's input and one for its result.
use vstd::prelude::*;

verus! {

/// Puts the editor's input JSON in `slot`, replacing what was there.
pub fn set_editor_input(slot: &mut Option<String>, json: String)
    ensures
        *final(slot) == Some(json),
{
    *slot = Some(json);
}

/// Takes the editor's result out of `slot`, leaving it empty.
pub fn take_editor_result(slot: &mut Option<String>) -> (r: Option<String>)
    ensures
        r == *old(slot),
        *final(slot) == None::<String>,
{
    slot.take()
}

/// Records the layout JSON the editor submitted on Save.
pub fn submit_editor_result(slot: &mut Option<String>, result: String)
    ensures
        *final(slot) == Some(result),
{
    *slot = Some(result);
}

/// The input the editor starts from: the JSON in `slot`, or empty text.
pub fn editor_input_json(slot: &Option<String>) -> (r: String)
    ensures
        r@ == match *slot {
            Some(s) => s@,
            None => Seq::<char>::empty(),
        },
{
    match slot {
        Some(s) => s.clone(),
        None => String::new(),
    }
}

} // verus!
