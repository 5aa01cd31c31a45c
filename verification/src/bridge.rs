//! The per-connection bridge: adapts one client's message stream to the
//! dispatch core.
//!
//! For each inbound message the bridge either produces the action to
//! submit, or — when the message does not decode — a ready failure
//! response, answered locally without touching the queue so the
//! connection stays usable.  Once the submission's delivery arrives, the
//! bridge writes it back with `reply`.

use vstd::prelude::*;
use vstd::string::StringExecFns;
use crate::action::{Action, ActionResult};
use crate::codec::{decode_request, encode_response, spec_decode, spec_encode_err,
    spec_encode_response};
use crate::dispatch::Delivery;

verus! {

/// The message a bridge answers with when an inbound message does not
/// decode.
pub open spec fn spec_decode_failure_message() -> Seq<char> {
    "Cannot Decode."@
}

/// What the bridge does with one inbound message.
pub enum BridgeStep {
    /// The message decoded: submit this action and await its ticket's
    /// delivery.
    Submit(Action),
    /// The message did not decode: send this failure response at once
    /// and keep serving the connection.
    Reply(String),
}

/// Handles one inbound message: a well-formed request becomes the action
/// to submit, carrying exactly the decoded key; anything else becomes an
/// immediate, well-formed failure response with an empty path and the
/// decode-failure message.
pub fn handle_message(text: &str) -> (s: BridgeStep)
    ensures
        spec_decode(text@) is Some ==> s is Submit && s->Submit_0.spec_key() == spec_decode(
            text@,
        )->Some_0,
        spec_decode(text@) is None ==> s is Reply && s->Reply_0@ == spec_encode_err(
            Seq::empty(),
            spec_decode_failure_message(),
        ),
{
    match decode_request(text) {
        Some(action) => BridgeStep::Submit(action),
        None => {
            let res = ActionResult {
                action: Action::Read { key: String::new() },
                outcome: Err(String::from_str("Cannot Decode.")),
            };
            BridgeStep::Reply(encode_response(&res))
        },
    }
}

/// Writes the response for a delivery back to the wire format.
pub fn reply(d: &Delivery) -> (r: String)
    ensures
        r@ == spec_encode_response(d.result),
{
    encode_response(&d.result)
}

} // verus!
