use vstd::prelude::*;
use vstd::string::StringExecFns;

verus! {

/// A message exchanged with the user interface.
pub struct RustMessage {
    pub message_type: String,
    pub data: String,
}

/// The text of a command's acknowledgement.
fn processed_text(data: &str) -> (r: String)
    ensures
        r@ == "Processed Command: "@ + data@,
{
    String::from_str("Processed Command: ").concat(data)
}

impl RustMessage {
    /// The answer to a message: a command is acknowledged with a response
    /// that echoes its data; any other message gets none.
    pub fn reply(&self) -> (r: Option<RustMessage>)
        ensures
            self.message_type@ == "command"@ <==> r is Some,
            r is Some ==> r->Some_0.message_type@ == "response"@ && r->Some_0.data@
                == "Processed Command: "@ + self.data@,
    {
        let command = "command".to_owned();
        let is_command = self.message_type == command;
        if is_command {
            Some(RustMessage { message_type: "response".to_owned(), data: processed_text(self.data.as_str()) })
        } else {
            None
        }
    }
}

} // verus!
