use vstd::prelude::*;

verus! {

/// What a client can ask for.
#[derive(Clone, Copy, Debug, PartialEq, Eq, Structural)]
pub enum Command {
    /// One step more luminance.
    BrightnessUp,
    /// One step less luminance.
    BrightnessDown,
    /// Switch to the input with this id.
    InputSource { id: u16 },
}

/// What a request stands for.
pub struct SocketPayloadView {
    pub model: Option<Seq<char>>,
    pub cmd: Command,
}

/// One request of a client: a command, and the model name of the display
/// that it is for. Without a model name it is for every display.
#[derive(Debug)]
pub struct SocketPayload {
    pub model: Option<String>,
    pub cmd: Command,
}

impl View for SocketPayload {
    type V = SocketPayloadView;

    open spec fn view(&self) -> SocketPayloadView {
        SocketPayloadView {
            model: match self.model {
                Some(model) => Some(model@),
                None => None,
            },
            cmd: self.cmd,
        }
    }
}

} // verus!
