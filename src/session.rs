//! Decisions of one remote session: how the messages of an execution channel
//! make up a command's result, and how a connection attempt ends.
use vstd::prelude::*;

use crate::metrics::nth_or_empty;
use crate::text::{chars_of, string_of, words, words_of};

verus! {

/// The text that lossy UTF-8 decoding makes of a byte string.
pub uninterp spec fn utf8_lossy(b: Seq<u8>) -> Seq<char>;

/// Relies on `String::from_utf8_lossy`: the decoded text depends on the bytes
/// alone, and no bytes give no text.
#[verifier::external_body]
fn decode_lossy(b: &[u8]) -> (r: String)
    ensures
        r@ == utf8_lossy(b@),
        b@.len() == 0 ==> r@.len() == 0,
{
    String::from_utf8_lossy(b).into_owned()
}

/// A message received on an execution channel.
#[derive(Clone, Debug)]
pub enum ChannelEvent {
    /// A chunk of the command's standard output.
    Data(Vec<u8>),
    /// The command's exit status.
    ExitStatus(u32),
    /// Any other message.
    Other,
}

/// Why a remote command gave no output.
#[derive(Clone, Debug)]
pub enum CommandError {
    /// The command ended with a nonzero exit status.
    NonZeroExit(u32),
    /// The channel or the connection failed; the text says how.
    Transport(String),
}

/// Why a connection could not be opened.
#[derive(Clone, Debug)]
pub enum ConnectError {
    /// The server could not be reached; the text is a short diagnostic.
    Transport(String),
    /// The server rejected the credentials.
    AuthFailed,
}

/// The standard output of a command, gathered chunk by chunk.
pub struct OutputCollector {
    text: String,
}

impl View for OutputCollector {
    type V = Seq<char>;

    closed spec fn view(&self) -> Seq<char> {
        self.text@
    }
}

impl OutputCollector {
    pub fn new() -> (r: Self)
        ensures
            r@ == Seq::<char>::empty(),
    {
        OutputCollector { text: String::new() }
    }

    /// Takes in one channel message. Data is decoded and appended; a nonzero
    /// exit status ends the command with an error; anything else is ignored.
    pub fn on_event(&mut self, event: ChannelEvent) -> (r: Option<CommandError>)
        ensures
            match event {
                ChannelEvent::Data(b) => final(self)@ == old(self)@ + utf8_lossy(b@) && r is None,
                ChannelEvent::ExitStatus(code) => final(self)@ == old(self)@ && (if code == 0 {
                    r is None
                } else {
                    r == Some(CommandError::NonZeroExit(code))
                }),
                ChannelEvent::Other => final(self)@ == old(self)@ && r is None,
            },
    {
        match event {
            ChannelEvent::Data(bytes) => {
                let chunk = decode_lossy(bytes.as_slice());
                self.text.append(chunk.as_str());
                None
            },
            ChannelEvent::ExitStatus(code) => {
                if code == 0 {
                    None
                } else {
                    Some(CommandError::NonZeroExit(code))
                }
            },
            ChannelEvent::Other => None,
        }
    }

    /// The output gathered so far, once the channel has closed.
    pub fn finish(self) -> (r: String)
        ensures
            r@ == self@,
    {
        self.text
    }
}

/// The outcome of an authentication exchange that completed: the server
/// either accepted the credentials or did not.
pub fn authentication_outcome(accepted: bool) -> (r: Result<(), ConnectError>)
    ensures
        r is Ok <==> accepted,
        r matches Err(e) ==> e is AuthFailed,
{
    if accepted {
        Ok(())
    } else {
        Err(ConnectError::AuthFailed)
    }
}

/// The first whitespace-delimited token of an error message, or the empty
/// text where it has none.
pub open spec fn first_token(message: Seq<char>) -> Seq<char> {
    nth_or_empty(words_of(message), 0)
}

/// A transport failure, reported by the first token of its message.
pub fn transport_error(message: &str) -> (r: ConnectError)
    ensures
        r matches ConnectError::Transport(d) && d@ == first_token(message@),
{
    let cs = chars_of(message);
    let ws = words(cs.as_slice());
    if ws.len() > 0 {
        ConnectError::Transport(string_of(ws[0].as_slice()))
    } else {
        ConnectError::Transport(String::new())
    }
}

} // verus!
