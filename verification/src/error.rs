//! Engine error type.

use vstd::prelude::*;

verus! {

/// The error type of the Windows bindings, carried through unread.
#[verifier::external_type_specification]
#[verifier::external_body]
pub struct ExWindowsError(windows_core::Error);

#[derive(Debug)]
pub enum EngineError {
    Windows(windows_core::Error),
    NoDevice,
    FormatNotSupported(String),
    PinNotFound,
    Config(String),
    Backend(String),
}

pub type Result<T> = std::result::Result<T, EngineError>;

impl From<windows_core::Error> for EngineError {
    fn from(e: windows_core::Error) -> (r: Self) {
        EngineError::Windows(e)
    }
}

impl vstd::std_specs::convert::FromSpecImpl<windows_core::Error> for EngineError {
    open spec fn obeys_from_spec() -> bool {
        true
    }

    open spec fn from_spec(e: windows_core::Error) -> Self {
        EngineError::Windows(e)
    }
}

impl EngineError {
    /// The message, where `windows` is the system's text for a Windows error.
    pub open spec fn text(self, windows: Seq<char>) -> Seq<char> {
        match self {
            EngineError::Windows(_) => "windows error: "@ + windows,
            EngineError::NoDevice => "no matching audio device found"@,
            EngineError::FormatNotSupported(s) => "format not supported: "@ + s@,
            EngineError::PinNotFound => "no suitable kernel-streaming pin found"@,
            EngineError::Config(s) => "invalid configuration: "@ + s@,
            EngineError::Backend(s) => "backend error: "@ + s@,
        }
    }

    /// The message. `windows` is the system's text for a Windows error; the other
    /// errors have no use for it.
    pub fn message_with(&self, windows: &str) -> (r: String)
        ensures
            r@ == self.text(windows@),
    {
        match self {
            EngineError::Windows(_) => {
                let mut m = "windows error: ".to_owned();
                m.append(windows);
                m
            },
            EngineError::NoDevice => "no matching audio device found".to_owned(),
            EngineError::FormatNotSupported(s) => {
                let mut m = "format not supported: ".to_owned();
                m.append(s.as_str());
                m
            },
            EngineError::PinNotFound => "no suitable kernel-streaming pin found".to_owned(),
            EngineError::Config(s) => {
                let mut m = "invalid configuration: ".to_owned();
                m.append(s.as_str());
                m
            },
            EngineError::Backend(s) => {
                let mut m = "backend error: ".to_owned();
                m.append(s.as_str());
                m
            },
        }
    }
}

/// The message of an error says what went wrong: it ends in the words that the error
/// carries, and those of the system where the system refused.
pub proof fn law_messages_end_in_their_words(e: EngineError, windows: Seq<char>)
    ensures
        ({
            let t = e.text(windows);
            let words = match e {
                EngineError::Windows(_) => windows,
                EngineError::FormatNotSupported(s) => s@,
                EngineError::Config(s) => s@,
                EngineError::Backend(s) => s@,
                _ => Seq::empty(),
            };
            &&& t.len() > words.len()
            &&& t.skip(t.len() - words.len()) == words
        }),
{
    reveal_strlit("windows error: ");
    reveal_strlit("no matching audio device found");
    reveal_strlit("format not supported: ");
    reveal_strlit("no suitable kernel-streaming pin found");
    reveal_strlit("invalid configuration: ");
    reveal_strlit("backend error: ");
    let t = e.text(windows);
    let words = match e {
        EngineError::Windows(_) => windows,
        EngineError::FormatNotSupported(s) => s@,
        EngineError::Config(s) => s@,
        EngineError::Backend(s) => s@,
        _ => Seq::empty(),
    };
    assert(t.skip(t.len() - words.len()) =~= words);
}

} // verus!
