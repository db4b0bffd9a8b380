//! The errors that decoding a challenge or a reply can end in.

use vstd::prelude::*;

verus! {

/// `std::io::Error`, carried through as an opaque value.
#[verifier::external_type_specification]
#[verifier::external_body]
pub struct ExIoError(std::io::Error);

/// Why a hexadecimal string could not be turned into bytes.
#[derive(Debug, PartialEq, Eq, Structural)]
pub enum UnhexlifyError {
    /// The string is empty or holds an odd number of characters (the number).
    OddCharacterCount(usize),
    /// The first character that is no hexadecimal digit.
    InvalidHexDigit(char),
}

/// What can go wrong while talking to a router.
#[derive(Debug)]
pub enum MikrotikError {
    /// The login challenge was no valid hexadecimal string.
    UnhexlifyError(UnhexlifyError),
    /// The connection failed or was closed while bytes were still owed.
    IoError(std::io::Error),
    /// The router declared the session unusable; the bytes are its message.
    Fatal(Vec<u8>),
    /// The router refused a command, with a category and a message.
    Trap { category: u8, msg: Vec<u8> },
}

/// An error as contracts speak of it: messages as byte sequences, and of a
/// transport error only that it is one.
pub enum ErrorView {
    Unhexlify(UnhexlifyError),
    Io,
    Fatal(Seq<u8>),
    Trap { category: u8, msg: Seq<u8> },
}

impl View for MikrotikError {
    type V = ErrorView;

    open spec fn view(&self) -> ErrorView {
        match *self {
            MikrotikError::UnhexlifyError(e) => ErrorView::Unhexlify(e),
            MikrotikError::IoError(_) => ErrorView::Io,
            MikrotikError::Fatal(msg) => ErrorView::Fatal(msg@),
            MikrotikError::Trap { category, msg } => ErrorView::Trap { category, msg: msg@ },
        }
    }
}

/// The fixed description of a trap category; empty for an unknown one.
pub open spec fn trap_description(category: u8) -> Seq<char> {
    if category == 0 {
        "missing item or command"@
    } else if category == 1 {
        "argument value failure"@
    } else if category == 2 {
        "execution of command interrupted"@
    } else if category == 3 {
        "scripting related failure"@
    } else if category == 4 {
        "general failure"@
    } else if category == 5 {
        "API related failure"@
    } else if category == 6 {
        "TTY related failure"@
    } else if category == 7 {
        "value generated with :return command"@
    } else {
        ""@
    }
}

/// The fixed description of each kind of hexadecimal decoding failure.
pub open spec fn unhexlify_description(e: UnhexlifyError) -> Seq<char> {
    match e {
        UnhexlifyError::OddCharacterCount(_) => "invalid string length"@,
        UnhexlifyError::InvalidHexDigit(_) => "could not convert character to hex digit"@,
    }
}

impl UnhexlifyError {
    /// A short description of the failure, without the offending value.
    pub fn description(&self) -> (r: &'static str)
        ensures
            r@ == unhexlify_description(*self),
    {
        match self {
            UnhexlifyError::OddCharacterCount(_) => "invalid string length",
            UnhexlifyError::InvalidHexDigit(_) => "could not convert character to hex digit",
        }
    }
}

impl MikrotikError {
    /// The description of a protocol error: fixed for `Fatal`, by category
    /// for `Trap`, that of the inner error for a decoding failure. Of a
    /// transport error the library knows nothing to say: `None`.
    pub open spec fn spec_description(&self) -> Option<Seq<char>> {
        match *self {
            MikrotikError::UnhexlifyError(e) => Some(unhexlify_description(e)),
            MikrotikError::IoError(_) => None,
            MikrotikError::Fatal(_) => Some("a fatal error has ocurred"@),
            MikrotikError::Trap { category, .. } => Some(trap_description(category)),
        }
    }

    /// A short description of the error, or `None` for a transport error,
    /// whose text belongs to the operating system.
    pub fn description(&self) -> (r: Option<&'static str>)
        ensures
            r.is_some() == self.spec_description().is_some(),
            r.is_some() ==> r.unwrap()@ == self.spec_description().unwrap(),
    {
        match self {
            MikrotikError::UnhexlifyError(e) => Some(e.description()),
            MikrotikError::IoError(_) => None,
            MikrotikError::Fatal(_) => Some("a fatal error has ocurred"),
            MikrotikError::Trap { category, .. } => {
                let c: u8 = *category;
                Some(
                    if c == 0 {
                        "missing item or command"
                    } else if c == 1 {
                        "argument value failure"
                    } else if c == 2 {
                        "execution of command interrupted"
                    } else if c == 3 {
                        "scripting related failure"
                    } else if c == 4 {
                        "general failure"
                    } else if c == 5 {
                        "API related failure"
                    } else if c == 6 {
                        "TTY related failure"
                    } else if c == 7 {
                        "value generated with :return command"
                    } else {
                        ""
                    },
                )
            },
        }
    }
}

impl From<UnhexlifyError> for MikrotikError {
    fn from(err: UnhexlifyError) -> (r: MikrotikError) {
        MikrotikError::UnhexlifyError(err)
    }
}

impl vstd::std_specs::convert::FromSpecImpl<UnhexlifyError> for MikrotikError {
    open spec fn obeys_from_spec() -> bool {
        true
    }

    open spec fn from_spec(err: UnhexlifyError) -> MikrotikError {
        MikrotikError::UnhexlifyError(err)
    }
}

impl From<std::io::Error> for MikrotikError {
    fn from(err: std::io::Error) -> (r: MikrotikError) {
        MikrotikError::IoError(err)
    }
}

impl vstd::std_specs::convert::FromSpecImpl<std::io::Error> for MikrotikError {
    open spec fn obeys_from_spec() -> bool {
        true
    }

    open spec fn from_spec(err: std::io::Error) -> MikrotikError {
        MikrotikError::IoError(err)
    }
}

/// The error of a transport that gave no more bytes while some were owed.
#[verifier::external_body]
pub(crate) fn connection_closed() -> std::io::Error {
    std::io::Error::new(
        std::io::ErrorKind::ConnectionReset,
        "error reading: connection closed by remote end",
    )
}

} // verus!
