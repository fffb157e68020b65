use vstd::prelude::*;

verus! {

/// The failures of a split.
#[derive(Debug)]
pub enum Error {
    /// Opening, reading, creating or writing a file failed; holds the
    /// description of the underlying I/O error.
    Io(String),
    /// The request itself cannot be carried out.
    App(String),
}

/// Message of the error for a chunk size of zero.
pub open spec fn zero_lines_message() -> Seq<char> {
    "num lines cannot be 0"@
}

/// Message of the error for a source name without a stem or an extension.
pub open spec fn unnamed_source_message() -> Seq<char> {
    "source file name needs a stem and an extension"@
}

/// The text by which an error is reported.
pub open spec fn message_of(e: Error) -> Seq<char> {
    match e {
        Error::Io(m) => m@,
        Error::App(m) => "app error: "@ + m@,
    }
}

impl Error {
    /// The text by which this error is reported to the caller.
    pub fn message(&self) -> (r: String)
        ensures
            r@ == message_of(*self),
    {
        match self {
            Error::Io(m) => m.clone(),
            Error::App(m) => {
                let mut r = "app error: ".to_string();
                r.append(m.as_str());
                r
            },
        }
    }

    pub fn zero_lines() -> (r: Error)
        ensures
            r matches Error::App(m) && m@ == zero_lines_message(),
    {
        Error::App("num lines cannot be 0".to_string())
    }

    pub fn unnamed_source() -> (r: Error)
        ensures
            r matches Error::App(m) && m@ == unnamed_source_message(),
    {
        Error::App("source file name needs a stem and an extension".to_string())
    }
}

} // verus!
