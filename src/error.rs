use vstd::prelude::*;

verus! {

/// The platform's I/O failure value, carried through the walk unchanged.
#[verifier::external_type_specification]
#[verifier::external_body]
pub struct ExIoError(std::io::Error);

/// A failure met during the walk: the path whose processing failed, and the
/// underlying I/O error.
#[derive(Debug)]
pub struct Error {
    entry: String,
    source: std::io::Error,
}

impl Error {
    /// The path that the failure is attributed to.
    pub closed spec fn entry_view(&self) -> Seq<char> {
        self.entry@
    }

    /// The underlying I/O failure.
    pub closed spec fn source_view(&self) -> std::io::Error {
        self.source
    }

    /// Attributes the I/O failure `source` to the path `entry`.
    pub fn new(entry: &str, source: std::io::Error) -> (r: Error)
        ensures
            r.entry_view() == entry@,
            r.source_view() == source,
    {
        let entry = entry.to_owned();
        Error { entry, source }
    }

    /// The path whose processing produced the failure.
    pub fn path(&self) -> (r: &str)
        ensures
            r@ == self.entry_view(),
    {
        self.entry.as_str()
    }

    /// The underlying I/O failure.
    pub fn source(&self) -> (r: &std::io::Error)
        ensures
            *r == self.source_view(),
    {
        &self.source
    }

    /// Gives up the path and the I/O failure.
    pub fn into_parts(self) -> (r: (String, std::io::Error))
        ensures
            r.0@ == self.entry_view(),
            r.1 == self.source_view(),
    {
        (self.entry, self.source)
    }
}

} // verus!
