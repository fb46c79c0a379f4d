//! The service's error: a message for the log. What a caller on the bus gets
//! to see is decided in [`crate::service`].

use vstd::prelude::*;

verus! {

/// A failure, with the message that describes it.
#[derive(Debug)]
pub struct Error(pub String);

impl View for Error {
    type V = Seq<char>;

    open spec fn view(&self) -> Seq<char> {
        self.0@
    }
}

impl Error {
    /// The failure described by `message`.
    pub fn new(message: &str) -> (e: Error)
        ensures
            e@ == message@,
    {
        Error(message.to_string())
    }

    /// The message.
    pub fn to_string(&self) -> (s: String)
        ensures
            s@ == self@,
    {
        self.0.clone()
    }
}

impl vstd::std_specs::convert::FromSpecImpl<String> for Error {
    open spec fn obeys_from_spec() -> bool {
        true
    }

    open spec fn from_spec(s: String) -> Error {
        Error(s)
    }
}

impl From<String> for Error {
    fn from(s: String) -> (e: Error) {
        Error(s)
    }
}

/// The bytes of a C string: `bytes` and a NUL behind them. A NUL among `bytes`
/// is an error that says that `what` contains one.
pub fn cstring(bytes: &[u8], what: &str) -> (r: Result<Vec<u8>, Error>)
    ensures
        match r {
            Ok(v) => !bytes@.contains(0u8) && v@ == bytes@.push(0u8),
            Err(e) => bytes@.contains(0u8) && e@ == what@ + " contains a NUL byte"@,
        },
{
    let mut v: Vec<u8> = Vec::new();
    for i in 0..bytes.len()
        invariant
            v@ == bytes@.take(i as int),
            forall|k: int| 0 <= k < i ==> bytes@[k] != 0,
    {
        if bytes[i] == 0 {
            assert(bytes@[i as int] == 0u8);
            return Err(Error(crate::text::concat(what, " contains a NUL byte")));
        }
        v.push(bytes[i]);
        assert(bytes@.take(i + 1) == bytes@.take(i as int).push(bytes@[i as int]));
    }
    v.push(0);
    assert(bytes@.take(bytes@.len() as int) == bytes@);
    Ok(v)
}

} // verus!
