//! The kill switch.
//!
//! The switch holds a secret of `SECRET_LENGTH` bytes, made once when the
//! server starts, shown once to its operator and never stored. Whoever
//! submits exactly these bytes has every message erased; the server then
//! ends. Any other submission changes nothing, and the next one is judged
//! like the first.

use vstd::prelude::*;
use crate::limits::SECRET_LENGTH;
use crate::store::{erased, MessageStore};
use crate::text::same_bytes;

verus! {

/// The hexadecimal digit for `d`, which is below sixteen, in lower case.
pub open spec fn hex_digit(d: int) -> char {
    if d < 10 {
        (48 + d) as char
    } else {
        (87 + d) as char
    }
}

/// The two hexadecimal digits of a byte, the high one first.
pub open spec fn hex_pair(byte: u8) -> Seq<char> {
    seq![hex_digit(byte as int / 16), hex_digit(byte as int % 16)]
}

/// Bytes in hexadecimal: two digits for each byte, in order.
pub open spec fn hex_text(bytes: Seq<u8>) -> Seq<char> {
    bytes.map_values(|byte: u8| hex_pair(byte)).flatten()
}

/// Calls `hex::encode`, which writes each byte as two hexadecimal digits in
/// lower case, the high one first.
#[verifier::external_body]
fn hex_encode(bytes: &[u8]) -> (text: String)
    ensures
        text@ == hex_text(bytes@),
{
    hex::encode(bytes)
}

/// Calls `try_fill_bytes` of `rand::rngs::OsRng`, which asks the operating
/// system for random bytes to write over the buffer, and tells whether the
/// system gave them. Nothing is claimed of the bytes.
#[verifier::external_body]
fn fill_random(buffer: &mut [u8; SECRET_LENGTH]) -> (filled: bool) {
    rand::RngCore::try_fill_bytes(&mut rand::rngs::OsRng, buffer).is_ok()
}

/// The kill switch and its secret.
pub struct KillSwitch {
    secret: [u8; SECRET_LENGTH],
}

impl KillSwitch {
    /// The secret.
    pub closed spec fn secret(&self) -> Seq<u8> {
        self.secret@
    }

    /// A switch with the given secret.
    pub fn new(secret: [u8; SECRET_LENGTH]) -> (switch: KillSwitch)
        ensures
            switch.secret() == secret@,
    {
        KillSwitch { secret }
    }

    /// A switch with a fresh random secret, unless the operating system has
    /// no random bytes to give.
    pub fn generate() -> (switch: Option<KillSwitch>)
        ensures
            switch matches Some(made) ==> made.secret().len() == SECRET_LENGTH,
    {
        let mut secret = [0u8; SECRET_LENGTH];
        let filled = fill_random(&mut secret);
        KillSwitch::from_fill(filled, secret)
    }

    /// What becomes of an attempt to fill a secret with random bytes: a
    /// switch with these bytes as its secret if the attempt succeeded, and
    /// no switch if it did not.
    pub fn from_fill(filled: bool, secret: [u8; SECRET_LENGTH]) -> (switch: Option<KillSwitch>)
        ensures
            switch is Some <==> filled,
            switch matches Some(made) ==> made.secret() == secret@,
    {
        if filled {
            Some(KillSwitch::new(secret))
        } else {
            None
        }
    }

    /// The secret in hexadecimal, as the operator is shown it.
    pub fn secret_hex(&self) -> (text: String)
        ensures
            text@ == hex_text(self.secret()),
    {
        hex_encode(self.secret.as_slice())
    }

    /// Whether a submission is the secret, byte for byte.
    pub fn is_secret(&self, received: &[u8]) -> (matches: bool)
        ensures
            matches == (received@ == self.secret()),
    {
        same_bytes(received, self.secret.as_slice())
    }

    /// Judges one submission. If it is the secret the switch fires: every
    /// message of the store is erased and every room emptied, and the caller
    /// is told to end the server. If it is not, the store is left as it was.
    pub fn submit(&self, store: &mut MessageStore, received: &[u8]) -> (fired: bool)
        requires
            old(store).wf(),
        ensures
            final(store).wf(),
            fired == (received@ == self.secret()),
            fired ==> final(store)@ == erased(old(store)@),
            !fired ==> final(store)@ == old(store)@,
    {
        if self.is_secret(received) {
            store.erase_all();
            true
        } else {
            false
        }
    }
}

} // verus!
