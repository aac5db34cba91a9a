//! Content fingerprints: BLAKE3 digests in lowercase hexadecimal.

use blake3::Hasher as Blake3State;
use vstd::prelude::*;

verus! {

/// The 64 hex digits of the BLAKE3 digest of `data`.
pub uninterp spec fn blake3_hex(data: Seq<u8>) -> Seq<char>;

/// A lowercase hexadecimal digit.
pub open spec fn is_hex_digit(c: char) -> bool {
    ('0' <= c && c <= '9') || ('a' <= c && c <= 'f')
}

/// Relies on `blake3::hash` and the `Display` of its `Hash` (`to_hex`, digits from
/// `0123456789abcdef`): the 32-byte digest of `input` as 64 lowercase hex digits.
#[verifier::external_body]
pub fn hash(input: &[u8]) -> (r: String)
    ensures
        r@ == blake3_hex(input@),
        r@.len() == 64,
        forall|i: int| 0 <= i < r@.len() ==> is_hex_digit(#[trigger] r@[i]),
{
    blake3::hash(input).to_string()
}

#[verifier::external_type_specification]
#[verifier::external_body]
pub struct ExBlake3State(Blake3State);

pub assume_specification[ Blake3State::new ]() -> Blake3State;

/// An incremental hasher over `blake3::Hasher`; its view is every byte fed so far.
pub struct Hasher {
    state: Blake3State,
    fed: Ghost<Seq<u8>>,
}

impl View for Hasher {
    type V = Seq<u8>;

    closed spec fn view(&self) -> Seq<u8> {
        self.fed@
    }
}

impl Hasher {
    pub fn new() -> (r: Hasher)
        ensures
            r@ == Seq::<u8>::empty(),
    {
        Hasher { state: Blake3State::new(), fed: Ghost(Seq::empty()) }
    }

    /// Relies on `blake3::Hasher::update`: the bytes hashed are extended by `input`.
    #[verifier::external_body]
    pub fn update(&mut self, input: &[u8])
        ensures
            final(self)@ == old(self)@ + input@,
    {
        self.state.update(input);
    }

    /// Relies on `blake3::Hasher::finalize` and the `Display` of its `Hash`: the
    /// digest of every byte fed, equal to that of `blake3::hash` on their
    /// concatenation, as 64 lowercase hex digits.
    #[verifier::external_body]
    pub fn finalize(self) -> (r: String)
        ensures
            r@ == blake3_hex(self@),
            r@.len() == 64,
            forall|i: int| 0 <= i < r@.len() ==> is_hex_digit(#[trigger] r@[i]),
    {
        self.state.finalize().to_string()
    }
}

} // verus!
