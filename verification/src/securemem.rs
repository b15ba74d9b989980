//! Secure memory helpers for authentication tokens: holders that wipe
//! their contents when dropped.

use vstd::prelude::*;

use zeroize::Zeroize;

verus! {

/// Wipes a string (`Zeroize for String`): every byte of its buffer, spare
/// capacity included, is overwritten with zero and the string is left empty.
#[verifier::external_body]
fn zeroize_string(s: &mut String)
    ensures
        final(s)@ == Seq::<char>::empty(),
    opens_invariants none
    no_unwind
{
    s.zeroize();
}

/// Wipes a byte vector (`Zeroize for Vec<u8>`): every byte, spare capacity
/// included, is overwritten with zero and the vector is left empty.
#[verifier::external_body]
fn zeroize_vec(v: &mut Vec<u8>)
    ensures
        final(v)@ == Seq::<u8>::empty(),
    opens_invariants none
    no_unwind
{
    v.zeroize();
}

/// Wipes a byte slice (`Zeroize for [u8]`): every byte is set to zero with
/// volatile writes; the length is unchanged.
#[verifier::external_body]
fn zeroize_slice(buf: &mut [u8])
    ensures
        final(buf)@ == Seq::new(old(buf)@.len(), |i: int| 0u8),
    opens_invariants none
    no_unwind
{
    buf.zeroize();
}

/// A password / auth token that is wiped on drop.
#[derive(Clone, Default)]
pub struct SecretString {
    inner: String,
}

impl View for SecretString {
    type V = Seq<char>;

    closed spec fn view(&self) -> Seq<char> {
        self.inner@
    }
}

impl SecretString {
    /// Create from an owned string.
    pub fn new(s: String) -> (r: Self)
        ensures
            r@ == s@,
    {
        Self { inner: s }
    }

    /// Create from a string slice.
    pub fn from_str_slice(s: &str) -> (r: Self)
        ensures
            r@ == s@,
    {
        Self { inner: s.to_owned() }
    }

    /// Borrow the secret as `&str`.
    pub fn expose(&self) -> (r: &str)
        ensures
            r@ == self@,
    {
        self.inner.as_str()
    }

    /// Take ownership of the inner string without wiping (caller responsible).
    pub fn into_inner(self) -> (r: String)
        ensures
            r@ == self@,
    {
        let mut this = self;
        let mut out = String::new();
        std::mem::swap(&mut out, &mut this.inner);
        out
    }

    /// Whether empty.
    pub fn is_empty(&self) -> (r: bool)
        ensures
            r == (self@.len() == 0),
    {
        self.inner.as_str().is_empty()
    }

    /// Length in bytes of its UTF-8 encoding.
    pub fn len(&self) -> (r: usize)
        ensures
            r == vstd::utf8::encode_utf8(self@).len() as usize,
    {
        self.inner.as_str().len()
    }
}

impl Drop for SecretString {
    fn drop(&mut self)
        opens_invariants none
        no_unwind
    {
        zeroize_string(&mut self.inner);
    }
}

/// Secure byte buffer wiped on drop.
#[derive(Clone, Default)]
pub struct SecretBytes {
    inner: Vec<u8>,
}

impl View for SecretBytes {
    type V = Seq<u8>;

    closed spec fn view(&self) -> Seq<u8> {
        self.inner@
    }
}

impl SecretBytes {
    /// From vector.
    pub fn new(v: Vec<u8>) -> (r: Self)
        ensures
            r@ == v@,
    {
        Self { inner: v }
    }

    /// Expose bytes.
    pub fn expose(&self) -> (r: &[u8])
        ensures
            r@ == self@,
    {
        self.inner.as_slice()
    }

    /// Mutable expose: what is written through the slice is the new content.
    pub fn expose_mut(&mut self) -> (r: &mut [u8])
        ensures
            r@ == old(self)@,
            final(r)@ == final(self)@,
    {
        self.inner.as_mut_slice()
    }
}

impl Drop for SecretBytes {
    fn drop(&mut self)
        opens_invariants none
        no_unwind
    {
        zeroize_vec(&mut self.inner);
    }
}

/// Best-effort wipe of a mutable byte slice: every byte becomes zero.
pub fn wipe_bytes(buf: &mut [u8])
    ensures
        final(buf)@.len() == old(buf)@.len(),
        forall|i: int| 0 <= i < final(buf)@.len() ==> final(buf)@[i] == 0,
{
    zeroize_slice(buf);
}

} // verus!
