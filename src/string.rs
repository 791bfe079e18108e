use vstd::prelude::*;
use vstd::utf8::{decode_utf8, encode_utf8, valid_utf8};

verus! {

broadcast use vstd::utf8::group_utf8_lib;

/// Relies on char::encode_utf8: the UTF-8 encoding of `ch`.
#[verifier::external_body]
fn utf8_of(ch: char) -> (r: Vec<u8>)
    ensures
        r@ == encode_utf8(seq![ch]),
{
    let mut buf = [0u8; 4];
    ch.encode_utf8(&mut buf).as_bytes().to_vec()
}

/// Relies on core::str::from_utf8: valid UTF-8 bytes read as the text they
/// encode.
#[verifier::external_body]
fn text_of(b: &[u8]) -> (r: &str)
    requires
        valid_utf8(b@),
    ensures
        r@ == decode_utf8(b@),
{
    core::str::from_utf8(b).unwrap()
}

/// A growable text buffer that holds UTF-8 bytes.
#[derive(Debug, Clone, PartialEq, Eq)]
pub struct String {
    vec: Vec<u8>,
}

impl View for String {
    type V = Seq<u8>;

    closed spec fn view(&self) -> Seq<u8> {
        self.vec@
    }
}

impl String {
    pub closed spec fn wf(&self) -> bool {
        valid_utf8(self.vec@)
    }

    /// An empty buffer.
    pub fn new() -> (r: String)
        ensures
            r.wf(),
            r@ == Seq::<u8>::empty(),
    {
        let r = String { vec: Vec::new() };
        proof {
            vstd::utf8::encode_utf8_valid_utf8(Seq::<char>::empty());
            assert(encode_utf8(Seq::<char>::empty()) =~= Seq::<u8>::empty());
        }
        r
    }

    /// Appends the UTF-8 encoding of `ch`.
    pub fn push(&mut self, ch: char)
        requires
            old(self).wf(),
            old(self)@.len() + 4 <= usize::MAX,
        ensures
            final(self).wf(),
            final(self)@ == old(self)@ + encode_utf8(seq![ch]),
    {
        let bytes = utf8_of(ch);
        proof {
            vstd::utf8::encode_utf8_valid_utf8(seq![ch]);
            vstd::utf8::valid_utf8_concat(self.vec@, bytes@);
        }
        let ghost before = self.vec@;
        self.vec.extend_from_slice(bytes.as_slice());
        assert(self.vec@ =~= before + bytes@);
    }

    /// The buffer read as text.
    pub fn as_str(&self) -> (r: &str)
        requires
            self.wf(),
        ensures
            r@ == decode_utf8(self@),
    {
        text_of(self.vec.as_slice())
    }

    /// The bytes of the buffer.
    pub fn as_bytes(&self) -> (r: &[u8])
        ensures
            r@ == self@,
    {
        self.vec.as_slice()
    }

    /// Empties the buffer.
    pub fn clear(&mut self)
        ensures
            final(self).wf(),
            final(self)@ == Seq::<u8>::empty(),
    {
        self.vec.clear();
        proof {
            vstd::utf8::encode_utf8_valid_utf8(Seq::<char>::empty());
            assert(encode_utf8(Seq::<char>::empty()) =~= Seq::<u8>::empty());
        }
    }

    /// Number of bytes in the buffer.
    pub fn len(&self) -> (r: usize)
        ensures
            r == self@.len(),
    {
        self.vec.len()
    }

    /// Whether the buffer holds no byte.
    pub fn is_empty(&self) -> (r: bool)
        ensures
            r == (self@.len() == 0),
    {
        self.vec.is_empty()
    }
}

} // verus!
