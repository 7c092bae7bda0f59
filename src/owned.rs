//! A label copied into a fixed-capacity inline buffer.
use vstd::prelude::*;

use crate::grammar::{is_label, MAX_LEN};
use crate::label::{
    cmp_folded, eq_folded, hash_folded, lemma_case_keeps_label, lower, name_cmp, same_name,
    lower_byte, to_lower, to_upper, upper, upper_byte, Label,
};

verus! {

/// A label held by value: a length and a 63-byte buffer, of which the first
/// `len` bytes form the label.
#[derive(Clone, Copy)]
pub struct OwnedLabel {
    len: u8,
    bytes: [u8; 63],
}

impl View for OwnedLabel {
    type V = Seq<u8>;

    closed spec fn view(&self) -> Seq<u8> {
        self.bytes@.take(self.len as int)
    }
}

impl OwnedLabel {
    #[verifier::type_invariant]
    closed spec fn inv(&self) -> bool {
        &&& self.len <= MAX_LEN
        &&& is_label(self.bytes@.take(self.len as int))
    }

    /// Copies a label into an owned buffer.
    pub fn from_label(label: &Label) -> (r: OwnedLabel)
        ensures
            r@ == label@,
    {
        let n = label.len();
        let src = label.as_bytes();
        let mut bytes = [0u8; 63];
        let mut offset: usize = 0;
        while offset < n
            invariant
                n == src@.len(),
                n <= MAX_LEN,
                offset <= n,
                bytes@.len() == 63,
                forall|j: int| 0 <= j < offset ==> bytes@[j] == #[trigger] src@[j],
            decreases n - offset,
        {
            bytes[offset] = src[offset];
            offset += 1;
        }
        assert(bytes@.take(n as int) =~= src@);
        OwnedLabel { len: n as u8, bytes }
    }

    /// Views the stored bytes as a label.
    pub fn as_label(&self) -> (r: Label<'_>)
        ensures
            r@ == self@,
    {
        proof {
            use_type_invariant(self);
        }
        let (front, _) = self.bytes.as_slice().split_at(self.len as usize);
        Label::from_bytes_unchecked(front)
    }

    /// The number of bytes in the label.
    pub fn len(&self) -> (r: usize)
        ensures
            r == self@.len(),
    {
        proof {
            use_type_invariant(self);
        }
        self.len as usize
    }

    /// Lowers every upper-case letter of the label in place.
    pub fn make_ascii_lowercase(&mut self)
        ensures
            final(self)@ == lower(old(self)@),
    {
        self.recase(false);
    }

    /// Raises every lower-case letter of the label in place.
    pub fn make_ascii_uppercase(&mut self)
        ensures
            final(self)@ == upper(old(self)@),
    {
        self.recase(true);
    }

    /// Raises the letters when `raise` holds, else lowers them.
    fn recase(&mut self, raise: bool)
        ensures
            final(self)@ == (if raise { upper(old(self)@) } else { lower(old(self)@) }),
    {
        proof {
            use_type_invariant(&*self);
        }
        let n = self.len as usize;
        let mut bytes = self.bytes;
        let mut i: usize = 0;
        while i < n
            invariant
                n == self.len,
                n <= MAX_LEN,
                i <= n,
                bytes@.len() == 63,
                forall|j: int|
                    0 <= j < i ==> bytes@[j] == (if raise {
                        upper_byte(#[trigger] self.bytes@[j])
                    } else {
                        lower_byte(self.bytes@[j])
                    }),
                forall|j: int| i <= j < 63 ==> bytes@[j] == #[trigger] self.bytes@[j],
            decreases n - i,
        {
            bytes[i] = if raise {
                to_upper(bytes[i])
            } else {
                to_lower(bytes[i])
            };
            i += 1;
        }
        proof {
            lemma_case_keeps_label(self@);
            if raise {
                assert(bytes@.take(n as int) =~= upper(self@));
            } else {
                assert(bytes@.take(n as int) =~= lower(self@));
            }
        }
        *self = OwnedLabel { len: n as u8, bytes };
    }
}

impl<'a> Label<'a> {
    /// Copies the label into an owned buffer.
    pub fn to_owned(&self) -> (r: OwnedLabel)
        ensures
            r@ == self@,
    {
        OwnedLabel::from_label(self)
    }
}

impl PartialEq for OwnedLabel {
    fn eq(&self, other: &OwnedLabel) -> (r: bool)
        ensures
            r == same_name(self@, other@),
    {
        eq_folded(self.as_label().as_bytes(), other.as_label().as_bytes())
    }
}

impl vstd::std_specs::cmp::PartialEqSpecImpl for OwnedLabel {
    open spec fn obeys_eq_spec() -> bool {
        true
    }

    open spec fn eq_spec(&self, other: &OwnedLabel) -> bool {
        same_name(self@, other@)
    }
}

impl Eq for OwnedLabel {

}

impl PartialOrd for OwnedLabel {
    fn partial_cmp(&self, other: &OwnedLabel) -> (r: Option<core::cmp::Ordering>)
        ensures
            r == Some(name_cmp(self@, other@)),
    {
        Some(cmp_folded(self.as_label().as_bytes(), other.as_label().as_bytes()))
    }
}

impl vstd::std_specs::cmp::PartialOrdSpecImpl for OwnedLabel {
    open spec fn obeys_partial_cmp_spec() -> bool {
        true
    }

    open spec fn partial_cmp_spec(&self, other: &OwnedLabel) -> Option<core::cmp::Ordering> {
        Some(name_cmp(self@, other@))
    }
}

impl core::hash::Hash for OwnedLabel {
    fn hash<H: core::hash::Hasher>(&self, state: &mut H) {
        hash_folded(self.as_label().as_bytes(), state)
    }
}

} // verus!
