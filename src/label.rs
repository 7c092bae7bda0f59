//! The borrowed label view and its case-insensitive comparisons.
use vstd::prelude::*;

use crate::grammar::{is_label, lemma_scan_gives_label, scan, scan_result, LabelError, MAX_LEN};

verus! {

/// The byte with an upper-case letter turned lower case.
pub open spec fn lower_byte(b: u8) -> u8 {
    if 65 <= b <= 90 {
        (b + 32) as u8
    } else {
        b
    }
}

/// The byte with a lower-case letter turned upper case.
pub open spec fn upper_byte(b: u8) -> u8 {
    if 97 <= b <= 122 {
        (b - 32) as u8
    } else {
        b
    }
}

/// Every byte of `s` lowered.
pub open spec fn lower(s: Seq<u8>) -> Seq<u8> {
    s.map_values(|b: u8| lower_byte(b))
}

/// Every byte of `s` raised.
pub open spec fn upper(s: Seq<u8>) -> Seq<u8> {
    s.map_values(|b: u8| upper_byte(b))
}

/// Byte-wise lexicographic order, where a proper prefix comes first.
pub open spec fn lex_cmp(a: Seq<u8>, b: Seq<u8>) -> core::cmp::Ordering
    decreases a.len(),
{
    if a.len() == 0 {
        if b.len() == 0 {
            core::cmp::Ordering::Equal
        } else {
            core::cmp::Ordering::Less
        }
    } else if b.len() == 0 {
        core::cmp::Ordering::Greater
    } else if a[0] < b[0] {
        core::cmp::Ordering::Less
    } else if a[0] > b[0] {
        core::cmp::Ordering::Greater
    } else {
        lex_cmp(a.drop_first(), b.drop_first())
    }
}

/// Two labels are the same name: equal bytes once lowered.
pub open spec fn same_name(a: Seq<u8>, b: Seq<u8>) -> bool {
    lower(a) == lower(b)
}

/// The order of two labels: that of their lowered bytes.
pub open spec fn name_cmp(a: Seq<u8>, b: Seq<u8>) -> core::cmp::Ordering {
    lex_cmp(lower(a), lower(b))
}

/// Lowers an ASCII upper-case letter, and keeps any other byte.
pub fn to_lower(b: u8) -> (r: u8)
    ensures
        r == lower_byte(b),
{
    if 65 <= b && b <= 90 {
        b + 32
    } else {
        b
    }
}

/// Raises an ASCII lower-case letter, and keeps any other byte.
pub fn to_upper(b: u8) -> (r: u8)
    ensures
        r == upper_byte(b),
{
    if 97 <= b && b <= 122 {
        b - 32
    } else {
        b
    }
}

/// Past a common prefix of length `i`, the order is that of the rests.
proof fn lemma_lex_cmp_skip(a: Seq<u8>, b: Seq<u8>, i: int)
    requires
        0 <= i <= a.len(),
        i <= b.len(),
        a.take(i) == b.take(i),
    ensures
        lex_cmp(a, b) == lex_cmp(a.skip(i), b.skip(i)),
    decreases i,
{
    if i > 0 {
        assert(a[0] == a.take(i)[0]);
        assert(b[0] == b.take(i)[0]);
        let a1 = a.drop_first();
        let b1 = b.drop_first();
        assert(a1.take(i - 1) =~= a.take(i).drop_first());
        assert(b1.take(i - 1) =~= b.take(i).drop_first());
        lemma_lex_cmp_skip(a1, b1, i - 1);
        assert(a1.skip(i - 1) =~= a.skip(i));
        assert(b1.skip(i - 1) =~= b.skip(i));
    } else {
        assert(a.skip(0) =~= a);
        assert(b.skip(0) =~= b);
    }
}

/// A validated DNS label borrowed from a byte buffer.
///
/// Its bytes always form a well-formed label: up to 63 digits, letters and
/// hyphens with no hyphen at either end, or nothing at all for the root.
#[derive(Clone, Copy)]
pub struct Label<'a> {
    bytes: &'a [u8],
}

impl<'a> View for Label<'a> {
    type V = Seq<u8>;

    closed spec fn view(&self) -> Seq<u8> {
        self.bytes@
    }
}

impl<'a> Label<'a> {
    /// The longest label, in bytes.
    pub const MAX_LEN: usize = 63;

    #[verifier::type_invariant]
    closed spec fn inv(&self) -> bool {
        is_label(self.bytes@)
    }

    /// Scans a label at the front of `bytes` and returns it with the bytes
    /// that follow it, or the reason the scan failed.
    pub fn try_scan_bytes(bytes: &'a [u8], scan_root: bool, same_length: bool) -> (r: Result<
        (Label<'a>, &'a [u8]),
        LabelError,
    >)
        ensures
            match scan_result(bytes@, scan_root, same_length) {
                Ok(n) => r matches Ok((label, rest)) && label@ == bytes@.take(n as int) && rest@
                    == bytes@.skip(n as int),
                Err(e) => r matches Err(f) && f == e,
            },
    {
        match scan(bytes, scan_root, same_length) {
            Ok(len) => {
                proof {
                    lemma_scan_gives_label(bytes@, scan_root, same_length);
                }
                let (label, rest) = bytes.split_at(len);
                Ok((Label { bytes: label }, rest))
            },
            Err(err) => Err(err),
        }
    }

    /// Scans a label at the front of `bytes` that the caller knows is there.
    pub fn scan_bytes(bytes: &'a [u8], scan_root: bool, same_length: bool) -> (r: (
        Label<'a>,
        &'a [u8],
    ))
        requires
            scan_result(bytes@, scan_root, same_length) is Ok,
        ensures
            r.0@ == bytes@.take(scan_result(bytes@, scan_root, same_length)->Ok_0 as int),
            r.1@ == bytes@.skip(scan_result(bytes@, scan_root, same_length)->Ok_0 as int),
    {
        match Label::try_scan_bytes(bytes, scan_root, same_length) {
            Ok(found) => found,
            Err(_) => vstd::pervasive::unreached(),
        }
    }

    /// Scans a label at the front of `bytes` whose scan is known to succeed.
    pub fn scan_bytes_unchecked(bytes: &'a [u8], scan_root: bool, same_length: bool) -> (r: (
        Label<'a>,
        &'a [u8],
    ))
        requires
            scan_result(bytes@, scan_root, same_length) is Ok,
        ensures
            r.0@ == bytes@.take(scan_result(bytes@, scan_root, same_length)->Ok_0 as int),
            r.1@ == bytes@.skip(scan_result(bytes@, scan_root, same_length)->Ok_0 as int),
    {
        Label::scan_bytes(bytes, scan_root, same_length)
    }

    /// Validates that the whole of `bytes` is one label.
    pub fn try_from_bytes(bytes: &'a [u8]) -> (r: Result<Label<'a>, LabelError>)
        ensures
            match scan_result(bytes@, true, true) {
                Ok(_) => r matches Ok(label) && label@ == bytes@,
                Err(e) => r matches Err(f) && f == e,
            },
    {
        match Label::try_scan_bytes(bytes, true, true) {
            Ok((label, _)) => {
                proof {
                    lemma_scan_gives_label(bytes@, true, true);
                    assert(bytes@.take(bytes@.len() as int) =~= bytes@);
                }
                Ok(label)
            },
            Err(err) => Err(err),
        }
    }

    /// Views `bytes`, known to form one label, as a label.
    pub fn from_bytes(bytes: &'a [u8]) -> (r: Label<'a>)
        requires
            is_label(bytes@),
        ensures
            r@ == bytes@,
    {
        proof {
            lemma_whole_label(bytes@);
        }
        match Label::try_from_bytes(bytes) {
            Ok(label) => label,
            Err(_) => vstd::pervasive::unreached(),
        }
    }

    /// Views `bytes`, known to form one label, as a label without scanning.
    pub fn from_bytes_unchecked(bytes: &'a [u8]) -> (r: Label<'a>)
        requires
            is_label(bytes@),
        ensures
            r@ == bytes@,
    {
        Label { bytes }
    }

    /// Reinterprets bytes that form one label as a label.
    pub fn transmute_bytes(bytes: &'a [u8]) -> (r: Label<'a>)
        requires
            is_label(bytes@),
        ensures
            r@ == bytes@,
    {
        Label::from_bytes_unchecked(bytes)
    }

    /// The number of bytes in the label.
    pub fn len(&self) -> (r: usize)
        ensures
            r == self@.len(),
            r <= MAX_LEN,
    {
        proof {
            use_type_invariant(self);
        }
        self.bytes.len()
    }

    /// Whether the label has no bytes.
    pub fn is_empty(&self) -> (r: bool)
        ensures
            r == (self@.len() == 0),
    {
        self.bytes.len() == 0
    }

    /// Whether this is the root label, the empty one.
    pub fn is_root(&self) -> (r: bool)
        ensures
            r == (self@.len() == 0),
    {
        self.is_empty()
    }

    /// The order of two labels, by their lowered bytes.
    pub fn cmp(&self, other: &Label) -> (r: core::cmp::Ordering)
        ensures
            r == name_cmp(self@, other@),
    {
        cmp_folded(self.bytes, other.bytes)
    }

    /// The label as text; a label holds ASCII bytes only.
    pub fn as_str(&self) -> (r: &'a str)
        ensures
            r@ == ascii_text(self@),
    {
        proof {
            use_type_invariant(self);
        }
        ascii_str(self.bytes)
    }

    /// The label's bytes.
    pub fn as_bytes(&self) -> (r: &'a [u8])
        ensures
            r@ == self@,
            is_label(r@),
    {
        proof {
            use_type_invariant(self);
        }
        self.bytes
    }
}

/// A validated DNS label borrowed mutably from a byte buffer.
///
/// Its bytes always form a well-formed label; only the case of its letters
/// can be changed through it.
pub struct LabelMut<'a> {
    bytes: &'a mut [u8],
}

impl<'a> View for LabelMut<'a> {
    type V = Seq<u8>;

    closed spec fn view(&self) -> Seq<u8> {
        self.bytes@
    }
}

impl<'a> LabelMut<'a> {
    #[verifier::type_invariant]
    closed spec fn inv(&self) -> bool {
        is_label(self.bytes@)
    }

    /// The number of bytes in the label.
    pub fn len(&self) -> (r: usize)
        ensures
            r == self@.len(),
            r <= MAX_LEN,
    {
        proof {
            use_type_invariant(self);
        }
        self.bytes.len()
    }

    /// Whether the label has no bytes.
    pub fn is_empty(&self) -> (r: bool)
        ensures
            r == (self@.len() == 0),
    {
        self.bytes.len() == 0
    }

    /// Whether this is the root label, the empty one.
    pub fn is_root(&self) -> (r: bool)
        ensures
            r == (self@.len() == 0),
    {
        self.bytes.len() == 0
    }

    /// The label's bytes.
    pub fn as_bytes(&self) -> (r: &[u8])
        ensures
            r@ == self@,
            is_label(r@),
    {
        proof {
            use_type_invariant(self);
        }
        &*self.bytes
    }

    /// Lowers every upper-case letter of the label in place.
    pub fn make_ascii_lowercase(&mut self)
        ensures
            final(self)@ == lower(old(self)@),
    {
        self.recase(false);
    }

    /// Raises every lower-case letter of the label in place.
    pub fn make_ascii_uppercase(&mut self)
        ensures
            final(self)@ == upper(old(self)@),
    {
        self.recase(true);
    }

    /// Raises the letters when `raise` holds, else lowers them.
    fn recase(&mut self, raise: bool)
        ensures
            final(self)@ == (if raise { upper(old(self)@) } else { lower(old(self)@) }),
    {
        proof {
            use_type_invariant(&*self);
            lemma_case_keeps_label(self@);
        }
        let ghost before = self@;
        let n = self.bytes.len();
        let mut i: usize = 0;
        while i < n
            invariant
                n == before.len(),
                self.bytes@.len() == n,
                i <= n,
                forall|j: int|
                    0 <= j < i ==> self.bytes@[j] == (if raise {
                        upper_byte(#[trigger] before[j])
                    } else {
                        lower_byte(before[j])
                    }),
                forall|j: int| i <= j < n ==> self.bytes@[j] == #[trigger] before[j],
                is_label(before),
                is_label(self.bytes@),
            decreases n - i,
        {
            let b = if raise {
                to_upper(self.bytes[i])
            } else {
                to_lower(self.bytes[i])
            };
            proof {
                let next = self.bytes@.update(i as int, b);
                assert(crate::grammar::is_label_byte(self.bytes@[i as int]));
                assert forall|j: int| 0 <= j < next.len() implies #[trigger] crate::grammar::is_label_byte(
                    next[j],
                ) by {
                    assert(crate::grammar::is_label_byte(self.bytes@[j]));
                }
                assert(is_label(next));
            }
            self.bytes[i] = b;
            i += 1;
        }
        if raise {
            assert(self.bytes@ =~= upper(before));
        } else {
            assert(self.bytes@ =~= lower(before));
        }
    }
}

impl<'a> Label<'a> {
    /// Scans a label at the front of a mutable buffer and returns it with
    /// the bytes that follow it, or the reason the scan failed.
    pub fn try_scan_bytes_mut(bytes: &'a mut [u8], scan_root: bool, same_length: bool) -> (r: Result<
        (LabelMut<'a>, &'a mut [u8]),
        LabelError,
    >)
        ensures
            match scan_result(old(bytes)@, scan_root, same_length) {
                Ok(n) => r matches Ok((label, rest)) && label@ == old(bytes)@.take(n as int)
                    && rest@ == old(bytes)@.skip(n as int),
                Err(e) => r matches Err(f) && f == e && final(bytes)@ == old(bytes)@,
            },
    {
        match scan(bytes, scan_root, same_length) {
            Ok(len) => {
                proof {
                    lemma_scan_gives_label(bytes@, scan_root, same_length);
                }
                let (label, rest) = bytes.split_at_mut(len);
                Ok((LabelMut { bytes: label }, rest))
            },
            Err(err) => Err(err),
        }
    }

    /// Scans a label at the front of a mutable buffer that the caller knows
    /// is there.
    pub fn scan_bytes_mut(bytes: &'a mut [u8], scan_root: bool, same_length: bool) -> (r: (
        LabelMut<'a>,
        &'a mut [u8],
    ))
        requires
            scan_result(old(bytes)@, scan_root, same_length) is Ok,
        ensures
            r.0@ == old(bytes)@.take(scan_result(old(bytes)@, scan_root, same_length)->Ok_0 as int),
            r.1@ == old(bytes)@.skip(scan_result(old(bytes)@, scan_root, same_length)->Ok_0 as int),
    {
        match Label::try_scan_bytes_mut(bytes, scan_root, same_length) {
            Ok(found) => found,
            Err(_) => vstd::pervasive::unreached(),
        }
    }

    /// Scans a label at the front of a mutable buffer whose scan is known to
    /// succeed.
    pub fn scan_bytes_unchecked_mut(bytes: &'a mut [u8], scan_root: bool, same_length: bool) -> (r: (
        LabelMut<'a>,
        &'a mut [u8],
    ))
        requires
            scan_result(old(bytes)@, scan_root, same_length) is Ok,
        ensures
            r.0@ == old(bytes)@.take(scan_result(old(bytes)@, scan_root, same_length)->Ok_0 as int),
            r.1@ == old(bytes)@.skip(scan_result(old(bytes)@, scan_root, same_length)->Ok_0 as int),
    {
        Label::scan_bytes_mut(bytes, scan_root, same_length)
    }

    /// Validates that the whole of a mutable buffer is one label.
    pub fn try_from_bytes_mut(bytes: &'a mut [u8]) -> (r: Result<LabelMut<'a>, LabelError>)
        ensures
            match scan_result(old(bytes)@, true, true) {
                Ok(_) => r matches Ok(label) && label@ == old(bytes)@,
                Err(e) => r matches Err(f) && f == e && final(bytes)@ == old(bytes)@,
            },
    {
        let ghost before = bytes@;
        match Label::try_scan_bytes_mut(bytes, true, true) {
            Ok((label, _)) => {
                proof {
                    lemma_scan_gives_label(before, true, true);
                    assert(before.take(before.len() as int) =~= before);
                }
                Ok(label)
            },
            Err(err) => Err(err),
        }
    }

    /// Views a mutable buffer, known to form one label, as a label.
    pub fn from_bytes_mut(bytes: &'a mut [u8]) -> (r: LabelMut<'a>)
        requires
            is_label(old(bytes)@),
        ensures
            r@ == old(bytes)@,
    {
        proof {
            lemma_whole_label(bytes@);
        }
        match Label::try_from_bytes_mut(bytes) {
            Ok(label) => label,
            Err(_) => vstd::pervasive::unreached(),
        }
    }

    /// Views a mutable buffer, known to form one label, as a label without
    /// scanning.
    pub fn from_bytes_unchecked_mut(bytes: &'a mut [u8]) -> (r: LabelMut<'a>)
        requires
            is_label(old(bytes)@),
        ensures
            r@ == old(bytes)@,
    {
        LabelMut { bytes }
    }

    /// Reinterprets a mutable buffer that forms one label as a label.
    pub fn transmute_bytes_mut(bytes: &'a mut [u8]) -> (r: LabelMut<'a>)
        requires
            is_label(old(bytes)@),
        ensures
            r@ == old(bytes)@,
    {
        Label::from_bytes_unchecked_mut(bytes)
    }
}

/// Scanning a whole buffer with the root allowed succeeds exactly on a
/// well-formed label, and then takes all of it.
pub proof fn lemma_whole_label(b: Seq<u8>)
    ensures
        scan_result(b, true, true) is Ok <==> is_label(b),
        is_label(b) ==> scan_result(b, true, true) == Ok::<usize, LabelError>(b.len() as usize),
{
    if is_label(b) {
        assert forall|i: int| 0 <= i < crate::grammar::window_len(b) implies
            #[trigger] crate::grammar::is_label_byte(b[i]) by {
            assert(crate::grammar::is_label_byte(b[i]));
        }
    }
    if scan_result(b, true, true) is Ok {
        lemma_scan_gives_label(b, true, true);
        assert(b.take(b.len() as int) =~= b);
    }
}

/// Lowering or raising the letters of a label leaves a label.
pub proof fn lemma_case_keeps_label(s: Seq<u8>)
    requires
        is_label(s),
    ensures
        is_label(lower(s)),
        is_label(upper(s)),
{
    let l = lower(s);
    let u = upper(s);
    assert forall|i: int| 0 <= i < l.len() implies #[trigger] crate::grammar::is_label_byte(l[i]) by {
        assert(crate::grammar::is_label_byte(s[i]));
    }
    assert forall|i: int| 0 <= i < u.len() implies #[trigger] crate::grammar::is_label_byte(u[i]) by {
        assert(crate::grammar::is_label_byte(s[i]));
    }
}

/// The characters of ASCII bytes, one for each byte.
pub open spec fn ascii_text(s: Seq<u8>) -> Seq<char> {
    s.map_values(|b: u8| b as char)
}

/// Relies on `core::str::from_utf8`: ASCII bytes are valid UTF-8, and each
/// byte is one character of the text it returns.
#[verifier::external_body]
fn ascii_str(bytes: &[u8]) -> (r: &str)
    requires
        is_label(bytes@),
    ensures
        r@ == ascii_text(bytes@),
{
    match core::str::from_utf8(bytes) {
        Ok(text) => text,
        Err(_) => "",
    }
}

/// Whether two byte sequences are equal once lowered.
pub(crate) fn eq_folded(a: &[u8], b: &[u8]) -> (r: bool)
    ensures
        r == same_name(a@, b@),
{
    if a.len() != b.len() {
        return false;
    }
    let n = a.len();
    let mut i: usize = 0;
    while i < n
        invariant
            n == a@.len(),
            n == b@.len(),
            i <= n,
            forall|j: int| 0 <= j < i ==> lower_byte(#[trigger] a@[j]) == lower_byte(b@[j]),
        decreases n - i,
    {
        if to_lower(a[i]) != to_lower(b[i]) {
            assert(lower(a@)[i as int] != lower(b@)[i as int]);
            return false;
        }
        i += 1;
    }
    assert(lower(a@) =~= lower(b@));
    true
}

/// The order of two byte sequences once lowered.
pub(crate) fn cmp_folded(a: &[u8], b: &[u8]) -> (r: core::cmp::Ordering)
    ensures
        r == name_cmp(a@, b@),
{
    let ghost la = lower(a@);
    let ghost lb = lower(b@);
    let mut i: usize = 0;
    while i < a.len() && i < b.len()
        invariant
            la == lower(a@),
            lb == lower(b@),
            i <= a@.len(),
            i <= b@.len(),
            la.take(i as int) == lb.take(i as int),
        decreases a@.len() - i,
    {
        let x = to_lower(a[i]);
        let y = to_lower(b[i]);
        if x != y {
            proof {
                lemma_lex_cmp_skip(la, lb, i as int);
                assert(la.skip(i as int)[0] == x);
                assert(lb.skip(i as int)[0] == y);
            }
            if x < y {
                return core::cmp::Ordering::Less;
            } else {
                return core::cmp::Ordering::Greater;
            }
        }
        assert(la.take(i + 1) =~= la.take(i as int).push(x));
        assert(lb.take(i + 1) =~= lb.take(i as int).push(y));
        i += 1;
    }
    proof {
        lemma_lex_cmp_skip(la, lb, i as int);
    }
    if a.len() == b.len() {
        core::cmp::Ordering::Equal
    } else if a.len() < b.len() {
        core::cmp::Ordering::Less
    } else {
        core::cmp::Ordering::Greater
    }
}

/// Relies on `Hasher::write_u8`: feeds one byte to the hasher.
#[verifier::external_body]
fn feed_byte<H: core::hash::Hasher>(state: &mut H, b: u8) {
    state.write_u8(b)
}

/// Feeds the lowered bytes of `bytes` to the hasher, one at a time.
pub(crate) fn hash_folded<H: core::hash::Hasher>(bytes: &[u8], state: &mut H) {
    let n = bytes.len();
    let mut i: usize = 0;
    while i < n
        invariant
            n == bytes@.len(),
        decreases n - i,
    {
        feed_byte(state, to_lower(bytes[i]));
        i += 1;
    }
}

impl<'a> PartialEq for Label<'a> {
    fn eq(&self, other: &Label<'a>) -> (r: bool)
        ensures
            r == same_name(self@, other@),
    {
        eq_folded(self.bytes, other.bytes)
    }
}

impl<'a> vstd::std_specs::cmp::PartialEqSpecImpl for Label<'a> {
    open spec fn obeys_eq_spec() -> bool {
        true
    }

    open spec fn eq_spec(&self, other: &Label<'a>) -> bool {
        same_name(self@, other@)
    }
}

impl<'a> Eq for Label<'a> {

}

impl<'a> PartialOrd for Label<'a> {
    fn partial_cmp(&self, other: &Label<'a>) -> (r: Option<core::cmp::Ordering>)
        ensures
            r == Some(name_cmp(self@, other@)),
    {
        Some(cmp_folded(self.bytes, other.bytes))
    }
}

impl<'a> vstd::std_specs::cmp::PartialOrdSpecImpl for Label<'a> {
    open spec fn obeys_partial_cmp_spec() -> bool {
        true
    }

    open spec fn partial_cmp_spec(&self, other: &Label<'a>) -> Option<core::cmp::Ordering> {
        Some(name_cmp(self@, other@))
    }
}

impl<'a> core::hash::Hash for Label<'a> {
    fn hash<H: core::hash::Hasher>(&self, state: &mut H) {
        hash_folded(self.bytes, state)
    }
}

} // verus!
