//! Laws of the scanner and of the label types, proved over their models.
use vstd::prelude::*;

use crate::grammar::{
    is_alnum, is_label, is_label_byte, scan_result, window_clean, window_len, LabelError, HYPHEN,
    MAX_LEN,
};
use crate::label::{lower, same_name, upper, Label};
use crate::owned::OwnedLabel;

verus! {

/// An ASCII letter.
pub open spec fn is_letter(b: u8) -> bool {
    (65 <= b <= 90) || (97 <= b <= 122)
}

/// Up to 63 digits and letters, with no hyphen, always validate as a whole
/// label equal to the input.
pub proof fn lemma_alnum_validates(b: Seq<u8>)
    requires
        b.len() <= MAX_LEN,
        forall|i: int| 0 <= i < b.len() ==> #[trigger] is_alnum(b[i]),
    ensures
        scan_result(b, true, true) == Ok::<usize, LabelError>(b.len() as usize),
{
    assert forall|i: int| 0 <= i < window_len(b) implies #[trigger] is_label_byte(b[i]) by {
        assert(is_alnum(b[i]));
    }
    if b.len() > 0 {
        assert(is_alnum(b[0]));
        assert(is_alnum(b[b.len() - 1]));
    }
}

/// A hyphen at the front, or at the end of a buffer that fits the window,
/// fails the scan as a stray hyphen whatever the flags.
pub proof fn lemma_edge_hyphen_rejected(b: Seq<u8>, allow_root: bool, full_length: bool)
    requires
        b.len() > 0,
        b[0] == HYPHEN || (b.last() == HYPHEN && b.len() <= MAX_LEN),
    ensures
        scan_result(b, allow_root, full_length) == Err::<usize, LabelError>(LabelError::StrayHyphen),
{
}

/// A byte other than a digit, letter or hyphen within the first 63 bytes
/// fails the scan as a stray hyphen whatever the flags.
pub proof fn lemma_foreign_byte_rejected(b: Seq<u8>, i: int, allow_root: bool, full_length: bool)
    requires
        0 <= i < b.len(),
        i < MAX_LEN,
        !is_label_byte(b[i]),
    ensures
        scan_result(b, allow_root, full_length) == Err::<usize, LabelError>(LabelError::StrayHyphen),
{
    assert(!window_clean(b));
}

/// The empty buffer is refused as the root when the root is not allowed,
/// and is a label of length zero when it is.
pub proof fn lemma_empty_is_root(full_length: bool)
    ensures
        scan_result(Seq::<u8>::empty(), false, full_length) == Err::<usize, LabelError>(
            LabelError::FoundRoot,
        ),
        scan_result(Seq::<u8>::empty(), true, full_length) == Ok::<usize, LabelError>(0),
{
}

/// Of 64 letters, a scan takes the first 63 and leaves one byte, unless
/// the whole buffer must be taken, which fails with a length mismatch.
pub proof fn lemma_long_run_splits(b: Seq<u8>, allow_root: bool)
    requires
        b.len() == 64,
        forall|i: int| 0 <= i < b.len() ==> #[trigger] is_letter(b[i]),
    ensures
        scan_result(b, allow_root, false) == Ok::<usize, LabelError>(63),
        b.skip(63).len() == 1,
        scan_result(b, allow_root, true) == Err::<usize, LabelError>(LabelError::LengthMismatch),
{
    assert forall|i: int| 0 <= i < window_len(b) implies #[trigger] is_label_byte(b[i]) by {
        assert(is_letter(b[i]));
    }
    assert(is_letter(b[0]));
    assert(is_letter(b[62]));
}

/// Copying a label into an owned buffer and viewing it again gives back
/// the same bytes.
pub proof fn lemma_owned_round_trip<'a, 'b>(label: Label<'a>, owned: OwnedLabel, back: Label<'b>)
    requires
        call_ensures(OwnedLabel::from_label, (&label,), owned),
        call_ensures(OwnedLabel::as_label, (&owned,), back),
    ensures
        back@ == label@,
{
}

/// Raising and then lowering the letters of a label leaves a label that
/// names the same, and gives back the very bytes of a label without
/// upper-case letters.
pub proof fn lemma_recase_round_trip(s: Seq<u8>)
    requires
        is_label(s),
    ensures
        is_label(upper(s)),
        is_label(lower(upper(s))),
        lower(upper(s)) == lower(s),
        same_name(lower(upper(s)), s),
        (forall|i: int| 0 <= i < s.len() ==> !(65 <= #[trigger] s[i] <= 90)) ==> lower(upper(s))
            == s,
{
    crate::label::lemma_case_keeps_label(s);
    crate::label::lemma_case_keeps_label(upper(s));
    assert(lower(upper(s)) =~= lower(s));
    assert(lower(lower(s)) =~= lower(s));
    if forall|i: int| 0 <= i < s.len() ==> !(65 <= #[trigger] s[i] <= 90) {
        assert(lower(s) =~= s);
    }
}

/// A label and its raised or lowered form name the same.
pub proof fn lemma_case_insensitive(s: Seq<u8>)
    ensures
        same_name(s, upper(s)),
        same_name(s, lower(s)),
{
    assert(lower(upper(s)) =~= lower(s));
    assert(lower(lower(s)) =~= lower(s));
}

} // verus!
