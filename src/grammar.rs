//! The label grammar and the scanner that decides it.
use vstd::prelude::*;

verus! {

/// The longest label, in bytes.
pub const MAX_LEN: usize = 63;

/// The hyphen, the one punctuation byte a label may hold.
pub const HYPHEN: u8 = 45;

/// Error returned when scanning a label fails.
#[derive(Debug, Clone, Copy, PartialEq, Eq, Structural, PartialOrd, Ord, Hash)]
pub enum LabelError {
    /// Labels cannot have a hyphen at their start or end.
    StrayHyphen,
    /// The length of the scanned label differs from its source.
    LengthMismatch,
    /// Scanned the root label unexpectedly.
    FoundRoot,
}

impl LabelError {
    /// The fixed human-readable message of each kind.
    pub fn message(self) -> (r: &'static str)
        ensures
            self == LabelError::StrayHyphen ==> r@ == "labels cannot have a hypen at their start or end"@,
            self == LabelError::LengthMismatch ==> r@ == "length of the scanned label differs from its source"@,
            self == LabelError::FoundRoot ==> r@ == "scanned the root label unexpectedly"@,
    {
        match self {
            LabelError::StrayHyphen => "labels cannot have a hypen at their start or end",
            LabelError::LengthMismatch => "length of the scanned label differs from its source",
            LabelError::FoundRoot => "scanned the root label unexpectedly",
        }
    }
}

/// An ASCII digit or letter.
pub open spec fn is_alnum(b: u8) -> bool {
    (48 <= b <= 57) || (65 <= b <= 90) || (97 <= b <= 122)
}

/// A byte that may stand anywhere in a label: a digit, a letter or a hyphen.
pub open spec fn is_label_byte(b: u8) -> bool {
    is_alnum(b) || b == HYPHEN
}

/// A well-formed label: at most 63 digits, letters and hyphens, with no
/// hyphen at either end. The empty sequence is the root label.
pub open spec fn is_label(s: Seq<u8>) -> bool {
    &&& s.len() <= MAX_LEN
    &&& forall|i: int| 0 <= i < s.len() ==> #[trigger] is_label_byte(s[i])
    &&& s.len() > 0 ==> s[0] != HYPHEN && s.last() != HYPHEN
}

/// How many leading bytes of `b` the scanner looks at.
pub open spec fn window_len(b: Seq<u8>) -> nat {
    if b.len() > MAX_LEN {
        MAX_LEN as nat
    } else {
        b.len()
    }
}

/// Every byte of the window is a digit, a letter or a hyphen.
pub open spec fn window_clean(b: Seq<u8>) -> bool {
    forall|i: int| 0 <= i < window_len(b) ==> #[trigger] is_label_byte(b[i])
}

/// The window holds a foreign byte, or starts or ends with a hyphen.
pub open spec fn is_stray(b: Seq<u8>) -> bool {
    let n = window_len(b) as int;
    !window_clean(b) || (n > 0 && (b[0] == HYPHEN || b[n - 1] == HYPHEN))
}

/// What scanning `b` gives under the two policy flags: the length of the
/// label at the front of `b`, or the reason there is none.
pub open spec fn scan_result(b: Seq<u8>, allow_root: bool, full_length: bool) -> Result<usize, LabelError> {
    let n = window_len(b);
    if is_stray(b) {
        Err(LabelError::StrayHyphen)
    } else if n == 0 && !allow_root {
        Err(LabelError::FoundRoot)
    } else if full_length && n != b.len() {
        Err(LabelError::LengthMismatch)
    } else {
        Ok(n as usize)
    }
}

/// A successful scan leaves a well-formed label in front.
pub proof fn lemma_scan_gives_label(b: Seq<u8>, allow_root: bool, full_length: bool)
    requires
        scan_result(b, allow_root, full_length) is Ok,
    ensures
        scan_result(b, allow_root, full_length)->Ok_0 == window_len(b),
        window_len(b) <= b.len(),
        is_label(b.take(window_len(b) as int)),
{
    let n = window_len(b) as int;
    let s = b.take(n);
    assert forall|i: int| 0 <= i < s.len() implies #[trigger] is_label_byte(s[i]) by {
        assert(is_label_byte(b[i]));
    }
}

/// Whether `b` is a digit or a letter.
pub fn is_ascii_alnum(b: u8) -> (r: bool)
    ensures
        r == is_alnum(b),
{
    (48 <= b && b <= 57) || (65 <= b && b <= 90) || (97 <= b && b <= 122)
}

/// Checks the window of `bytes`: its length when every byte in it may stand
/// in a label and no hyphen stands at either end, else `None`.
fn scan_inner(bytes: &[u8]) -> (r: Option<usize>)
    ensures
        r == (if is_stray(bytes@) { None } else { Some(window_len(bytes@) as usize) }),
{
    let len: usize = if bytes.len() > MAX_LEN {
        MAX_LEN
    } else {
        bytes.len()
    };
    let mut offset: usize = 0;
    while offset < len
        invariant
            len == window_len(bytes@),
            len <= bytes@.len(),
            offset <= len,
            forall|i: int| 0 <= i < offset ==> #[trigger] is_label_byte(bytes@[i]),
        decreases len - offset,
    {
        let octet = bytes[offset];
        if is_ascii_alnum(octet) || octet == HYPHEN {
            offset += 1;
        } else {
            assert(!is_label_byte(bytes@[offset as int]));
            return None;
        }
    }
    if offset != 0 {
        let first = bytes[0];
        let last = bytes[offset - 1];
        if first == HYPHEN || last == HYPHEN {
            return None;
        }
    }
    Some(offset)
}

/// Scans a label at the front of `bytes`, returning how many bytes it takes.
///
/// With `scan_root` false the empty label is refused; with `same_length`
/// true the label must take the whole of `bytes`.
pub fn scan(bytes: &[u8], scan_root: bool, same_length: bool) -> (r: Result<usize, LabelError>)
    ensures
        r == scan_result(bytes@, scan_root, same_length),
{
    match scan_inner(bytes) {
        Some(len) => {
            if len == 0 && !scan_root {
                Err(LabelError::FoundRoot)
            } else if len != bytes.len() && same_length {
                Err(LabelError::LengthMismatch)
            } else {
                Ok(len)
            }
        },
        None => Err(LabelError::StrayHyphen),
    }
}

} // verus!
