//! Text helpers over `String`/`&str` views, and node references.

use vstd::prelude::*;
use vstd::string::StrSliceExecFns;

verus! {

/// A node reference: the textual key of a node in a file.
pub type Ref = String;

/// The reference that marks an empty child slot.
pub const INVALID_REF: &'static str = "-";

/// The view of the marker for an empty child slot.
pub open spec fn invalid_ref() -> Seq<char> {
    seq!['-']
}

/// A lower-case hexadecimal digit.
pub open spec fn is_lower_hex(c: char) -> bool {
    ('0' <= c && c <= '9') || ('a' <= c && c <= 'f')
}

/// The character at position `i` of a hyphenated UUID may be `c`: a hyphen at
/// 8, 13, 18 and 23, a lower-case hex digit elsewhere.
pub open spec fn uuid_char_fits(i: int, c: char) -> bool {
    if i == 8 || i == 13 || i == 18 || i == 23 {
        c == '-'
    } else {
        is_lower_hex(c)
    }
}

/// The text of a random (version 4, RFC 4122 variant) UUID in hyphenated
/// lower-case form: 36 characters, hyphens at 8, 13, 18 and 23, lower-case hex
/// digits elsewhere, the version digit `4` at 14 and a variant digit among
/// `8`, `9`, `a`, `b` at 19.
pub open spec fn is_hyphenated_uuid(s: Seq<char>) -> bool {
    &&& s.len() == 36
    &&& forall|i: int| 0 <= i < 36 ==> uuid_char_fits(i, #[trigger] s[i])
    &&& s[14] == '4'
    &&& (s[19] == '8' || s[19] == '9' || s[19] == 'a' || s[19] == 'b')
}

/// The view of an optional text.
pub open spec fn opt_text(o: &Option<String>) -> Option<Seq<char>> {
    match o {
        Some(s) => Some(s@),
        None => None,
    }
}

/// Makes a fresh node reference.
///
/// Calls `uuid::Uuid::new_v4()` and renders it with `to_hyphenated().to_string()`.
/// The contract claims only the shape that `uuid`'s hyphenated lower-case encoder
/// writes for a value whose version `new_v4` sets to 4 and whose variant it sets to
/// RFC 4122; which value comes back is chance, so nothing ties two calls
/// together, and nothing here says that the value differs from every reference in
/// use. `new_v4` panics when the operating system cannot supply random bytes, a
/// condition that no `requires` can name.
#[verifier::external_body]
pub fn new_ref() -> (r: Ref)
    ensures
        is_hyphenated_uuid(r@),
{
    uuid::Uuid::new_v4().to_hyphenated().to_string()
}

/// The literal marker has the view `invalid_ref()`.
pub proof fn lemma_invalid_ref_view()
    ensures
        INVALID_REF@ == invalid_ref(),
{
    reveal_strlit("-");
    assert(INVALID_REF@ =~= invalid_ref());
}

/// A fresh reference is never the empty-slot marker.
pub proof fn law_fresh_ref_is_not_invalid(s: Seq<char>)
    requires
        is_hyphenated_uuid(s),
    ensures
        s != invalid_ref(),
{
}

/// Whether `r` is the empty-slot marker.
pub fn is_invalid_ref(r: &str) -> (b: bool)
    ensures
        b == (r@ == invalid_ref()),
{
    let n = r.unicode_len();
    if n != 1 {
        return false;
    }
    let c = r.get_char(0);
    if c == '-' {
        assert(r@ =~= invalid_ref());
        true
    } else {
        false
    }
}

/// The marker for an empty child slot, as an owned string.
pub fn invalid_ref_string() -> (r: Ref)
    ensures
        r@ == invalid_ref(),
{
    proof { lemma_invalid_ref_view(); }
    INVALID_REF.to_string()
}

/// Whether two texts are equal.
pub fn text_eq(a: &str, b: &str) -> (r: bool)
    ensures
        r == (a@ == b@),
{
    let n = a.unicode_len();
    if n != b.unicode_len() {
        return false;
    }
    let mut i: usize = 0;
    while i < n
        invariant
            n == a@.len(),
            n == b@.len(),
            i <= n,
            forall|j: int| 0 <= j < i ==> a@[j] == b@[j],
        decreases n - i,
    {
        if a.get_char(i) != b.get_char(i) {
            return false;
        }
        i = i + 1;
    }
    assert(a@ =~= b@);
    true
}

/// Whether `text` begins with `prefix`.
pub fn starts_with(text: &str, prefix: &str) -> (r: bool)
    ensures
        r == prefix@.is_prefix_of(text@),
{
    let n = prefix.unicode_len();
    let m = text.unicode_len();
    if n > m {
        return false;
    }
    let mut i: usize = 0;
    while i < n
        invariant
            n == prefix@.len(),
            m == text@.len(),
            n <= m,
            i <= n,
            forall|j: int| 0 <= j < i ==> prefix@[j] == text@[j],
        decreases n - i,
    {
        if prefix.get_char(i) != text.get_char(i) {
            assert(prefix@[i as int] != text@.subrange(0, n as int)[i as int]);
            return false;
        }
        i = i + 1;
    }
    assert(prefix@ =~= text@.subrange(0, n as int));
    true
}

/// The part of `text` after its first `n` characters.
pub fn text_after(text: &str, n: usize) -> (r: String)
    requires
        n <= text@.len(),
    ensures
        r@ == text@.skip(n as int),
{
    let m = text.unicode_len();
    let rest = text.substring_char(n, m);
    assert(rest@ =~= text@.skip(n as int));
    rest.to_string()
}

} // verus!
