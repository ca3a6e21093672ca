//! Git object ids.

use vstd::prelude::*;
use vstd::std_specs::cmp::PartialEqSpec;

use crate::assoc::MapKey;

verus! {

/// The error type of git2, which only travels through this library.
#[verifier::external_type_specification]
#[verifier::external_body]
pub struct ExGitError(git2::Error);

/// The id of a Git object: the 20 bytes of a SHA-1.
#[derive(Clone, Copy, Debug)]
pub struct Oid {
    pub raw: [u8; 20],
}

impl View for Oid {
    type V = Seq<u8>;

    open spec fn view(&self) -> Seq<u8> {
        self.raw@
    }
}

/// The digit for `n` in base sixteen, in lower case.
pub open spec fn hex_digit(n: int) -> char {
    if n < 10 {
        ('0' as int + n) as char
    } else {
        ('a' as int + n - 10) as char
    }
}

/// The two digits of each byte, one byte after the other.
pub open spec fn hex_text(bytes: Seq<u8>) -> Seq<char> {
    Seq::new(
        2 * bytes.len(),
        |i: int|
            if i % 2 == 0 {
                hex_digit(bytes[i / 2] as int / 16)
            } else {
                hex_digit(bytes[i / 2] as int % 16)
            },
    )
}

/// Calls `git2::Oid::from_bytes`. It takes 20 bytes as an id, which it keeps as they are,
/// and refuses every other number of bytes.
#[verifier::external_body]
fn git_oid_from_bytes(bytes: &[u8]) -> (res: Result<[u8; 20], git2::Error>)
    ensures
        res is Ok <==> bytes@.len() == 20,
        res matches Ok(raw) ==> raw@ == bytes@,
{
    let oid = git2::Oid::from_bytes(bytes)?;
    let mut raw = [0u8; 20];
    raw.copy_from_slice(oid.as_bytes());
    Ok(raw)
}

/// Calls the `Display` of `git2::Oid`. It writes each byte as two digits in base sixteen, in
/// lower case, the first byte first.
#[verifier::external_body]
fn git_oid_to_string(raw: &[u8; 20]) -> (text: String)
    ensures
        text@ == hex_text(raw@),
{
    let oid = git2::Oid::from_bytes(raw).expect("an id has 20 bytes");
    format!("{}", oid)
}

impl Oid {
    /// The id that `bytes` holds; an id has 20 bytes.
    pub fn from_bytes(bytes: &[u8]) -> (res: Option<Oid>)
        ensures
            res is Some <==> bytes@.len() == 20,
            res matches Some(oid) ==> oid@ == bytes@,
    {
        match git_oid_from_bytes(bytes) {
            Ok(raw) => Some(Oid { raw }),
            Err(_) => None,
        }
    }

    /// The id as 40 hexadecimal digits.
    pub fn to_hex(&self) -> (text: String)
        ensures
            text@ == hex_text(self@),
    {
        git_oid_to_string(&self.raw)
    }
}

impl MapKey for Oid {
    fn same(&self, other: &Self) -> (res: bool) {
        let mut i: usize = 0;
        while i < 20
            invariant
                i <= 20,
                forall|j: int| 0 <= j < i ==> self.raw@[j] == other.raw@[j],
            decreases 20 - i,
        {
            if self.raw[i] != other.raw[i] {
                return false;
            }
            i = i + 1;
        }
        assert(self.raw@ =~= other.raw@);
        true
    }
}

impl PartialEq for Oid {
    fn eq(&self, other: &Self) -> (res: bool) {
        self.same(other)
    }
}

impl vstd::std_specs::cmp::PartialEqSpecImpl for Oid {
    open spec fn obeys_eq_spec() -> bool {
        true
    }

    open spec fn eq_spec(&self, other: &Self) -> bool {
        self@ == other@
    }
}

impl Eq for Oid {

}

/// Two ids that are written with the same digits are the same id.
pub proof fn law_hex_text_identifies(a: Seq<u8>, b: Seq<u8>)
    requires
        hex_text(a) == hex_text(b),
    ensures
        a == b,
{
    assert(hex_text(a).len() == 2 * a.len());
    assert(hex_text(b).len() == 2 * b.len());
    assert forall|i: int| 0 <= i < a.len() implies a[i] == b[i] by {
        assert((2 * i) / 2 == i && (2 * i) % 2 == 0);
        assert((2 * i + 1) / 2 == i && (2 * i + 1) % 2 == 1);
        assert(hex_text(a)[2 * i] == hex_digit(a[i] as int / 16));
        assert(hex_text(b)[2 * i] == hex_digit(b[i] as int / 16));
        assert(hex_text(a)[2 * i + 1] == hex_digit(a[i] as int % 16));
        assert(hex_text(b)[2 * i + 1] == hex_digit(b[i] as int % 16));
        lemma_hex_digit_identifies(a[i] as int / 16, b[i] as int / 16);
        lemma_hex_digit_identifies(a[i] as int % 16, b[i] as int % 16);
    }
    assert(a =~= b);
}

proof fn lemma_hex_digit_identifies(m: int, n: int)
    requires
        0 <= m < 16,
        0 <= n < 16,
        hex_digit(m) == hex_digit(n),
    ensures
        m == n,
{
    assert(hex_digit(m) as int == if m < 10 { 48 + m } else { 87 + m });
    assert(hex_digit(n) as int == if n < 10 { 48 + n } else { 87 + n });
}

/// Each byte is written as two of the sixteen digits, the one for the sixteens first.
pub proof fn law_hex_text_is_two_digits_a_byte(bytes: Seq<u8>, i: int)
    requires
        0 <= i < bytes.len(),
    ensures
        hex_text(bytes).len() == 2 * bytes.len(),
        hex_text(bytes)[2 * i] == "0123456789abcdef"@[bytes[i] as int / 16],
        hex_text(bytes)[2 * i + 1] == "0123456789abcdef"@[bytes[i] as int % 16],
{
    assert((2 * i) / 2 == i && (2 * i) % 2 == 0);
    assert((2 * i + 1) / 2 == i && (2 * i + 1) % 2 == 1);
    lemma_hex_digit_in_list(bytes[i] as int / 16);
    lemma_hex_digit_in_list(bytes[i] as int % 16);
}

proof fn lemma_hex_digit_in_list(n: int)
    requires
        0 <= n < 16,
    ensures
        hex_digit(n) == "0123456789abcdef"@[n],
{
    reveal_strlit("0123456789abcdef");
    assert(hex_digit(n) as int == if n < 10 { 48 + n } else { 87 + n });
    assert(n == 0 || n == 1 || n == 2 || n == 3 || n == 4 || n == 5 || n == 6 || n == 7 || n == 8
        || n == 9 || n == 10 || n == 11 || n == 12 || n == 13 || n == 14 || n == 15);
}

/// Ids are told apart by their bytes and by nothing else.
pub proof fn law_ids_are_their_bytes(a: Oid, b: Oid)
    ensures
        a@ == a.raw@,
        a@ == b@ <==> a.raw@ == b.raw@,
        a.eq_spec(&b) <==> a.raw@ == b.raw@,
{
}

} // verus!
