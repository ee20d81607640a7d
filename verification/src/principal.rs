//! Principals: the opaque identifiers of callers and canisters, at most 29
//! bytes each.

use candid::types::principal::PrincipalError;
use vstd::prelude::*;

verus! {

/// The longest principal, in bytes.
pub const MAX_PRINCIPAL_BYTES: usize = 29;

/// How many of the bytes the head word carries; the tail word has the rest.
const HEAD_BYTES: usize = 15;

/// The unit of the length in the head word: one more than the largest value
/// that `HEAD_BYTES` bytes can have.
const LEN_UNIT: u128 = 0x01_000000_000000_000000_000000_000000;

/// The value of a byte string read as a big-endian number.
spec fn be_value(s: Seq<u8>) -> nat
    decreases s.len(),
{
    if s.len() == 0 {
        0
    } else {
        be_value(s.drop_last()) * 256 + s.last() as nat
    }
}

/// A byte string, filled with zeros up to the longest principal.
spec fn padded(s: Seq<u8>) -> Seq<u8> {
    Seq::new(MAX_PRINCIPAL_BYTES as nat, |i: int| if i < s.len() { s[i] } else { 0u8 })
}

/// A power of 256.
spec fn pow256(n: nat) -> nat
    decreases n,
{
    if n == 0 {
        1
    } else {
        pow256((n - 1) as nat) * 256
    }
}

proof fn lemma_be_value_bound(s: Seq<u8>)
    ensures
        be_value(s) < pow256(s.len()),
    decreases s.len(),
{
    if s.len() > 0 {
        lemma_be_value_bound(s.drop_last());
    }
}

proof fn lemma_pow256_mono(m: nat, n: nat)
    requires
        m <= n,
    ensures
        pow256(m) <= pow256(n),
    decreases n,
{
    if m < n {
        lemma_pow256_mono(m, (n - 1) as nat);
    }
}

/// At most `HEAD_BYTES` bytes are worth less than one unit of length.
proof fn lemma_head_bound(s: Seq<u8>)
    requires
        s.len() <= HEAD_BYTES,
    ensures
        be_value(s) < LEN_UNIT,
{
    lemma_be_value_bound(s);
    lemma_pow256_mono(s.len(), HEAD_BYTES as nat);
    assert(pow256(15) == LEN_UNIT) by {
        reveal_with_fuel(pow256, 16);
    }
}

proof fn lemma_be_value_injective(a: Seq<u8>, b: Seq<u8>)
    requires
        a.len() == b.len(),
        be_value(a) == be_value(b),
    ensures
        a == b,
    decreases a.len(),
{
    if a.len() > 0 {
        lemma_be_value_injective(a.drop_last(), b.drop_last());
        assert(b =~= b.drop_last().push(b.last()));
    }
}

/// The error of candid's parser of principals.
#[verifier::external_type_specification]
#[verifier::external_body]
pub struct ExPrincipalError(PrincipalError);

/// The bytes of the principal that a text stands for in the textual format of
/// the Internet Computer, or nothing where the text is none of a principal.
pub uninterp spec fn text_to_bytes(text: Seq<char>) -> Option<Seq<u8>>;

/// Calls `candid::Principal::from_text`, and takes the bytes of the principal
/// with `as_slice`. Claimed: whether the text is accepted, and with which bytes,
/// depends on the text alone, and there are at most `MAX_PRINCIPAL_BYTES` bytes.
/// The format itself (base 32 in groups, behind a checksum) is not stated.
#[verifier::external_body]
fn parse_text(text: &str) -> (r: Result<Vec<u8>, PrincipalError>)
    ensures
        r matches Ok(bytes) ==> text_to_bytes(text@) == Some(bytes@) && bytes@.len()
            <= MAX_PRINCIPAL_BYTES,
        r is Err ==> text_to_bytes(text@) is None,
{
    match candid::Principal::from_text(text) {
        Ok(p) => Ok(p.as_slice().to_vec()),
        Err(e) => Err(e),
    }
}

/// The principal that a text stands for, if any.
pub open spec fn text_principal(text: Seq<char>) -> Option<Principal> {
    match text_to_bytes(text) {
        Some(bytes) => Some(Principal::of_bytes(bytes)),
        None => None,
    }
}

/// A principal. Two words hold its length and its bytes, most significant
/// first.
#[derive(Clone, Copy, Debug, PartialEq, Eq, Structural)]
pub struct Principal {
    pub(crate) head: u128,
    pub(crate) tail: u128,
}

impl View for Principal {
    type V = Seq<u8>;

    /// The bytes of the principal.
    closed spec fn view(&self) -> Seq<u8> {
        choose|s: Seq<u8>| s.len() <= MAX_PRINCIPAL_BYTES && Principal::of_bytes(s) == *self
    }
}

/// A principal is its bytes: two byte strings make the same principal only if
/// they are the same.
pub proof fn principal_is_its_bytes(a: Seq<u8>, b: Seq<u8>)
    requires
        a.len() <= MAX_PRINCIPAL_BYTES,
        b.len() <= MAX_PRINCIPAL_BYTES,
    ensures
        Principal::of_bytes(a)@ == a,
        Principal::of_bytes(a) == Principal::of_bytes(b) <==> a == b,
{
    lemma_of_bytes_injective(a, Principal::of_bytes(a)@);
    if Principal::of_bytes(a) == Principal::of_bytes(b) {
        lemma_of_bytes_injective(a, b);
    }
}

/// A text stands for a principal if and only if it is a text of some bytes, and
/// then for the principal with those bytes, however long the text is.
pub proof fn a_text_stands_for_its_bytes(text: Seq<char>, bytes: Seq<u8>)
    requires
        text_to_bytes(text) == Some(bytes) || text_to_bytes(text) is None,
    ensures
        text_principal(text) is Some <==> text_to_bytes(text) is Some,
        text_to_bytes(text) is Some ==> text_principal(text) == Some(Principal::of_bytes(bytes)),
        text_to_bytes(text) is Some && bytes.len() <= MAX_PRINCIPAL_BYTES ==> text_principal(
            text,
        )->Some_0@ == bytes,
{
    if bytes.len() <= MAX_PRINCIPAL_BYTES {
        principal_is_its_bytes(bytes, bytes);
    }
}

proof fn lemma_of_bytes_injective(a: Seq<u8>, b: Seq<u8>)
    requires
        a.len() <= MAX_PRINCIPAL_BYTES,
        b.len() <= MAX_PRINCIPAL_BYTES,
        Principal::of_bytes(a) == Principal::of_bytes(b),
    ensures
        a == b,
{
    let p = padded(a);
    let q = padded(b);
    lemma_head_bound(p.take(15));
    lemma_head_bound(q.take(15));
    lemma_head_bound(p.skip(15));
    lemma_head_bound(q.skip(15));
    lemma_be_value_injective(p.take(15), q.take(15));
    lemma_be_value_injective(p.skip(15), q.skip(15));
    assert(q =~= q.take(15) + q.skip(15));
    assert forall|i: int| 0 <= i < a.len() implies a[i] == b[i] by {
        assert(q[i] == b[i]);
    }
}

impl Principal {
    /// The principal that a byte string denotes.
    pub closed spec fn of_bytes(s: Seq<u8>) -> Principal {
        Principal {
            head: (s.len() * LEN_UNIT + be_value(padded(s).take(HEAD_BYTES as int))) as u128,
            tail: be_value(padded(s).skip(HEAD_BYTES as int)) as u128,
        }
    }

    /// A principal is made of some byte string.
    #[verifier::type_invariant]
    spec fn well_formed(self) -> bool {
        exists|s: Seq<u8>| s.len() <= MAX_PRINCIPAL_BYTES && Principal::of_bytes(s) == self
    }

    /// The principal with the given bytes, of which there are at most
    /// `MAX_PRINCIPAL_BYTES`.
    pub fn from_slice(bytes: &[u8]) -> (p: Principal)
        requires
            bytes@.len() <= MAX_PRINCIPAL_BYTES,
        ensures
            p == Principal::of_bytes(bytes@),
            p@ == bytes@,
    {
        let ghost full = padded(bytes@);
        let mut head: u128 = 0;
        let mut tail: u128 = 0;
        let mut i: usize = 0;
        while i < MAX_PRINCIPAL_BYTES
            invariant
                bytes@.len() <= MAX_PRINCIPAL_BYTES,
                full == padded(bytes@),
                i <= MAX_PRINCIPAL_BYTES,
                i <= HEAD_BYTES ==> head == be_value(full.take(i as int)) && tail == 0,
                i >= HEAD_BYTES ==> {
                    &&& head == be_value(full.take(HEAD_BYTES as int))
                    &&& tail == be_value(full.subrange(HEAD_BYTES as int, i as int))
                },
            decreases MAX_PRINCIPAL_BYTES - i,
        {
            let byte: u8 = if i < bytes.len() { bytes[i] } else { 0 };
            if i < HEAD_BYTES {
                proof {
                    lemma_head_bound(full.take(i as int));
                    assert(full.take(i + 1).drop_last() =~= full.take(i as int));
                }
                head = head * 256 + byte as u128;
            } else {
                proof {
                    lemma_head_bound(full.subrange(HEAD_BYTES as int, i as int));
                    assert(full.subrange(HEAD_BYTES as int, i + 1).drop_last() =~= full.subrange(
                        HEAD_BYTES as int,
                        i as int,
                    ));
                }
                tail = tail * 256 + byte as u128;
            }
            i = i + 1;
        }
        proof {
            lemma_head_bound(full.take(HEAD_BYTES as int));
            assert(full.subrange(HEAD_BYTES as int, MAX_PRINCIPAL_BYTES as int) =~= full.skip(
                HEAD_BYTES as int,
            ));
            principal_is_its_bytes(bytes@, bytes@);
        }
        Principal { head: bytes.len() as u128 * LEN_UNIT + head, tail }
    }

    /// The principal that `text` stands for, if any.
    pub fn from_text(text: &str) -> (p: Option<Principal>)
        ensures
            p == text_principal(text@),
            p matches Some(p) ==> text_to_bytes(text@) == Some(p@),
            p is None ==> text_to_bytes(text@) is None,
    {
        match parse_text(text) {
            Ok(bytes) => Some(Principal::from_slice(bytes.as_slice())),
            Err(_) => None,
        }
    }

    /// The anonymous principal, the single byte 4.
    pub fn anonymous() -> (p: Principal)
        ensures
            p == Principal::of_bytes(seq![4u8]),
            p@ == seq![4u8],
    {
        let bytes: [u8; 1] = [4];
        assert(bytes@ =~= seq![4u8]);
        Principal::from_slice(&bytes)
    }

    /// The bytes of the principal.
    pub fn to_bytes(&self) -> (bytes: Vec<u8>)
        ensures
            bytes@ == self@,
            bytes@.len() <= MAX_PRINCIPAL_BYTES,
            *self == Principal::of_bytes(bytes@),
    {
        proof {
            use_type_invariant(self);
        }
        let ghost s = self@;
        let ghost full = padded(s);
        proof {
            lemma_head_bound(full.take(HEAD_BYTES as int));
            lemma_head_bound(full.skip(HEAD_BYTES as int));
        }
        let len: usize = (self.head / LEN_UNIT) as usize;
        let mut head: u128 = self.head % LEN_UNIT;
        let mut tail: u128 = self.tail;
        let mut bytes: Vec<u8> = vec![0u8; MAX_PRINCIPAL_BYTES];
        let mut i: usize = MAX_PRINCIPAL_BYTES;
        assert(full.subrange(HEAD_BYTES as int, MAX_PRINCIPAL_BYTES as int) =~= full.skip(
            HEAD_BYTES as int,
        ));
        while i > 0
            invariant
                full.len() == MAX_PRINCIPAL_BYTES,
                bytes@.len() == MAX_PRINCIPAL_BYTES,
                i <= MAX_PRINCIPAL_BYTES,
                i <= HEAD_BYTES ==> head == be_value(full.take(i as int)),
                i >= HEAD_BYTES ==> {
                    &&& head == be_value(full.take(HEAD_BYTES as int))
                    &&& tail == be_value(full.subrange(HEAD_BYTES as int, i as int))
                },
                forall|j: int| i <= j < MAX_PRINCIPAL_BYTES ==> bytes@[j] == full[j],
            decreases i,
        {
            i = i - 1;
            if i < HEAD_BYTES {
                assert(full.take(i + 1).drop_last() =~= full.take(i as int));
                bytes.set(i, (head % 256) as u8);
                head = head / 256;
            } else {
                assert(full.subrange(HEAD_BYTES as int, i + 1).drop_last() =~= full.subrange(
                    HEAD_BYTES as int,
                    i as int,
                ));
                bytes.set(i, (tail % 256) as u8);
                tail = tail / 256;
            }
        }
        bytes.truncate(len);
        assert forall|j: int| 0 <= j < s.len() implies bytes@[j] == s[j] by {
            assert(full[j] == s[j]);
        }
        bytes
    }
}

} // verus!
