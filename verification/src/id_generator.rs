//! Entity id assignment: random authoritative ids on the server,
//! sequential `temp-` ids for entities created offline on the client.

use rand::Rng;
use vstd::prelude::*;

use crate::blob_id::{hex_digit, hex_of};
use crate::decimal::{
    dec_value, digit_val, is_dec_digit, lemma_dec_value_pad, lemma_dec_value_prefix_le,
    lemma_pad_dec_len, lemma_pow10_pos, pad_dec, pow10,
};

verus! {

/// Number of digits in the numeric part of a temporary id.
pub const TEMP_ID_DIGITS: usize = 20;

/// The temporary id with ordinal `n`: `temp-` followed by `n` as exactly
/// twenty zero-padded decimal digits.
pub open spec fn temp_id_seq(n: nat) -> Seq<char> {
    "temp-"@ + pad_dec(n, 20)
}

/// Whether an id string starts with the temporary-id prefix.
pub open spec fn is_local_id_seq(s: Seq<char>) -> bool {
    s.len() >= 5 && s.subrange(0, 5) == "temp-"@
}

/// The digit part of a temporary id.
pub open spec fn temp_suffix(s: Seq<char>) -> Seq<char> {
    s.subrange(5, s.len() as int)
}

/// A well-formed temporary id: the prefix followed by at least one digit.
pub open spec fn wf_temp_id(s: Seq<char>) -> bool {
    &&& is_local_id_seq(s)
    &&& temp_suffix(s).len() > 0
    &&& forall|i: int| 0 <= i < temp_suffix(s).len() ==> is_dec_digit(#[trigger] temp_suffix(s)[i])
}

/// The ordinal a well-formed temporary id denotes.
pub open spec fn temp_ordinal(s: Seq<char>) -> nat {
    dec_value(temp_suffix(s))
}

/// An id generator hands out entity ids; what a fresh id looks like and
/// what generating one does to the generator's state is fixed by each
/// implementation through these predicates.
pub trait IdGenerator: Sized {
    /// Whether the generator can hand out another id.
    spec fn ok(self) -> bool;

    /// Relates the generator's state before and after generating, and the
    /// id handed out.
    spec fn gen_post(pre: Self, post: Self, id: Seq<char>) -> bool;

    /// Relates the generator's state before and after a reset.
    spec fn reset_post(pre: Self, post: Self) -> bool;

    fn generate_id(&mut self) -> (r: String)
        requires
            old(self).ok(),
        ensures
            Self::gen_post(*old(self), *final(self), r@),
    ;

    fn reset_generator(&mut self)
        ensures
            Self::reset_post(*old(self), *final(self)),
    ;
}

/// Generates random 16-byte ids rendered as 32 lowercase hex characters;
/// used by the server for authoritative ids.
pub struct RandomHexIdGenerator;

impl RandomHexIdGenerator {
    pub fn new() -> RandomHexIdGenerator {
        RandomHexIdGenerator {  }
    }
}

/// Relies on `rand::thread_rng` and `Rng::sample_iter` with the `Standard`
/// distribution: sixteen bytes with no promise about their values.
#[verifier::external_body]
fn random_bytes16() -> (r: Vec<u8>)
    ensures
        r@.len() == 16,
{
    rand::thread_rng().sample_iter(&rand::distributions::Standard).take(16).collect()
}

/// No hex character opens the temporary-id prefix, so a hex id is never
/// taken for a temporary id.
pub proof fn lemma_hex_id_not_local(b: Seq<u8>)
    requires
        b.len() > 0,
    ensures
        !is_local_id_seq(hex_of(b)),
{
    crate::blob_id::lemma_hex_of_len(b);
    let h = hex_of(b);
    assert(h[0] == hex_digit(b[0] / 16));
    assert(hex_digit(b[0] / 16) != 't');
    if h.len() >= 5 && h.subrange(0, 5) == "temp-"@ {
        reveal_strlit("temp-");
        assert(h.subrange(0, 5)[0] == h[0]);
        assert(false);
    }
}

impl IdGenerator for RandomHexIdGenerator {
    open spec fn ok(self) -> bool {
        true
    }

    /// A fresh random id is 32 characters of lowercase hex and in
    /// particular never a temporary id; the generator keeps no state.
    open spec fn gen_post(pre: Self, post: Self, id: Seq<char>) -> bool {
        &&& id.len() == 32
        &&& !is_local_id_seq(id)
        &&& exists|b: Seq<u8>| b.len() == 16 && id == hex_of(b)
    }

    /// A reset leaves the stateless generator as it is.
    open spec fn reset_post(pre: Self, post: Self) -> bool {
        post == pre
    }

    fn generate_id(&mut self) -> (r: String) {
        let bytes = random_bytes16();
        let r = crate::blob_id::hex_encode(bytes.as_slice());
        proof {
            crate::blob_id::lemma_hex_of_len(bytes@);
            lemma_hex_id_not_local(bytes@);
        }
        r
    }

    fn reset_generator(&mut self) {
    }
}

/// Hands out `temp-` ids in ordinal order; used by the client for
/// entities created offline, until the server assigns authoritative ids.
pub struct LocalTempIdGenerator {
    pub next_id: usize,
}

impl LocalTempIdGenerator {
    pub fn new() -> (r: LocalTempIdGenerator)
        ensures
            r.next_id == 0,
    {
        LocalTempIdGenerator { next_id: 0 }
    }

    /// The temporary id with ordinal `n`.
    pub fn get_nth_id(n: usize) -> (r: String)
        ensures
            r@ == temp_id_seq(n as nat),
            wf_temp_id(r@),
            temp_ordinal(r@) == n as nat % pow10(20),
    {
        let mut digits: Vec<u8> = Vec::new();
        let mut m: usize = n;
        let mut i: usize = 0;
        while i < TEMP_ID_DIGITS
            invariant
                i <= 20,
                digits@.len() == i,
                m == n as nat / pow10(i as nat),
                forall|j: int|
                    0 <= j < i ==> digits@[j] as nat == (n as nat / pow10(j as nat)) % 10,
            decreases 20 - i,
        {
            let ghost old_m = m as nat;
            let d: u8 = (m % 10) as u8;
            digits.push(d);
            m = m / 10;
            proof {
                lemma_pow10_pos(i as nat);
                vstd::arithmetic::div_mod::lemma_div_denominator(
                    n as int,
                    pow10(i as nat) as int,
                    10,
                );
                assert(pow10((i + 1) as nat) == 10 * pow10(i as nat));
            }
            i = i + 1;
        }
        let mut s = new_temp_prefix();
        let mut k: usize = TEMP_ID_DIGITS;
        proof {
            assert(s@ + pad_dec(n as nat / pow10(20), 0) =~= s@);
        }
        while k > 0
            invariant
                k <= 20,
                digits@.len() == 20,
                forall|j: int|
                    0 <= j < 20 ==> digits@[j] as nat == (n as nat / pow10(j as nat)) % 10,
                s@ == "temp-"@ + pad_dec(n as nat / pow10(k as nat), (20 - k) as nat),
            decreases k,
        {
            k = k - 1;
            let ghost pre = s@;
            crate::decimal::append_digit(&mut s, digits[k]);
            proof {
                let v = n as nat / pow10(k as nat);
                lemma_pow10_pos(k as nat);
                vstd::arithmetic::div_mod::lemma_div_denominator(
                    n as int,
                    pow10(k as nat) as int,
                    10,
                );
                assert(pow10((k + 1) as nat) == 10 * pow10(k as nat));
                assert(v / 10 == n as nat / pow10((k + 1) as nat));
                assert(digits@[k as int] as nat == v % 10);
                assert(digits@[k as int] as nat % 10 == v % 10) by {
                    vstd::arithmetic::div_mod::lemma_mod_bound(v as int, 10);
                };
                assert(pad_dec(v, (20 - k) as nat) == pad_dec(
                    n as nat / pow10((k + 1) as nat),
                    (20 - k - 1) as nat,
                ).push(crate::decimal::dec_digit(v % 10)));
                assert(s@ =~= "temp-"@ + pad_dec(v, (20 - k) as nat));
            }
        }
        proof {
            assert(pow10(0) == 1);
            assert(n as nat / 1 == n as nat) by (nonlinear_arith);
            lemma_temp_id_wf(n as nat);
            lemma_dec_value_pad(n as nat, 20);
            assert(temp_suffix(temp_id_seq(n as nat)) =~= pad_dec(n as nat, 20));
        }
        s
    }

    /// The ordinal of a well-formed temporary id.
    pub fn get_n(id: &str) -> (r: usize)
        requires
            wf_temp_id(id@),
            temp_ordinal(id@) <= usize::MAX,
        ensures
            r as nat == temp_ordinal(id@),
    {
        let len = id.unicode_len();
        let mut i: usize = 5;
        let mut r: usize = 0;
        proof {
            assert(temp_suffix(id@).subrange(0, 0) =~= Seq::<char>::empty());
        }
        while i < len
            invariant
                5 <= i <= len,
                len == id@.len(),
                wf_temp_id(id@),
                temp_ordinal(id@) <= usize::MAX,
                r as nat == dec_value(temp_suffix(id@).subrange(0, i - 5)),
            decreases len - i,
        {
            let c = id.get_char(i);
            proof {
                assert(temp_suffix(id@)[i - 5] == id@[i as int]);
                lemma_dec_value_prefix_le(temp_suffix(id@), i - 4);
                let a = temp_suffix(id@).subrange(0, i - 5);
                let b = temp_suffix(id@).subrange(0, i - 4);
                assert(b.drop_last() =~= a);
                assert(b.last() == id@[i as int]);
            }
            let d = char_digit(c);
            r = r * 10 + (d as usize);
            i = i + 1;
        }
        proof {
            assert(temp_suffix(id@).subrange(0, id@.len() - 5) =~= temp_suffix(id@));
        }
        r
    }

    /// Whether an id is a client-local temporary id.
    pub fn is_local_id(id: &str) -> (r: bool)
        ensures
            r == is_local_id_seq(id@),
    {
        proof {
            reveal_strlit("temp-");
        }
        let len = id.unicode_len();
        if len < 5 {
            return false;
        }
        let r = id.get_char(0) == 't' && id.get_char(1) == 'e' && id.get_char(2) == 'm'
            && id.get_char(3) == 'p' && id.get_char(4) == '-';
        proof {
            if r {
                assert(id@.subrange(0, 5) =~= "temp-"@);
            } else {
                assert(id@.subrange(0, 5) != "temp-"@) by {
                    if id@.subrange(0, 5) == "temp-"@ {
                        assert(id@.subrange(0, 5)[0] == id@[0]);
                        assert(id@.subrange(0, 5)[1] == id@[1]);
                        assert(id@.subrange(0, 5)[2] == id@[2]);
                        assert(id@.subrange(0, 5)[3] == id@[3]);
                        assert(id@.subrange(0, 5)[4] == id@[4]);
                    }
                };
            }
        }
        r
    }
}

impl IdGenerator for LocalTempIdGenerator {
    open spec fn ok(self) -> bool {
        self.next_id < usize::MAX
    }

    /// A fresh local id is the temporary id with the next ordinal, and
    /// the ordinal advances by one.
    open spec fn gen_post(pre: Self, post: Self, id: Seq<char>) -> bool {
        &&& id == temp_id_seq(pre.next_id as nat)
        &&& post.next_id == pre.next_id + 1
    }

    /// A reset starts the ordinals over from zero, after a successful
    /// journal flush has retired all temporary ids.
    open spec fn reset_post(pre: Self, post: Self) -> bool {
        post.next_id == 0
    }

    fn generate_id(&mut self) -> (r: String) {
        let r = Self::get_nth_id(self.next_id);
        self.next_id = self.next_id + 1;
        r
    }

    fn reset_generator(&mut self) {
        self.next_id = 0;
    }
}

/// A temporary id is well-formed and denotes its ordinal (modulo the
/// twenty-digit width).
pub proof fn lemma_temp_id_wf(n: nat)
    ensures
        wf_temp_id(temp_id_seq(n)),
        temp_ordinal(temp_id_seq(n)) == n % pow10(20),
        n < pow10(20) ==> temp_ordinal(temp_id_seq(n)) == n,
{
    reveal_strlit("temp-");
    lemma_pad_dec_len(n, 20);
    let s = temp_id_seq(n);
    assert(s.subrange(0, 5) =~= "temp-"@);
    assert(temp_suffix(s) =~= pad_dec(n, 20));
    lemma_dec_value_pad(n, 20);
    if n < pow10(20) {
        vstd::arithmetic::div_mod::lemma_small_mod(n, pow10(20));
    }
}

/// Distinct ordinals below the width bound give distinct temporary ids.
pub proof fn lemma_temp_id_injective(n: nat, m: nat)
    requires
        n < pow10(20),
        m < pow10(20),
        temp_id_seq(n) == temp_id_seq(m),
    ensures
        n == m,
{
    lemma_temp_id_wf(n);
    lemma_temp_id_wf(m);
}

/// The character of a decimal digit, read back as its value.
fn char_digit(c: char) -> (r: u8)
    requires
        is_dec_digit(c),
    ensures
        r as nat == digit_val(c),
        r < 10,
{
    let v: u32 = c as u32;
    proof {
        assert('0' as u32 == 48);
        assert('9' as u32 == 57);
    }
    (v - 48) as u8
}

/// A fresh string holding the temporary-id prefix.
fn new_temp_prefix() -> (r: String)
    ensures
        r@ == "temp-"@,
{
    String::from_str("temp-")
}

} // verus!
