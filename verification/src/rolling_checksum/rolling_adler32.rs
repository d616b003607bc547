//! A rolling Adler-32 checksum, verified against a direct mathematical
//! definition of the Adler-32 function.

use vstd::prelude::*;
use vstd::arithmetic::div_mod::{
    lemma_add_mod_noop, lemma_add_mod_noop_right, lemma_mod_add_multiples_vanish,
    lemma_mod_division_less_than_divisor, lemma_mul_mod_noop_left, lemma_small_mod,
    lemma_sub_mod_noop_right,
};
use vstd::arithmetic::mul::{lemma_mul_inequality, lemma_mul_upper_bound};

use crate::rolling_checksum::RollingChecksum;

verus! {

/// The Adler-32 modulus: the largest prime below 2^16.
pub const ADLER_MOD: u32 = 65521;

/// Sum of the bytes of `s`.
pub open spec fn sum_bytes(s: Seq<u8>) -> int
    decreases s.len(),
{
    if s.len() == 0 {
        0
    } else {
        sum_bytes(s.drop_last()) + s.last()
    }
}

/// The unreduced first Adler-32 component: one plus the byte sum.
pub open spec fn adler_sum_a(s: Seq<u8>) -> int {
    1 + sum_bytes(s)
}

/// The unreduced second Adler-32 component: the sum of `adler_sum_a` over
/// all prefixes of `s` of length one and up.
pub open spec fn adler_sum_b(s: Seq<u8>) -> int
    decreases s.len(),
{
    if s.len() == 0 {
        0
    } else {
        adler_sum_b(s.drop_last()) + adler_sum_a(s)
    }
}

/// The Adler-32 checksum of `s`: both components reduced modulo
/// [`ADLER_MOD`], the second in the upper 16 bits.
pub open spec fn adler32_spec(s: Seq<u8>) -> u32 {
    ((adler_sum_b(s) % (ADLER_MOD as int)) * 0x10000 + adler_sum_a(s) % (ADLER_MOD as int)) as u32
}

proof fn lemma_sums_nonneg(s: Seq<u8>)
    ensures
        sum_bytes(s) >= 0,
        adler_sum_b(s) >= 0,
    decreases s.len(),
{
    if s.len() > 0 {
        lemma_sums_nonneg(s.drop_last());
    }
}

proof fn lemma_adler_push(s: Seq<u8>, c: u8)
    ensures
        sum_bytes(s.push(c)) == sum_bytes(s) + c,
        adler_sum_b(s.push(c)) == adler_sum_b(s) + 1 + sum_bytes(s) + c,
{
    assert(s.push(c).drop_last() =~= s);
    assert(s.push(c).last() == c);
}

proof fn lemma_adler_pop(s: Seq<u8>)
    requires
        s.len() >= 1,
    ensures
        sum_bytes(s.subrange(1, s.len() as int)) == sum_bytes(s) - s[0],
        adler_sum_b(s.subrange(1, s.len() as int)) == adler_sum_b(s) - 1 - s.len() * s[0],
    decreases s.len(),
{
    let t = s.subrange(1, s.len() as int);
    if s.len() == 1 {
        assert(t =~= Seq::<u8>::empty());
        assert(s.drop_last() =~= Seq::<u8>::empty());
    } else {
        let d = s.drop_last();
        lemma_adler_pop(d);
        assert(t.drop_last() =~= d.subrange(1, d.len() as int));
        assert(t.last() == s.last());
        assert((s.len() - 1) * s[0] + s[0] == s.len() * s[0]) by (nonlinear_arith);
    }
}

/// The concrete rolling Adler-32 state: both components kept reduced, plus
/// the ghost contents of the current window.
pub struct RollingAdler32 {
    a: u32,
    b: u32,
    window: Ghost<Seq<u8>>,
}

impl RollingChecksum for RollingAdler32 {
    closed spec fn wf(&self) -> bool {
        &&& self.a == adler_sum_a(self.window@) % (ADLER_MOD as int)
        &&& self.b == adler_sum_b(self.window@) % (ADLER_MOD as int)
    }

    closed spec fn window(&self) -> Seq<u8> {
        self.window@
    }

    open spec fn checksum_spec(window: Seq<u8>) -> u32 {
        adler32_spec(window)
    }

    fn new(initial_window: &[u8]) -> (s: Self) {
        let mut state = RollingAdler32 { a: 1, b: 0, window: Ghost(Seq::empty()) };
        let ghost data = initial_window@;
        let mut i: usize = 0;
        proof {
            assert(data.subrange(0, 0) =~= Seq::<u8>::empty());
        }
        while i < initial_window.len()
            invariant
                i <= data.len(),
                data == initial_window@,
                state.window@ == data.subrange(0, i as int),
                state.wf(),
            decreases data.len() - i,
        {
            let c = initial_window[i];
            state.push_byte(c);
            proof {
                assert(data.subrange(0, i as int).push(c) =~= data.subrange(0, i + 1));
            }
            i = i + 1;
        }
        proof {
            assert(data.subrange(0, data.len() as int) =~= data);
        }
        state
    }

    fn checksum(&self) -> (c: u32) {
        proof {
            lemma_mod_division_less_than_divisor(adler_sum_b(self.window@), ADLER_MOD as int);
            lemma_mod_division_less_than_divisor(adler_sum_a(self.window@), ADLER_MOD as int);
            lemma_sums_nonneg(self.window@);
            lemma_mul_inequality(self.b as int, 65520, 0x10000);
        }
        self.b * 0x10000 + self.a
    }

    fn push_byte(&mut self, new_byte: u8) {
        proof {
            let w = self.window@;
            let m = ADLER_MOD as int;
            lemma_adler_push(w, new_byte);
            lemma_sums_nonneg(w);
            lemma_mod_division_less_than_divisor(adler_sum_a(w), m);
            lemma_mod_division_less_than_divisor(adler_sum_b(w), m);
            // (a % m + c) % m == (a + c) % m
            lemma_small_mod(new_byte as nat, ADLER_MOD as nat);
            lemma_add_mod_noop(adler_sum_a(w), new_byte as int, m);
            // (b % m + a' % m) % m == (b + a') % m
            lemma_add_mod_noop(adler_sum_b(w), adler_sum_a(w.push(new_byte)), m);
        }
        self.a = (self.a + new_byte as u32) % ADLER_MOD;
        self.b = (self.b + self.a) % ADLER_MOD;
        let ghost new_window = self.window@.push(new_byte);
        self.window = Ghost(new_window);
    }

    fn pop_byte(&mut self, old_byte: u8, bytes_ago: usize) {
        let ghost w = self.window@;
        let ghost m = ADLER_MOD as int;
        let ghost n = w.len() as int;
        proof {
            lemma_adler_pop(w);
            lemma_sums_nonneg(w);
            lemma_mod_division_less_than_divisor(adler_sum_a(w), m);
            lemma_mod_division_less_than_divisor(adler_sum_b(w), m);
        }
        // First component: drop the departing byte.
        proof {
            // (a % m + m - c) % m == (a - c) % m
            lemma_mod_add_multiples_vanish(self.a - old_byte, m);
            lemma_sub_mod_noop_right(adler_sum_a(w) % m, old_byte as int, m);
            lemma_add_mod_noop_right(-(old_byte as int), adler_sum_a(w), m);
        }
        self.a = (self.a + ADLER_MOD - old_byte as u32) % ADLER_MOD;
        // Second component: drop the position-weighted contribution.
        let nm: u64 = (bytes_ago as u64) % (ADLER_MOD as u64);
        proof {
            lemma_mod_division_less_than_divisor(bytes_ago as int, m);
            lemma_mul_upper_bound(nm as int, 65520, old_byte as int, 255);
        }
        let t: u64 = (nm * (old_byte as u64)) % (ADLER_MOD as u64);
        proof {
            lemma_mul_mod_noop_left(bytes_ago as int, old_byte as int, m);
            lemma_mod_division_less_than_divisor(n * old_byte, m);
            let x = self.b - 1 - t;
            // (x + 2m) % m == x % m
            lemma_mod_add_multiples_vanish(x + m, m);
            lemma_mod_add_multiples_vanish(x, m);
            // (b % m - 1 - (n * c) % m) % m == (b - 1 - n * c) % m
            lemma_sub_mod_noop_right(adler_sum_b(w) % m - 1, n * old_byte, m);
            lemma_add_mod_noop_right(-1 - n * (old_byte as int), adler_sum_b(w), m);
        }
        let bnew: u64 = ((self.b as u64) + 2 * (ADLER_MOD as u64) - 1 - t) % (ADLER_MOD as u64);
        self.b = bnew as u32;
        let ghost new_window = w.subrange(1, w.len() as int);
        self.window = Ghost(new_window);
    }
}

} // verus!
