use vstd::prelude::*;
use vstd::string::StringExecFns;

verus! {

/// One limb is a base-2^64 digit, so this is the weight of each position.
pub open spec fn base() -> nat {
    0x10000000000000000
}

/// The numeric value denoted by a limb sequence, least significant limb
/// first: `sum of s[i] * base()^i`. The empty sequence denotes zero.
pub open spec fn limbs_value(s: Seq<u64>) -> nat
    decreases s.len(),
{
    if s.len() == 0 {
        0
    } else {
        s[0] as nat + base() * limbs_value(s.drop_first())
    }
}

/// Canonical form: no trailing zero limb. Either the sequence is empty
/// (the value zero) or its last limb is non-zero.
pub open spec fn is_canonical(s: Seq<u64>) -> bool {
    s.len() == 0 || s.last() != 0
}

/// Normalization at the specification level: remove trailing zero limbs
/// until the sequence is empty or ends in a non-zero limb.
pub open spec fn trim(s: Seq<u64>) -> Seq<u64>
    decreases s.len(),
{
    if s.len() == 0 {
        s
    } else if s.last() == 0 {
        trim(s.drop_last())
    } else {
        s
    }
}

/// Dropping a trailing zero limb never changes the denoted value.
pub proof fn lemma_drop_trailing_zero(s: Seq<u64>)
    requires
        s.len() > 0,
        s.last() == 0,
    ensures
        limbs_value(s.drop_last()) == limbs_value(s),
    decreases s.len(),
{
    if s.len() == 1 {
        assert(s.drop_last() =~= Seq::<u64>::empty());
        assert(s.drop_first() =~= Seq::<u64>::empty());
        assert(s[0] == 0);
        assert(limbs_value(s) == 0 + base() * limbs_value(Seq::<u64>::empty()));
    } else {
        let t = s.drop_first();
        assert(t.last() == 0);
        lemma_drop_trailing_zero(t);
        assert(s.drop_last().drop_first() =~= t.drop_last());
        assert(s.drop_last()[0] == s[0]);
        assert(limbs_value(s) == s[0] as nat + base() * limbs_value(t));
        assert(limbs_value(s.drop_last()) == s[0] as nat + base() * limbs_value(t.drop_last()));
    }
}

/// Normalization always reaches canonical form.
pub proof fn lemma_trim_canonical(s: Seq<u64>)
    ensures
        is_canonical(trim(s)),
    decreases s.len(),
{
    if s.len() > 0 && s.last() == 0 {
        lemma_trim_canonical(s.drop_last());
    }
}

/// Normalization preserves the denoted value: trailing zero limbs never
/// contribute to it.
pub proof fn lemma_trim_preserves_value(s: Seq<u64>)
    ensures
        limbs_value(trim(s)) == limbs_value(s),
    decreases s.len(),
{
    if s.len() > 0 && s.last() == 0 {
        lemma_drop_trailing_zero(s);
        lemma_trim_preserves_value(s.drop_last());
    }
}

/// Normalizing an already-canonical sequence leaves it unchanged.
pub proof fn lemma_trim_of_canonical(s: Seq<u64>)
    requires
        is_canonical(s),
    ensures
        trim(s) == s,
{
}

/// Normalization is idempotent: a second pass removes nothing.
pub proof fn lemma_trim_idempotent(s: Seq<u64>)
    ensures
        trim(trim(s)) == trim(s),
{
    lemma_trim_canonical(s);
    lemma_trim_of_canonical(trim(s));
}

/// A sequence made of zero limbs alone normalizes to the empty sequence,
/// the canonical representation of zero.
pub proof fn lemma_trim_all_zero(s: Seq<u64>)
    requires
        forall|i: int| 0 <= i < s.len() ==> s[i] == 0,
    ensures
        trim(s) == Seq::<u64>::empty(),
    decreases s.len(),
{
    if s.len() == 0 {
        assert(s =~= Seq::<u64>::empty());
    } else {
        lemma_trim_all_zero(s.drop_last());
    }
}

/// The decimal digit character for a single digit value.
pub open spec fn digit_char(d: nat) -> char {
    if d == 0 {
        '0'
    } else if d == 1 {
        '1'
    } else if d == 2 {
        '2'
    } else if d == 3 {
        '3'
    } else if d == 4 {
        '4'
    } else if d == 5 {
        '5'
    } else if d == 6 {
        '6'
    } else if d == 7 {
        '7'
    } else if d == 8 {
        '8'
    } else {
        '9'
    }
}

/// The decimal text of a natural number, most significant digit first,
/// with no leading zeros (a single `'0'` for zero).
pub open spec fn dec_chars(n: nat) -> Seq<char>
    decreases n,
{
    if n < 10 {
        seq![digit_char(n)]
    } else {
        dec_chars(n / 10) + seq![digit_char(n % 10)]
    }
}

/// The text rendering of a limb sequence: the decimal text of every limb,
/// concatenated in storage order (least significant limb first) with no
/// separators and no zero-padding.
pub open spec fn render(s: Seq<u64>) -> Seq<char>
    decreases s.len(),
{
    if s.len() == 0 {
        Seq::<char>::empty()
    } else {
        render(s.drop_last()) + dec_chars(s.last() as nat)
    }
}

/// An arbitrary-precision non-negative integer: an owned sequence of
/// base-2^64 limbs, least significant limb first, with no trailing zero
/// limb (canonical form).
pub struct BigInt {
    pub data: Vec<u64>,
}

impl View for BigInt {
    type V = Seq<u64>;

    open spec fn view(&self) -> Seq<u64> {
        self.data@
    }
}

impl BigInt {
    /// The representation invariant: the limb sequence is in canonical form.
    pub open spec fn well_formed(self) -> bool {
        is_canonical(self@)
    }

    /// Wraps a single native integer: the empty sequence for zero, a
    /// one-limb sequence otherwise. Always canonical, and the denoted
    /// value is exactly `x`.
    pub fn new(x: u64) -> (r: BigInt)
        ensures
            r@ == (if x == 0 { Seq::<u64>::empty() } else { seq![x] }),
            r.well_formed(),
            limbs_value(r@) == x as nat,
    {
        if x == 0 {
            let r = BigInt { data: Vec::new() };
            proof {
                assert(limbs_value(Seq::<u64>::empty()) == 0);
            }
            r
        } else {
            let mut data: Vec<u64> = Vec::new();
            data.push(x);
            proof {
                assert(data@ =~= seq![x]);
                assert(data@.drop_first() =~= Seq::<u64>::empty());
                assert(limbs_value(Seq::<u64>::empty()) == 0);
                assert(limbs_value(data@) == x as nat + base() * 0);
            }
            BigInt { data }
        }
    }

    /// Checks the representation invariant on the actual storage: true iff
    /// the limb sequence is empty or its last limb is non-zero. A
    /// consistency check for values built outside the two constructors.
    pub fn test_invariant(&self) -> (b: bool)
        ensures
            b == self.well_formed(),
    {
        if self.data.len() == 0 {
            true
        } else {
            self.data[self.data.len() - 1] != 0
        }
    }

    /// Turns an arbitrary limb sequence into a canonical value by removing
    /// trailing zero limbs, taking ownership of the vector. The result is
    /// exactly the normalized input and denotes the same integer.
    pub fn from_vec(v: Vec<u64>) -> (r: BigInt)
        ensures
            r@ == trim(v@),
            r.well_formed(),
            limbs_value(r@) == limbs_value(v@),
    {
        proof {
            lemma_trim_canonical(v@);
            lemma_trim_preserves_value(v@);
        }
        let mut w = v;
        if w.len() == 0 {
            return BigInt::new(0);
        }
        while w.len() > 0 && w[w.len() - 1] == 0
            invariant
                trim(w@) == trim(v@),
            decreases w.len(),
        {
            w.pop();
        }
        BigInt { data: w }
    }

    /// The smallest limb present, or `None` on the empty sequence (the
    /// value zero has no limbs to compare). A query on the representation,
    /// not on the decimal digits of the denoted number.
    pub fn min_limb(&self) -> (r: Option<u64>)
        ensures
            (r is None) <==> self@.len() == 0,
            (r matches Some(m) ==> (exists|i: int| 0 <= i < self@.len() && self@[i] == m)
                && (forall|i: int| 0 <= i < self@.len() ==> m <= #[trigger] self@[i])),
    {
        if self.data.len() == 0 {
            return None;
        }
        let mut min: u64 = self.data[0];
        let mut i: usize = 1;
        proof {
            assert(self@[0] == min);
        }
        while i < self.data.len()
            invariant
                1 <= i <= self@.len(),
                exists|j: int| 0 <= j < i && self@[j] == min,
                forall|j: int| 0 <= j < i ==> min <= #[trigger] self@[j],
            decreases self@.len() - i,
        {
            let e = self.data[i];
            if e < min {
                min = e;
            }
            i += 1;
        }
        Some(min)
    }

    /// The largest limb present, or `None` on the empty sequence;
    /// symmetric to `min_limb`.
    pub fn max_limb(&self) -> (r: Option<u64>)
        ensures
            (r is None) <==> self@.len() == 0,
            (r matches Some(m) ==> (exists|i: int| 0 <= i < self@.len() && self@[i] == m)
                && (forall|i: int| 0 <= i < self@.len() ==> m >= #[trigger] self@[i])),
    {
        if self.data.len() == 0 {
            return None;
        }
        let mut max: u64 = self.data[0];
        let mut i: usize = 1;
        proof {
            assert(self@[0] == max);
        }
        while i < self.data.len()
            invariant
                1 <= i <= self@.len(),
                exists|j: int| 0 <= j < i && self@[j] == max,
                forall|j: int| 0 <= j < i ==> max >= #[trigger] self@[j],
            decreases self@.len() - i,
        {
            let e = self.data[i];
            if e > max {
                max = e;
            }
            i += 1;
        }
        Some(max)
    }
}

/// The one-character string for a single decimal digit.
fn digit_str(d: u64) -> (r: &'static str)
    requires
        d < 10,
    ensures
        r@ == seq![digit_char(d as nat)],
{
    proof {
        reveal_strlit("0");
        reveal_strlit("1");
        reveal_strlit("2");
        reveal_strlit("3");
        reveal_strlit("4");
        reveal_strlit("5");
        reveal_strlit("6");
        reveal_strlit("7");
        reveal_strlit("8");
        reveal_strlit("9");
        assert("0"@ =~= seq![digit_char(0)]);
        assert("1"@ =~= seq![digit_char(1)]);
        assert("2"@ =~= seq![digit_char(2)]);
        assert("3"@ =~= seq![digit_char(3)]);
        assert("4"@ =~= seq![digit_char(4)]);
        assert("5"@ =~= seq![digit_char(5)]);
        assert("6"@ =~= seq![digit_char(6)]);
        assert("7"@ =~= seq![digit_char(7)]);
        assert("8"@ =~= seq![digit_char(8)]);
        assert("9"@ =~= seq![digit_char(9)]);
    }
    if d == 0 {
        "0"
    } else if d == 1 {
        "1"
    } else if d == 2 {
        "2"
    } else if d == 3 {
        "3"
    } else if d == 4 {
        "4"
    } else if d == 5 {
        "5"
    } else if d == 6 {
        "6"
    } else if d == 7 {
        "7"
    } else if d == 8 {
        "8"
    } else {
        "9"
    }
}

/// Appends the decimal text of `x` to `s`, most significant digit first.
fn push_decimal(s: &mut String, x: u64)
    ensures
        final(s)@ == old(s)@ + dec_chars(x as nat),
    decreases x,
{
    if x < 10 {
        s.append(digit_str(x));
    } else {
        push_decimal(s, x / 10);
        s.append(digit_str(x % 10));
        proof {
            assert(s@ =~= old(s)@ + dec_chars(x as nat));
        }
    }
}

impl BigInt {
    /// Renders the value as text: the decimal text of every limb,
    /// concatenated in storage order with no separators. Limbs are not
    /// zero-padded to a fixed width, so on values with more than one limb
    /// this is a diagnostic view of the representation, not the positional
    /// decimal expansion of the denoted number.
    pub fn to_text(&self) -> (s: String)
        ensures
            s@ == render(self@),
    {
        let mut s = String::new();
        proof {
            assert(self@.subrange(0, 0) =~= Seq::<u64>::empty());
        }
        let mut i: usize = 0;
        while i < self.data.len()
            invariant
                0 <= i <= self@.len(),
                s@ == render(self@.subrange(0, i as int)),
            decreases self@.len() - i,
        {
            push_decimal(&mut s, self.data[i]);
            proof {
                let pre = self@.subrange(0, i as int);
                let post = self@.subrange(0, i + 1);
                assert(post.drop_last() =~= pre);
                assert(post.last() == self@[i as int]);
            }
            i += 1;
        }
        proof {
            assert(self@.subrange(0, self@.len() as int) =~= self@);
        }
        s
    }
}

/// Deep copy: the result owns a fresh limb vector with the same contents,
/// sharing no storage with the source, so later changes to either value's
/// storage cannot be observed through the other.
impl Clone for BigInt {
    fn clone(&self) -> (r: Self)
        ensures
            r@ == self@,
    {
        let data = self.data.clone();
        proof {
            assert forall|i: int| 0 <= i < data@.len() implies data@[i] == self.data@[i] by {
                assert(cloned::<u64>(self.data@[i], data@[i]));
            }
            assert(data@ =~= self.data@);
        }
        BigInt { data }
    }
}

} // verus!
