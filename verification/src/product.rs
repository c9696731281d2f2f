//! Lazy cartesian-product enumeration: every ordered tuple of a fixed length
//! drawn (with repetition) from an ordered alphabet, in lexicographic order
//! over the alphabet's index positions, the rightmost position varying
//! fastest.  A tuple's rank is its value read as a base-K numeral, so the
//! enumeration is modelled by the bijection between ranks below K^L and
//! valid digit tuples.

use vstd::assert_by_contradiction;
use vstd::prelude::*;
use vstd::arithmetic::div_mod::lemma_fundamental_div_mod;
use vstd::arithmetic::div_mod::lemma_fundamental_div_mod_converse;
use vstd::arithmetic::div_mod::lemma_multiply_divide_lt;

verus! {

/// Number of tuples of length `len` over an alphabet of size `k`: K^L.
pub open spec fn tuple_count(k: nat, len: nat) -> nat
    decreases len,
{
    if len == 0 {
        1
    } else {
        k * tuple_count(k, (len - 1) as nat)
    }
}

/// The tuple of alphabet indices at rank `i`: the base-`k` digits of `i`,
/// most significant first, padded to `len` digits.  For an empty alphabet
/// no rank lies below the tuple count, so that arm is a placeholder of
/// zeros that no enumeration ever reaches.
pub open spec fn tuple_at(k: nat, len: nat, i: nat) -> Seq<nat>
    decreases len,
{
    if len == 0 {
        Seq::empty()
    } else if k == 0 {
        Seq::new(len, |p: int| 0)
    } else {
        tuple_at(k, (len - 1) as nat, i / k).push(i % k)
    }
}

/// Every digit is an index into an alphabet of size `k`.
pub open spec fn valid_digits(k: nat, s: Seq<nat>) -> bool {
    forall|p: int| 0 <= p < s.len() ==> s[p] < k
}

/// The rank of a digit tuple: its value read as a base-`k` numeral.
pub open spec fn rank_of(k: nat, s: Seq<nat>) -> nat
    decreases s.len(),
{
    if s.len() == 0 {
        0
    } else {
        rank_of(k, s.drop_last()) * k + s.last()
    }
}

/// A `Vec<usize>` of digits, seen as a mathematical digit tuple.
pub open spec fn digit_view(ds: Seq<usize>) -> Seq<nat> {
    ds.map_values(|d: usize| d as nat)
}

/// The candidate word at rank `i`: the rank's digit tuple, each digit
/// replaced by the alphabet character it indexes.
pub open spec fn word_at(alphabet: Seq<char>, len: nat, i: nat) -> Seq<char> {
    tuple_at(alphabet.len(), len, i).map_values(|d: nat| alphabet[d as int])
}

/// Every character of `s` occurs in `alphabet`.
pub open spec fn from_alphabet(s: Seq<char>, alphabet: Seq<char>) -> bool {
    forall|p: int| 0 <= p < s.len() ==> alphabet.contains(s[p])
}

/// A positive alphabet size gives a positive tuple count.
pub proof fn lemma_tuple_count_pos(k: nat, len: nat)
    requires
        k > 0,
    ensures
        tuple_count(k, len) > 0,
    decreases len,
{
    if len > 0 {
        lemma_tuple_count_pos(k, (len - 1) as nat);
        let c = tuple_count(k, (len - 1) as nat);
        assert(k * c > 0) by (nonlinear_arith)
            requires
                k > 0,
                c > 0,
        ;
    }
}

/// A tuple of `len` digits always has length `len`.
pub proof fn lemma_tuple_at_len(k: nat, len: nat, i: nat)
    ensures
        tuple_at(k, len, i).len() == len,
    decreases len,
{
    if len > 0 && k > 0 {
        lemma_tuple_at_len(k, (len - 1) as nat, i / k);
        assert(tuple_at(k, len, i) == tuple_at(k, (len - 1) as nat, i / k).push(i % k));
    }
}

/// The rank of a valid digit tuple lies below the tuple count.
pub proof fn lemma_rank_bound(k: nat, s: Seq<nat>)
    requires
        valid_digits(k, s),
    ensures
        rank_of(k, s) < tuple_count(k, s.len()),
    decreases s.len(),
{
    if s.len() == 0 {
    } else {
        let p = s.drop_last();
        assert(valid_digits(k, p));
        lemma_rank_bound(k, p);
        let c = tuple_count(k, (s.len() - 1) as nat);
        assert(s.last() < k);
        assert(rank_of(k, p) * k + s.last() < k * c) by (nonlinear_arith)
            requires
                rank_of(k, p) < c,
                s.last() < k,
        ;
    }
}

/// Ranks below the tuple count decode to valid digit tuples, and decoding
/// then re-encoding gives the rank back.
pub proof fn lemma_rank_tuple_at(k: nat, len: nat, i: nat)
    requires
        i < tuple_count(k, len),
    ensures
        valid_digits(k, tuple_at(k, len, i)),
        tuple_at(k, len, i).len() == len,
        rank_of(k, tuple_at(k, len, i)) == i,
    decreases len,
{
    lemma_tuple_at_len(k, len, i);
    if len == 0 {
        assert(i == 0);
    } else {
        let c = tuple_count(k, (len - 1) as nat);
        assert(tuple_count(k, len) == k * c);
        assert(k > 0) by {
            if k == 0 {
                assert(k * c == 0) by (nonlinear_arith)
                    requires
                        k == 0,
                ;
            }
        }
        lemma_multiply_divide_lt(i as int, k as int, c as int);
        lemma_rank_tuple_at(k, (len - 1) as nat, i / k);
        let prefix = tuple_at(k, (len - 1) as nat, i / k);
        let s = tuple_at(k, len, i);
        assert(s == prefix.push(i % k));
        assert(s.drop_last() =~= prefix);
        assert(s.last() == i % k);
        lemma_fundamental_div_mod(i as int, k as int);
        assert(rank_of(k, s) == (i / k) * k + i % k);
        assert((i / k) * k == k * (i / k)) by (nonlinear_arith);
    }
}

/// Encoding a valid digit tuple and decoding its rank gives the tuple back.
pub proof fn lemma_tuple_at_rank(k: nat, s: Seq<nat>)
    requires
        valid_digits(k, s),
    ensures
        tuple_at(k, s.len(), rank_of(k, s)) == s,
    decreases s.len(),
{
    if s.len() == 0 {
        assert(tuple_at(k, 0, rank_of(k, s)) =~= s);
    } else {
        let p = s.drop_last();
        assert(valid_digits(k, p));
        lemma_tuple_at_rank(k, p);
        let r = rank_of(k, s);
        assert(r == rank_of(k, p) * k + s.last());
        assert(0 <= s.last() < k);
        lemma_fundamental_div_mod_converse(r as int, k as int, rank_of(k, p) as int, s.last() as int);
        assert(r / k == rank_of(k, p));
        assert(r % k == s.last());
        assert(tuple_at(k, s.len(), r) == tuple_at(k, (s.len() - 1) as nat, rank_of(k, p)).push(s.last()));
        assert(tuple_at(k, s.len(), r) =~= s);
    }
}

/// Distinct ranks below the tuple count decode to distinct tuples: the
/// enumeration never repeats a tuple.
pub proof fn lemma_tuples_distinct(k: nat, len: nat, i: nat, j: nat)
    requires
        i < tuple_count(k, len),
        j < tuple_count(k, len),
        i != j,
    ensures
        tuple_at(k, len, i) != tuple_at(k, len, j),
{
    lemma_rank_tuple_at(k, len, i);
    lemma_rank_tuple_at(k, len, j);
}

/// Over an alphabet of pairwise-distinct characters, distinct ranks below
/// the tuple count produce distinct words: the enumeration of one length
/// yields `tuple_count` words without a duplicate.
pub proof fn lemma_words_distinct(alphabet: Seq<char>, len: nat, i: nat, j: nat)
    requires
        forall|p: int, q: int| 0 <= p < q < alphabet.len() ==> alphabet[p] != alphabet[q],
        i < tuple_count(alphabet.len(), len),
        j < tuple_count(alphabet.len(), len),
        i != j,
    ensures
        word_at(alphabet, len, i) != word_at(alphabet, len, j),
{
    let k = alphabet.len();
    lemma_rank_tuple_at(k, len, i);
    lemma_rank_tuple_at(k, len, j);
    let t1 = tuple_at(k, len, i);
    let t2 = tuple_at(k, len, j);
    assert_by_contradiction!(word_at(alphabet, len, i) != word_at(alphabet, len, j), {
        assert forall|p: int| 0 <= p < len implies t1[p] == t2[p] by {
            assert(word_at(alphabet, len, i)[p] == alphabet[t1[p] as int]);
            assert(word_at(alphabet, len, j)[p] == alphabet[t2[p] as int]);
            if t1[p] < t2[p] {
                assert(alphabet[t1[p] as int] != alphabet[t2[p] as int]);
            }
            if t2[p] < t1[p] {
                assert(alphabet[t2[p] as int] != alphabet[t1[p] as int]);
            }
        }
        assert(t1 =~= t2);
    });
}

/// For length zero there is exactly one tuple, the empty word.
pub proof fn lemma_empty_length(alphabet: Seq<char>)
    ensures
        tuple_count(alphabet.len(), 0) == 1,
        word_at(alphabet, 0, 0) == Seq::<char>::empty(),
{
    assert(word_at(alphabet, 0, 0) =~= Seq::<char>::empty());
}

/// An empty alphabet admits no tuples of positive length.
pub proof fn lemma_empty_alphabet(len: nat)
    requires
        len > 0,
    ensures
        tuple_count(0, len) == 0,
{
}

/// A tuple of zeros has rank zero.
proof fn lemma_rank_zeros(k: nat, s: Seq<nat>)
    requires
        forall|p: int| 0 <= p < s.len() ==> s[p] == 0,
    ensures
        rank_of(k, s) == 0,
    decreases s.len(),
{
    if s.len() > 0 {
        let p = s.drop_last();
        assert(forall|q: int| 0 <= q < p.len() ==> p[q] == 0);
        lemma_rank_zeros(k, p);
        assert(s.last() == s[s.len() - 1]);
        assert(rank_of(k, s) == rank_of(k, p) * k + s.last());
    }
}

/// Incrementing a digit at position `j` and zeroing the maximal digits to
/// its right raises the rank by exactly one: the odometer step.
proof fn lemma_rank_increment(k: nat, s1: Seq<nat>, s2: Seq<nat>, j: int)
    requires
        valid_digits(k, s1),
        s2.len() == s1.len(),
        0 <= j < s1.len(),
        s1[j] + 1 < k,
        s2[j] == s1[j] + 1,
        forall|p: int| 0 <= p < j ==> s2[p] == s1[p],
        forall|p: int| j < p < s1.len() ==> s1[p] == (k - 1) as nat && s2[p] == 0,
    ensures
        valid_digits(k, s2),
        rank_of(k, s2) == rank_of(k, s1) + 1,
    decreases s1.len(),
{
    if j == s1.len() - 1 {
        assert(s2.drop_last() =~= s1.drop_last());
        assert(s2.last() == s1.last() + 1);
    } else {
        let p1 = s1.drop_last();
        let p2 = s2.drop_last();
        lemma_rank_increment(k, p1, p2, j);
        assert(s1.last() == (k - 1) as nat);
        assert(s2.last() == 0);
        let a = rank_of(k, p1);
        assert(rank_of(k, p2) == a + 1);
        assert((a + 1) * k == a * k + k) by (nonlinear_arith);
        assert(rank_of(k, s2) == a * k + k);
        assert(rank_of(k, s1) == a * k + (k - 1));
    }
}

/// A tuple of maximal digits has the last rank: the enumeration ends there.
proof fn lemma_rank_all_max(k: nat, s: Seq<nat>)
    requires
        k > 0,
        forall|p: int| 0 <= p < s.len() ==> s[p] == (k - 1) as nat,
    ensures
        rank_of(k, s) + 1 == tuple_count(k, s.len()),
    decreases s.len(),
{
    if s.len() > 0 {
        let p = s.drop_last();
        lemma_rank_all_max(k, p);
        let c = tuple_count(k, (s.len() - 1) as nat);
        assert(rank_of(k, p) == c - 1);
        assert((c - 1) * k + (k - 1) + 1 == k * c) by (nonlinear_arith)
            requires
                c >= 1,
                k >= 1,
        ;
    }
}

/// Words at ranks below the tuple count have the requested length and draw
/// every character from the alphabet.
pub proof fn lemma_word_at_props(alphabet: Seq<char>, len: nat, i: nat)
    requires
        i < tuple_count(alphabet.len(), len),
    ensures
        word_at(alphabet, len, i).len() == len,
        from_alphabet(word_at(alphabet, len, i), alphabet),
{
    let k = alphabet.len();
    lemma_rank_tuple_at(k, len, i);
    let t = tuple_at(k, len, i);
    let w = word_at(alphabet, len, i);
    assert forall|p: int| 0 <= p < w.len() implies alphabet.contains(w[p]) by {
        assert(t[p] < k);
        assert(w[p] == alphabet[t[p] as int]);
    }
}

/// Every word drawn from the alphabet is reached by the enumeration of its
/// length: some rank below the tuple count produces exactly that word.
pub proof fn lemma_word_reachable(alphabet: Seq<char>, s: Seq<char>)
    requires
        from_alphabet(s, alphabet),
    ensures
        exists|i: nat|
            i < tuple_count(alphabet.len(), s.len()) && word_at(alphabet, s.len(), i) == s,
{
    let k = alphabet.len();
    let digits: Seq<nat> = Seq::new(
        s.len(),
        |p: int| (choose|d: int| 0 <= d < alphabet.len() && alphabet[d] == s[p]) as nat,
    );
    assert forall|p: int| 0 <= p < digits.len() implies digits[p] < k by {
        assert(alphabet.contains(s[p]));
        let d = choose|d: int| 0 <= d < alphabet.len() && alphabet[d] == s[p];
        assert(0 <= d < alphabet.len());
    }
    lemma_rank_bound(k, digits);
    lemma_tuple_at_rank(k, digits);
    let i = rank_of(k, digits);
    assert(tuple_at(k, s.len(), i) == digits);
    assert forall|p: int| 0 <= p < s.len() implies word_at(alphabet, s.len(), i)[p] == s[p] by {
        let d = choose|d: int| 0 <= d < alphabet.len() && alphabet[d] == s[p];
        assert(digits[p] == d as nat);
        assert(alphabet[d] == s[p]);
    }
    lemma_tuple_at_len(k, s.len(), i);
    assert(word_at(alphabet, s.len(), i) =~= s);
}

/// Enumeration is deterministic and repeatable: the word produced at a
/// position depends on the alphabet, the length and the position alone
/// (`next` pins its output to `word_at`), so two generators over the same
/// alphabet and length produce identical words at identical positions.
pub proof fn lemma_enumeration_deterministic(g1: ProductGen, g2: ProductGen)
    requires
        g1.spec_alphabet() == g2.spec_alphabet(),
        g1.spec_len() == g2.spec_len(),
        g1.spec_pos() == g2.spec_pos(),
    ensures
        word_at(g1.spec_alphabet(), g1.spec_len(), g1.spec_pos()) == word_at(
            g2.spec_alphabet(),
            g2.spec_len(),
            g2.spec_pos(),
        ),
{
}

/// Lazy generator of all words of one length over an alphabet, in rank
/// order, with O(L) working state: an odometer over alphabet indices.
pub struct ProductGen {
    alphabet: Vec<char>,
    length: usize,
    digits: Vec<usize>,
    done: bool,
    pos: Ghost<nat>,
}

impl ProductGen {
    /// The alphabet the generator draws from.
    pub closed spec fn spec_alphabet(self) -> Seq<char> {
        self.alphabet@
    }

    /// The length of every generated word.
    pub closed spec fn spec_len(self) -> nat {
        self.length as nat
    }

    /// The rank of the next word to be produced.
    pub closed spec fn spec_pos(self) -> nat {
        self.pos@
    }

    /// The generator's invariant: its cursor is a valid digit tuple whose
    /// rank is the position, or the enumeration is complete.
    pub closed spec fn wf(self) -> bool {
        let k = self.alphabet@.len();
        let total = tuple_count(k, self.length as nat);
        &&& self.pos@ <= total
        &&& (self.done <==> self.pos@ == total)
        &&& (!self.done ==> {
            &&& self.digits@.len() == self.length
            &&& valid_digits(k, digit_view(self.digits@))
            &&& rank_of(k, digit_view(self.digits@)) == self.pos@
        })
    }

    /// Start a fresh enumeration at rank zero.
    #[verifier::loop_isolation(false)]
    pub fn new(alphabet: Vec<char>, length: usize) -> (r: ProductGen)
        ensures
            r.wf(),
            r.spec_alphabet() == alphabet@,
            r.spec_len() == length as nat,
            r.spec_pos() == 0,
    {
        let k = alphabet.len();
        if k == 0 && length > 0 {
            proof {
                lemma_empty_alphabet(length as nat);
            }
            ProductGen { alphabet, length, digits: Vec::new(), done: true, pos: Ghost(0 as nat) }
        } else {
            let mut digits: Vec<usize> = Vec::new();
            let mut j: usize = 0;
            while j < length
                invariant
                    j <= length,
                    digits@.len() == j,
                    forall|p: int| 0 <= p < j ==> digits@[p] == 0,
                decreases length - j,
            {
                digits.push(0);
                j = j + 1;
            }
            proof {
                lemma_rank_zeros(k as nat, digit_view(digits@));
                if k > 0 {
                    lemma_tuple_count_pos(k as nat, length as nat);
                }
            }
            ProductGen { alphabet, length, digits, done: false, pos: Ghost(0 as nat) }
        }
    }

    /// Advance the odometer by one rank, marking the enumeration complete
    /// when the last tuple has been passed.
    #[verifier::loop_isolation(false)]
    fn advance(&mut self)
        requires
            old(self).wf(),
            !old(self).done,
        ensures
            final(self).wf(),
            final(self).spec_alphabet() == old(self).spec_alphabet(),
            final(self).spec_len() == old(self).spec_len(),
            final(self).spec_pos() == old(self).spec_pos() + 1,
    {
        let ghost s_old = digit_view(self.digits@);
        let k = self.alphabet.len();
        let mut j: usize = self.length;
        while j > 0
            invariant
                self.alphabet == old(self).alphabet,
                self.length == old(self).length,
                self.done == old(self).done,
                self.pos == old(self).pos,
                j <= self.length,
                self.digits@.len() == self.length,
                forall|p: int| j <= p < self.length ==> s_old[p] == (k - 1) as nat
                    && self.digits@[p] == 0,
                forall|p: int| 0 <= p < j ==> self.digits@[p] as nat == s_old[p],
            decreases j,
        {
            let d = self.digits[j - 1];
            assert(d as nat == s_old[j - 1]);
            assert(d < k);
            if d + 1 < k {
                self.digits.set(j - 1, d + 1);
                proof {
                    let s_new = digit_view(self.digits@);
                    assert(s_new[j - 1] == s_old[j - 1] + 1);
                    lemma_rank_increment(k as nat, s_old, s_new, j - 1);
                    lemma_rank_bound(k as nat, s_new);
                }
                self.pos = Ghost(self.pos@ + 1);
                return;
            }
            self.digits.set(j - 1, 0);
            j = j - 1;
        }
        proof {
            if s_old.len() == 0 {
                assert(rank_of(k as nat, s_old) == 0);
            } else {
                assert(s_old[0] < k);
                lemma_rank_all_max(k as nat, s_old);
            }
        }
        self.done = true;
        self.pos = Ghost(self.pos@ + 1);
    }

    /// Produce the word at the current rank and step past it, or report
    /// that all `tuple_count` words have been produced.
    #[verifier::loop_isolation(false)]
    pub fn next(&mut self) -> (r: Option<Vec<char>>)
        requires
            old(self).wf(),
        ensures
            final(self).wf(),
            final(self).spec_alphabet() == old(self).spec_alphabet(),
            final(self).spec_len() == old(self).spec_len(),
            old(self).spec_pos() < tuple_count(old(self).spec_alphabet().len(), old(self).spec_len())
                ==> {
                &&& final(self).spec_pos() == old(self).spec_pos() + 1
                &&& r matches Some(w) && w@ == word_at(
                    old(self).spec_alphabet(),
                    old(self).spec_len(),
                    old(self).spec_pos(),
                )
            },
            old(self).spec_pos() == tuple_count(old(self).spec_alphabet().len(), old(self).spec_len())
                ==> r is None && final(self).spec_pos() == old(self).spec_pos(),
    {
        if self.done {
            return None;
        }
        proof {
            lemma_tuple_at_rank(self.alphabet@.len(), digit_view(self.digits@));
        }
        let ghost w_spec = word_at(self.alphabet@, self.length as nat, self.pos@);
        assert(tuple_at(self.alphabet@.len(), self.length as nat, self.pos@) == digit_view(
            self.digits@,
        ));
        let mut word: Vec<char> = Vec::new();
        let mut j: usize = 0;
        while j < self.length
            invariant
                j <= self.length,
                word@.len() == j,
                forall|p: int| 0 <= p < j ==> word@[p] == w_spec[p],
            decreases self.length - j,
        {
            let d = self.digits[j];
            assert(digit_view(self.digits@)[j as int] == d as nat);
            assert((d as nat) < self.alphabet@.len());
            let c = self.alphabet[d];
            assert(c == w_spec[j as int]);
            word.push(c);
            j = j + 1;
        }
        proof {
            lemma_tuple_at_len(self.alphabet@.len(), self.length as nat, self.pos@);
        }
        assert(word@ =~= w_spec);
        self.advance();
        Some(word)
    }
}

/// Enumerator over all tuples of length `repeat` drawn from `alphabet`,
/// equivalent to the cartesian product of the alphabet repeated that many
/// times.
pub fn product_repeat(alphabet: Vec<char>, repeat: usize) -> (r: ProductGen)
    ensures
        r.wf(),
        r.spec_alphabet() == alphabet@,
        r.spec_len() == repeat as nat,
        r.spec_pos() == 0,
{
    ProductGen::new(alphabet, repeat)
}

} // verus!
