//! Search engine: per-length exhaustive enumeration with evaluation of each
//! candidate against the target digest, a scheduler over the configured
//! length range, and the write-once coordination state that concurrent
//! drivers share for early termination.

use vstd::assert_by_contradiction;
use vstd::prelude::*;
use vstd::string::StringExecFns;

use crate::digest::Algorithm;
use crate::digest::compute;
use crate::digest::digest_of;
use crate::product::ProductGen;
use crate::product::from_alphabet;
use crate::product::lemma_word_at_props;
use crate::product::lemma_word_reachable;
use crate::product::tuple_count;
use crate::product::word_at;

verus! {

/// A configuration fault detected before any search work begins.
#[derive(Clone, Copy, PartialEq, Eq, Structural, Debug)]
pub enum ConfigError {
    /// The minimum candidate length exceeds the maximum.
    EmptyRange,
}

/// The terminal outcome of a whole search.
///
/// When several distinct candidates in the range hash to the target, which
/// one is reported depends on the driver: this engine's sequential search
/// reports the first in enumeration order of the lowest matching length,
/// while a concurrent driver may observe any one of them first.
#[derive(Clone, PartialEq, Eq, Debug)]
pub enum SearchOutcome {
    /// The discovered plaintext, exactly as generated.
    Found(String),
    /// The whole range was enumerated and no candidate matched.
    NotFound,
}

/// Immutable search parameters, fixed before the search starts.
#[derive(Clone, Debug)]
pub struct SearchConfig {
    /// The digest algorithm the target was produced with.
    pub algorithm: Algorithm,
    /// The target digest, as raw bytes.
    pub target: Vec<u8>,
    /// The ordered character set candidates are drawn from.
    pub alphabet: Vec<char>,
    /// Smallest candidate length to try.
    pub min_len: usize,
    /// Largest candidate length to try.
    pub max_len: usize,
}

/// The candidate draws every character from the alphabet and has a length
/// in the configured range.
pub open spec fn candidate_in_range(
    s: Seq<char>,
    alphabet: Seq<char>,
    min: nat,
    max: nat,
) -> bool {
    &&& min <= s.len() <= max
    &&& from_alphabet(s, alphabet)
}

/// Every candidate of length `len` over the alphabet hashes to something
/// other than the target.
pub open spec fn length_exhausted(
    algo: Algorithm,
    target: Seq<u8>,
    alphabet: Seq<char>,
    len: nat,
) -> bool {
    forall|s: Seq<char>|
        s.len() == len && from_alphabet(s, alphabet) ==> digest_of(algo, s) != target
}

/// No candidate in the configured range hashes to the target.
pub open spec fn no_match_in_range(
    algo: Algorithm,
    target: Seq<u8>,
    alphabet: Seq<char>,
    min: nat,
    max: nat,
) -> bool {
    forall|s: Seq<char>|
        candidate_in_range(s, alphabet, min, max) ==> digest_of(algo, s) != target
}

/// What a returned outcome asserts about the configuration it came from.
pub open spec fn outcome_matches(config: SearchConfig, out: SearchOutcome) -> bool {
    match out {
        SearchOutcome::Found(p) => candidate_in_range(
            p@,
            config.alphabet@,
            config.min_len as nat,
            config.max_len as nat,
        ) && digest_of(config.algorithm, p@) == config.target@,
        SearchOutcome::NotFound => no_match_in_range(
            config.algorithm,
            config.target@,
            config.alphabet@,
            config.min_len as nat,
            config.max_len as nat,
        ),
    }
}

/// If some candidate in the configured range hashes to the target, an
/// exhaustive enumeration cannot miss it: the "no match anywhere in the
/// range" outcome is impossible, so a search meeting `outcome_matches`
/// must report `Found`.
pub proof fn lemma_match_precludes_not_found(
    algo: Algorithm,
    target: Seq<u8>,
    alphabet: Seq<char>,
    min: nat,
    max: nat,
    p: Seq<char>,
)
    requires
        candidate_in_range(p, alphabet, min, max),
        digest_of(algo, p) == target,
    ensures
        !no_match_in_range(algo, target, alphabet, min, max),
{
    assert_by_contradiction!(!no_match_in_range(algo, target, alphabet, min, max), {
        assert(digest_of(algo, p) != target);
    });
}

/// Relies on String: FromIterator<char>: collecting characters yields the
/// string of exactly those characters, in order.
#[verifier::external_body]
fn chars_to_string(candidate: &Vec<char>) -> (r: String)
    ensures
        r@ == candidate@,
{
    candidate.iter().collect()
}

/// Byte-for-byte comparison of two byte vectors.
#[verifier::loop_isolation(false)]
pub fn bytes_equal(a: &Vec<u8>, b: &Vec<u8>) -> (r: bool)
    ensures
        r <==> a@ == b@,
{
    if a.len() != b.len() {
        return false;
    }
    let mut j: usize = 0;
    while j < a.len()
        invariant
            j <= a@.len(),
            forall|p: int| 0 <= p < j ==> a@[p] == b@[p],
        decreases a@.len() - j,
    {
        if a[j] != b[j] {
            return false;
        }
        j = j + 1;
    }
    proof {
        assert(a@ =~= b@);
    }
    true
}

/// Evaluate one candidate: hash it under the algorithm and compare the
/// digest byte-for-byte with the target.
pub fn evaluate(candidate: &Vec<char>, target: &Vec<u8>, algo: Algorithm) -> (r: bool)
    ensures
        r <==> digest_of(algo, candidate@) == target@,
{
    let d = compute(algo, candidate);
    bytes_equal(&d, target)
}

/// One search task: enumerate every candidate of one length, in generation
/// order, evaluating each against the target and stopping at the first
/// match.  `None` means the whole length was enumerated without a match.
#[verifier::loop_isolation(false)]
pub fn search_length(
    algo: Algorithm,
    target: &Vec<u8>,
    alphabet: &Vec<char>,
    len: usize,
) -> (r: Option<Vec<char>>)
    ensures
        r matches Some(c) ==> c@.len() == len && from_alphabet(c@, alphabet@) && digest_of(
            algo,
            c@,
        ) == target@,
        r matches Some(c) ==> exists|i: nat|
            i < tuple_count(alphabet@.len(), len as nat) && c@ == word_at(
                alphabet@,
                len as nat,
                i,
            ) && (forall|j: nat|
                j < i ==> digest_of(algo, word_at(alphabet@, len as nat, j)) != target@),
        r is None ==> length_exhausted(algo, target@, alphabet@, len as nat),
{
    let mut gen = ProductGen::new(alphabet.clone(), len);
    loop
        invariant
            gen.wf(),
            gen.spec_alphabet() == alphabet@,
            gen.spec_len() == len as nat,
            gen.spec_pos() <= tuple_count(alphabet@.len(), len as nat),
            forall|i: nat|
                i < gen.spec_pos() ==> digest_of(algo, word_at(alphabet@, len as nat, i))
                    != target@,
        decreases tuple_count(alphabet@.len(), len as nat) - gen.spec_pos(),
    {
        let ghost pos0 = gen.spec_pos();
        match gen.next() {
            Some(c) => {
                proof {
                    lemma_word_at_props(alphabet@, len as nat, pos0);
                }
                if evaluate(&c, target, algo) {
                    proof {
                        assert(pos0 < tuple_count(alphabet@.len(), len as nat) && c@ == word_at(
                            alphabet@,
                            len as nat,
                            pos0,
                        ) && (forall|j: nat|
                            j < pos0 ==> digest_of(algo, word_at(alphabet@, len as nat, j))
                                != target@));
                    }
                    return Some(c);
                }
                proof {
                    assert(digest_of(algo, word_at(alphabet@, len as nat, pos0)) != target@);
                }
            },
            None => {
                proof {
                    assert forall|s: Seq<char>|
                        s.len() == len && from_alphabet(s, alphabet@) implies digest_of(
                        algo,
                        s,
                    ) != target@ by {
                        lemma_word_reachable(alphabet@, s);
                        let i = choose|i: nat|
                            i < tuple_count(alphabet@.len(), s.len()) && word_at(
                                alphabet@,
                                s.len(),
                                i,
                            ) == s;
                        assert(digest_of(algo, word_at(alphabet@, len as nat, i)) != target@);
                    }
                }
                return None;
            },
        }
    }
}

/// Run the whole search: one enumeration per length in the configured
/// range, lowest first, stopping at the first match.  A configuration
/// whose minimum length exceeds its maximum is rejected before any search
/// work begins.
#[verifier::loop_isolation(false)]
pub fn search(config: &SearchConfig) -> (r: Result<SearchOutcome, ConfigError>)
    ensures
        r is Err <==> config.min_len > config.max_len,
        r matches Ok(out) ==> outcome_matches(*config, out),
{
    if config.min_len > config.max_len {
        return Err(ConfigError::EmptyRange);
    }
    let mut len = config.min_len;
    loop
        invariant
            config.min_len <= len <= config.max_len,
            forall|l: nat|
                config.min_len <= l < len ==> length_exhausted(
                    config.algorithm,
                    config.target@,
                    config.alphabet@,
                    l,
                ),
        decreases config.max_len - len,
    {
        match search_length(config.algorithm, &config.target, &config.alphabet, len) {
            Some(c) => {
                let found = chars_to_string(&c);
                return Ok(SearchOutcome::Found(found));
            },
            None => {},
        }
        if len == config.max_len {
            proof {
                assert forall|s: Seq<char>|
                    candidate_in_range(
                        s,
                        config.alphabet@,
                        config.min_len as nat,
                        config.max_len as nat,
                    ) implies digest_of(config.algorithm, s) != config.target@ by {
                    assert(length_exhausted(
                        config.algorithm,
                        config.target@,
                        config.alphabet@,
                        s.len(),
                    ));
                }
            }
            return Ok(SearchOutcome::NotFound);
        }
        len = len + 1;
    }
}

/// Shared coordination state of a running search: `Running` until either a
/// first match or full exhaustion, both of which are terminal.
#[derive(Clone, PartialEq, Eq, Debug)]
pub enum SearchStatus {
    /// Search tasks may still dispatch candidates.
    Running,
    /// A matching plaintext has been reported; no new work may begin.
    Found(String),
    /// Every task finished its full enumeration without a match.
    Exhausted,
}

/// Write-once coordination cell shared by concurrent search tasks: the
/// first reported match wins, and a terminal status is never overwritten.
#[derive(Clone, Debug)]
pub struct Coordinator {
    /// The current status of the overall search.
    pub status: SearchStatus,
}

impl Coordinator {
    /// A coordinator for a search that is about to start.
    pub fn new() -> (r: Coordinator)
        ensures
            r.status is Running,
    {
        Coordinator { status: SearchStatus::Running }
    }

    /// Whether a task may dispatch its next candidate: only while the
    /// search is still running.  Once a match has been reported this
    /// returns false, so no new candidate evaluation begins.
    pub fn should_dispatch(&self) -> (r: bool)
        ensures
            r <==> self.status is Running,
    {
        match self.status {
            SearchStatus::Running => true,
            _ => false,
        }
    }

    /// Record a discovered plaintext.  The first writer wins: if a match
    /// or exhaustion was already recorded, the status is left unchanged
    /// and the later value is dropped.
    pub fn report_match(&mut self, plaintext: String)
        ensures
            old(self).status is Running ==> final(self).status == SearchStatus::Found(plaintext),
            !(old(self).status is Running) ==> final(self).status == old(self).status,
    {
        let running = self.should_dispatch();
        if running {
            self.status = SearchStatus::Found(plaintext);
        }
    }

    /// Record that every search task completed its enumeration without a
    /// match.  A previously reported match is left unchanged.
    pub fn mark_exhausted(&mut self)
        ensures
            old(self).status is Running ==> final(self).status is Exhausted,
            !(old(self).status is Running) ==> final(self).status == old(self).status,
    {
        let running = self.should_dispatch();
        if running {
            self.status = SearchStatus::Exhausted;
        }
    }
}

} // verus!
