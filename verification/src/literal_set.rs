//! Finite lists of constants, indexed by kind and hash where they are long.

use crate::scalar::{among_literals, matches_literal};
use crate::semantics::{literal_found, literal_matches};
use crate::value::{literals_view, Literal, LiteralModel, Value};
use std::collections::{HashMap, HashSet};
use vstd::prelude::*;
use vstd::utf8::encode_utf8;

verus! {

broadcast use vstd::std_specs::hash::group_hash_axioms;

/// Up to this many constants a list is searched member by member; a longer
/// one is searched through an index by kind and by hash.
pub const SCAN_LIMIT: usize = 16;

/// Where the hash of a byte string starts from.
pub const HASH_START: u64 = 0xcbf29ce484222325;

/// What the hash of a byte string is multiplied by after each byte.
pub const HASH_STEP: u64 = 0x100000001b3;

/// The hash of a byte string: each byte in turn is mixed in and the whole
/// multiplied, within 64 bits.
pub open spec fn hash_of(bytes: Seq<u8>) -> u64
    decreases bytes.len(),
{
    if bytes.len() == 0 {
        HASH_START
    } else {
        u64::wrapping_mul(hash_of(bytes.drop_last()) ^ (bytes.last() as u64), HASH_STEP)
    }
}

/// Computes the hash of a byte string.
pub fn hash_bytes(bytes: &[u8]) -> (h: u64)
    ensures
        h == hash_of(bytes@),
{
    let mut h: u64 = HASH_START;
    let mut i: usize = 0;
    while i < bytes.len()
        invariant
            i <= bytes@.len(),
            h == hash_of(bytes@.subrange(0, i as int)),
        decreases bytes@.len() - i,
    {
        let ghost next = bytes@.subrange(0, i + 1);
        assert(next.drop_last() =~= bytes@.subrange(0, i as int));
        assert(next.last() == bytes@[i as int]);
        h = (h ^ (bytes[i] as u64)).wrapping_mul(HASH_STEP);
        i = i + 1;
    }
    assert(bytes@.subrange(0, bytes@.len() as int) =~= bytes@);
    h
}

/// Whether one of the first `n` constants is `x`.
pub open spec fn among_first(list: Seq<LiteralModel>, x: LiteralModel, n: nat) -> bool {
    exists|j: int| 0 <= j < n && j < list.len() && #[trigger] list[j] == x
}

/// The hash under which a constant is indexed among the texts, if it is one.
pub open spec fn text_key(x: LiteralModel) -> Option<u64> {
    match x {
        LiteralModel::Str(s) => Some(hash_of(encode_utf8(s))),
        _ => None,
    }
}

/// The hash under which a constant is indexed among the byte strings, if it is one.
pub open spec fn bytes_key(x: LiteralModel) -> Option<u64> {
    match x {
        LiteralModel::Bytes(b) => Some(hash_of(b)),
        _ => None,
    }
}

/// Whether the index of texts holds each text among the first `n` constants
/// under its hash, and holds places of those constants only.
pub open spec fn texts_indexed(index: Map<u64, Vec<usize>>, list: Seq<LiteralModel>, n: nat) -> bool {
    &&& forall|j: int|
        0 <= j < n && j < list.len() && text_key(#[trigger] list[j]) is Some ==> index.contains_key(text_key(list[j])->0)
            && index[text_key(list[j])->0]@.contains(j as usize)
    &&& forall|h: u64, k: int| index.contains_key(h) && 0 <= k < index[h]@.len() ==> (#[trigger] index[h]@[k]) < n
}

/// Whether the index of byte strings holds each byte string among the first
/// `n` constants under its hash, and holds places of those constants only.
pub open spec fn bytes_indexed(index: Map<u64, Vec<usize>>, list: Seq<LiteralModel>, n: nat) -> bool {
    &&& forall|j: int|
        0 <= j < n && j < list.len() && bytes_key(#[trigger] list[j]) is Some ==> index.contains_key(bytes_key(list[j])->0)
            && index[bytes_key(list[j])->0]@.contains(j as usize)
    &&& forall|h: u64, k: int| index.contains_key(h) && 0 <= k < index[h]@.len() ==> (#[trigger] index[h]@[k]) < n
}

/// Whether the integers of the index are those among the first `n` constants.
pub open spec fn ints_indexed(ints: Set<i64>, list: Seq<LiteralModel>, n: nat) -> bool {
    forall|i: i64| #[trigger] ints.contains(i) <==> among_first(list, LiteralModel::Int(i), n)
}

/// A finite list of constants, each of its own kind, that a value can be
/// looked up in. A short list is searched member by member. A longer one is
/// indexed when it is made: the constants are grouped by kind, the integers
/// in a hash set, the texts and the byte strings by the hash of their bytes,
/// so that a look-up compares the value with the few constants of its own
/// kind and hash.
#[derive(Debug, PartialEq, Eq)]
pub struct LiteralSet {
    expected: Vec<Literal>,
    indexed: bool,
    has_null: bool,
    has_false: bool,
    has_true: bool,
    ints: HashSet<i64>,
    texts: HashMap<u64, Vec<usize>>,
    bytes: HashMap<u64, Vec<usize>>,
}

impl View for LiteralSet {
    type V = Seq<LiteralModel>;

    closed spec fn view(&self) -> Seq<LiteralModel> {
        literals_view(&self.expected)
    }
}

/// Adds a place to the places held under a hash.
fn add_place(index: &mut HashMap<u64, Vec<usize>>, h: u64, place: usize)
    ensures
        final(index)@.contains_key(h),
        final(index)@[h]@ == (if old(index)@.contains_key(h) {
            old(index)@[h]@
        } else {
            Seq::<usize>::empty()
        }).push(place),
        forall|k: u64| k != h ==> (final(index)@.contains_key(k) <==> old(index)@.contains_key(k)),
        forall|k: u64| k != h && old(index)@.contains_key(k) ==> final(index)@[k] == old(index)@[k],
{
    let mut places = match index.remove(&h) {
        Some(places) => places,
        None => Vec::new(),
    };
    places.push(place);
    index.insert(h, places);
}

/// Whether the value is one of the constants at the given places.
fn among_places(expected: &Vec<Literal>, places: &Vec<usize>, v: &Value) -> (found: bool)
    requires
        forall|k: int| 0 <= k < places@.len() ==> (#[trigger] places@[k]) < expected@.len(),
    ensures
        found == (exists|k: int| 0 <= k < places@.len() && literal_matches(literals_view(expected)[(#[trigger] places@[k]) as int], v@)),
{
    let mut k: usize = 0;
    while k < places.len()
        invariant
            k <= places.len(),
            forall|i: int| 0 <= i < places@.len() ==> (#[trigger] places@[i]) < expected@.len(),
            forall|i: int| 0 <= i < k ==> !literal_matches(literals_view(expected)[(#[trigger] places@[i]) as int], v@),
        decreases places.len() - k,
    {
        if matches_literal(&expected[places[k]], v) {
            assert(literal_matches(literals_view(expected)[places@[k as int] as int], v@));
            return true;
        }
        k = k + 1;
    }
    false
}

impl LiteralSet {
    #[verifier::type_invariant]
    spec fn index_is_complete(&self) -> bool {
        self.indexed ==> {
            &&& self.has_null == among_first(self@, LiteralModel::Null, self.expected@.len())
            &&& self.has_false == among_first(self@, LiteralModel::Bool(false), self.expected@.len())
            &&& self.has_true == among_first(self@, LiteralModel::Bool(true), self.expected@.len())
            &&& ints_indexed(self.ints@, self@, self.expected@.len())
            &&& texts_indexed(self.texts@, self@, self.expected@.len())
            &&& bytes_indexed(self.bytes@, self@, self.expected@.len())
        }
    }

    /// The set of the given constants, in their order.
    pub fn new(expected: Vec<Literal>) -> (set: LiteralSet)
        ensures
            set@ == literals_view(&expected),
    {
        let ghost list = literals_view(&expected);
        let mut has_null = false;
        let mut has_false = false;
        let mut has_true = false;
        let mut ints: HashSet<i64> = HashSet::new();
        let mut texts: HashMap<u64, Vec<usize>> = HashMap::new();
        let mut bytes: HashMap<u64, Vec<usize>> = HashMap::new();
        let indexed = expected.len() > SCAN_LIMIT;
        if indexed {
            let mut j: usize = 0;
            while j < expected.len()
                invariant
                    j <= expected.len(),
                    list == literals_view(&expected),
                    has_null == among_first(list, LiteralModel::Null, j as nat),
                    has_false == among_first(list, LiteralModel::Bool(false), j as nat),
                    has_true == among_first(list, LiteralModel::Bool(true), j as nat),
                    ints_indexed(ints@, list, j as nat),
                    texts_indexed(texts@, list, j as nat),
                    bytes_indexed(bytes@, list, j as nat),
                decreases expected.len() - j,
            {
                let ghost old_ints = ints@;
                let ghost old_texts = texts@;
                let ghost old_bytes = bytes@;
                let ghost x = list[j as int];
                assert(x == expected[j as int]@);
                match &expected[j] {
                    Literal::Null => {
                        has_null = true;
                    },
                    Literal::Bool(b) => {
                        if *b {
                            has_true = true;
                        } else {
                            has_false = true;
                        }
                    },
                    Literal::Int(i) => {
                        ints.insert(*i);
                    },
                    Literal::Str(s) => {
                        add_place(&mut texts, hash_bytes(s.as_str().as_bytes()), j);
                    },
                    Literal::Bytes(b) => {
                        add_place(&mut bytes, hash_bytes(b.as_slice()), j);
                    },
                }
                proof {
                    let n = (j + 1) as nat;
                    assert forall|y: LiteralModel| among_first(list, y, n) <==> (among_first(list, y, j as nat) || y == x) by {
                        if among_first(list, y, n) {
                            let w = choose|w: int| 0 <= w < n && w < list.len() && #[trigger] list[w] == y;
                            if w < j {
                                assert(among_first(list, y, j as nat));
                            }
                        }
                        if among_first(list, y, j as nat) {
                            let w = choose|w: int| 0 <= w < j && w < list.len() && #[trigger] list[w] == y;
                            assert(0 <= w < n && list[w] == y);
                        }
                        if y == x {
                            assert(list[j as int] == y);
                        }
                    }
                    assert(ints_indexed(ints@, list, n)) by {
                        assert forall|i: i64| #[trigger] ints@.contains(i) <==> among_first(list, LiteralModel::Int(i), n) by {
                            assert(old_ints.contains(i) <==> among_first(list, LiteralModel::Int(i), j as nat));
                        }
                    }
                    assert(texts_indexed(texts@, list, n)) by {
                        assert forall|w: int|
                            0 <= w < n && w < list.len() && text_key(#[trigger] list[w]) is Some implies texts@.contains_key(
                            text_key(list[w])->0,
                        ) && texts@[text_key(list[w])->0]@.contains(w as usize) by {
                            let h = text_key(list[w])->0;
                            if w < j {
                                assert(old_texts.contains_key(h) && old_texts[h]@.contains(w as usize));
                                let at = choose|at: int| 0 <= at < old_texts[h]@.len() && old_texts[h]@[at] == w as usize;
                                if text_key(x) == Some(h) {
                                    assert(texts@[h]@[at] == w as usize);
                                }
                            } else {
                                assert(texts@[h]@[texts@[h]@.len() - 1] == j);
                            }
                        }
                        assert forall|h: u64, k: int| texts@.contains_key(h) && 0 <= k < texts@[h]@.len() implies (#[trigger] texts@[h]@[k]) < n by {
                            if text_key(x) == Some(h) {
                                if old_texts.contains_key(h) && k < old_texts[h]@.len() {
                                    assert(old_texts[h]@[k] < j);
                                }
                            } else {
                                assert(old_texts.contains_key(h));
                                assert(old_texts[h]@[k] < j);
                            }
                        }
                    }
                    assert(bytes_indexed(bytes@, list, n)) by {
                        assert forall|w: int|
                            0 <= w < n && w < list.len() && bytes_key(#[trigger] list[w]) is Some implies bytes@.contains_key(
                            bytes_key(list[w])->0,
                        ) && bytes@[bytes_key(list[w])->0]@.contains(w as usize) by {
                            let h = bytes_key(list[w])->0;
                            if w < j {
                                assert(old_bytes.contains_key(h) && old_bytes[h]@.contains(w as usize));
                                let at = choose|at: int| 0 <= at < old_bytes[h]@.len() && old_bytes[h]@[at] == w as usize;
                                if bytes_key(x) == Some(h) {
                                    assert(bytes@[h]@[at] == w as usize);
                                }
                            } else {
                                assert(bytes@[h]@[bytes@[h]@.len() - 1] == j);
                            }
                        }
                        assert forall|h: u64, k: int| bytes@.contains_key(h) && 0 <= k < bytes@[h]@.len() implies (#[trigger] bytes@[h]@[k]) < n by {
                            if bytes_key(x) == Some(h) {
                                if old_bytes.contains_key(h) && k < old_bytes[h]@.len() {
                                    assert(old_bytes[h]@[k] < j);
                                }
                            } else {
                                assert(old_bytes.contains_key(h));
                                assert(old_bytes[h]@[k] < j);
                            }
                        }
                    }
                }
                j = j + 1;
            }
        }
        LiteralSet { expected, indexed, has_null, has_false, has_true, ints, texts, bytes }
    }

    /// The constants, in their order.
    pub fn literals(&self) -> (list: &Vec<Literal>)
        ensures
            literals_view(list) == self@,
    {
        &self.expected
    }

    /// Whether the value is one of the constants: of the same kind as one of
    /// them, and equal to it.
    pub fn contains(&self, v: &Value) -> (found: bool)
        ensures
            found == literal_found(self@, v@),
    {
        proof {
            use_type_invariant(self);
        }
        if !self.indexed {
            return among_literals(&self.expected, v);
        }
        let ghost list = self@;
        let ghost n = self.expected@.len();
        proof {
            assert forall|x: LiteralModel| among_first(list, x, n) implies literal_found(list, crate::laws::literal_value(x)) by {
                let w = choose|w: int| 0 <= w < n && w < list.len() && #[trigger] list[w] == x;
                assert(literal_matches(list[w], crate::laws::literal_value(x)));
            }
            if literal_found(list, v@) {
                let w = choose|w: int| 0 <= w < list.len() && literal_matches(#[trigger] list[w], v@);
                crate::laws::lemma_matches_is_equality(list[w], v@);
                assert(among_first(list, list[w], n));
            }
        }
        match v {
            Value::Null => self.has_null,
            Value::Bool(b) => {
                if *b {
                    self.has_true
                } else {
                    self.has_false
                }
            },
            Value::Int(i) => {
                let found = self.ints.contains(i);
                assert(found == among_first(list, LiteralModel::Int(*i), n));
                found
            },
            Value::Str(s) => {
                let h = hash_bytes(s.as_str().as_bytes());
                match self.texts.get(&h) {
                    None => {
                        proof {
                            if literal_found(list, v@) {
                                let w = choose|w: int| 0 <= w < list.len() && literal_matches(#[trigger] list[w], v@);
                                assert(text_key(list[w]) == Some(h));
                            }
                        }
                        false
                    },
                    Some(places) => {
                        let found = among_places(&self.expected, places, v);
                        proof {
                            if literal_found(list, v@) {
                                let w = choose|w: int| 0 <= w < list.len() && literal_matches(#[trigger] list[w], v@);
                                assert(text_key(list[w]) == Some(h));
                                assert(places@.contains(w as usize));
                                let at = choose|at: int| 0 <= at < places@.len() && places@[at] == w as usize;
                                assert(literal_matches(list[places@[at] as int], v@));
                            }
                            if found {
                                let k = choose|k: int| 0 <= k < places@.len() && literal_matches(list[(#[trigger] places@[k]) as int], v@);
                                assert(literal_matches(list[places@[k] as int], v@));
                            }
                        }
                        found
                    },
                }
            },
            Value::Bytes(b) => {
                let h = hash_bytes(b.as_slice());
                match self.bytes.get(&h) {
                    None => {
                        proof {
                            if literal_found(list, v@) {
                                let w = choose|w: int| 0 <= w < list.len() && literal_matches(#[trigger] list[w], v@);
                                assert(bytes_key(list[w]) == Some(h));
                            }
                        }
                        false
                    },
                    Some(places) => {
                        let found = among_places(&self.expected, places, v);
                        proof {
                            if literal_found(list, v@) {
                                let w = choose|w: int| 0 <= w < list.len() && literal_matches(#[trigger] list[w], v@);
                                assert(bytes_key(list[w]) == Some(h));
                                assert(places@.contains(w as usize));
                                let at = choose|at: int| 0 <= at < places@.len() && places@[at] == w as usize;
                                assert(literal_matches(list[places@[at] as int], v@));
                            }
                            if found {
                                let k = choose|k: int| 0 <= k < places@.len() && literal_matches(list[(#[trigger] places@[k]) as int], v@);
                                assert(literal_matches(list[places@[k] as int], v@));
                            }
                        }
                        found
                    },
                }
            },
            _ => {
                proof {
                    if literal_found(list, v@) {
                        let w = choose|w: int| 0 <= w < list.len() && literal_matches(#[trigger] list[w], v@);
                    }
                }
                false
            },
        }
    }
}

} // verus!
