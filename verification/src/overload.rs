//! Overload disambiguation.
//!
//! The upstream scanner numbers colliding declarations with a single global
//! counter per base name: `foo`, `foo1`, `foo2`, ... even across unrelated
//! owning types. This module recovers, for each owning scope (a specific
//! type, or "free function"), a locally zero-based overload name, while
//! leaving alone suffixes that are not part of that global numbering.
use vstd::prelude::*;
use vstd::hash_map::StringHashMap;

use crate::errors::ConvertError;

verus! {

// ----- digits and suffix splitting -----

/// A decimal digit character.
pub open spec fn is_digit(c: char) -> bool {
    48 <= c as u32 && c as u32 <= 57
}

/// Every character of `s` is a decimal digit (vacuously true of the empty
/// string, which is just as illegal an identifier).
pub open spec fn all_digits(s: Seq<char>) -> bool {
    forall|i: int| 0 <= i < s.len() ==> is_digit(s[i])
}

/// Length of the maximal run of decimal digits at the end of `s`.
pub open spec fn digit_suffix_len(s: Seq<char>) -> nat
    decreases s.len(),
{
    if s.len() == 0 {
        0
    } else if is_digit(s.last()) {
        1 + digit_suffix_len(s.drop_last())
    } else {
        0
    }
}

/// Numeric value of a digit character; 0 on anything else.
pub open spec fn digit_val(c: char) -> nat {
    if is_digit(c) {
        (c as u32 - 48) as nat
    } else {
        0
    }
}

/// Value of a decimal-digit string, most significant digit first; the empty
/// string has value 0.
pub open spec fn digits_value(s: Seq<char>) -> nat
    decreases s.len(),
{
    if s.len() == 0 {
        0
    } else {
        10 * digits_value(s.drop_last()) + digit_val(s.last())
    }
}

/// The part of a raw identifier before its trailing digit run.
pub open spec fn split_prefix(s: Seq<char>) -> Seq<char> {
    s.take(s.len() - digit_suffix_len(s))
}

/// The value of the trailing digit run of a raw identifier (0 if there is
/// none).
pub open spec fn split_counter(s: Seq<char>) -> nat {
    digits_value(s.skip(s.len() - digit_suffix_len(s)))
}

/// A scan that stopped at position `k` (all digits to the right of `k`, and
/// either `k` is the start or a non-digit stands just left of it) has found
/// exactly the maximal digit suffix.
proof fn lemma_suffix_scan(s: Seq<char>, k: int)
    requires
        0 <= k <= s.len(),
        forall|i: int| k <= i < s.len() ==> is_digit(s[i]),
        k == 0 || !is_digit(s[k - 1]),
    ensures
        digit_suffix_len(s) == s.len() - k,
    decreases s.len(),
{
    if s.len() == 0 {
    } else if k == s.len() {
        assert(!is_digit(s.last()));
    } else {
        assert(is_digit(s.last()));
        lemma_suffix_scan(s.drop_last(), k);
    }
}

/// A decimal number only grows as digits are appended: the value of a prefix
/// of a digit string is at most the value of the whole string.
proof fn lemma_digits_value_prefix_le(s: Seq<char>, j: int)
    requires
        0 <= j <= s.len(),
    ensures
        digits_value(s.take(j)) <= digits_value(s),
    decreases s.len() - j,
{
    if j == s.len() {
        assert(s.take(j) =~= s);
    } else {
        lemma_digits_value_prefix_le(s, j + 1);
        assert(s.take(j + 1).drop_last() =~= s.take(j));
        assert(digits_value(s.take(j + 1)) == 10 * digits_value(s.take(j)) + digit_val(
            s.take(j + 1).last(),
        ));
    }
}

/// Splits a raw identifier into its base name and the value of its trailing
/// digit run; a run-less identifier gets counter 0. An identifier consisting
/// entirely of digits (the empty one included) cannot come from a native
/// declaration and is a fatal upstream-contract violation.
pub fn split_name(found_name: &str) -> (r: Result<(String, usize), ConvertError>)
    requires
        !all_digits(found_name@) ==> split_counter(found_name@) <= usize::MAX,
    ensures
        match r {
            Ok(p) => !all_digits(found_name@) && p.0@ == split_prefix(found_name@) && p.1
                == split_counter(found_name@),
            Err(e) => e == ConvertError::AllNumericIdentifier && all_digits(found_name@),
        },
{
    let n = found_name.unicode_len();
    let mut k = n;
    loop
        invariant
            k <= n,
            n == found_name@.len(),
            forall|i: int| k <= i < n ==> is_digit(found_name@[i]),
        ensures
            k <= n,
            n == found_name@.len(),
            forall|i: int| k <= i < n ==> is_digit(found_name@[i]),
            k == 0 || !is_digit(found_name@[k - 1]),
        decreases k,
    {
        if k == 0 {
            break ;
        }
        let c = found_name.get_char(k - 1);
        let u = c as u32;
        if !(48 <= u && u <= 57) {
            break ;
        }
        k = k - 1;
    }
    proof {
        lemma_suffix_scan(found_name@, k as int);
    }
    if k == 0 {
        return Err(ConvertError::AllNumericIdentifier);
    }
    assert(!is_digit(found_name@[k - 1]));
    assert(!all_digits(found_name@));
    let prefix = found_name.substring_char(0, k).to_owned();
    assert(prefix@ =~= split_prefix(found_name@));
    let ghost suffix = found_name@.skip(k as int);
    assert(suffix =~= found_name@.subrange(k as int, n as int));
    let mut val: usize = 0;
    let mut i = k;
    while i < n
        invariant
            k <= i <= n,
            n == found_name@.len(),
            suffix == found_name@.skip(k as int),
            split_counter(found_name@) == digits_value(suffix),
            digits_value(suffix) <= usize::MAX,
            forall|j: int| k <= j < n ==> is_digit(found_name@[j]),
            val == digits_value(found_name@.subrange(k as int, i as int)),
        decreases n - i,
    {
        let c = found_name.get_char(i);
        proof {
            assert(is_digit(found_name@[i as int]));
            lemma_digits_value_prefix_le(suffix, i + 1 - k);
            assert(suffix.take(i + 1 - k) =~= found_name@.subrange(k as int, i + 1));
            assert(found_name@.subrange(k as int, i + 1).drop_last() =~= found_name@.subrange(
                k as int,
                i as int,
            ));
            assert(found_name@.subrange(k as int, i + 1).last() == found_name@[i as int]);
        }
        let u = c as u32;
        val = val * 10 + ((u - 48) as usize);
        i = i + 1;
    }
    assert(found_name@.subrange(k as int, n as int) == suffix);
    Ok((prefix, val))
}

// ----- decimal rendering -----

/// The digit character for a value below ten.
pub open spec fn dec_digit(d: nat) -> char {
    if d == 0 {
        '0'
    } else if d == 1 {
        '1'
    } else if d == 2 {
        '2'
    } else if d == 3 {
        '3'
    } else if d == 4 {
        '4'
    } else if d == 5 {
        '5'
    } else if d == 6 {
        '6'
    } else if d == 7 {
        '7'
    } else if d == 8 {
        '8'
    } else {
        '9'
    }
}

/// Decimal rendering of a number, most significant digit first, no leading
/// zeros (except for the number 0 itself).
pub open spec fn dec_str(n: nat) -> Seq<char>
    decreases n,
{
    if n < 10 {
        seq![dec_digit(n)]
    } else {
        dec_str(n / 10).push(dec_digit(n % 10))
    }
}

fn digit_literal(d: usize) -> (r: &'static str)
    requires
        d < 10,
    ensures
        r@ == seq![dec_digit(d as nat)],
{
    proof {
        reveal_strlit("0");
        reveal_strlit("1");
        reveal_strlit("2");
        reveal_strlit("3");
        reveal_strlit("4");
        reveal_strlit("5");
        reveal_strlit("6");
        reveal_strlit("7");
        reveal_strlit("8");
        reveal_strlit("9");
    }
    if d == 0 {
        "0"
    } else if d == 1 {
        "1"
    } else if d == 2 {
        "2"
    } else if d == 3 {
        "3"
    } else if d == 4 {
        "4"
    } else if d == 5 {
        "5"
    } else if d == 6 {
        "6"
    } else if d == 7 {
        "7"
    } else if d == 8 {
        "8"
    } else {
        "9"
    }
}

fn render_decimal(n: usize) -> (r: String)
    ensures
        r@ == dec_str(n as nat),
    decreases n,
{
    if n < 10 {
        String::from_str(digit_literal(n))
    } else {
        let front = render_decimal(n / 10);
        let r = front.concat(digit_literal(n % 10));
        assert(dec_str((n / 10) as nat).push(dec_digit((n % 10) as nat)) =~= dec_str(
            (n / 10) as nat,
        ) + seq![dec_digit((n % 10) as nat)]);
        r
    }
}

// ----- the tracker -----

/// The resolved identity of one callable: the underlying native symbol to
/// invoke, and the name to expose on the binding side.
#[derive(Debug, PartialEq, Eq)]
pub struct MethodOverload {
    pub native_name: String,
    pub bridge_name: String,
}

impl MethodOverload {
    pub fn new(native_name: String, bridge_name: String) -> (r: Self)
        ensures
            r.native_name == native_name,
            r.bridge_name == bridge_name,
    {
        MethodOverload { native_name, bridge_name }
    }
}

/// Mathematical state of an [`OverloadTracker`]: the next expected global
/// counter per base name, and the per-scope baselines, keyed by base name
/// for free functions and by (owning type, base name) for methods.
#[verifier::ext_equal]
pub ghost struct TrackerV {
    pub expected: Map<Seq<char>, usize>,
    pub free_offsets: Map<Seq<char>, usize>,
    pub scoped_offsets: Map<(Seq<char>, Seq<char>), usize>,
}

/// The bridge-side name: the base name alone for the first overload of a
/// scope, the base name with the local ordinal appended for the others.
pub open spec fn bridge_name_of(prefix: Seq<char>, effective: nat) -> Seq<char> {
    if effective == 0 {
        prefix
    } else {
        prefix + dec_str(effective)
    }
}

/// The counter the shared global series expects next for a base name
/// (0 before the first sighting).
pub open spec fn expected_counter(v: TrackerV, prefix: Seq<char>) -> nat {
    if v.expected.contains_key(prefix) {
        v.expected[prefix] as nat
    } else {
        0
    }
}

pub open spec fn opt_name_view(o: Option<&str>) -> Option<Seq<char>> {
    match o {
        Some(s) => Some(s@),
        None => None,
    }
}

/// One lookup step of the tracker: the new state and the resulting
/// (native name, bridge name) pair.
///
/// If the identifier's counter is not the one the shared global series
/// expects next for its base name, the name is organic: it is returned
/// unchanged and the state does not move. Otherwise the global series
/// advances, the owning scope's baseline for that base name is fixed at the
/// current counter if this is the first time the scope sees it, and the
/// bridge name carries the zero-based local ordinal.
pub open spec fn tracker_step(v: TrackerV, scope: Option<Seq<char>>, name: Seq<char>) -> (
    TrackerV,
    (Seq<char>, Seq<char>),
) {
    let prefix = split_prefix(name);
    let counter = split_counter(name);
    let expected: nat = expected_counter(v, prefix);
    if counter != expected {
        (v, (name, name))
    } else {
        let advanced = v.expected.insert(prefix, ((counter + 1) as usize));
        match scope {
            None => {
                let offset: nat = if v.free_offsets.contains_key(prefix) {
                    v.free_offsets[prefix] as nat
                } else {
                    counter
                };
                let effective: nat = if counter >= offset {
                    (counter - offset) as nat
                } else {
                    0
                };
                (
                    TrackerV {
                        expected: advanced,
                        free_offsets: v.free_offsets.insert(prefix, offset as usize),
                        scoped_offsets: v.scoped_offsets,
                    },
                    (prefix, bridge_name_of(prefix, effective)),
                )
            },
            Some(ty) => {
                let offset: nat = if v.scoped_offsets.contains_key((ty, prefix)) {
                    v.scoped_offsets[(ty, prefix)] as nat
                } else {
                    counter
                };
                let effective: nat = if counter >= offset {
                    (counter - offset) as nat
                } else {
                    0
                };
                (
                    TrackerV {
                        expected: advanced,
                        free_offsets: v.free_offsets,
                        scoped_offsets: v.scoped_offsets.insert((ty, prefix), offset as usize),
                    },
                    (prefix, bridge_name_of(prefix, effective)),
                )
            },
        }
    }
}

/// Every recorded baseline lies strictly below the expected counter of its
/// base name: the expected counter was advanced past it when it was
/// recorded and has only grown since. This is what makes the local ordinal
/// (counter minus baseline) non-negative.
pub open spec fn tracker_wf(v: TrackerV) -> bool {
    &&& (forall|p: Seq<char>| #[trigger]
        v.free_offsets.contains_key(p) ==> v.expected.contains_key(p) && v.free_offsets[p]
            < v.expected[p])
    &&& (forall|k: (Seq<char>, Seq<char>)| #[trigger]
        v.scoped_offsets.contains_key(k) ==> v.expected.contains_key(k.1) && v.scoped_offsets[k]
            < v.expected[k.1])
}

/// Registry of the overloads of each base name seen so far in one
/// generation run, mirroring the scanner's single global numbering series
/// so that it can be re-based per owning scope.
pub struct OverloadTracker {
    expected_next_by_name: StringHashMap<usize>,
    offset_by_name: StringHashMap<usize>,
    offset_by_type_and_name: Vec<(String, String, usize)>,
}

/// Map view of the flat (scope, base name, baseline) table, later entries
/// never shadowing earlier ones because a baseline is written at most once.
pub open spec fn scoped_view(s: Seq<(String, String, usize)>) -> Map<(Seq<char>, Seq<char>), usize>
    decreases s.len(),
{
    if s.len() == 0 {
        Map::empty()
    } else {
        scoped_view(s.drop_last()).insert((s.last().0@, s.last().1@), s.last().2)
    }
}

/// No two rows of the flat baseline table name the same (scope, base name)
/// pair: a baseline is written at most once.
pub open spec fn rows_distinct(s: Seq<(String, String, usize)>) -> bool {
    forall|a: int, b: int|
        #![trigger s[a], s[b]]
        0 <= a < b < s.len() ==> (s[a].0@, s[a].1@) != (s[b].0@, s[b].1@)
}

proof fn lemma_scoped_view_not_found(s: Seq<(String, String, usize)>, k: (Seq<char>, Seq<char>))
    requires
        forall|i: int| #![trigger s[i]] 0 <= i < s.len() ==> (s[i].0@, s[i].1@) != k,
    ensures
        !scoped_view(s).contains_key(k),
    decreases s.len(),
{
    if s.len() > 0 {
        assert(s[s.len() - 1] == s.last());
        lemma_scoped_view_not_found(s.drop_last(), k);
    }
}

proof fn lemma_scoped_view_found(s: Seq<(String, String, usize)>, i: int)
    requires
        0 <= i < s.len(),
        rows_distinct(s),
    ensures
        scoped_view(s).contains_key((s[i].0@, s[i].1@)),
        scoped_view(s)[(s[i].0@, s[i].1@)] == s[i].2,
    decreases s.len(),
{
    assert(s[s.len() - 1] == s.last());
    if i == s.len() - 1 {
    } else {
        assert((s.last().0@, s.last().1@) != (s[i].0@, s[i].1@));
        assert(rows_distinct(s.drop_last()));
        lemma_scoped_view_found(s.drop_last(), i);
        assert(s.drop_last()[i] == s[i]);
    }
}

/// A baseline is recorded only for a pair that has none yet, so the rows of
/// the flat table stay distinct.
proof fn lemma_rows_distinct_push(s: Seq<(String, String, usize)>, e: (String, String, usize))
    requires
        rows_distinct(s),
        !scoped_view(s).contains_key((e.0@, e.1@)),
    ensures
        rows_distinct(s.push(e)),
{
    let t = s.push(e);
    assert forall|a: int, b: int|
        #![trigger t[a], t[b]]
        0 <= a < b < t.len() implies (t[a].0@, t[a].1@) != (t[b].0@, t[b].1@) by {
        if b == s.len() {
            assert(t[a] == s[a]);
            assert(t[b] == e);
            if (s[a].0@, s[a].1@) == (e.0@, e.1@) {
                lemma_scoped_view_found(s, a);
            }
        } else {
            assert(t[a] == s[a]);
            assert(t[b] == s[b]);
        }
    }
}

/// One tracker step keeps every recorded baseline strictly below the
/// expected counter of its base name: the tracker's invariant is preserved
/// whatever name arrives, in whatever scope.
pub proof fn lemma_tracker_step_wf(v: TrackerV, scope: Option<Seq<char>>, name: Seq<char>)
    requires
        tracker_wf(v),
        split_counter(name) == expected_counter(v, split_prefix(name)) ==> split_counter(name)
            < usize::MAX,
    ensures
        tracker_wf(tracker_step(v, scope, name).0),
{
    let prefix = split_prefix(name);
    let counter = split_counter(name);
    let expected: nat = expected_counter(v, prefix);
    if counter == expected {
        let w = tracker_step(v, scope, name).0;
        assert forall|q: Seq<char>| #[trigger]
            w.free_offsets.contains_key(q) implies w.expected.contains_key(q) && w.free_offsets[q]
            < w.expected[q] by {
            if q != prefix {
                assert(v.free_offsets.contains_key(q));
            }
        }
        assert forall|k: (Seq<char>, Seq<char>)| #[trigger]
            w.scoped_offsets.contains_key(k) implies w.expected.contains_key(k.1)
            && w.scoped_offsets[k] < w.expected[k.1] by {
            match scope {
                Some(ty) => {
                    if k != (ty, prefix) {
                        assert(v.scoped_offsets.contains_key(k));
                    }
                },
                None => {
                    assert(v.scoped_offsets.contains_key(k));
                },
            }
        }
    }
}

impl View for OverloadTracker {
    type V = TrackerV;

    closed spec fn view(&self) -> TrackerV {
        TrackerV {
            expected: self.expected_next_by_name@,
            free_offsets: self.offset_by_name@,
            scoped_offsets: scoped_view(self.offset_by_type_and_name@),
        }
    }
}

impl OverloadTracker {
    /// No two rows of the flat baseline table name the same (scope, base
    /// name) pair, and the baselines sit below their expected counters.
    pub closed spec fn wf(&self) -> bool {
        &&& rows_distinct(self.offset_by_type_and_name@)
        &&& tracker_wf(self@)
    }

    /// A fresh tracker, knowing of no overload series yet.
    pub fn new() -> (r: Self)
        ensures
            r.wf(),
            r@ == (TrackerV {
                expected: Map::empty(),
                free_offsets: Map::empty(),
                scoped_offsets: Map::empty(),
            }),
    {
        let r = OverloadTracker {
            expected_next_by_name: StringHashMap::new(),
            offset_by_name: StringHashMap::new(),
            offset_by_type_and_name: Vec::new(),
        };
        proof {
            assert(r@ =~= (TrackerV {
                expected: Map::empty(),
                free_offsets: Map::empty(),
                scoped_offsets: Map::empty(),
            }));
        }
        r
    }

    /// Resolves a free function's raw name.
    pub fn get_function_real_name(&mut self, found_name: &str) -> (r: MethodOverload)
        requires
            old(self).wf(),
            !all_digits(found_name@),
            split_counter(found_name@) <= usize::MAX,
            split_counter(found_name@) == expected_counter(old(self)@, split_prefix(found_name@))
                ==> split_counter(found_name@) < usize::MAX,
        ensures
            final(self).wf(),
            final(self)@ == tracker_step(old(self)@, None, found_name@).0,
            (r.native_name@, r.bridge_name@) == tracker_step(old(self)@, None, found_name@).1,
    {
        self.next_offset(None, found_name)
    }

    /// Resolves a method's raw name within its owning type's scope.
    pub fn get_method_real_name(&mut self, owner: &str, found_name: &str) -> (r:
        MethodOverload)
        requires
            old(self).wf(),
            !all_digits(found_name@),
            split_counter(found_name@) <= usize::MAX,
            split_counter(found_name@) == expected_counter(old(self)@, split_prefix(found_name@))
                ==> split_counter(found_name@) < usize::MAX,
        ensures
            final(self).wf(),
            final(self)@ == tracker_step(old(self)@, Some(owner@), found_name@).0,
            (r.native_name@, r.bridge_name@) == tracker_step(
                old(self)@,
                Some(owner@),
                found_name@,
            ).1,
    {
        self.next_offset(Some(owner), found_name)
    }

    /// Resolves a raw name in the given scope (`None` for free functions).
    pub fn next_offset(&mut self, owner: Option<&str>, found_name: &str) -> (r: MethodOverload)
        requires
            old(self).wf(),
            !all_digits(found_name@),
            split_counter(found_name@) <= usize::MAX,
            split_counter(found_name@) == expected_counter(old(self)@, split_prefix(found_name@))
                ==> split_counter(found_name@) < usize::MAX,
        ensures
            final(self).wf(),
            final(self)@ == tracker_step(old(self)@, opt_name_view(owner), found_name@).0,
            (r.native_name@, r.bridge_name@) == tracker_step(
                old(self)@,
                opt_name_view(owner),
                found_name@,
            ).1,
    {
        let (prefix, counter) = match split_name(found_name) {
            Ok(pc) => pc,
            Err(_) => {
                proof {
                    assert(false);
                }
                (String::new(), 0)
            },
        };
        let expected_opt = self.expected_next_by_name.get(prefix.as_str());
        let expected: usize = match expected_opt {
            Some(v) => *v,
            None => 0,
        };
        proof {
            assert(expected == expected_counter(old(self)@, prefix@));
        }
        if counter != expected {
            let r = MethodOverload::new(found_name.to_owned(), found_name.to_owned());
            assert(self@ =~= tracker_step(old(self)@, opt_name_view(owner), found_name@).0);
            r
        } else {
            self.expected_next_by_name.insert(prefix.clone(), counter + 1);
            let offset: usize = match owner {
                None => {
                    let got = self.offset_by_name.get(prefix.as_str());
                    let prior: Option<usize> = match got {
                        Some(v) => Some(*v),
                        None => None,
                    };
                    match prior {
                        Some(v) => {
                            proof {
                                assert(old(self)@.free_offsets.contains_key(prefix@) && old(
                                    self,
                                )@.free_offsets[prefix@] == v);
                                assert(v < expected_counter(old(self)@, prefix@));
                                assert(old(self).offset_by_name@ =~= old(
                                    self,
                                ).offset_by_name@.insert(prefix@, v));
                            }
                            v
                        },
                        None => {
                            self.offset_by_name.insert(prefix.clone(), counter);
                            counter
                        },
                    }
                },
                Some(tn) => {
                    let prior = self.scoped_offset_lookup(tn, prefix.as_str());
                    match prior {
                        Some(v) => {
                            proof {
                                assert(old(self)@.scoped_offsets.contains_key((tn@, prefix@))
                                    && old(self)@.scoped_offsets[(tn@, prefix@)] == v);
                                assert(v < expected_counter(old(self)@, prefix@));
                                assert(scoped_view(self.offset_by_type_and_name@) =~= scoped_view(
                                    self.offset_by_type_and_name@,
                                ).insert((tn@, prefix@), v));
                            }
                            v
                        },
                        None => {
                            let entry = (tn.to_owned(), prefix.clone(), counter);
                            proof {
                                lemma_rows_distinct_push(self.offset_by_type_and_name@, entry);
                            }
                            self.offset_by_type_and_name.push(entry);
                            proof {
                                assert(self.offset_by_type_and_name@.drop_last() =~= old(
                                    self,
                                ).offset_by_type_and_name@);
                            }
                            counter
                        },
                    }
                },
            };
            proof {
                assert(offset <= counter);
            }
            let effective = counter - offset;
            let bridge = if effective == 0 {
                prefix.clone()
            } else {
                let suffix = render_decimal(effective);
                prefix.clone().concat(suffix.as_str())
            };
            let r = MethodOverload::new(prefix, bridge);
            proof {
                assert(self@ =~= tracker_step(old(self)@, opt_name_view(owner), found_name@).0);
                lemma_tracker_step_wf(old(self)@, opt_name_view(owner), found_name@);
            }
            r
        }
    }

    /// Looks up the baseline recorded for a (scope, base name) pair, if any.
    fn scoped_offset_lookup(&self, scope: &str, prefix: &str) -> (r: Option<usize>)
        requires
            rows_distinct(self.offset_by_type_and_name@),
        ensures
            match r {
                Some(v) => self@.scoped_offsets.contains_key((scope@, prefix@))
                    && self@.scoped_offsets[(scope@, prefix@)] == v,
                None => !self@.scoped_offsets.contains_key((scope@, prefix@)),
            },
    {
        let n = self.offset_by_type_and_name.len();
        let mut i: usize = 0;
        while i < n
            invariant
                rows_distinct(self.offset_by_type_and_name@),
                0 <= i <= n,
                n == self.offset_by_type_and_name@.len(),
                forall|j: int|
                    0 <= j < i ==> (#[trigger] self.offset_by_type_and_name@[j].0@, self
                        .offset_by_type_and_name@[j].1@) != (scope@, prefix@),
            decreases n - i,
        {
            let entry = &self.offset_by_type_and_name[i];
            if str_eq(entry.0.as_str(), scope) && str_eq(entry.1.as_str(), prefix) {
                proof {
                    lemma_scoped_view_found(self.offset_by_type_and_name@, i as int);
                }
                return Some(entry.2);
            }
            i = i + 1;
        }
        proof {
            lemma_scoped_view_not_found(self.offset_by_type_and_name@, (scope@, prefix@));
        }
        None
    }
}

/// Relies on `<str as PartialEq>::eq` of std: string slices compare equal
/// exactly when their character sequences are equal.
#[verifier::external_body]
pub(crate) fn str_eq(a: &str, b: &str) -> (r: bool)
    ensures
        r == (a@ == b@),
{
    a == b
}

} // verus!
