//! Grid labels.
//!
//! A grid record names each of its scan points with a textual label
//! that encloses an integer in brackets, such as `"[-45]"`. The
//! assembler emits a record's geometries in ascending order of that
//! integer. A label that does not enclose an integer is a fatal error:
//! there is no silent-skip path.

use vstd::multiset::Multiset;
use vstd::prelude::*;

use crate::ResolveError;

verus! {

/// The characters stripped from both ends of a label before parsing.
pub open spec fn is_bracket(c: char) -> bool {
    c == '[' || c == ']'
}

pub open spec fn is_digit(c: char) -> bool {
    48 <= c as u32 <= 57
}

/// Numeric value of a digit character.
pub open spec fn digit_val(c: char) -> int {
    c as u32 - 48
}

/// `s` without its leading run of brackets.
pub open spec fn trim_leading(s: Seq<char>) -> Seq<char>
    decreases s.len(),
{
    if s.len() > 0 && is_bracket(s[0]) {
        trim_leading(s.drop_first())
    } else {
        s
    }
}

/// `s` without its trailing run of brackets.
pub open spec fn trim_trailing(s: Seq<char>) -> Seq<char>
    decreases s.len(),
{
    if s.len() > 0 && is_bracket(s.last()) {
        trim_trailing(s.drop_last())
    } else {
        s
    }
}

/// `s` without its leading and trailing runs of brackets.
pub open spec fn trim_brackets(s: Seq<char>) -> Seq<char> {
    trim_trailing(trim_leading(s))
}

pub open spec fn all_digits(s: Seq<char>) -> bool {
    forall|i: int| 0 <= i < s.len() ==> is_digit(#[trigger] s[i])
}

/// Value of a digit string, most significant digit first.
pub open spec fn digits_val(s: Seq<char>) -> int
    decreases s.len(),
{
    if s.len() == 0 {
        0
    } else {
        digits_val(s.drop_last()) * 10 + digit_val(s.last())
    }
}

/// An optional sign followed by at least one digit, as the integer it
/// writes; `None` for anything else.
pub open spec fn parse_int(s: Seq<char>) -> Option<int> {
    if s.len() > 0 && (s[0] == '-' || s[0] == '+') {
        let d = s.drop_first();
        if d.len() > 0 && all_digits(d) {
            Some(
                if s[0] == '-' {
                    -digits_val(d)
                } else {
                    digits_val(d)
                },
            )
        } else {
            None
        }
    } else if s.len() > 0 && all_digits(s) {
        Some(digits_val(s))
    } else {
        None
    }
}

/// The integer a grid label encloses: brackets stripped from both
/// ends, the rest read as a signed decimal number.
pub open spec fn parse_grid_label(s: Seq<char>) -> Option<int> {
    parse_int(trim_brackets(s))
}

/// The label encloses an integer that a 64-bit machine word can hold.
pub open spec fn label_fits(s: Seq<char>) -> bool {
    match parse_grid_label(s) {
        Some(v) => i64::MIN <= v <= i64::MAX,
        None => false,
    }
}

/// The integer of a well-formed label (arbitrary otherwise).
pub open spec fn label_val(s: Seq<char>) -> int {
    parse_grid_label(s)->Some_0
}

/// When the first `lo` characters are brackets and the one after them
/// (if any) is not, trimming the leading run keeps exactly `s[lo..]`.
proof fn lemma_trim_leading_skip(s: Seq<char>, lo: int)
    requires
        0 <= lo <= s.len(),
        forall|i: int| 0 <= i < lo ==> is_bracket(#[trigger] s[i]),
        lo == s.len() || !is_bracket(s[lo]),
    ensures
        trim_leading(s) == s.skip(lo),
    decreases lo,
{
    if lo == 0 {
        assert(s.skip(0) =~= s);
    } else {
        assert(s.drop_first() =~= s.skip(1));
        lemma_trim_leading_skip(s.skip(1), lo - 1);
        assert(s.skip(1).skip(lo - 1) =~= s.skip(lo));
    }
}

/// When the characters from `hi` on are brackets and the one before
/// them (if any) is not, trimming the trailing run keeps `s[..hi]`.
proof fn lemma_trim_trailing_take(s: Seq<char>, hi: int)
    requires
        0 <= hi <= s.len(),
        forall|i: int| hi <= i < s.len() ==> is_bracket(#[trigger] s[i]),
        hi == 0 || !is_bracket(s[hi - 1]),
    ensures
        trim_trailing(s) == s.take(hi),
    decreases s.len(),
{
    if hi == s.len() {
        assert(s.take(hi) =~= s);
    } else {
        assert(is_bracket(s.last()));
        assert(s.drop_last() =~= s.take(s.len() - 1));
        lemma_trim_trailing_take(s.drop_last(), hi);
        assert(s.take(s.len() - 1).take(hi) =~= s.take(hi));
    }
}

/// A digit string's value is never negative.
proof fn lemma_digits_val_nonneg(s: Seq<char>)
    requires
        all_digits(s),
    ensures
        digits_val(s) >= 0,
    decreases s.len(),
{
    if s.len() > 0 {
        assert(all_digits(s.drop_last()));
        lemma_digits_val_nonneg(s.drop_last());
    }
}

/// Appending digits never shrinks a digit string's value.
proof fn lemma_digits_val_prefix(s: Seq<char>, k: int)
    requires
        all_digits(s),
        0 <= k <= s.len(),
    ensures
        digits_val(s.take(k)) <= digits_val(s),
    decreases s.len() - k,
{
    if k < s.len() {
        assert(s.take(k + 1).drop_last() =~= s.take(k));
        assert(all_digits(s.take(k + 1)));
        assert(s.take(k + 1).last() == s[k]);
        lemma_digits_val_nonneg(s.take(k));
        lemma_digits_val_prefix(s, k + 1);
    } else {
        assert(s.take(k) =~= s);
    }
}

fn is_bracket_char(c: char) -> (r: bool)
    ensures
        r == is_bracket(c),
{
    c == '[' || c == ']'
}

/// The integer a grid label encloses, if it encloses one that a
/// machine word can hold.
#[verifier::loop_isolation(false)]
pub fn parse_label(s: &String) -> (r: Option<i64>)
    ensures
        r is Some <==> label_fits(s@),
        r is Some ==> r->Some_0 == label_val(s@),
{
    let st = s.as_str();
    let n = st.unicode_len();
    let mut lo: usize = 0;
    while lo < n && is_bracket_char(st.get_char(lo))
        invariant
            0 <= lo <= n,
            n == s@.len(),
            st@ == s@,
            forall|i: int| 0 <= i < lo ==> is_bracket(#[trigger] s@[i]),
        decreases n - lo,
    {
        lo += 1;
    }
    let mut hi: usize = n;
    while hi > lo && is_bracket_char(st.get_char(hi - 1))
        invariant
            lo <= hi <= n,
            n == s@.len(),
            st@ == s@,
            forall|i: int| hi <= i < n ==> is_bracket(#[trigger] s@[i]),
        decreases hi,
    {
        hi -= 1;
    }
    proof {
        lemma_trim_leading_skip(s@, lo as int);
        lemma_trim_trailing_take(s@.skip(lo as int), hi - lo as int);
        assert(s@.skip(lo as int).take(hi - lo as int) =~= s@.subrange(lo as int, hi as int));
    }
    let ghost trimmed = s@.subrange(lo as int, hi as int);
    assert(trim_brackets(s@) == trimmed);
    if hi == lo {
        return None;
    }
    let c0 = st.get_char(lo);
    let neg = c0 == '-';
    let has_sign = neg || c0 == '+';
    let start = if has_sign {
        lo + 1
    } else {
        lo
    };
    let ghost digits = s@.subrange(start as int, hi as int);
    proof {
        if has_sign {
            assert(trimmed.drop_first() =~= digits);
        } else {
            assert(trimmed =~= digits);
        }
    }
    if start == hi {
        return None;
    }
    let mut i = start;
    let mut mag: u128 = 0;
    while i < hi
        invariant
            start <= i <= hi <= n,
            n == s@.len(),
            st@ == s@,
            digits == s@.subrange(start as int, hi as int),
            start < hi,
            forall|j: int| start <= j < i ==> is_digit(#[trigger] s@[j]),
            mag == digits_val(s@.subrange(start as int, i as int)),
            mag <= 0x8000_0000_0000_0000u128,
        decreases hi - i,
    {
        let c = st.get_char(i);
        let cu = c as u32;
        if cu < 48 || cu > 57 {
            // some character of the digit part is not a digit, so the
            // label encloses no integer
            proof {
                assert(digits[i - start as int] == s@[i as int]);
                assert(!all_digits(digits));
            }
            return None;
        }
        let d = (cu - 48) as u128;
        proof {
            let pre = s@.subrange(start as int, i as int);
            let ext = s@.subrange(start as int, i + 1 as int);
            assert(ext.drop_last() =~= pre);
            assert(ext.last() == s@[i as int]);
        }
        mag = mag * 10 + d;
        i += 1;
        if mag > 0x8000_0000_0000_0000u128 {
            // the digits seen so far already exceed any machine word;
            // more digits can only grow the value
            proof {
                if all_digits(digits) {
                    lemma_digits_val_prefix(digits, i - start as int);
                    assert(digits.take(i - start as int) =~= s@.subrange(
                        start as int,
                        i as int,
                    ));
                }
            }
            return None;
        }
    }
    proof {
        assert(s@.subrange(start as int, i as int) =~= digits);
        assert(all_digits(digits));
        lemma_digits_val_nonneg(digits);
    }
    if neg {
        if mag == 0x8000_0000_0000_0000u128 {
            Some(i64::MIN)
        } else {
            Some(-(mag as i64))
        }
    } else {
        if mag > 0x7fff_ffff_ffff_ffffu128 {
            None
        } else {
            Some(mag as i64)
        }
    }
}

/// The labels of a sequence of grid positions, in position order.
pub open spec fn labels_of(positions: Seq<(String, usize)>) -> Seq<String> {
    positions.map_values(|p: (String, usize)| p.0)
}

/// The labels come in ascending order of their enclosed integers.
pub open spec fn sorted_labels(ls: Seq<String>) -> bool {
    forall|i: int, j: int|
        0 <= i < j < ls.len() ==> label_val(#[trigger] ls[i]@) <= label_val(#[trigger] ls[j]@)
}

/// The labels of keyed pairs, in pair order.
spec fn pair_labels(ps: Seq<(i64, String)>) -> Seq<String> {
    ps.map_values(|p: (i64, String)| p.1)
}

/// Each pair carries a well-formed label and its integer as the key.
spec fn keyed_ok(ps: Seq<(i64, String)>) -> bool {
    forall|j: int|
        0 <= j < ps.len() ==> label_fits((#[trigger] ps[j]).1@) && ps[j].0 == label_val(ps[j].1@)
}

/// The labels of a record's grid positions, in ascending order of
/// their enclosed integers. Fails on the first label that encloses no
/// integer a machine word can hold; positions are never skipped.
#[verifier::loop_isolation(false)]
pub fn sorted_grid_labels(positions: &Vec<(String, usize)>) -> (r: Result<
    Vec<String>,
    ResolveError,
>)
    ensures
        r is Ok <==> (forall|i: int|
            0 <= i < positions@.len() ==> label_fits((#[trigger] positions@[i]).0@)),
        r matches Ok(ls) ==> {
            &&& ls@.to_multiset() == labels_of(positions@).to_multiset()
            &&& sorted_labels(ls@)
            &&& forall|i: int| 0 <= i < ls@.len() ==> label_fits((#[trigger] ls@[i])@)
        },
        r matches Err(e) ==> (e matches ResolveError::BadGridLabel { label } && !label_fits(
            label@,
        ) && labels_of(positions@).contains(label)),
{
    let mut keyed: Vec<(i64, String)> = Vec::new();
    let mut idx: usize = 0;
    while idx < positions.len()
        invariant
            0 <= idx <= positions@.len(),
            keyed@.len() == idx,
            keyed_ok(keyed@),
            forall|j: int| 0 <= j < idx ==> (#[trigger] keyed@[j]).1 == positions@[j].0,
        decreases positions@.len() - idx,
    {
        let label = positions[idx].0.clone();
        match parse_label(&label) {
            None => {
                proof {
                    assert(labels_of(positions@)[idx as int] == positions@[idx as int].0);
                }
                return Err(ResolveError::BadGridLabel { label });
            },
            Some(v) => {
                keyed.push((v, label));
            },
        }
        idx += 1;
    }
    proof {
        broadcast use vstd::multiset::group_multiset_axioms;

        assert(pair_labels(keyed@) =~= labels_of(positions@));
        assert forall|i: int| 0 <= i < positions@.len() implies label_fits(
            (#[trigger] positions@[i]).0@,
        ) by {
            assert(keyed@[i].1 == positions@[i].0);
            assert(label_fits(keyed@[i].1@));
        }
        assert(Multiset::<String>::empty().add(labels_of(positions@).to_multiset())
            =~= labels_of(positions@).to_multiset());
        assert(pair_labels(Seq::<(i64, String)>::empty()) =~= Seq::<String>::empty());
        Seq::<String>::empty().to_multiset_ensures();
        vstd::multiset::lemma_multiset_empty_len(Seq::<String>::empty().to_multiset());
    }
    let ghost all_labels = labels_of(positions@);
    let mut rest = keyed;
    let mut sorted: Vec<(i64, String)> = Vec::new();
    while rest.len() > 0
        invariant
            keyed_ok(rest@),
            keyed_ok(sorted@),
            forall|a: int, b: int|
                0 <= a < b < sorted@.len() ==> (#[trigger] sorted@[a]).0 <= (
                #[trigger] sorted@[b]).0,
            forall|a: int, j: int|
                0 <= a < sorted@.len() && 0 <= j < rest@.len() ==> (#[trigger] sorted@[a]).0 <= (
                #[trigger] rest@[j]).0,
            pair_labels(sorted@).to_multiset().add(pair_labels(rest@).to_multiset())
                =~= all_labels.to_multiset(),
        decreases rest@.len(),
    {
        let mut mi: usize = 0;
        let mut mk: i64 = rest[0].0;
        let mut j: usize = 1;
        while j < rest.len()
            invariant
                1 <= j <= rest@.len(),
                0 <= mi < rest@.len(),
                mk == rest@[mi as int].0,
                forall|t: int| 0 <= t < j ==> mk <= (#[trigger] rest@[t]).0,
            decreases rest@.len() - j,
        {
            if rest[j].0 < mk {
                mi = j;
                mk = rest[j].0;
            }
            j += 1;
        }
        let ghost rest_before = rest@;
        let pair = rest.remove(mi);
        proof {
            broadcast use vstd::seq_lib::group_to_multiset_ensures;
            broadcast use vstd::multiset::group_multiset_axioms;

            assert(pair_labels(rest_before.remove(mi as int)) =~= pair_labels(
                rest_before,
            ).remove(mi as int));
            assert(pair_labels(rest_before)[mi as int] == pair.1);
            assert(pair_labels(rest_before).to_multiset().count(pair.1) > 0) by {
                assert(pair_labels(rest_before).contains(pair.1));
            }
            assert(pair_labels(sorted@.push(pair)) =~= pair_labels(sorted@).push(pair.1));
            assert(pair_labels(sorted@).push(pair.1).to_multiset().add(
                pair_labels(rest_before).remove(mi as int).to_multiset(),
            ) =~= all_labels.to_multiset());
        }
        sorted.push(pair);
    }
    proof {
        broadcast use vstd::multiset::group_multiset_axioms;

        assert(pair_labels(rest@).to_multiset() =~= Multiset::<String>::empty()) by {
            assert(pair_labels(rest@) =~= Seq::<String>::empty());
            Seq::<String>::empty().to_multiset_ensures();
        }
        assert(pair_labels(sorted@).to_multiset() =~= all_labels.to_multiset());
    }
    let mut ls: Vec<String> = Vec::new();
    let mut k: usize = 0;
    while k < sorted.len()
        invariant
            0 <= k <= sorted@.len(),
            ls@.len() == k,
            forall|t: int| 0 <= t < k ==> ls@[t] == sorted@[t].1,
        decreases sorted@.len() - k,
    {
        ls.push(sorted[k].1.clone());
        k += 1;
    }
    proof {
        assert(ls@ =~= pair_labels(sorted@));
    }
    Ok(ls)
}

} // verus!
