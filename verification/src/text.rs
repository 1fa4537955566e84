//! Character-level helpers shared by the configuration and filename
//! parsers: digit runs, their numeric value, and colon-separated fields.

use vstd::prelude::*;
use vstd::string::StrSliceExecFns;

verus! {

/// Decimal digit test.
pub open spec fn spec_is_digit(c: char) -> bool {
    '0' <= c && c <= '9'
}

/// Numeric value of one decimal digit.
pub open spec fn digit_val(c: char) -> int {
    c as int - '0' as int
}

/// Every character of `s` is a decimal digit.
pub open spec fn all_digits(s: Seq<char>) -> bool {
    forall|i: int| 0 <= i < s.len() ==> spec_is_digit(#[trigger] s[i])
}

/// The number denoted by a digit string, most significant digit first.
/// The empty string denotes zero.
pub open spec fn digits_val(s: Seq<char>) -> int
    decreases s.len(),
{
    if s.len() == 0 {
        0
    } else {
        digits_val(s.drop_last()) * 10 + digit_val(s.last())
    }
}

/// Ten to the power `n`.
pub open spec fn pow10(n: nat) -> int
    decreases n,
{
    if n == 0 {
        1
    } else {
        10 * pow10((n - 1) as nat)
    }
}

/// A digit string's value is at least zero.
pub proof fn lemma_digits_val_nonneg(s: Seq<char>)
    requires
        all_digits(s),
    ensures
        digits_val(s) >= 0,
    decreases s.len(),
{
    if s.len() > 0 {
        assert(all_digits(s.drop_last()));
        lemma_digits_val_nonneg(s.drop_last());
    }
}

/// A digit string's value is below ten to the power of its length.
pub proof fn lemma_digits_val_upper(s: Seq<char>)
    requires
        all_digits(s),
    ensures
        digits_val(s) < pow10(s.len()),
    decreases s.len(),
{
    if s.len() == 0 {
    } else {
        assert(all_digits(s.drop_last()));
        lemma_digits_val_upper(s.drop_last());
        lemma_pow10_pos(s.len() as nat);
        lemma_pow10_pos((s.len() - 1) as nat);
        assert(digits_val(s.drop_last()) <= pow10((s.len() - 1) as nat) - 1);
        assert(digit_val(s.last()) <= 9);
        assert(digits_val(s.drop_last()) * 10 <= (pow10((s.len() - 1) as nat) - 1) * 10)
            by (nonlinear_arith)
            requires
                digits_val(s.drop_last()) <= pow10((s.len() - 1) as nat) - 1,
        ;
    }
}

/// Ten to any power is positive.
pub proof fn lemma_pow10_pos(n: nat)
    ensures
        pow10(n) >= 1,
    decreases n,
{
    if n > 0 {
        lemma_pow10_pos((n - 1) as nat);
    }
}

/// Extending a digit string to the right never decreases its value.
pub proof fn lemma_digits_val_take_le(s: Seq<char>, i: int)
    requires
        all_digits(s),
        0 <= i <= s.len(),
    ensures
        digits_val(s.take(i)) <= digits_val(s),
    decreases s.len() - i,
{
    if i < s.len() {
        lemma_digits_val_take_le(s, i + 1);
        let t = s.take(i + 1);
        assert(t.drop_last() =~= s.take(i));
        assert(all_digits(s.take(i)));
        lemma_digits_val_nonneg(s.take(i));
        assert(digits_val(t) == digits_val(s.take(i)) * 10 + digit_val(t.last()));
        assert(digits_val(s.take(i)) * 10 >= digits_val(s.take(i))) by (nonlinear_arith)
            requires
                digits_val(s.take(i)) >= 0,
        ;
    } else {
        assert(s.take(i) =~= s);
    }
}

/// Decimal digit test.
pub fn is_digit(c: char) -> (r: bool)
    ensures
        r == spec_is_digit(c),
{
    '0' <= c && c <= '9'
}

/// The characters of `s`, in order.
pub fn str_chars(s: &str) -> (v: Vec<char>)
    ensures
        v@ == s@,
{
    let n = s.unicode_len();
    let mut v: Vec<char> = Vec::new();
    let mut i: usize = 0;
    while i < n
        invariant
            i <= n,
            n == s@.len(),
            v@ =~= s@.take(i as int),
        decreases n - i,
    {
        v.push(s.get_char(i));
        i += 1;
    }
    proof {
        assert(v@ =~= s@);
    }
    v
}

/// Whether `s[from..to]` consists of decimal digits only.
pub fn check_all_digits(s: &Vec<char>, from: usize, to: usize) -> (r: bool)
    requires
        from <= to <= s@.len(),
    ensures
        r == all_digits(s@.subrange(from as int, to as int)),
{
    let ghost w = s@.subrange(from as int, to as int);
    let mut i: usize = from;
    while i < to
        invariant
            from <= i <= to <= s@.len(),
            w == s@.subrange(from as int, to as int),
            forall|j: int| 0 <= j < i - from ==> spec_is_digit(#[trigger] w[j]),
        decreases to - i,
    {
        if !is_digit(s[i]) {
            assert(w[i - from] == s@[i as int]);
            return false;
        }
        assert(w[i - from] == s@[i as int]);
        i += 1;
    }
    true
}

/// Parse the digit run `s[from..to]`, reporting `None` when the value
/// exceeds `max`.
pub fn parse_digits_capped(s: &Vec<char>, from: usize, to: usize, max: u64) -> (r: Option<u64>)
    requires
        from <= to <= s@.len(),
        all_digits(s@.subrange(from as int, to as int)),
    ensures
        ({
            let v = digits_val(s@.subrange(from as int, to as int));
            match r {
                Some(n) => n == v && v <= max,
                None => v > max,
            }
        }),
{
    let ghost w = s@.subrange(from as int, to as int);
    proof {
        lemma_digits_val_nonneg(w);
    }
    let mut acc: u64 = 0;
    let mut i: usize = from;
    while i < to
        invariant
            from <= i <= to <= s@.len(),
            w == s@.subrange(from as int, to as int),
            all_digits(w),
            acc <= max,
            acc == digits_val(w.take(i - from)),
        decreases to - i,
    {
        assert(w[i - from] == s@[i as int]);
        assert(spec_is_digit(s@[i as int]));
        let c = s[i];
        let d: u64 = (c as u32 - 48) as u64;
        assert(d == digit_val(c) && d <= 9);
        let wide: u128 = (acc as u128) * 10 + (d as u128);
        proof {
            let t = w.take(i - from + 1);
            assert(t.drop_last() =~= w.take(i - from));
            assert(t.last() == w[i - from]);
            assert(digits_val(t) == acc * 10 + d);
        }
        if wide > max as u128 {
            proof {
                lemma_digits_val_take_le(w, i - from + 1);
            }
            return None;
        }
        acc = wide as u64;
        i += 1;
    }
    proof {
        assert(w.take(to - from) =~= w);
    }
    Some(acc)
}

/// The colon-separated fields of `s[from..]`, where a field is the run
/// of characters up to the next separator or the end of the string.
pub open spec fn fields_from(s: Seq<char>, from: int) -> Seq<Seq<char>>
    decreases s.len() - from,
{
    if from < 0 || from >= s.len() {
        seq![Seq::empty()]
    } else if s[from] == ':' {
        seq![Seq::<char>::empty()] + fields_from(s, from + 1)
    } else {
        let rest = fields_from(s, from + 1);
        seq![seq![s[from]] + rest[0]] + rest.skip(1)
    }
}

/// The colon-separated fields of `s`.
pub open spec fn split_colon(s: Seq<char>) -> Seq<Seq<char>> {
    fields_from(s, 0)
}

/// There is always at least one field.
pub proof fn lemma_fields_from_nonempty(s: Seq<char>, from: int)
    ensures
        fields_from(s, from).len() >= 1,
    decreases s.len() - from,
{
    if !(from < 0 || from >= s.len()) {
        lemma_fields_from_nonempty(s, from + 1);
    }
}

/// A colon-free stretch `[from..i)` followed by a separator at `i` makes
/// the first field, and the rest of the split starts after the separator.
pub proof fn lemma_fields_from_sep(s: Seq<char>, from: int, i: int)
    requires
        0 <= from <= i < s.len(),
        s[i] == ':',
        forall|j: int| from <= j < i ==> s[j] != ':',
    ensures
        fields_from(s, from) =~= seq![s.subrange(from, i)] + fields_from(s, i + 1),
    decreases i - from,
{
    lemma_fields_from_nonempty(s, from + 1);
    if from == i {
        assert(s.subrange(from, i) =~= Seq::<char>::empty());
    } else {
        lemma_fields_from_sep(s, from + 1, i);
        assert(seq![s[from]] + s.subrange(from + 1, i) =~= s.subrange(from, i));
        assert((seq![s.subrange(from + 1, i)] + fields_from(s, i + 1)).skip(1) =~= fields_from(
            s,
            i + 1,
        ));
    }
}

/// With no separator at or after `from`, the remainder is one field.
pub proof fn lemma_fields_from_tail(s: Seq<char>, from: int)
    requires
        0 <= from <= s.len(),
        forall|j: int| from <= j < s.len() ==> s[j] != ':',
    ensures
        fields_from(s, from) =~= seq![s.subrange(from, s.len() as int)],
    decreases s.len() - from,
{
    if from < s.len() {
        lemma_fields_from_tail(s, from + 1);
        assert(seq![s[from]] + s.subrange(from + 1, s.len() as int) =~= s.subrange(
            from,
            s.len() as int,
        ));
    } else {
        assert(s.subrange(from, s.len() as int) =~= Seq::<char>::empty());
    }
}

/// The stretches of `v` named by a list of index ranges.
pub open spec fn ranges_views(v: Seq<char>, rs: Seq<(usize, usize)>) -> Seq<Seq<char>> {
    rs.map_values(|r: (usize, usize)| v.subrange(r.0 as int, r.1 as int))
}

/// The index ranges of the colon-separated fields of `v`, in order.
pub fn split_colon_ranges(v: &Vec<char>) -> (fs: Vec<(usize, usize)>)
    ensures
        fs@.len() == split_colon(v@).len(),
        forall|k: int|
            0 <= k < fs@.len() ==> {
                &&& (#[trigger] fs@[k]).0 <= fs@[k].1 <= v@.len()
                &&& v@.subrange(fs@[k].0 as int, fs@[k].1 as int) == split_colon(v@)[k]
            },
{
    let n = v.len();
    let mut fs: Vec<(usize, usize)> = Vec::new();
    let mut start: usize = 0;
    let mut i: usize = 0;
    while i < n
        invariant
            start <= i <= n,
            n == v@.len(),
            forall|j: int| start <= j < i ==> v@[j] != ':',
            forall|k: int| 0 <= k < fs@.len() ==> (#[trigger] fs@[k]).0 <= fs@[k].1 <= v@.len(),
            ranges_views(v@, fs@) + fields_from(v@, start as int) =~~= fields_from(v@, 0),
        decreases n - i,
    {
        if v[i] == ':' {
            proof {
                lemma_fields_from_sep(v@, start as int, i as int);
            }
            let ghost pre = fs@;
            let ghost s0 = start as int;
            fs.push((start, i));
            start = i + 1;
            proof {
                assert(ranges_views(v@, fs@) =~~= ranges_views(v@, pre).push(
                    v@.subrange(s0, i as int),
                ));
                assert(ranges_views(v@, fs@) + fields_from(v@, start as int) =~~= fields_from(
                    v@,
                    0,
                ));
            }
        }
        i += 1;
    }
    proof {
        lemma_fields_from_tail(v@, start as int);
    }
    let ghost pre = fs@;
    fs.push((start, n));
    proof {
        assert(ranges_views(v@, fs@) =~~= ranges_views(v@, pre).push(
            v@.subrange(start as int, n as int),
        ));
        assert(ranges_views(v@, fs@) =~~= fields_from(v@, 0));
        assert(forall|k: int|
            0 <= k < fs@.len() ==> ranges_views(v@, fs@)[k] == v@.subrange(
                (#[trigger] fs@[k]).0 as int,
                fs@[k].1 as int,
            ));
    }
    fs
}

/// The position of the first occurrence of `c` in `s` at or after `from`,
/// or `-1` when there is none.
pub open spec fn first_index_of(s: Seq<char>, c: char, from: int) -> int
    decreases s.len() - from,
{
    if from < 0 || from >= s.len() {
        -1
    } else if s[from] == c {
        from
    } else {
        first_index_of(s, c, from + 1)
    }
}

/// What `first_index_of` returns: the first occurrence, or `-1` when the
/// character does not occur at or after `from`.
pub proof fn lemma_first_index_of(s: Seq<char>, c: char, from: int)
    requires
        0 <= from,
    ensures
        first_index_of(s, c, from) == -1 ==> forall|j: int| from <= j < s.len() ==> s[j] != c,
        first_index_of(s, c, from) >= 0 ==> {
            &&& from <= first_index_of(s, c, from) < s.len()
            &&& s[first_index_of(s, c, from)] == c
            &&& forall|j: int| from <= j < first_index_of(s, c, from) ==> s[j] != c
        },
    decreases s.len() - from,
{
    if from < s.len() && s[from] != c {
        lemma_first_index_of(s, c, from + 1);
    }
}

/// Find the first occurrence of `c` in `v[from..to]`.
pub fn find_char(v: &Vec<char>, from: usize, to: usize, c: char) -> (r: Option<usize>)
    requires
        from <= to <= v@.len(),
    ensures
        ({
            let w = v@.subrange(from as int, to as int);
            match r {
                Some(p) => from <= p < to && first_index_of(w, c, 0) == p - from,
                None => first_index_of(w, c, 0) == -1,
            }
        }),
{
    let ghost w = v@.subrange(from as int, to as int);
    let mut i: usize = from;
    while i < to
        invariant
            from <= i <= to <= v@.len(),
            w == v@.subrange(from as int, to as int),
            forall|j: int| 0 <= j < i - from ==> w[j] != c,
        decreases to - i,
    {
        assert(w[i - from] == v@[i as int]);
        if v[i] == c {
            proof {
                lemma_first_index_of_prefix(w, c, i - from);
            }
            return Some(i);
        }
        i += 1;
    }
    proof {
        lemma_first_index_of_none(w, c);
    }
    None
}

/// When all positions before `p` miss `c` and `s[p] == c`, the first
/// occurrence from the start is `p`.
pub proof fn lemma_first_index_of_prefix(s: Seq<char>, c: char, p: int)
    requires
        0 <= p < s.len(),
        s[p] == c,
        forall|j: int| 0 <= j < p ==> s[j] != c,
    ensures
        first_index_of(s, c, 0) == p,
{
    lemma_first_index_of_steps(s, c, 0, p);
}

/// When no position holds `c`, the first occurrence is `-1`.
pub proof fn lemma_first_index_of_none(s: Seq<char>, c: char)
    requires
        forall|j: int| 0 <= j < s.len() ==> s[j] != c,
    ensures
        first_index_of(s, c, 0) == -1,
{
    lemma_first_index_of_steps(s, c, 0, s.len() as int);
}

/// Skipping over a stretch that misses `c` does not change the answer.
pub proof fn lemma_first_index_of_steps(s: Seq<char>, c: char, from: int, upto: int)
    requires
        0 <= from <= upto <= s.len(),
        forall|j: int| from <= j < upto ==> s[j] != c,
    ensures
        first_index_of(s, c, from) == first_index_of(s, c, upto),
    decreases upto - from,
{
    if from < upto {
        lemma_first_index_of_steps(s, c, from + 1, upto);
    }
}

} // verus!
