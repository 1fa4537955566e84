//! Bitmap directory listings.
//!
//! A source's frames come from a directory of `N-<index>.bmp`-style
//! files. The listing is filtered to `.bmp` files (any case) and sorted
//! by the number spelled by the digits of each file's stem; a stem
//! without digits, or with more digits than a machine word holds, sorts
//! last via a sentinel maximum key. Reading the directory itself is the
//! caller's concern; this module owns the filtering, the keys and the
//! order, and the expansion of `~`-relative paths.

use crate::config::ConfigError;
use crate::text::{
    all_digits, digit_val, digits_val, is_digit, lemma_digits_val_nonneg, spec_is_digit, str_chars,
};
use vstd::multiset::Multiset;
use vstd::prelude::*;
use vstd::seq_lib::group_seq_properties;
use vstd::string::StrSliceExecFns;

verus! {

/// The position of the last occurrence of `c` in `s`, or `-1`.
pub open spec fn last_index_of(s: Seq<char>, c: char) -> int
    decreases s.len(),
{
    if s.len() == 0 {
        -1
    } else if s.last() == c {
        s.len() - 1
    } else {
        last_index_of(s.drop_last(), c)
    }
}

/// What `last_index_of` returns.
pub proof fn lemma_last_index_of(s: Seq<char>, c: char)
    ensures
        last_index_of(s, c) == -1 ==> forall|j: int| 0 <= j < s.len() ==> s[j] != c,
        last_index_of(s, c) >= 0 ==> {
            &&& 0 <= last_index_of(s, c) < s.len()
            &&& s[last_index_of(s, c)] == c
            &&& forall|j: int| last_index_of(s, c) < j < s.len() ==> s[j] != c
        },
    decreases s.len(),
{
    if s.len() > 0 && s.last() != c {
        lemma_last_index_of(s.drop_last(), c);
        let d = s.drop_last();
        assert forall|j: int| 0 <= j < s.len() - 1 implies s[j] == d[j] by {}
    }
}

/// Find the last occurrence of `c` in `v[from..to]`.
pub fn find_last_char(v: &Vec<char>, from: usize, to: usize, c: char) -> (r: Option<usize>)
    requires
        from <= to <= v@.len(),
    ensures
        ({
            let w = v@.subrange(from as int, to as int);
            match r {
                Some(p) => from <= p < to && last_index_of(w, c) == p - from,
                None => last_index_of(w, c) == -1,
            }
        }),
{
    let ghost w = v@.subrange(from as int, to as int);
    let mut i: usize = to;
    while i > from
        invariant
            from <= i <= to <= v@.len(),
            w == v@.subrange(from as int, to as int),
            forall|j: int| i - from <= j < w.len() ==> w[j] != c,
        decreases i,
    {
        i -= 1;
        assert(w[i - from] == v@[i as int]);
        if v[i] == c {
            proof {
                lemma_last_index_of_at(w, c, i - from);
            }
            return Some(i);
        }
    }
    proof {
        lemma_last_index_of_below(w, c, 0);
        lemma_last_index_of_bounds(w, c);
    }
    None
}

/// The last occurrence is `-1` or a position.
proof fn lemma_last_index_of_bounds(s: Seq<char>, c: char)
    ensures
        -1 <= last_index_of(s, c) < s.len(),
    decreases s.len(),
{
    if s.len() > 0 && s.last() != c {
        lemma_last_index_of_bounds(s.drop_last(), c);
    }
}

/// When `s[p] == c` and nothing after `p` is `c`, the last occurrence
/// is `p`.
proof fn lemma_last_index_of_at(s: Seq<char>, c: char, p: int)
    requires
        0 <= p < s.len(),
        s[p] == c,
        forall|j: int| p < j < s.len() ==> s[j] != c,
    ensures
        last_index_of(s, c) == p,
    decreases s.len(),
{
    if p < s.len() - 1 {
        lemma_last_index_of_at(s.drop_last(), c, p);
    }
}

/// When nothing at or after `p` is `c`, the last occurrence lies below
/// `p`.
proof fn lemma_last_index_of_below(s: Seq<char>, c: char, p: int)
    requires
        0 <= p <= s.len(),
        forall|j: int| p <= j < s.len() ==> s[j] != c,
    ensures
        last_index_of(s, c) < p,
    decreases s.len(),
{
    if s.len() > 0 {
        if p <= s.len() - 1 {
            lemma_last_index_of_below(s.drop_last(), c, p);
        } else {
            if s.last() != c {
                lemma_last_index_of_below(s.drop_last(), c, p - 1);
            }
        }
    }
}

/// The file name after the last path separator.
pub open spec fn file_component(s: Seq<char>) -> Seq<char> {
    s.skip(last_index_of(s, '/') + 1)
}

/// The component's stem: what stands before its last dot, or the whole
/// component when the only dot is a leading one or there is none.
pub open spec fn file_stem(s: Seq<char>) -> Seq<char> {
    let n = file_component(s);
    let d = last_index_of(n, '.');
    if d >= 1 {
        n.take(d)
    } else {
        n
    }
}

/// The component's extension: what stands after its last dot, when the
/// dot is not the leading character.
pub open spec fn file_ext(s: Seq<char>) -> Seq<char> {
    let n = file_component(s);
    let d = last_index_of(n, '.');
    if d >= 1 {
        n.skip(d + 1)
    } else {
        Seq::empty()
    }
}

/// The extension spells `bmp`, ignoring ASCII case.
pub open spec fn is_bmp_ext(e: Seq<char>) -> bool {
    &&& e.len() == 3
    &&& (e[0] == 'b' || e[0] == 'B')
    &&& (e[1] == 'm' || e[1] == 'M')
    &&& (e[2] == 'p' || e[2] == 'P')
}

/// A path that names a bitmap file.
pub open spec fn has_bmp_ext(s: Seq<char>) -> bool {
    last_index_of(file_component(s), '.') >= 1 && is_bmp_ext(file_ext(s))
}

/// The bitmap-name test, as a value the sequence filter can take.
pub open spec fn bmp_pred() -> spec_fn(Seq<char>) -> bool {
    |s: Seq<char>| has_bmp_ext(s)
}

/// The digit test, as a value the sequence filter can take.
pub open spec fn digit_pred() -> spec_fn(char) -> bool {
    |c: char| spec_is_digit(c)
}

/// The digits of the file stem, in order.
pub open spec fn stem_digits(s: Seq<char>) -> Seq<char> {
    file_stem(s).filter(digit_pred())
}

/// The sort key of a bitmap file name: the number its stem's digits
/// spell, or the sentinel maximum when there is no digit or the number
/// overflows a machine word.
pub open spec fn numeric_key(s: Seq<char>) -> int {
    let ds = stem_digits(s);
    if ds.len() == 0 || digits_val(ds) > usize::MAX {
        usize::MAX as int
    } else {
        digits_val(ds)
    }
}

/// The numeric sort key of one file name.
pub fn parse_filename(name: &str) -> (r: usize)
    ensures
        r == numeric_key(name@),
{
    let chars = str_chars(name);
    let n = chars.len();
    // The component starts after the last separator.
    let comp_start: usize = match find_last_char(&chars, 0, n, '/') {
        Some(p) => p + 1,
        None => 0,
    };
    let ghost comp = name@.skip(comp_start as int);
    proof {
        assert(chars@.subrange(0, n as int) =~= name@);
        assert(comp =~= file_component(name@));
    }
    // The stem ends at the component's last dot, unless that dot leads.
    let stem_end: usize = match find_last_char(&chars, comp_start, n, '.') {
        Some(p) => {
            proof {
                lemma_skip_subrange(chars@, comp_start as int, p as int, n as int);
            }
            if p > comp_start {
                p
            } else {
                n
            }
        },
        None => {
            proof {
                lemma_skip_subrange_none(chars@, comp_start as int, n as int);
            }
            n
        },
    };
    let ghost stem = file_stem(name@);
    proof {
        assert(stem =~= chars@.subrange(comp_start as int, stem_end as int));
    }
    // Spell out the stem's digits.
    let mut acc: usize = 0;
    let mut seen = false;
    let mut over = false;
    let mut i: usize = comp_start;
    proof {
        reveal(Seq::filter);
        assert(stem.take(0).filter(digit_pred()) =~= Seq::<char>::empty());
    }
    while i < stem_end
        invariant
            comp_start <= i <= stem_end <= chars@.len(),
            stem == chars@.subrange(comp_start as int, stem_end as int),
            ({
                let ds = stem.take(i - comp_start).filter(digit_pred());
                &&& all_digits(ds)
                &&& seen == (ds.len() > 0)
                &&& over ==> digits_val(ds) > usize::MAX
                &&& !over ==> acc == digits_val(ds)
            }),
        decreases stem_end - i,
    {
        let ghost pre = stem.take(i - comp_start);
        let ghost ds = pre.filter(|c: char| spec_is_digit(c));
        let c = chars[i];
        assert(stem[i - comp_start] == c);
        proof {
            assert(stem.take(i - comp_start + 1).drop_last() =~= pre);
            assert(stem.take(i - comp_start + 1).last() == c);
        }
        if is_digit(c) {
            let ghost ds2 = ds.push(c);
            proof {
                reveal(Seq::filter);
                assert(stem.take(i - comp_start + 1).filter(digit_pred()) =~= ds2);
                assert(ds2.drop_last() =~= ds);
                assert(digits_val(ds2) == digits_val(ds) * 10 + digit_val(c));
                lemma_digits_val_nonneg(ds);
            }
            if over {
                proof {
                    assert(digits_val(ds2) > usize::MAX);
                }
            } else {
                let wide: u128 = (acc as u128) * 10 + ((c as u32 - 48) as u128);
                if wide > usize::MAX as u128 {
                    over = true;
                } else {
                    acc = wide as usize;
                }
            }
            seen = true;
        } else {
            proof {
                reveal(Seq::filter);
                assert(stem.take(i - comp_start + 1).filter(digit_pred()) =~= ds);
            }
        }
        i += 1;
    }
    proof {
        assert(stem.take(stem_end - comp_start) =~= stem);
    }
    if !seen || over {
        usize::MAX
    } else {
        acc
    }
}

/// The tail of a subrange of `s` from an inner position.
proof fn lemma_skip_subrange(s: Seq<char>, from: int, p: int, to: int)
    requires
        0 <= from <= p < to <= s.len(),
    ensures
        s.subrange(from, to).take(p - from) =~= s.subrange(from, p),
        s.skip(from).take(p - from) =~= s.subrange(from, p),
{
}

/// Helper for the dot-free case: nothing to relate beyond the ranges.
proof fn lemma_skip_subrange_none(s: Seq<char>, from: int, to: int)
    requires
        0 <= from <= to <= s.len(),
    ensures
        s.subrange(from, to) =~= s.skip(from).take(to - from),
{
}

/// The views of a list of owned strings.
pub open spec fn string_views(ss: Seq<String>) -> Seq<Seq<char>> {
    ss.map_values(|s: String| s@)
}

/// Whether this file name carries a `.bmp` extension, any case.
pub fn is_bmp_file(name: &str) -> (r: bool)
    ensures
        r == has_bmp_ext(name@),
{
    let chars = str_chars(name);
    let n = chars.len();
    let comp_start: usize = match find_last_char(&chars, 0, n, '/') {
        Some(p) => p + 1,
        None => 0,
    };
    let ghost comp = name@.skip(comp_start as int);
    proof {
        assert(chars@.subrange(0, n as int) =~= name@);
        assert(comp =~= file_component(name@));
    }
    match find_last_char(&chars, comp_start, n, '.') {
        None => {
            proof {
                lemma_skip_subrange_none(chars@, comp_start as int, n as int);
            }
            false
        },
        Some(p) => {
            proof {
                lemma_skip_subrange(chars@, comp_start as int, p as int, n as int);
            }
            if p <= comp_start {
                false
            } else {
                let ghost ext = file_ext(name@);
                proof {
                    assert(ext =~= chars@.subrange(p + 1, n as int));
                }
                if n - p - 1 != 3 {
                    false
                } else {
                    let e0 = chars[p + 1];
                    let e1 = chars[p + 2];
                    let e2 = chars[p + 3];
                    assert(ext[0] == e0 && ext[1] == e1 && ext[2] == e2);
                    (e0 == 'b' || e0 == 'B') && (e1 == 'm' || e1 == 'M') && (e2 == 'p' || e2
                        == 'P')
                }
            }
        },
    }
}

/// The bitmap files of a directory listing, sorted by their numeric
/// key: filter to `.bmp` names, then order by `numeric_key`, names
/// without a numeric stem last. The result holds exactly the listing's
/// bitmap names, as a multiset.
pub fn sort_bitmaps(files: &Vec<String>) -> (r: Vec<String>)
    ensures
        forall|i: int| 0 <= i < r@.len() ==> has_bmp_ext((#[trigger] r@[i])@),
        forall|i: int, j: int|
            0 <= i <= j < r@.len() ==> numeric_key((#[trigger] r@[i])@) <= numeric_key(
                (#[trigger] r@[j])@,
            ),
        string_views(r@).to_multiset() == string_views(files@).filter(bmp_pred()).to_multiset(),
{
    broadcast use group_seq_properties;
    // Keep the bitmap names, in listing order.
    let n = files.len();
    let mut kept: Vec<String> = Vec::new();
    let mut i: usize = 0;
    proof {
        reveal(Seq::filter);
        assert(string_views(files@.take(0)).filter(bmp_pred()) =~= Seq::<Seq<char>>::empty());
        assert(string_views(kept@) =~= Seq::<Seq<char>>::empty());
    }
    while i < n
        invariant
            i <= n,
            n == files@.len(),
            string_views(kept@) =~= string_views(files@.take(i as int)).filter(bmp_pred()),
            forall|i2: int| 0 <= i2 < kept@.len() ==> has_bmp_ext((#[trigger] kept@[i2])@),
        decreases n - i,
    {
        let ghost pre = string_views(files@.take(i as int));
        proof {
            reveal(Seq::filter);
            assert(string_views(files@.take(i + 1)).drop_last() =~= pre);
            assert(string_views(files@.take(i + 1)).last() == files@[i as int]@);
        }
        let f = &files[i];
        if is_bmp_file(f.as_str()) {
            let ghost kv = string_views(kept@);
            kept.push(f.clone());
            proof {
                reveal(Seq::filter);
                assert(string_views(kept@) =~= kv.push(files@[i as int]@));
                assert(string_views(files@.take(i + 1)).filter(bmp_pred()) =~= kv.push(
                    files@[i as int]@,
                ));
            }
        } else {
            proof {
                reveal(Seq::filter);
                assert(string_views(files@.take(i + 1)).filter(bmp_pred()) =~= string_views(
                    kept@,
                ));
            }
        }
        i += 1;
    }
    proof {
        assert(files@.take(n as int) =~= files@);
    }
    // Selection sort by key: repeatedly move the smallest remaining key.
    let mut rest = kept;
    let mut out: Vec<String> = Vec::new();
    let ghost all = string_views(rest@).to_multiset();
    while rest.len() > 0
        invariant
            string_views(out@).to_multiset().add(string_views(rest@).to_multiset()) =~= all,
            forall|i2: int|
                0 <= i2 < out@.len() ==> has_bmp_ext((#[trigger] out@[i2])@),
            forall|i2: int|
                0 <= i2 < rest@.len() ==> has_bmp_ext((#[trigger] rest@[i2])@),
            forall|i2: int, j2: int|
                0 <= i2 <= j2 < out@.len() ==> numeric_key((#[trigger] out@[i2])@) <= numeric_key(
                    (#[trigger] out@[j2])@,
                ),
            forall|i2: int, j2: int|
                0 <= i2 < out@.len() && 0 <= j2 < rest@.len() ==> numeric_key(
                    (#[trigger] out@[i2])@,
                ) <= numeric_key((#[trigger] rest@[j2])@),
        decreases rest@.len(),
    {
        // Find the position of the smallest key.
        let m = rest.len();
        let mut best: usize = 0;
        let mut best_key = parse_filename(rest[0].as_str());
        let mut j: usize = 1;
        while j < m
            invariant
                1 <= j <= m,
                m == rest@.len(),
                best < j,
                best_key == numeric_key(rest@[best as int]@),
                forall|k: int|
                    0 <= k < j ==> best_key <= numeric_key((#[trigger] rest@[k])@),
            decreases m - j,
        {
            let key = parse_filename(rest[j].as_str());
            if key < best_key {
                best = j;
                best_key = key;
            }
            j += 1;
        }
        let ghost restv = rest@;
        let x = rest.remove(best);
        let ghost outv = out@;
        out.push(x);
        proof {
            lemma_views_remove(restv, best as int);
            assert(string_views(out@) =~= string_views(outv).push(restv[best as int]@));
            string_views(outv).to_multiset_ensures();
            string_views(restv).to_multiset_ensures();
            assert(string_views(out@).to_multiset() =~= string_views(outv).to_multiset().insert(
                restv[best as int]@,
            ));
            assert(string_views(rest@).to_multiset() =~= string_views(restv).to_multiset().remove(
                restv[best as int]@,
            ));
            assert(string_views(out@).to_multiset().add(string_views(rest@).to_multiset())
                =~= all);
        }
    }
    proof {
        string_views(rest@).to_multiset_ensures();
        assert(string_views(rest@).to_multiset() =~= Multiset::<Seq<char>>::empty());
    }
    out
}

/// Removing an element commutes with taking views.
proof fn lemma_views_remove(ss: Seq<String>, i: int)
    requires
        0 <= i < ss.len(),
    ensures
        string_views(ss.remove(i)) =~= string_views(ss).remove(i),
{
}

/// Relies on `dirs::home_dir`: the user's home directory, from the
/// `HOME` environment variable or the user database, as a UTF-8 string.
/// The answer depends on the process environment, so nothing is
/// promised beyond its documented non-emptiness.
#[verifier::external_body]
fn home_directory() -> (r: Option<String>)
    ensures
        r matches Some(h) ==> h@.len() >= 1,
{
    dirs::home_dir().and_then(|p| p.to_str().map(|s| s.to_owned()))
}

/// What a configured path expands to, given the home directory the
/// environment reports: a `~`-relative path becomes the home directory,
/// a separator, and everything after the leading `~` and separator; any
/// other path stands as written.
pub open spec fn expanded_path(input: Seq<char>, home: Option<Seq<char>>) -> Result<
    Seq<char>,
    ConfigError,
> {
    if input.len() >= 1 && input[0] == '~' {
        match home {
            Some(h) => Ok(h + seq!['/'] + if input.len() >= 2 {
                input.skip(2)
            } else {
                Seq::empty()
            }),
            None => Err(ConfigError::NoHomeDirectory),
        }
    } else {
        Ok(input)
    }
}

/// Expand a configured path against a known home directory.
pub fn expand_path(input: &str, home: Option<&str>) -> (r: Result<Vec<char>, ConfigError>)
    ensures
        ({
            let hv = match home {
                Some(h) => Some(h@),
                None => None,
            };
            match r {
                Ok(v) => expanded_path(input@, hv) == Ok::<Seq<char>, ConfigError>(v@),
                Err(e) => expanded_path(input@, hv) == Err::<Seq<char>, ConfigError>(e),
            }
        }),
{
    let chars = str_chars(input);
    if chars.len() >= 1 {
        let c0 = chars[0];
        if c0 == '~' {
            match home {
                Some(h) => {
                    let mut out = str_chars(h);
                    out.push('/');
                    let ghost mid = out@;
                    let mut i: usize = 2;
                    proof {
                        if input@.len() >= 2 {
                            assert(mid + input@.skip(2).take(0) =~= mid);
                        }
                    }
                    while i < chars.len()
                        invariant
                            2 <= i <= chars@.len() || (chars@.len() < 2 && i == 2),
                            chars@ == input@,
                            chars@.len() >= 2 ==> out@ =~= mid + input@.skip(2).take(i - 2),
                            chars@.len() < 2 ==> out@ == mid,
                            mid == h@ + seq!['/'],
                        decreases chars@.len() - i,
                    {
                        out.push(chars[i]);
                        proof {
                            assert(input@.skip(2).take(i - 2 + 1) =~= input@.skip(2).take(i - 2)
                                .push(input@[i as int]));
                            assert(out@ =~= mid + input@.skip(2).take(i - 2 + 1));
                        }
                        i += 1;
                    }
                    proof {
                        if input@.len() >= 2 {
                            assert(input@.skip(2).take(input@.len() - 2) =~= input@.skip(2));
                            assert(out@ =~= h@ + seq!['/'] + input@.skip(2));
                        } else {
                            assert(out@ =~= h@ + seq!['/'] + Seq::<char>::empty());
                        }
                    }
                    Ok(out)
                },
                None => Err(ConfigError::NoHomeDirectory),
            }
        } else {
            Ok(chars)
        }
    } else {
        Ok(chars)
    }
}

/// Expand a configured path: `~`-relative paths are joined onto the
/// home directory that the environment reports; the error names the
/// missing home directory when the environment reports none.
pub fn get_expanded_path(input: &str) -> (r: Result<Vec<char>, ConfigError>)
    ensures
        (input@.len() >= 1 && input@[0] == '~') ==> match r {
            Ok(v) => exists|h: Seq<char>|
                h.len() >= 1 && Ok::<Seq<char>, ConfigError>(v@) == #[trigger] expanded_path(
                    input@,
                    Some(h),
                ),
            Err(e) => e == ConfigError::NoHomeDirectory,
        },
        !(input@.len() >= 1 && input@[0] == '~') ==> match r {
            Ok(v) => v@ == input@,
            Err(e) => false,
        },
{
    let home = home_directory();
    match home {
        Some(h) => {
            let r = expand_path(input, Some(h.as_str()));
            proof {
                if input@.len() >= 1 && input@[0] == '~' {
                    assert(expanded_path(input@, Some(h@)) is Ok);
                }
            }
            r
        },
        None => expand_path(input, None),
    }
}

} // verus!
