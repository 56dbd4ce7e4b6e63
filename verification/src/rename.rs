//! The renaming rules.  A file name is cut into a stem and an extension;
//! the stem passes through six steps (name, case, replace, remove, add,
//! numbering) and the extension is put back unchanged.
//!
//! Each step is stated over `Seq<char>`.  A step that the renamer cannot
//! carry out on some input (it would cut a string inside a character, or
//! count past the end of it) is stated as `None` there.

use vstd::prelude::*;
use crate::text::{
    utf8_width,
    byte_len, char_index, char_index_at_byte, is_boundary, len_u32, slice_chars, concat_chars,
    extend_range, to_lowercase, byte_len_exact, chars_of, lemma_byte_len_bound, lemma_byte_len_concat, lemma_char_index_unique, byte_len_u32, lemma_byte_len_prefix_increasing, to_uppercase, lowercase, uppercase,
    is_ascii, lemma_ascii_offset, lemma_ascii_len_u32, lemma_ascii_subrange,
};

verus! {

/// What the name step does with the stem.
#[derive(Clone, Copy, Debug, PartialEq, Eq, Structural)]
pub enum NamingMode {
    Keep,
    Remove,
    Reverse,
}

/// What the case step does with the stem.
#[derive(Clone, Copy, Debug, PartialEq, Eq, Structural)]
pub enum CaseMode {
    Same,
    Upper,
    Lower,
}

/// Where the numbering step puts the number.
#[derive(Clone, Copy, Debug, PartialEq, Eq, Structural)]
pub enum NumberingMode {
    Off,
    Prefix,
    Suffix,
    PrefixAndSuffix,
    Insert,
}

// ---------------------------------------------------------------- name

/// The character that stands for `c` in a mirrored name: brackets,
/// angle brackets and slashes turn around, every other character stays.
pub open spec fn mirror(c: char) -> char {
    if c == '>' {
        '<'
    } else if c == '<' {
        '>'
    } else if c == '(' {
        ')'
    } else if c == ')' {
        '('
    } else if c == '{' {
        '}'
    } else if c == '}' {
        '{'
    } else if c == '[' {
        ']'
    } else if c == ']' {
        '['
    } else if c == '/' {
        '\\'
    } else if c == '\\' {
        '/'
    } else {
        c
    }
}

/// `s` read backwards, each character mirrored.
pub open spec fn reverse_mirrored(s: Seq<char>) -> Seq<char> {
    Seq::new(s.len(), |i: int| mirror(s[s.len() - 1 - i]))
}

/// The name step: keep the stem, replace it by `value`, or mirror it.
pub open spec fn name_step_spec(s: Seq<char>, mode: NamingMode, value: Seq<char>) -> Seq<char> {
    match mode {
        NamingMode::Keep => s,
        NamingMode::Remove => value,
        NamingMode::Reverse => reverse_mirrored(s),
    }
}

/// Mirrors one character.
pub fn mirror_char(c: char) -> (r: char)
    ensures
        r == mirror(c),
{
    if c == '>' {
        '<'
    } else if c == '<' {
        '>'
    } else if c == '(' {
        ')'
    } else if c == ')' {
        '('
    } else if c == '{' {
        '}'
    } else if c == '}' {
        '{'
    } else if c == '[' {
        ']'
    } else if c == ']' {
        '['
    } else if c == '/' {
        '\\'
    } else if c == '\\' {
        '/'
    } else {
        c
    }
}

/// The name step.
pub fn name_step(s: &Vec<char>, mode: NamingMode, value: &Vec<char>) -> (r: Vec<char>)
    ensures
        r@ == name_step_spec(s@, mode, value@),
{
    match mode {
        NamingMode::Keep => slice_chars(s, 0, s.len()),
        NamingMode::Remove => slice_chars(value, 0, value.len()),
        NamingMode::Reverse => {
            let mut r: Vec<char> = Vec::new();
            let n = s.len();
            let mut i: usize = 0;
            while i < n
                invariant
                    n == s.len(),
                    i <= n,
                    r@ =~= reverse_mirrored(s@).take(i as int),
                decreases n - i,
            {
                r.push(mirror_char(s[n - 1 - i]));
                i = i + 1;
            }
            r
        },
    }
}

/// Mirroring twice gives the character back.
pub proof fn lemma_mirror_involution(c: char)
    ensures
        mirror(mirror(c)) == c,
{
}

/// Reversing a name twice gives the name back.
pub proof fn lemma_reverse_mirrored_involution(s: Seq<char>)
    ensures
        reverse_mirrored(reverse_mirrored(s)) == s,
{
    assert forall|i: int| 0 <= i < s.len() implies reverse_mirrored(reverse_mirrored(s))[i]
        == s[i] by {
        lemma_mirror_involution(s[i]);
    }
    assert(reverse_mirrored(reverse_mirrored(s)) =~= s);
}


// ---------------------------------------------------------------- clamps

/// `x.clamp(lo, hi)` for `lo <= hi`.
pub open spec fn clamp_spec(x: u32, lo: u32, hi: u32) -> u32 {
    if x < lo {
        lo
    } else if x > hi {
        hi
    } else {
        x
    }
}

/// `u32::clamp`, which the renaming rules use on byte offsets.
pub fn clamp_u32(x: u32, lo: u32, hi: u32) -> (r: u32)
    requires
        lo <= hi,
    ensures
        r == clamp_spec(x, lo, hi),
{
    if x < lo {
        lo
    } else if x > hi {
        hi
    } else {
        x
    }
}

// ---------------------------------------------------------------- case

/// The whole-string case conversion of `mode`.
pub open spec fn convert_case(mode: CaseMode, s: Seq<char>) -> Seq<char> {
    match mode {
        CaseMode::Lower => lowercase(s),
        CaseMode::Upper => uppercase(s),
        CaseMode::Same => s,
    }
}

/// The case step.  With `Lower` or `Upper` the stem is converted, except
/// the bytes `from..to` (clamped to the stem) when `to >= 1`: the part
/// before them and the part after them are converted separately and the
/// kept part is left as it is.  `None` where `to >= 1` and the stem is
/// empty, or a clamped offset falls inside a character.
pub open spec fn case_step_spec(s: Seq<char>, mode: CaseMode, from: u32, to: u32) -> Option<
    Seq<char>,
> {
    if mode == CaseMode::Same {
        Some(s)
    } else if to >= 1 {
        let n = len_u32(s);
        let cf = clamp_spec(from, 0, n);
        let ct = clamp_spec(to, cf, n);
        if s.len() == 0 || !is_boundary(s, cf as int) || !is_boundary(s, ct as int) {
            None
        } else {
            let i = char_index(s, cf as int);
            let j = char_index(s, ct as int);
            let keep = s.subrange(i, j);
            let rest = convert_case(mode, s.skip(j));
            if cf == 0 {
                Some(keep + rest)
            } else {
                Some(convert_case(mode, s.take(i)) + keep + rest)
            }
        }
    } else {
        Some(convert_case(mode, s))
    }
}

/// Converts `s` as `mode` says (`Lower` or `Upper`).
fn convert_case_exec(mode: CaseMode, s: &Vec<char>) -> (r: Vec<char>)
    requires
        mode != CaseMode::Same,
    ensures
        r@ == convert_case(mode, s@),
{
    if mode == CaseMode::Lower {
        to_lowercase(s)
    } else {
        to_uppercase(s)
    }
}

/// The case step.
pub fn case_step(s: &Vec<char>, mode: CaseMode, from: u32, to: u32) -> (r: Option<Vec<char>>)
    ensures
        r.deep_view() == case_step_spec(s@, mode, from, to),
{
    if mode == CaseMode::Same {
        return Some(slice_chars(s, 0, s.len()));
    }
    if to >= 1 {
        let n = byte_len_u32(s);
        let cf = clamp_u32(from, 0, n);
        let ct = clamp_u32(to, cf, n);
        if s.len() == 0 {
            return None;
        }
        let oi = char_index_at_byte(s, cf as u128);
        let oj = char_index_at_byte(s, ct as u128);
        match (oi, oj) {
            (Some(i), Some(j)) => {
                proof {
                    if i > j {
                        lemma_byte_len_prefix_increasing(s@, j as int, i as int);
                    }
                }
                let keep = slice_chars(s, i, j);
                let tail = slice_chars(s, j, s.len());
                let rest = convert_case_exec(mode, &tail);
                assert(tail@ =~= s@.skip(j as int));
                if cf == 0 {
                    Some(concat_chars(&keep, &rest))
                } else {
                    let head = slice_chars(s, 0, i);
                    assert(head@ =~= s@.take(i as int));
                    let front = convert_case_exec(mode, &head);
                    let fk = concat_chars(&front, &keep);
                    Some(concat_chars(&fk, &rest))
                }
            },
            _ => None,
        }
    } else {
        Some(convert_case_exec(mode, s))
    }
}


// ---------------------------------------------------------------- replace

/// `p` occurs in `s` starting at character `k`.
pub open spec fn matches_at(s: Seq<char>, p: Seq<char>, k: int) -> bool {
    0 <= k && k + p.len() <= s.len() && s.subrange(k, k + p.len()) == p
}

/// The first character index, from `k` on, at which `p` occurs in `s`
/// (what `str::find` gives, counted in characters).
pub open spec fn first_match_from(s: Seq<char>, p: Seq<char>, k: int) -> Option<int>
    decreases s.len() + 1 - k,
{
    if k < 0 || k + p.len() > s.len() {
        None
    } else if matches_at(s, p, k) {
        Some(k)
    } else {
        first_match_from(s, p, k + 1)
    }
}

/// `s` with its first occurrence of `p` replaced by `r`.
pub open spec fn replace_first(s: Seq<char>, p: Seq<char>, r: Seq<char>) -> Seq<char> {
    match first_match_from(s, p, 0) {
        Some(k) => s.take(k) + r + s.skip(k + p.len()),
        None => s,
    }
}

/// Every character of `s` followed by `r`.
pub open spec fn interleave(s: Seq<char>, r: Seq<char>) -> Seq<char>
    decreases s.len(),
{
    if s.len() == 0 {
        s
    } else {
        seq![s[0]] + r + interleave(s.skip(1), r)
    }
}

/// `s` with every occurrence of `p` replaced by `r`, scanning from the
/// left and not overlapping (what `str::replace` does); an empty `p`
/// occurs before every character and at the end.
pub open spec fn replace_all(s: Seq<char>, p: Seq<char>, r: Seq<char>) -> Seq<char>
    decreases s.len(),
{
    if p.len() == 0 {
        r + interleave(s, r)
    } else if s.len() == 0 {
        s
    } else if matches_at(s, p, 0) {
        r + replace_all(s.skip(p.len() as int), p, r)
    } else {
        seq![s[0]] + replace_all(s.skip(1), p, r)
    }
}

/// The replace step: the first occurrence only, or all of them.
pub open spec fn replace_step_spec(s: Seq<char>, p: Seq<char>, r: Seq<char>, first: bool) -> Seq<
    char,
> {
    if first {
        replace_first(s, p, r)
    } else {
        replace_all(s, p, r)
    }
}

proof fn lemma_matches_at_skip(s: Seq<char>, p: Seq<char>, i: int)
    requires
        0 <= i <= s.len(),
    ensures
        matches_at(s.skip(i), p, 0) == matches_at(s, p, i),
{
    if i + p.len() <= s.len() {
        assert(s.skip(i).subrange(0, p.len() as int) =~= s.subrange(i, i + p.len()));
    }
}

/// Whether `p` occurs in `s` at character `k`.
pub fn matches_at_exec(s: &Vec<char>, p: &Vec<char>, k: usize) -> (r: bool)
    ensures
        r == matches_at(s@, p@, k as int),
{
    if k > s.len() || p.len() > s.len() - k {
        return false;
    }
    let mut j: usize = 0;
    while j < p.len()
        invariant
            k + p.len() <= s.len(),
            j <= p.len(),
            forall|m: int| 0 <= m < j ==> s@[k + m] == p@[m],
        decreases p.len() - j,
    {
        if s[k + j] != p[j] {
            assert(s@.subrange(k as int, k + p.len())[j as int] != p@[j as int]);
            return false;
        }
        j = j + 1;
    }
    assert(s@.subrange(k as int, k + p.len()) =~= p@);
    true
}

/// The first character index at which `p` occurs in `s`.
pub fn find_first(s: &Vec<char>, p: &Vec<char>) -> (r: Option<usize>)
    ensures
        match r {
            Some(k) => first_match_from(s@, p@, 0) == Some(k as int),
            None => first_match_from(s@, p@, 0) is None,
        },
        r matches Some(k) ==> k + p.len() <= s.len(),
{
    if p.len() > s.len() {
        return None;
    }
    let last = s.len() - p.len();
    let mut k: usize = 0;
    loop
        invariant
            last + p.len() == s.len(),
            k <= last,
            first_match_from(s@, p@, 0) == first_match_from(s@, p@, k as int),
        decreases last - k,
    {
        if matches_at_exec(s, p, k) {
            return Some(k);
        }
        if k == last {
            assert(first_match_from(s@, p@, k + 1) is None);
            return None;
        }
        k = k + 1;
    }
}

/// `s` with its first occurrence of `p` replaced by `r`.
pub fn replace_first_exec(s: &Vec<char>, p: &Vec<char>, r: &Vec<char>) -> (out: Vec<char>)
    ensures
        out@ == replace_first(s@, p@, r@),
{
    match find_first(s, p) {
        Some(k) => {
            let head = slice_chars(s, 0, k);
            let tail = slice_chars(s, k + p.len(), s.len());
            assert(head@ =~= s@.take(k as int));
            assert(tail@ =~= s@.skip(k + p.len()));
            let hr = concat_chars(&head, r);
            concat_chars(&hr, &tail)
        },
        None => slice_chars(s, 0, s.len()),
    }
}

/// `s` with every occurrence of `p` replaced by `r`.
pub fn replace_all_exec(s: &Vec<char>, p: &Vec<char>, r: &Vec<char>) -> (out: Vec<char>)
    ensures
        out@ == replace_all(s@, p@, r@),
{
    let mut out: Vec<char> = Vec::new();
    let mut i: usize = 0;
    assert(s@.skip(0) =~= s@);
    if p.len() == 0 {
        extend_range(&mut out, r, 0, r.len());
        assert(out@ =~= r@);
        while i < s.len()
            invariant
                p@.len() == 0,
                i <= s.len(),
                out@ + interleave(s@.skip(i as int), r@) == replace_all(s@, p@, r@),
            decreases s.len() - i,
        {
            assert(s@.skip(i as int).skip(1) =~= s@.skip(i + 1));
            out.push(s[i]);
            extend_range(&mut out, r, 0, r.len());
            i = i + 1;
            assert(out@ + interleave(s@.skip(i as int), r@) =~= replace_all(s@, p@, r@));
        }
        assert(s@.skip(i as int) =~= Seq::<char>::empty());
        assert(out@ =~= replace_all(s@, p@, r@));
        return out;
    }
    assert(s@.skip(0) =~= s@);
    while i < s.len()
        invariant
            p@.len() > 0,
            i <= s.len(),
            out@ + replace_all(s@.skip(i as int), p@, r@) == replace_all(s@, p@, r@),
        decreases s.len() - i,
    {
        proof {
            lemma_matches_at_skip(s@, p@, i as int);
        }
        if matches_at_exec(s, p, i) {
            assert(s@.skip(i as int).skip(p.len() as int) =~= s@.skip(i + p.len()));
            extend_range(&mut out, r, 0, r.len());
            assert(r@.subrange(0, r.len() as int) =~= r@);
            i = i + p.len();
        } else {
            assert(s@.skip(i as int).skip(1) =~= s@.skip(i + 1));
            out.push(s[i]);
            i = i + 1;
        }
        assert(out@ + replace_all(s@.skip(i as int), p@, r@) =~= replace_all(s@, p@, r@));
    }
    assert(s@.skip(i as int) =~= Seq::<char>::empty());
    assert(out@ =~= replace_all(s@, p@, r@));
    out
}

/// The replace step.
pub fn replace_step(s: &Vec<char>, p: &Vec<char>, r: &Vec<char>, first: bool) -> (out: Vec<char>)
    ensures
        out@ == replace_step_spec(s@, p@, r@, first),
{
    if first {
        replace_first_exec(s, p, r)
    } else {
        replace_all_exec(s, p, r)
    }
}


// ---------------------------------------------------------------- remove

/// `s` without its first `n` characters (empty when `n` reaches past the
/// end), as `chars().skip(n)` gives.
pub open spec fn skip_chars(s: Seq<char>, n: int) -> Seq<char> {
    if n >= s.len() {
        Seq::empty()
    } else {
        s.skip(n)
    }
}

/// The remove step: drop the first `first` characters, then the last
/// `last` characters, then the characters `from..to`; each count is first
/// clamped to the byte length of the stem at that point.  `None` where a
/// clamped count is more than the characters there are.
pub open spec fn remove_step_spec(s: Seq<char>, first: u32, last: u32, from: u32, to: u32) -> Option<
    Seq<char>,
> {
    let cfirst = clamp_spec(first, 0, len_u32(s));
    let s1 = if s.len() >= 1 {
        skip_chars(s, cfirst as int)
    } else {
        s
    };
    let clast = clamp_spec(last, 0, len_u32(s1));
    if s1.len() >= 1 && clast > s1.len() {
        None
    } else {
        let s2 = if s1.len() >= 1 {
            s1.take(s1.len() - clast)
        } else {
            s1
        };
        let rf = clamp_spec(from, 0, len_u32(s2));
        let rt = clamp_spec(to, rf, len_u32(s2));
        if rt >= 1 && s2.len() >= 1 {
            if rt > s2.len() {
                None
            } else {
                Some(s2.take(rf as int) + s2.skip(rt as int))
            }
        } else {
            Some(s2)
        }
    }
}

/// The remove step.
pub fn remove_step(s: &Vec<char>, first: u32, last: u32, from: u32, to: u32) -> (r: Option<
    Vec<char>,
>)
    ensures
        r.deep_view() == remove_step_spec(s@, first, last, from, to),
{
    let n0 = byte_len_u32(s);
    let cfirst = clamp_u32(first, 0, n0);
    let s1 = if s.len() >= 1 {
        if cfirst as usize >= s.len() {
            Vec::new()
        } else {
            slice_chars(s, cfirst as usize, s.len())
        }
    } else {
        Vec::new()
    };
    assert(s1@ =~= (if s@.len() >= 1 {
        skip_chars(s@, cfirst as int)
    } else {
        s@
    }));
    let n1 = byte_len_u32(&s1);
    let clast = clamp_u32(last, 0, n1);
    if s1.len() >= 1 && clast as usize > s1.len() {
        return None;
    }
    let s2 = if s1.len() >= 1 {
        slice_chars(&s1, 0, s1.len() - clast as usize)
    } else {
        Vec::new()
    };
    assert(s2@ =~= (if s1@.len() >= 1 {
        s1@.take(s1@.len() - clast)
    } else {
        s1@
    }));
    let n2 = byte_len_u32(&s2);
    let rf = clamp_u32(from, 0, n2);
    let rt = clamp_u32(to, rf, n2);
    if rt >= 1 && s2.len() >= 1 {
        if rt as usize > s2.len() {
            None
        } else {
            let head = slice_chars(&s2, 0, rf as usize);
            let tail = slice_chars(&s2, rt as usize, s2.len());
            assert(head@ =~= s2@.take(rf as int));
            assert(tail@ =~= s2@.skip(rt as int));
            Some(concat_chars(&head, &tail))
        }
    } else {
        Some(s2)
    }
}

// ---------------------------------------------------------------- add

/// Puts `ins` into `s` at byte offset `at` clamped to `s`; `None` where
/// that offset falls inside a character.
pub open spec fn insert_at_byte(s: Seq<char>, at: u32, ins: Seq<char>) -> Option<Seq<char>> {
    let a = clamp_spec(at, 0, len_u32(s));
    if is_boundary(s, a as int) {
        let k = char_index(s, a as int);
        Some(s.take(k) + ins + s.skip(k))
    } else {
        None
    }
}

/// The add step: a non-empty prefix goes in front, a non-empty insert at
/// byte offset `at`, a non-empty suffix at the end.
pub open spec fn add_step_spec(
    s: Seq<char>,
    prefix: Seq<char>,
    insert: Seq<char>,
    at: u32,
    suffix: Seq<char>,
) -> Option<Seq<char>> {
    let s1 = if prefix.len() >= 1 {
        prefix + s
    } else {
        s
    };
    let s2 = if insert.len() >= 1 {
        insert_at_byte(s1, at, insert)
    } else {
        Some(s1)
    };
    match s2 {
        Some(t) => Some(
            if suffix.len() >= 1 {
                t + suffix
            } else {
                t
            },
        ),
        None => None,
    }
}

/// Puts `ins` into `s` at byte offset `at` clamped to `s`.
pub fn insert_at_byte_exec(s: &Vec<char>, at: u32, ins: &Vec<char>) -> (r: Option<Vec<char>>)
    ensures
        r.deep_view() == insert_at_byte(s@, at, ins@),
{
    let n = byte_len_u32(s);
    let a = clamp_u32(at, 0, n);
    match char_index_at_byte(s, a as u128) {
        Some(k) => {
            let head = slice_chars(s, 0, k);
            let tail = slice_chars(s, k, s.len());
            assert(head@ =~= s@.take(k as int));
            assert(tail@ =~= s@.skip(k as int));
            let hi = concat_chars(&head, ins);
            Some(concat_chars(&hi, &tail))
        },
        None => None,
    }
}

/// The add step.
pub fn add_step(
    s: &Vec<char>,
    prefix: &Vec<char>,
    insert: &Vec<char>,
    at: u32,
    suffix: &Vec<char>,
) -> (r: Option<Vec<char>>)
    ensures
        r.deep_view() == add_step_spec(s@, prefix@, insert@, at, suffix@),
{
    let s1 = if prefix.len() >= 1 {
        concat_chars(prefix, s)
    } else {
        slice_chars(s, 0, s.len())
    };
    assert(s@.subrange(0, s@.len() as int) =~= s@);
    let s2 = if insert.len() >= 1 {
        match insert_at_byte_exec(&s1, at, insert) {
            Some(t) => t,
            None => return None,
        }
    } else {
        s1
    };
    if suffix.len() >= 1 {
        Some(concat_chars(&s2, suffix))
    } else {
        Some(s2)
    }
}

// ---------------------------------------------------------------- numbering

/// The decimal digit for `d < 10`.
pub open spec fn digit_char(d: nat) -> char {
    if d == 0 {
        '0'
    } else if d == 1 {
        '1'
    } else if d == 2 {
        '2'
    } else if d == 3 {
        '3'
    } else if d == 4 {
        '4'
    } else if d == 5 {
        '5'
    } else if d == 6 {
        '6'
    } else if d == 7 {
        '7'
    } else if d == 8 {
        '8'
    } else {
        '9'
    }
}

/// `n` written in decimal, without leading zeros.
pub open spec fn decimal(n: nat) -> Seq<char>
    decreases n,
{
    if n < 10 {
        seq![digit_char(n)]
    } else {
        decimal(n / 10).push(digit_char(n % 10))
    }
}

/// The number text: `n` in decimal, padded with leading zeros to `pad`
/// characters where it is shorter.
pub open spec fn number_text(n: u32, pad: u32) -> Seq<char> {
    let d = decimal(n as nat);
    if d.len() < pad {
        Seq::new((pad - d.len()) as nat, |i: int| '0') + d
    } else {
        d
    }
}

/// The numbering step: where `mode` says, put `number` into the stem
/// (for `Insert`, at byte offset `at` clamped to the stem).
pub open spec fn numbering_step_spec(s: Seq<char>, mode: NumberingMode, at: u32, number: Seq<char>) -> Option<
    Seq<char>,
> {
    match mode {
        NumberingMode::Prefix => Some(number + s),
        NumberingMode::Suffix => Some(s + number),
        NumberingMode::Insert => insert_at_byte(s, at, number),
        NumberingMode::PrefixAndSuffix => Some(number + s + number),
        NumberingMode::Off => Some(s),
    }
}

fn digit_char_exec(d: u32) -> (c: char)
    requires
        d < 10,
    ensures
        c == digit_char(d as nat),
{
    if d == 0 {
        '0'
    } else if d == 1 {
        '1'
    } else if d == 2 {
        '2'
    } else if d == 3 {
        '3'
    } else if d == 4 {
        '4'
    } else if d == 5 {
        '5'
    } else if d == 6 {
        '6'
    } else if d == 7 {
        '7'
    } else if d == 8 {
        '8'
    } else {
        '9'
    }
}

/// Appends `n` in decimal to `out`.
pub fn push_decimal(out: &mut Vec<char>, n: u32)
    ensures
        final(out)@ == old(out)@ + decimal(n as nat),
    decreases n,
{
    if n >= 10 {
        push_decimal(out, n / 10);
    }
    out.push(digit_char_exec(n % 10));
    assert(decimal(n as nat) =~= if n < 10 {
        seq![digit_char(n as nat)]
    } else {
        decimal((n / 10) as nat).push(digit_char((n % 10) as nat))
    });
}

/// The number text of `n` padded to `pad` characters.
pub fn number_text_exec(n: u32, pad: u32) -> (r: Vec<char>)
    ensures
        r@ == number_text(n, pad),
{
    let mut digits: Vec<char> = Vec::new();
    push_decimal(&mut digits, n);
    assert(digits@ =~= decimal(n as nat));
    if (digits.len() as u64) < pad as u64 {
        let padding = pad as usize - digits.len();
        let mut r: Vec<char> = Vec::new();
        let mut i: usize = 0;
        while i < padding
            invariant
                i <= padding,
                r@ =~= Seq::new(i as nat, |j: int| '0'),
            decreases padding - i,
        {
            r.push('0');
            i = i + 1;
        }
        extend_range(&mut r, &digits, 0, digits.len());
        assert(digits@.subrange(0, digits.len() as int) =~= digits@);
        r
    } else {
        digits
    }
}

/// The numbering step.
pub fn numbering_step(s: &Vec<char>, mode: NumberingMode, at: u32, number: &Vec<char>) -> (r:
    Option<Vec<char>>)
    ensures
        r.deep_view() == numbering_step_spec(s@, mode, at, number@),
{
    match mode {
        NumberingMode::Prefix => Some(concat_chars(number, s)),
        NumberingMode::Suffix => Some(concat_chars(s, number)),
        NumberingMode::Insert => insert_at_byte_exec(s, at, number),
        NumberingMode::PrefixAndSuffix => {
            let ns = concat_chars(number, s);
            Some(concat_chars(&ns, number))
        },
        NumberingMode::Off => Some(slice_chars(s, 0, s.len())),
    }
}


// ---------------------------------------------------------------- stem and extension

/// Index of the last `'.'` in `s`, or `-1` where there is none.
pub open spec fn last_dot(s: Seq<char>) -> int
    decreases s.len(),
{
    if s.len() == 0 {
        -1
    } else if s.last() == '.' {
        s.len() - 1
    } else {
        last_dot(s.drop_last())
    }
}

/// A file name whose extension `Path` reads alike on every platform: no
/// `'/'` or `'\\'` in it (so it is one path component, after at most a
/// drive prefix such as `C:`), and its last dot, where it has one, does
/// not come right after a `':'`.
pub open spec fn is_portable_file_name(s: Seq<char>) -> bool {
    &&& !s.contains('/')
    &&& !s.contains('\\')
    &&& !(last_dot(s) >= 1 && s[last_dot(s) - 1] == ':')
}

/// The extension of a file name as `Path::extension` documents it:
/// none without a `'.'`, none when the only `'.'` opens the name,
/// otherwise the part after the last `'.'`.
pub open spec fn documented_extension(s: Seq<char>) -> Option<Seq<char>> {
    if last_dot(s) >= 1 {
        Some(s.skip(last_dot(s) + 1))
    } else {
        None
    }
}

/// The text of an extension; empty where there is none.
pub open spec fn extension_text(ext: Option<Seq<char>>) -> Seq<char> {
    match ext {
        Some(e) => e,
        None => Seq::empty(),
    }
}

/// What `Path::new(name).extension()` returns, as characters.
pub uninterp spec fn path_extension(name: Seq<char>) -> Option<Seq<char>>;

/// `std::path::Path::extension` on the path `name`.  The result is a
/// function of `name` (named `path_extension`).  For a name with no `'/'`
/// or `'\\'`, `Path` sees one component after at most a drive prefix
/// (`C:`, Windows only); where the last dot does not follow a `':'`, the
/// extension text is then the documented one (they can differ only as
/// `None` against an empty extension, for `..` and `C:..`).  For other
/// names, whose reading depends on the platform's separators and
/// prefixes, nothing more is stated.
#[verifier::external_body]
pub(crate) fn path_extension_of(name: &str) -> (r: Option<String>)
    ensures
        r.deep_view() == path_extension(name@),
        is_portable_file_name(name@) ==> extension_text(r.deep_view()) == extension_text(
            documented_extension(name@),
        ),
{
    match std::path::Path::new(name).extension() {
        Some(e) => Some(e.to_string_lossy().into_owned()),
        None => None,
    }
}

/// Cuts a name into stem and extension, given the name's extension as
/// `Path::extension` reports it: where there is a non-empty extension the
/// cut is one byte (the dot) before it, so the extension part keeps the
/// dot; otherwise the extension part is empty.  `None` where the cut
/// would fall before the start or inside a character.
pub open spec fn split_name_spec(name: Seq<char>, ext: Option<Seq<char>>) -> Option<
    (Seq<char>, Seq<char>),
> {
    let e = extension_text(ext);
    if e.len() >= 1 {
        if byte_len(name) < byte_len(e) + 1 {
            None
        } else {
            let mid = byte_len(name) - byte_len(e) - 1;
            if is_boundary(name, mid) {
                let k = char_index(name, mid);
                Some((name.take(k), name.skip(k)))
            } else {
                None
            }
        }
    } else {
        Some((name, Seq::empty()))
    }
}

/// Cuts a name into stem and extension.
pub fn split_name(name: &Vec<char>, ext: &Option<String>) -> (r: Option<(Vec<char>, Vec<char>)>)
    ensures
        r.deep_view() == split_name_spec(name@, ext.deep_view()),
{
    let e: Vec<char> = match ext {
        Some(e) => chars_of(e.as_str()),
        None => Vec::new(),
    };
    assert(e@ =~= (match ext.deep_view() {
        Some(e) => e,
        None => Seq::<char>::empty(),
    }));
    if e.len() >= 1 {
        let bn = byte_len_exact(name);
        let be = byte_len_exact(&e);
        proof {
            lemma_byte_len_bound(e@);
        }
        if bn < be + 1 {
            return None;
        }
        match char_index_at_byte(name, bn - be - 1) {
            Some(k) => {
                let stem = slice_chars(name, 0, k);
                let tail = slice_chars(name, k, name.len());
                assert(stem@ =~= name@.take(k as int));
                assert(tail@ =~= name@.skip(k as int));
                Some((stem, tail))
            },
            None => None,
        }
    } else {
        let stem = slice_chars(name, 0, name.len());
        assert(stem@ =~= name@);
        Some((stem, Vec::new()))
    }
}

/// Cuts a file name into stem and extension part, as its extension
/// (`Path::extension`) says.
pub fn split_file_name(name: &str) -> (r: Option<(Vec<char>, Vec<char>)>)
    ensures
        r.deep_view() == split_name_spec(name@, path_extension(name@)),
        is_portable_file_name(name@) ==> r.deep_view() == split_name_spec(
            name@,
            documented_extension(name@),
        ),
        is_portable_file_name(name@) ==> extension_text(path_extension(name@)) == extension_text(
            documented_extension(name@),
        ),
{
    let chars = chars_of(name);
    let ext = path_extension_of(name);
    split_name(&chars, &ext)
}

/// The two parts of a split name put together give the name back.
pub proof fn lemma_split_name_rejoins(name: Seq<char>, ext: Option<Seq<char>>)
    requires
        split_name_spec(name, ext) is Some,
    ensures
        ({
            let (stem, tail) = split_name_spec(name, ext).unwrap();
            stem + tail == name
        }),
{
    let e = match ext {
        Some(e) => e,
        None => Seq::empty(),
    };
    if e.len() >= 1 {
        let k = char_index(name, byte_len(name) - byte_len(e) - 1);
        assert(name.take(k) + name.skip(k) =~= name);
    } else {
        assert(name + Seq::<char>::empty() =~= name);
    }
}


/// `last_dot` is the index of the last `'.'`.
pub proof fn lemma_last_dot(s: Seq<char>)
    ensures
        -1 <= last_dot(s) < s.len(),
        last_dot(s) >= 0 ==> s[last_dot(s)] == '.',
        forall|k: int| last_dot(s) < k < s.len() ==> s[k] != '.',
    decreases s.len(),
{
    if s.len() > 0 && s.last() != '.' {
        let d = s.drop_last();
        lemma_last_dot(d);
        assert forall|k: int| last_dot(s) < k < s.len() implies s[k] != '.' by {
            if k < s.len() - 1 {
                assert(d[k] == s[k]);
            }
        }
    }
}

/// A name with a non-empty documented extension is cut just before its last dot:
/// the stem is what precedes the dot, the extension part is the dot and
/// the extension.
pub proof fn lemma_documented_split(name: Seq<char>)
    requires
        documented_extension(name) matches Some(e) && e.len() >= 1,
    ensures
        split_name_spec(name, documented_extension(name)) == Some(
            (name.take(last_dot(name)), name.skip(last_dot(name))),
        ),
        name.skip(last_dot(name)) == seq!['.'] + documented_extension(name).unwrap(),
{
    lemma_last_dot(name);
    let d = last_dot(name);
    let e = name.skip(d + 1);
    assert(name =~= name.take(d) + seq!['.'] + e);
    lemma_byte_len_concat(name.take(d) + seq!['.'], e);
    lemma_byte_len_concat(name.take(d), seq!['.']);
    assert(seq!['.'].drop_last() =~= Seq::<char>::empty());
    assert(('.' as u32) == 46);
    assert(byte_len(Seq::<char>::empty()) == 0);
    assert(seq!['.'].last() == '.');
    assert(utf8_width('.') == 1);
    assert(byte_len(seq!['.']) == 1);
    lemma_char_index_unique(name, d);
    assert(name.skip(d) =~= seq!['.'] + e);
}


proof fn lemma_first_match_none(s: Seq<char>, p: Seq<char>, k: int)
    requires
        0 <= k,
        forall|j: int| !matches_at(s, p, j),
    ensures
        first_match_from(s, p, k) is None,
    decreases s.len() + 1 - k,
{
    if k + p.len() <= s.len() {
        assert(!matches_at(s, p, k));
        lemma_first_match_none(s, p, k + 1);
    }
}

proof fn lemma_replace_all_none(s: Seq<char>, p: Seq<char>, r: Seq<char>)
    requires
        p.len() > 0,
        forall|j: int| !matches_at(s, p, j),
    ensures
        replace_all(s, p, r) == s,
    decreases s.len(),
{
    if s.len() > 0 {
        assert(!matches_at(s, p, 0));
        let t = s.skip(1);
        assert forall|j: int| !matches_at(t, p, j) by {
            if matches_at(t, p, j) {
                assert(s.subrange(j + 1, j + 1 + p.len()) =~= t.subrange(j, j + p.len()));
                assert(matches_at(s, p, j + 1));
            }
        }
        lemma_replace_all_none(t, p, r);
        assert(seq![s[0]] + t =~= s);
    }
}

/// Replacing a text that does not occur in the stem leaves it unchanged.
pub proof fn lemma_replace_absent(s: Seq<char>, p: Seq<char>, r: Seq<char>, first: bool)
    requires
        p.len() > 0,
        forall|j: int| !matches_at(s, p, j),
    ensures
        replace_step_spec(s, p, r, first) == s,
{
    lemma_first_match_none(s, p, 0);
    lemma_replace_all_none(s, p, r);
}

/// Removing nothing leaves the stem unchanged.
pub proof fn lemma_remove_nothing(s: Seq<char>)
    ensures
        remove_step_spec(s, 0, 0, 0, 0) == Some(s),
{
    assert(s.skip(0) =~= s);
    assert(s.take(s.len() as int) =~= s);
}

/// The number text is the decimal number, padded to at least `pad`
/// characters with leading zeros.
pub proof fn lemma_number_text_len(n: u32, pad: u32)
    ensures
        number_text(n, pad).len() == if decimal(n as nat).len() < pad {
            pad as nat
        } else {
            decimal(n as nat).len()
        },
        number_text(n, pad).skip(number_text(n, pad).len() - decimal(n as nat).len()) == decimal(
            n as nat,
        ),
{
    let d = decimal(n as nat);
    if d.len() < pad {
        let z = Seq::new((pad - d.len()) as nat, |i: int| '0');
        assert((z + d).skip((z + d).len() - d.len()) =~= d);
    } else {
        assert(d.skip(0) =~= d);
    }
}


// ---------------------------------------------------------------- laws of the steps

/// The name step keeps the stem, puts the value in its place, or reads
/// the stem backwards: brackets, angle brackets and slashes turn around
/// and every other character is kept as it is.
pub proof fn lemma_name_step(s: Seq<char>, v: Seq<char>)
    ensures
        name_step_spec(s, NamingMode::Keep, v) == s,
        name_step_spec(s, NamingMode::Remove, v) == v,
        name_step_spec(s, NamingMode::Reverse, v).len() == s.len(),
        forall|i: int|
            0 <= i < s.len() ==> {
                let c = s[s.len() - 1 - i];
                let m = #[trigger] name_step_spec(s, NamingMode::Reverse, v)[i];
                &&& c == '(' ==> m == ')'
                &&& c == ')' ==> m == '('
                &&& c == '[' ==> m == ']'
                &&& c == ']' ==> m == '['
                &&& c == '{' ==> m == '}'
                &&& c == '}' ==> m == '{'
                &&& c == '<' ==> m == '>'
                &&& c == '>' ==> m == '<'
                &&& c == '/' ==> m == '\\'
                &&& c == '\\' ==> m == '/'
                &&& !(c == '(' || c == ')' || c == '[' || c == ']' || c == '{' || c == '}' || c
                    == '<' || c == '>' || c == '/' || c == '\\') ==> m == c
            },
{
}

/// Outside the kept byte range the case step applies the chosen mapping
/// and nothing else: on an ASCII stem with `from <= to <= len` and
/// `to >= 1`, the characters before `from` (if any) and from `to` on are
/// mapped, those in between kept; with `to == 0` the whole stem is mapped.
pub proof fn lemma_case_step(s: Seq<char>, from: u32, to: u32)
    ensures
        case_step_spec(s, CaseMode::Same, from, to) == Some(s),
        to == 0 ==> case_step_spec(s, CaseMode::Lower, from, to) == Some(lowercase(s)),
        to == 0 ==> case_step_spec(s, CaseMode::Upper, from, to) == Some(uppercase(s)),
        is_ascii(s) && 1 <= s.len() <= u32::MAX && 1 <= to && from <= to <= s.len() ==> {
            &&& case_step_spec(s, CaseMode::Lower, from, to) == Some(
                if from == 0 {
                    s.take(to as int) + lowercase(s.skip(to as int))
                } else {
                    lowercase(s.take(from as int)) + s.subrange(from as int, to as int) + lowercase(
                        s.skip(to as int),
                    )
                },
            )
            &&& case_step_spec(s, CaseMode::Upper, from, to) == Some(
                if from == 0 {
                    s.take(to as int) + uppercase(s.skip(to as int))
                } else {
                    uppercase(s.take(from as int)) + s.subrange(from as int, to as int) + uppercase(
                        s.skip(to as int),
                    )
                },
            )
        },
{
    if is_ascii(s) && 1 <= s.len() <= u32::MAX && 1 <= to && from <= to <= s.len() {
        lemma_ascii_len_u32(s);
        lemma_ascii_offset(s, from as int);
        lemma_ascii_offset(s, to as int);
        assert(s.subrange(0, to as int) =~= s.take(to as int));
    }
}

/// The first occurrence of `p` in `s` is at `k`: `p` stands there, and
/// nowhere before.
proof fn lemma_first_match_at(s: Seq<char>, p: Seq<char>, j: int, k: int)
    requires
        0 <= j <= k,
        k + p.len() <= s.len(),
        s.subrange(k, k + p.len()) == p,
        forall|m: int| j <= m < k ==> #[trigger] s.subrange(m, m + p.len()) != p,
    ensures
        first_match_from(s, p, j) == Some(k),
    decreases k - j,
{
    if j < k {
        assert(s.subrange(j, j + p.len()) != p);
        lemma_first_match_at(s, p, j + 1, k);
    }
}

/// Replacing the first occurrence changes exactly the text where `p`
/// first stands, character for character, and nothing else.
pub proof fn lemma_replace_first_occurrence(s: Seq<char>, p: Seq<char>, r: Seq<char>, k: int)
    requires
        0 <= k,
        k + p.len() <= s.len(),
        s.subrange(k, k + p.len()) == p,
        forall|m: int| 0 <= m < k ==> #[trigger] s.subrange(m, m + p.len()) != p,
    ensures
        replace_step_spec(s, p, r, true) == s.take(k) + r + s.skip(k + p.len()),
{
    lemma_first_match_at(s, p, 0, k);
}

/// Where `p` (non-empty) does not stand anywhere in `s`, character for
/// character, replacing it changes nothing.
pub proof fn lemma_replace_not_found(s: Seq<char>, p: Seq<char>, r: Seq<char>, first: bool)
    requires
        p.len() > 0,
        forall|m: int| 0 <= m && m + p.len() <= s.len() ==> #[trigger] s.subrange(m, m + p.len()) != p,
    ensures
        replace_step_spec(s, p, r, first) == s,
{
    assert forall|j: int| !matches_at(s, p, j) by {
        if 0 <= j && j + p.len() <= s.len() {
            assert(s.subrange(j, j + p.len()) != p);
        }
    }
    lemma_replace_absent(s, p, r, first);
}

/// Replacing all occurrences scans from the left: a name that starts with
/// `p` gets `r` for it and the rest is replaced on its own; a name that
/// does not start with `p` keeps its first character.
pub proof fn lemma_replace_all_scan(t: Seq<char>, p: Seq<char>, r: Seq<char>, c: char)
    requires
        p.len() > 0,
    ensures
        replace_step_spec(p + t, p, r, false) == r + replace_step_spec(t, p, r, false),
        (seq![c] + t).len() < p.len() || (seq![c] + t).take(p.len() as int) != p ==> replace_step_spec(
            seq![c] + t,
            p,
            r,
            false,
        ) == seq![c] + replace_step_spec(t, p, r, false),
{
    let s = p + t;
    assert(s.subrange(0, p.len() as int) =~= p);
    assert(s.skip(p.len() as int) =~= t);
    let u = seq![c] + t;
    if u.len() < p.len() || u.take(p.len() as int) != p {
        if p.len() <= u.len() {
            assert(u.subrange(0, p.len() as int) =~= u.take(p.len() as int));
        }
        assert(!matches_at(u, p, 0));
        assert(u.skip(1) =~= t);
        assert(u[0] == c);
    }
}

/// On an ASCII stem the counts of the remove step are characters: it drops
/// the first `first` and the last `last` characters, then the characters
/// `from..to` of what is left; the result is that much shorter.
pub proof fn lemma_remove_step_ascii(s: Seq<char>, first: u32, last: u32, from: u32, to: u32)
    requires
        is_ascii(s),
        s.len() <= u32::MAX,
        first + last <= s.len(),
        from <= to,
        to <= s.len() - first - last,
    ensures
        ({
            let mid = s.subrange(first as int, s.len() - last);
            remove_step_spec(s, first, last, from, to) == Some(
                mid.take(from as int) + mid.skip(to as int),
            )
        }),
        remove_step_spec(s, first, last, from, to).unwrap().len() == s.len() - first - last - (to
            - from),
{
    let n = s.len();
    lemma_ascii_len_u32(s);
    let s1 = s.skip(first as int);
    assert(s1 =~= s.subrange(first as int, n as int));
    lemma_ascii_subrange(s, first as int, n as int);
    lemma_ascii_len_u32(s1);
    if n >= 1 {
        if first as int >= n {
            assert(s1 =~= Seq::<char>::empty());
        }
        assert(skip_chars(s, first as int) =~= s1);
    } else {
        assert(s =~= s1);
    }
    let mid = s.subrange(first as int, n - last);
    if s1.len() >= 1 {
        assert(s1.take(s1.len() - last) =~= mid);
    } else {
        assert(s1 =~= mid);
    }
    lemma_ascii_subrange(s, first as int, n - last);
    lemma_ascii_len_u32(mid);
    if to >= 1 && mid.len() >= 1 {
    } else {
        assert(mid.take(from as int) + mid.skip(to as int) =~= mid);
    }
}

/// Without an insert the add step puts the prefix in front and the suffix
/// at the end.
pub proof fn lemma_add_step_ends(s: Seq<char>, prefix: Seq<char>, at: u32, suffix: Seq<char>)
    ensures
        add_step_spec(s, prefix, Seq::empty(), at, suffix) == Some(prefix + s + suffix),
{
    assert(Seq::<char>::empty() + s =~= s);
    assert(s + Seq::<char>::empty() =~= s);
    assert(prefix + s + Seq::<char>::empty() =~= prefix + s);
}

/// On ASCII text the add step puts the prefix in front, then the insert
/// after `at` characters of the prefixed stem, then the suffix at the end.
pub proof fn lemma_add_step_ascii(
    s: Seq<char>,
    prefix: Seq<char>,
    insert: Seq<char>,
    at: u32,
    suffix: Seq<char>,
)
    requires
        is_ascii(prefix + s),
        (prefix + s).len() <= u32::MAX,
        at <= (prefix + s).len(),
    ensures
        add_step_spec(s, prefix, insert, at, suffix) == Some(
            (prefix + s).take(at as int) + insert + (prefix + s).skip(at as int) + suffix,
        ),
{
    let t = prefix + s;
    if prefix.len() == 0 {
        assert(t =~= s);
    }
    lemma_ascii_len_u32(t);
    lemma_ascii_offset(t, at as int);
    assert(t.take(at as int) + t.skip(at as int) =~= t);
    assert(t.take(at as int) + Seq::<char>::empty() + t.skip(at as int) =~= t);
    assert(t + Seq::<char>::empty() =~= t);
    let u = t.take(at as int) + insert + t.skip(at as int);
    assert(u + Seq::<char>::empty() =~= u);
}

/// The numbering step puts the number in front, at the end, at both, or
/// (on ASCII text) after `at` characters; switched off it changes nothing.
pub proof fn lemma_numbering_step(s: Seq<char>, at: u32, number: Seq<char>)
    ensures
        numbering_step_spec(s, NumberingMode::Off, at, number) == Some(s),
        numbering_step_spec(s, NumberingMode::Prefix, at, number) == Some(number + s),
        numbering_step_spec(s, NumberingMode::Suffix, at, number) == Some(s + number),
        numbering_step_spec(s, NumberingMode::PrefixAndSuffix, at, number) == Some(
            number + s + number,
        ),
        is_ascii(s) && s.len() <= u32::MAX && at <= s.len() ==> numbering_step_spec(
            s,
            NumberingMode::Insert,
            at,
            number,
        ) == Some(s.take(at as int) + number + s.skip(at as int)),
{
    if is_ascii(s) && s.len() <= u32::MAX && at <= s.len() {
        lemma_ascii_len_u32(s);
        lemma_ascii_offset(s, at as int);
    }
}

} // verus!
