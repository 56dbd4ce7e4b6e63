//! Character-level text helpers shared by the renaming rules.
//!
//! Names are handled as sequences of `char`.  Where the renaming rules
//! measure a name in bytes (as `str::len` does), the byte length is the
//! UTF-8 length of the characters, given by [`byte_len`].

use vstd::prelude::*;
use vstd::arithmetic::div_mod::lemma_add_mod_noop;

verus! {

/// Number of bytes that `c` takes in UTF-8.
pub open spec fn utf8_width(c: char) -> nat {
    if (c as u32) < 0x80 {
        1
    } else if (c as u32) < 0x800 {
        2
    } else if (c as u32) < 0x10000 {
        3
    } else {
        4
    }
}

/// Number of bytes that `s` takes in UTF-8 (what `str::len` returns).
pub open spec fn byte_len(s: Seq<char>) -> nat
    decreases s.len(),
{
    if s.len() == 0 {
        0
    } else {
        byte_len(s.drop_last()) + utf8_width(s.last())
    }
}

/// The byte length of `s` as the renaming rules see it after `as u32`.
pub open spec fn len_u32(s: Seq<char>) -> u32 {
    (byte_len(s) % 0x1_0000_0000) as u32
}

/// `b` is a byte offset of `s` that falls between two characters
/// (or at either end), so that a string can be cut there.
pub open spec fn is_boundary(s: Seq<char>, b: int) -> bool {
    exists|k: int| 0 <= k <= s.len() && #[trigger] byte_len(s.take(k)) == b
}

/// The number of characters before the byte offset `b` of `s`
/// (meaningful where `is_boundary(s, b)`).
pub open spec fn char_index(s: Seq<char>, b: int) -> int {
    choose|k: int| 0 <= k <= s.len() && #[trigger] byte_len(s.take(k)) == b
}

/// Adding one character to a prefix adds that character's width.
pub proof fn lemma_byte_len_take_step(s: Seq<char>, k: int)
    requires
        0 <= k < s.len(),
    ensures
        byte_len(s.take(k + 1)) == byte_len(s.take(k)) + utf8_width(s[k]),
{
    assert(s.take(k + 1).drop_last() =~= s.take(k));
}

/// Longer prefixes take strictly more bytes.
pub proof fn lemma_byte_len_prefix_increasing(s: Seq<char>, i: int, j: int)
    requires
        0 <= i < j <= s.len(),
    ensures
        byte_len(s.take(i)) < byte_len(s.take(j)),
    decreases j - i,
{
    lemma_byte_len_take_step(s, j - 1);
    if i < j - 1 {
        lemma_byte_len_prefix_increasing(s, i, j - 1);
    }
}

/// At a boundary the character index is the unique prefix length with that byte length.
pub proof fn lemma_char_index_unique(s: Seq<char>, k: int)
    requires
        0 <= k <= s.len(),
    ensures
        is_boundary(s, byte_len(s.take(k)) as int),
        char_index(s, byte_len(s.take(k)) as int) == k,
{
    let b = byte_len(s.take(k)) as int;
    assert(is_boundary(s, b));
    let c = char_index(s, b);
    if c < k {
        lemma_byte_len_prefix_increasing(s, c, k);
    } else if c > k {
        lemma_byte_len_prefix_increasing(s, k, c);
    }
}

/// Byte length of a concatenation.
pub proof fn lemma_byte_len_concat(a: Seq<char>, b: Seq<char>)
    ensures
        byte_len(a + b) == byte_len(a) + byte_len(b),
    decreases b.len(),
{
    if b.len() == 0 {
        assert(a + b =~= a);
    } else {
        assert((a + b).drop_last() =~= a + b.drop_last());
        lemma_byte_len_concat(a, b.drop_last());
    }
}

/// A sequence takes no bytes exactly when it is empty.
pub proof fn lemma_byte_len_zero(s: Seq<char>)
    ensures
        (byte_len(s) == 0) == (s.len() == 0),
{
    if s.len() > 0 {
        assert(byte_len(s) >= utf8_width(s.last()));
    }
}

/// Every character of `s` is ASCII, one byte in UTF-8.
pub open spec fn is_ascii(s: Seq<char>) -> bool {
    forall|i: int| 0 <= i < s.len() ==> (#[trigger] s[i] as u32) < 0x80
}

/// ASCII text takes one byte per character.
pub proof fn lemma_ascii_byte_len(s: Seq<char>)
    requires
        is_ascii(s),
    ensures
        byte_len(s) == s.len(),
    decreases s.len(),
{
    if s.len() > 0 {
        let d = s.drop_last();
        assert forall|i: int| 0 <= i < d.len() implies (#[trigger] d[i] as u32) < 0x80 by {
            assert(d[i] == s[i]);
        }
        lemma_ascii_byte_len(d);
        assert((s.last() as u32) < 0x80);
    }
}

/// A part of ASCII text is ASCII.
pub proof fn lemma_ascii_subrange(s: Seq<char>, i: int, j: int)
    requires
        is_ascii(s),
        0 <= i <= j <= s.len(),
    ensures
        is_ascii(s.subrange(i, j)),
{
    assert forall|m: int| 0 <= m < s.subrange(i, j).len() implies (#[trigger] s.subrange(i, j)[m]
        as u32) < 0x80 by {
        assert(s.subrange(i, j)[m] == s[i + m]);
    }
}

/// A prefix of ASCII text is ASCII.
proof fn lemma_ascii_prefix(s: Seq<char>, k: int)
    requires
        is_ascii(s),
        0 <= k <= s.len(),
    ensures
        is_ascii(s.take(k)),
{
    assert forall|i: int| 0 <= i < s.take(k).len() implies (#[trigger] s.take(k)[i] as u32) < 0x80 by {
        assert(s.take(k)[i] == s[i]);
    }
}

/// In ASCII text a byte offset up to the length falls between two
/// characters, after that many characters.
pub proof fn lemma_ascii_offset(s: Seq<char>, k: int)
    requires
        is_ascii(s),
        0 <= k <= s.len(),
    ensures
        byte_len(s) == s.len(),
        is_boundary(s, k),
        char_index(s, k) == k,
{
    lemma_ascii_byte_len(s);
    lemma_ascii_prefix(s, k);
    lemma_ascii_byte_len(s.take(k));
    lemma_char_index_unique(s, k);
}

/// ASCII text short enough for `u32` has that `u32` byte length.
pub proof fn lemma_ascii_len_u32(s: Seq<char>)
    requires
        is_ascii(s),
        s.len() <= u32::MAX,
    ensures
        len_u32(s) == s.len(),
{
    lemma_ascii_byte_len(s);
}

/// Bytes of `c` in UTF-8.
pub fn char_width(c: char) -> (w: u32)
    ensures
        w == utf8_width(c),
{
    let u = c as u32;
    if u < 0x80 {
        1
    } else if u < 0x800 {
        2
    } else if u < 0x10000 {
        3
    } else {
        4
    }
}

/// The byte length of `s`, cast to `u32` as `str::len() as u32` does.
pub fn byte_len_u32(s: &Vec<char>) -> (r: u32)
    ensures
        r == len_u32(s@),
{
    let mut acc: u64 = 0;
    let mut i: usize = 0;
    while i < s.len()
        invariant
            i <= s.len(),
            acc < 0x1_0000_0000,
            acc == byte_len(s@.take(i as int)) % 0x1_0000_0000,
        decreases s.len() - i,
    {
        proof {
            lemma_byte_len_take_step(s@, i as int);
            lemma_add_mod_noop(
                byte_len(s@.take(i as int)) as int,
                utf8_width(s@[i as int]) as int,
                0x1_0000_0000,
            );
        }
        let w = char_width(s[i]);
        acc = (acc + w as u64) % 0x1_0000_0000;
        i = i + 1;
    }
    assert(s@.take(s.len() as int) =~= s@);
    acc as u32
}

/// A sequence takes at most four bytes per character.
pub proof fn lemma_byte_len_bound(s: Seq<char>)
    ensures
        byte_len(s) <= 4 * s.len(),
    decreases s.len(),
{
    if s.len() > 0 {
        lemma_byte_len_bound(s.drop_last());
    }
}

/// The exact byte length of `s`.
pub fn byte_len_exact(s: &Vec<char>) -> (r: u128)
    ensures
        r == byte_len(s@),
{
    let mut acc: u128 = 0;
    let mut i: usize = 0;
    while i < s.len()
        invariant
            i <= s.len(),
            acc == byte_len(s@.take(i as int)),
        decreases s.len() - i,
    {
        proof {
            lemma_byte_len_take_step(s@, i as int);
            lemma_byte_len_bound(s@.take(i as int));
        }
        let w = char_width(s[i]);
        acc = acc + w as u128;
        i = i + 1;
    }
    assert(s@.take(s.len() as int) =~= s@);
    acc
}

/// The number of characters before byte offset `b` of `s`, or `None`
/// where `b` does not fall between two characters.
pub fn char_index_at_byte(s: &Vec<char>, b: u128) -> (r: Option<usize>)
    ensures
        r.is_some() == is_boundary(s@, b as int),
        r matches Some(k) ==> k as int == char_index(s@, b as int) && k <= s.len(),
{
    let mut acc: u128 = 0;
    let mut i: usize = 0;
    while i < s.len() && acc < b
        invariant
            i <= s.len(),
            acc == byte_len(s@.take(i as int)),
            forall|k: int| 0 <= k < i ==> byte_len(#[trigger] s@.take(k)) < b,
        decreases s.len() - i,
    {
        proof {
            lemma_byte_len_take_step(s@, i as int);
            lemma_byte_len_bound(s@.take(i as int));
        }
        let w = char_width(s[i]);
        acc = acc + w as u128;
        i = i + 1;
    }
    proof {
        lemma_char_index_unique(s@, i as int);
    }
    if acc == b {
        Some(i)
    } else {
        proof {
            assert forall|k: int| 0 <= k <= s.len() implies byte_len(#[trigger] s@.take(k))
                != b by {
                if k > i {
                    lemma_byte_len_prefix_increasing(s@, i as int, k);
                }
            }
        }
        None
    }
}

/// The characters of a string, in order.
pub fn chars_of(s: &str) -> (r: Vec<char>)
    ensures
        r@ == s@,
{
    let mut r: Vec<char> = Vec::new();
    for c in it: s.chars()
        invariant
            r@ == it.seq().take(it.index() as int),
            it.seq() == s@,
    {
        r.push(c);
    }
    r
}

/// Builds a `String` from characters (`String: FromIterator<char>`).
#[verifier::external_body]
pub(crate) fn string_of(v: &Vec<char>) -> (r: String)
    ensures
        r@ == v@,
{
    v.iter().collect()
}

/// What `str::to_lowercase` returns for the given characters.
pub uninterp spec fn lowercase(s: Seq<char>) -> Seq<char>;

/// What `str::to_uppercase` returns for the given characters.
pub uninterp spec fn uppercase(s: Seq<char>) -> Seq<char>;

/// `str::to_lowercase`: the Unicode lowercase mapping of a string.  Its
/// result is a function of the characters alone (named `lowercase`);
/// the mapping tables themselves are not restated here.
#[verifier::external_body]
pub(crate) fn str_to_lowercase(s: &str) -> (r: String)
    ensures
        r@ == lowercase(s@),
{
    s.to_lowercase()
}

/// `str::to_uppercase`: the Unicode uppercase mapping of a string.  Its
/// result is a function of the characters alone (named `uppercase`);
/// the mapping tables themselves are not restated here.
#[verifier::external_body]
pub(crate) fn str_to_uppercase(s: &str) -> (r: String)
    ensures
        r@ == uppercase(s@),
{
    s.to_uppercase()
}

/// The lowercase mapping of the characters.
pub fn to_lowercase(s: &Vec<char>) -> (r: Vec<char>)
    ensures
        r@ == lowercase(s@),
{
    let st = string_of(s);
    let low = str_to_lowercase(st.as_str());
    chars_of(low.as_str())
}

/// The uppercase mapping of the characters.
pub fn to_uppercase(s: &Vec<char>) -> (r: Vec<char>)
    ensures
        r@ == uppercase(s@),
{
    let st = string_of(s);
    let up = str_to_uppercase(st.as_str());
    chars_of(up.as_str())
}

/// Copies `v[from..to]` onto the end of `out`.
pub fn extend_range(out: &mut Vec<char>, v: &Vec<char>, from: usize, to: usize)
    requires
        from <= to <= v.len(),
    ensures
        final(out)@ == old(out)@ + v@.subrange(from as int, to as int),
{
    let mut i = from;
    while i < to
        invariant
            from <= i <= to <= v.len(),
            out@ == old(out)@ + v@.subrange(from as int, i as int),
        decreases to - i,
    {
        out.push(v[i]);
        i = i + 1;
        assert(v@.subrange(from as int, i as int) =~= v@.subrange(from as int, i - 1 as int).push(
            v@[i - 1],
        ));
    }
}

/// `v[from..to]` as a new vector.
pub fn slice_chars(v: &Vec<char>, from: usize, to: usize) -> (r: Vec<char>)
    requires
        from <= to <= v.len(),
    ensures
        r@ == v@.subrange(from as int, to as int),
{
    let mut r: Vec<char> = Vec::new();
    extend_range(&mut r, v, from, to);
    assert(Seq::<char>::empty() + v@.subrange(from as int, to as int) =~= v@.subrange(
        from as int,
        to as int,
    ));
    r
}

/// `a + b` as a new vector.
pub fn concat_chars(a: &Vec<char>, b: &Vec<char>) -> (r: Vec<char>)
    ensures
        r@ == a@ + b@,
{
    let mut r = slice_chars(a, 0, a.len());
    assert(a@.subrange(0, a.len() as int) =~= a@);
    extend_range(&mut r, b, 0, b.len());
    assert(b@.subrange(0, b.len() as int) =~= b@);
    r
}

/// The deep view of characters is their view.
pub proof fn lemma_chars_deep_view(v: Vec<char>)
    ensures
        v.deep_view() == v@,
{
    assert(v.deep_view() =~= v@);
}


/// A character takes as many bytes as its UTF-8 encoding.
proof fn lemma_width_is_encoding_len(c: char)
    ensures
        vstd::utf8::encode_scalar(c as u32).len() == utf8_width(c),
{
    vstd::utf8::char_is_scalar(c);
}

/// `byte_len` is the length of the UTF-8 encoding, which is what
/// `str::len` returns.
pub proof fn lemma_byte_len_is_utf8_len(s: Seq<char>)
    ensures
        byte_len(s) == vstd::utf8::encode_utf8(s).len(),
    decreases s.len(),
{
    if s.len() > 0 {
        let rest = s.drop_first();
        lemma_byte_len_is_utf8_len(rest);
        assert(s =~= seq![s[0]] + rest);
        lemma_byte_len_concat(seq![s[0]], rest);
        assert(seq![s[0]].drop_last() =~= Seq::<char>::empty());
        assert(byte_len(Seq::<char>::empty()) == 0);
        assert(byte_len(seq![s[0]]) == utf8_width(s[0]));
        lemma_width_is_encoding_len(s[0]);
    }
}

} // verus!
