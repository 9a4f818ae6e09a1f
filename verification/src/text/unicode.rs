//! Character classes and UTF-8 bookkeeping shared by the text analyses.
use vstd::prelude::*;
use vstd::utf8::*;
use vstd::string::StringSliceAdditionalSpecFns;

verus! {

broadcast use vstd::utf8::char_is_scalar;

/// Number of bytes in the UTF-8 encoding of `c`.
pub open spec fn char_len(c: char) -> nat {
    if (c as u32) < 0x80 {
        1
    } else if (c as u32) < 0x800 {
        2
    } else if (c as u32) < 0x10000 {
        3
    } else {
        4
    }
}

/// Number of bytes in the UTF-8 encoding of `s`.
pub open spec fn byte_len(s: Seq<char>) -> nat
    decreases s.len(),
{
    if s.len() == 0 {
        0
    } else {
        byte_len(s.drop_last()) + char_len(s.last())
    }
}

/// Byte offset of the character with index `i` in `s`.
pub open spec fn byte_pos(s: Seq<char>, i: int) -> nat {
    byte_len(s.take(i))
}

pub proof fn lemma_byte_len_concat(a: Seq<char>, b: Seq<char>)
    ensures
        byte_len(a + b) == byte_len(a) + byte_len(b),
    decreases b.len(),
{
    if b.len() == 0 {
        assert(a + b =~= a);
    } else {
        assert((a + b).drop_last() =~= a + b.drop_last());
        lemma_byte_len_concat(a, b.drop_last());
    }
}

pub proof fn lemma_byte_pos_step(s: Seq<char>, i: int)
    requires
        0 <= i < s.len(),
    ensures
        byte_pos(s, i + 1) == byte_pos(s, i) + char_len(s[i]),
{
    assert(s.take(i + 1).drop_last() =~= s.take(i));
}

pub proof fn lemma_byte_pos_mono(s: Seq<char>, i: int, j: int)
    requires
        0 <= i <= j <= s.len(),
    ensures
        byte_pos(s, i) + (j - i) <= byte_pos(s, j),
        i < j ==> byte_pos(s, i) < byte_pos(s, j),
    decreases j - i,
{
    if i < j {
        lemma_byte_pos_step(s, j - 1);
        lemma_byte_pos_mono(s, i, j - 1);
    }
}

/// The bytes of a stretch of characters are the bytes between its ends.
pub proof fn lemma_byte_len_subrange(s: Seq<char>, a: int, b: int)
    requires
        0 <= a <= b <= s.len(),
    ensures
        byte_len(s.subrange(a, b)) == byte_pos(s, b) - byte_pos(s, a),
{
    assert(s.take(b) =~= s.take(a) + s.subrange(a, b));
    lemma_byte_len_concat(s.take(a), s.subrange(a, b));
}

/// Every character takes at least one byte.
pub proof fn lemma_len_le_byte_len(s: Seq<char>)
    ensures
        s.len() <= byte_len(s),
{
    lemma_byte_pos_mono(s, 0, s.len() as int);
    assert(s.take(s.len() as int) =~= s);
    assert(s.take(0) =~= Seq::<char>::empty());
}

pub proof fn lemma_byte_pos_le_len(s: Seq<char>, i: int)
    requires
        0 <= i <= s.len(),
    ensures
        byte_pos(s, i) <= byte_len(s),
{
    lemma_byte_pos_mono(s, i, s.len() as int);
    assert(s.take(s.len() as int) =~= s);
}

proof fn lemma_encode_scalar_len(c: char)
    ensures
        encode_scalar(c as u32).len() == char_len(c),
{
}

pub proof fn lemma_encode_utf8_len(s: Seq<char>)
    ensures
        encode_utf8(s).len() == byte_len(s),
    decreases s.len(),
{
    if s.len() > 0 {
        lemma_encode_utf8_len(s.drop_first());
        lemma_encode_scalar_len(s[0]);
        lemma_byte_len_concat(seq![s[0]], s.drop_first());
        assert(seq![s[0]] + s.drop_first() =~= s);
        assert(seq![s[0]].drop_last() =~= Seq::<char>::empty());
        let t = seq![s[0]];
        assert(t.drop_last() =~= Seq::<char>::empty());
        assert(byte_len(t.drop_last()) == 0);
        assert(byte_len(t) == char_len(s[0]));
        assert(encode_utf8(s) == encode_scalar(s[0] as u32) + encode_utf8(s.drop_first()));
    }
}

/// The byte length that `str::len` reports is the UTF-8 length of the characters.
pub proof fn lemma_str_len(s: &str)
    ensures
        s.spec_bytes().len() == byte_len(s@),
{
    lemma_encode_utf8_len(s@);
}

/// `char::len_utf8`.
pub fn len_utf8(c: char) -> (n: usize)
    ensures
        n == char_len(c),
{
    if (c as u32) < 0x80 {
        1
    } else if (c as u32) < 0x800 {
        2
    } else if (c as u32) < 0x10000 {
        3
    } else {
        4
    }
}

/// The characters of `s`, in order.
pub fn chars_of(s: &str) -> (v: Vec<char>)
    ensures
        v@ == s@,
        byte_len(s@) <= usize::MAX,
{
    proof {
        lemma_str_len(s);
    }
    let bytes = s.as_bytes();
    let _n = bytes.len();
    let mut v: Vec<char> = Vec::new();
    for c in it: s.chars()
        invariant
            v@ == it.seq().take(it.index()),
            it.seq() == s@,
    {
        v.push(c);
    }
    v
}

/// Byte offset of every character boundary of `chars`: entry `i` is the
/// offset of character `i`, and the last entry is the total byte length.
pub fn byte_offsets(chars: &Vec<char>) -> (offsets: Vec<usize>)
    requires
        byte_len(chars@) <= usize::MAX,
    ensures
        offsets.len() == chars.len() + 1,
        forall|i: int| 0 <= i <= chars.len() ==> offsets[i] == byte_pos(chars@, i),
{
    let mut offsets: Vec<usize> = Vec::new();
    let mut total: usize = 0;
    offsets.push(0);
    assert(chars@.take(0) =~= Seq::<char>::empty());
    let mut i: usize = 0;
    while i < chars.len()
        invariant
            i <= chars.len(),
            byte_len(chars@) <= usize::MAX,
            offsets.len() == i + 1,
            total == byte_pos(chars@, i as int),
            forall|k: int| 0 <= k <= i ==> offsets[k] == byte_pos(chars@, k),
        decreases chars.len() - i,
    {
        proof {
            lemma_byte_pos_step(chars@, i as int);
            lemma_byte_pos_le_len(chars@, i + 1);
        }
        total = total + len_utf8(chars[i]);
        offsets.push(total);
        i = i + 1;
    }
    offsets
}

/// Appends one character (`String::push`).
#[verifier::external_body]
pub(crate) fn push_char(s: &mut String, c: char)
    ensures
        final(s)@ == old(s)@.push(c),
{
    s.push(c);
}

/// The string made of `chars[lo..hi]`.
pub fn string_of(chars: &Vec<char>, lo: usize, hi: usize) -> (s: String)
    requires
        lo <= hi <= chars.len(),
    ensures
        s@ == chars@.subrange(lo as int, hi as int),
{
    let mut s = String::new();
    let mut i = lo;
    while i < hi
        invariant
            lo <= i <= hi <= chars.len(),
            s@ == chars@.subrange(lo as int, i as int),
        decreases hi - i,
    {
        push_char(&mut s, chars[i]);
        assert(chars@.subrange(lo as int, i + 1) =~= chars@.subrange(lo as int, i as int).push(chars@[i as int]));
        i = i + 1;
    }
    s
}

/// The characters `chars[lo..hi]`.
pub fn sub_chars(chars: &Vec<char>, lo: usize, hi: usize) -> (r: Vec<char>)
    requires
        lo <= hi <= chars.len(),
    ensures
        r@ == chars@.subrange(lo as int, hi as int),
{
    let mut r: Vec<char> = Vec::new();
    let mut i = lo;
    while i < hi
        invariant
            lo <= i <= hi <= chars.len(),
            r@ == chars@.subrange(lo as int, i as int),
        decreases hi - i,
    {
        r.push(chars[i]);
        assert(chars@.subrange(lo as int, i + 1) =~= chars@.subrange(lo as int, i as int).push(chars@[i as int]));
        i = i + 1;
    }
    r
}

/// Whether two strings hold the same characters.
pub fn str_eq(a: &str, b: &str) -> (r: bool)
    ensures
        r == (a@ == b@),
{
    let x = chars_of(a);
    let y = chars_of(b);
    if x.len() != y.len() {
        return false;
    }
    let mut i: usize = 0;
    while i < x.len()
        invariant
            x.len() == y.len(),
            x@ == a@,
            y@ == b@,
            i <= x.len(),
            forall|k: int| 0 <= k < i ==> x@[k] == y@[k],
        decreases x.len() - i,
    {
        if x[i] != y[i] {
            assert(x@[i as int] != y@[i as int]);
            return false;
        }
        i = i + 1;
    }
    assert(x@ =~= y@);
    true
}


/// CJK unified and compatibility ideographs.
#[verifier::allow_in_spec]
pub fn is_cjk(c: char) -> bool
    returns
        ('\u{4E00}' <= c && c <= '\u{9FFF}') || ('\u{3400}' <= c && c <= '\u{4DBF}') || ('\u{20000}'
            <= c && c <= '\u{2A6DF}') || ('\u{2A700}' <= c && c <= '\u{2B73F}') || ('\u{2B740}' <= c
            && c <= '\u{2B81F}') || ('\u{2B820}' <= c && c <= '\u{2CEAF}') || ('\u{F900}' <= c && c
            <= '\u{FAFF}') || ('\u{2F800}' <= c && c <= '\u{2FA1F}'),
{
    ('\u{4E00}' <= c && c <= '\u{9FFF}') || ('\u{3400}' <= c && c <= '\u{4DBF}') || ('\u{20000}'
        <= c && c <= '\u{2A6DF}') || ('\u{2A700}' <= c && c <= '\u{2B73F}') || ('\u{2B740}' <= c
        && c <= '\u{2B81F}') || ('\u{2B820}' <= c && c <= '\u{2CEAF}') || ('\u{F900}' <= c && c
        <= '\u{FAFF}') || ('\u{2F800}' <= c && c <= '\u{2FA1F}')
}

/// Unicode `White_Space` (`char::is_whitespace`).
#[verifier::allow_in_spec]
pub fn is_whitespace(c: char) -> bool
    returns
        ('\u{9}' <= c && c <= '\u{D}') || c == ' ' || c == '\u{85}' || c == '\u{A0}' || c
            == '\u{1680}' || ('\u{2000}' <= c && c <= '\u{200A}') || c == '\u{2028}' || c
            == '\u{2029}' || c == '\u{202F}' || c == '\u{205F}' || c == '\u{3000}',
{
    ('\u{9}' <= c && c <= '\u{D}') || c == ' ' || c == '\u{85}' || c == '\u{A0}' || c
        == '\u{1680}' || ('\u{2000}' <= c && c <= '\u{200A}') || c == '\u{2028}' || c
        == '\u{2029}' || c == '\u{202F}' || c == '\u{205F}' || c == '\u{3000}'
}

/// Unicode general category `Cc` (`char::is_control`).
#[verifier::allow_in_spec]
pub fn is_control(c: char) -> bool
    returns
        c <= '\u{1F}' || ('\u{7F}' <= c && c <= '\u{9F}'),
{
    c <= '\u{1F}' || ('\u{7F}' <= c && c <= '\u{9F}')
}

#[verifier::allow_in_spec]
pub fn is_ascii_upper(c: char) -> bool
    returns
        'A' <= c && c <= 'Z',
{
    'A' <= c && c <= 'Z'
}

#[verifier::allow_in_spec]
pub fn is_ascii_lower(c: char) -> bool
    returns
        'a' <= c && c <= 'z',
{
    'a' <= c && c <= 'z'
}

#[verifier::allow_in_spec]
pub fn is_ascii_digit(c: char) -> bool
    returns
        '0' <= c && c <= '9',
{
    '0' <= c && c <= '9'
}

#[verifier::allow_in_spec]
pub fn is_ascii_alpha(c: char) -> bool
    returns
        ('A' <= c && c <= 'Z') || ('a' <= c && c <= 'z'),
{
    ('A' <= c && c <= 'Z') || ('a' <= c && c <= 'z')
}

#[verifier::allow_in_spec]
pub fn is_ascii_alnum(c: char) -> bool
    returns
        ('A' <= c && c <= 'Z') || ('a' <= c && c <= 'z') || ('0' <= c && c <= '9'),
{
    ('A' <= c && c <= 'Z') || ('a' <= c && c <= 'z') || ('0' <= c && c <= '9')
}

/// `char::is_ascii_punctuation`.
#[verifier::allow_in_spec]
pub fn is_ascii_punct(c: char) -> bool
    returns
        ('!' <= c && c <= '/') || (':' <= c && c <= '@') || ('[' <= c && c <= '`') || ('{' <= c
            && c <= '~'),
{
    ('!' <= c && c <= '/') || (':' <= c && c <= '@') || ('[' <= c && c <= '`') || ('{' <= c
        && c <= '~')
}

/// The result of `char::is_alphanumeric` (Unicode `Alphabetic` or `Numeric`).
pub uninterp spec fn unicode_alphanumeric(c: char) -> bool;

/// `char::is_alphanumeric`: whether `c` has the Unicode `Alphabetic` property
/// or a numeric general category. The contract only names the answer.
#[verifier::external_body]
pub(crate) fn is_alphanumeric(c: char) -> (b: bool)
    ensures
        b == unicode_alphanumeric(c),
{
    c.is_alphanumeric()
}

/// ASCII lowercase of one character (`char::to_ascii_lowercase`).
#[verifier::allow_in_spec]
pub fn ascii_lower(c: char) -> char
    returns
        if 'A' <= c && c <= 'Z' {
            ((c as u8) + 32) as char
        } else {
            c
        },
{
    if 'A' <= c && c <= 'Z' {
        ((c as u8) + 32) as char
    } else {
        c
    }
}


/// ASCII uppercase of one character (`char::to_ascii_uppercase`).
#[verifier::allow_in_spec]
pub fn ascii_upper(c: char) -> char
    returns
        if 'a' <= c && c <= 'z' {
            ((c as u8) - 32) as char
        } else {
            c
        },
{
    if 'a' <= c && c <= 'z' {
        ((c as u8) - 32) as char
    } else {
        c
    }
}

/// Index of the character boundary with byte offset `b`, if there is one.
pub fn char_index_at(offsets: &Vec<usize>, b: usize) -> (r: Option<usize>)
    ensures
        r matches Some(i) ==> i < offsets.len() && offsets[i as int] == b,
        r is None ==> forall|i: int| 0 <= i < offsets.len() ==> offsets[i] != b,
{
    let mut i: usize = 0;
    while i < offsets.len()
        invariant
            i <= offsets.len(),
            forall|k: int| 0 <= k < i ==> offsets[k] != b,
        decreases offsets.len() - i,
    {
        if offsets[i] == b {
            return Some(i);
        }
        i = i + 1;
    }
    None
}

/// Byte offsets are strictly increasing, so a boundary has one index.
pub proof fn lemma_byte_pos_injective(s: Seq<char>, i: int, j: int)
    requires
        0 <= i <= s.len(),
        0 <= j <= s.len(),
        byte_pos(s, i) == byte_pos(s, j),
    ensures
        i == j,
{
    if i < j {
        lemma_byte_pos_mono(s, i, j);
    } else if j < i {
        lemma_byte_pos_mono(s, j, i);
    }
}

} // verus!
