//! Text operations: the few `String` and `str` operations of std that vstd
//! gives no specification for, each behind a wrapper whose contract says what
//! std's documentation says of it, and a substring test of the library's own.
use vstd::prelude::*;

verus! {

/// What `str::to_lowercase` gives for a string: each character mapped by the
/// Unicode lowercase tables (a few map to several characters, and the Greek
/// capital sigma depends on its neighbours).
pub uninterp spec fn lowercase(s: Seq<char>) -> Seq<char>;

/// `needle` occurs in `hay` as a run of consecutive characters.
pub open spec fn seq_contains(hay: Seq<char>, needle: Seq<char>) -> bool {
    exists|i: int| 0 <= i && i + needle.len() <= hay.len() && #[trigger] hay.subrange(i, i + needle.len()) == needle
}

/// The number of bytes of the UTF-8 encoding of `s`, which is what
/// `str::len` and `String::len` count.
pub open spec fn byte_len(s: Seq<char>) -> nat {
    vstd::utf8::encode_utf8(s).len()
}

/// The character is encoded in one UTF-8 byte.
pub open spec fn is_one_byte(c: char) -> bool {
    (c as u32) < 0x80
}

/// `String::push`: appends the character.
#[verifier::external_body]
pub fn string_push(s: &mut String, c: char)
    ensures
        final(s)@ == old(s)@.push(c),
{
    s.push(c)
}

/// `String::pop`: removes and returns the last character, `None` when empty.
#[verifier::external_body]
pub fn string_pop(s: &mut String) -> (r: Option<char>)
    ensures
        old(s)@.len() == 0 ==> r is None && final(s)@ == old(s)@,
        old(s)@.len() > 0 ==> r == Some(old(s)@.last()) && final(s)@ == old(s)@.drop_last(),
{
    s.pop()
}

/// `String::clear`: empties the string.
#[verifier::external_body]
pub fn string_clear(s: &mut String)
    ensures
        final(s)@ == Seq::<char>::empty(),
{
    s.clear()
}

/// `str::to_lowercase`.
#[verifier::external_body]
pub fn to_lowercase(s: &str) -> (r: String)
    ensures
        r@ == lowercase(s@),
{
    s.to_lowercase()
}

/// The characters of a string.
fn chars_of(s: &str) -> (v: Vec<char>)
    ensures
        v@ == s@,
{
    let n = s.unicode_len();
    let mut v: Vec<char> = Vec::new();
    let mut i: usize = 0;
    while i < n
        invariant
            n == s@.len(),
            i <= n,
            v@ == s@.subrange(0, i as int),
        decreases n - i,
    {
        v.push(s.get_char(i));
        i = i + 1;
    }
    v
}

/// Whether `needle` occurs in `hay` starting at character `at`.
fn occurs_at(hay: &Vec<char>, needle: &Vec<char>, at: usize) -> (r: bool)
    requires
        at + needle@.len() <= hay@.len(),
        hay@.len() <= usize::MAX,
    ensures
        r == (hay@.subrange(at as int, at + needle@.len()) == needle@),
{
    let mut j: usize = 0;
    while j < needle.len()
        invariant
            at + needle@.len() <= hay@.len(),
            hay@.len() <= usize::MAX,
            j <= needle@.len(),
            forall|k: int| 0 <= k < j ==> hay@[at + k] == needle@[k],
        decreases needle@.len() - j,
    {
        if hay[at + j] != needle[j] {
            proof {
                let sub = hay@.subrange(at as int, at + needle@.len());
                assert(sub[j as int] != needle@[j as int]);
            }
            return false;
        }
        j = j + 1;
    }
    assert(hay@.subrange(at as int, at + needle@.len()) =~= needle@);
    true
}

/// Whether `needle` occurs in `hay` as a run of consecutive characters, as
/// `str::contains` with a string pattern answers.
pub fn str_contains(hay: &str, needle: &str) -> (r: bool)
    ensures
        r == seq_contains(hay@, needle@),
{
    let h = chars_of(hay);
    let nd = chars_of(needle);
    let n = h.len();
    let m = nd.len();
    if m > n {
        return false;
    }
    let last = n - m;
    let mut i: usize = 0;
    loop
        invariant
            h@ == hay@,
            nd@ == needle@,
            n == h@.len(),
            m == nd@.len(),
            last == n - m,
            i <= last,
            forall|p: int| 0 <= p < i ==> #[trigger] hay@.subrange(p, p + m) != needle@,
        decreases last - i,
    {
        if occurs_at(&h, &nd, i) {
            return true;
        }
        if i == last {
            return false;
        }
        i = i + 1;
    }
}

/// Whether the string takes at most one byte, which is what `s.len() <= 1`
/// asks.
pub fn at_most_one_byte(s: &str) -> (r: bool)
    ensures
        r == (byte_len(s@) <= 1),
{
    proof {
        lemma_byte_len_at_most_one(s@);
    }
    let n = s.unicode_len();
    if n == 0 {
        true
    } else if n == 1 {
        let c = s.get_char(0);
        (c as u32) < 0x80
    } else {
        false
    }
}

/// The UTF-8 length of a non-empty string: the first character's width plus
/// the rest.
pub proof fn lemma_byte_len_first(s: Seq<char>)
    requires
        s.len() > 0,
    ensures
        byte_len(s) >= 1 + byte_len(s.drop_first()),
        is_one_byte(s[0]) ==> byte_len(s) == 1 + byte_len(s.drop_first()),
        !is_one_byte(s[0]) ==> byte_len(s) >= 2 + byte_len(s.drop_first()),
{
    vstd::utf8::char_is_scalar(s[0]);
    assert(vstd::utf8::encode_utf8(s) == vstd::utf8::encode_scalar(s[0] as u32)
        + vstd::utf8::encode_utf8(s.drop_first()));
}

/// At most one byte: empty, or a single one-byte character.
pub proof fn lemma_byte_len_at_most_one(s: Seq<char>)
    ensures
        byte_len(s) <= 1 <==> (s.len() == 0 || (s.len() == 1 && is_one_byte(s[0]))),
{
    if s.len() > 0 {
        lemma_byte_len_first(s);
        if s.len() > 1 {
            lemma_byte_len_first(s.drop_first());
        }
    } else {
        assert(vstd::utf8::encode_utf8(s) =~= Seq::<u8>::empty());
    }
}

} // verus!
