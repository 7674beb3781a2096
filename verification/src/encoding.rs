use vstd::prelude::*;

use crate::helpers::spec_le16;

verus! {

/// Result of a three-way key-name comparison.
#[derive(Clone, Copy, Debug, PartialEq, Eq, Structural)]
pub enum NameOrdering {
    Less,
    Equal,
    Greater,
}

/// The sequence of characters that the uppercase mapping of `c` consists of.
///
/// This names the result of `char::to_uppercase`, which depends on the
/// character alone; nothing further is assumed about it.
pub uninterp spec fn upper_of(c: char) -> Seq<char>;

/// Relies on `char::to_uppercase`: yields the uppercase mapping of the
/// character as one or more characters, depending on the character alone.
#[verifier::external_body]
pub(crate) fn uppercase_chars(c: char) -> (r: Vec<char>)
    ensures
        r@ == upper_of(c),
        r@.len() >= 1,
{
    c.to_uppercase().collect()
}

/// Relies on `core::char::from_u32`: returns `Some` exactly for Unicode
/// scalar values (not a surrogate, at most `0x10FFFF`), and the returned
/// character has the given scalar value.
#[verifier::external_body]
pub(crate) fn char_from_u32(u: u32) -> (r: Option<char>)
    ensures
        r matches Some(c) ==> c == u as char && c as u32 == u,
        r is Some <==> (u < 0xD800 || (0xE000 <= u && u <= 0x10FFFF)),
{
    char::from_u32(u)
}

/// Relies on `String::push`: appends the character to the string.
#[verifier::external_body]
pub(crate) fn string_push(s: &mut String, c: char)
    ensures
        final(s)@ == old(s)@.push(c),
{
    s.push(c);
}

/// Builds a `String` holding exactly the given characters.
pub(crate) fn chars_to_string(cs: &Vec<char>) -> (r: String)
    ensures
        r@ == cs@,
{
    let mut r = String::new();
    let mut i: usize = 0;
    while i < cs.len()
        invariant
            i <= cs@.len(),
            r@ == cs@.subrange(0, i as int),
        decreases cs@.len() - i,
    {
        string_push(&mut r, cs[i]);
        i = i + 1;
        proof {
            assert(r@ =~= cs@.subrange(0, i as int));
        }
    }
    proof {
        assert(cs@.subrange(0, cs@.len() as int) =~= cs@);
    }
    r
}

/// The characters of a string slice, as a vector.
pub(crate) fn str_to_chars(s: &str) -> (r: Vec<char>)
    ensures
        r@ == s@,
{
    let len = s.unicode_len();
    let mut r: Vec<char> = Vec::new();
    let mut i: usize = 0;
    while i < len
        invariant
            i <= len,
            len == s@.len(),
            r@ == s@.subrange(0, i as int),
        decreases len - i,
    {
        let c = s.get_char(i);
        r.push(c);
        i = i + 1;
        proof {
            assert(r@ =~= s@.subrange(0, i as int));
        }
    }
    proof {
        assert(s@.subrange(0, s@.len() as int) =~= s@);
    }
    r
}

/// The characters of a Latin-1 byte sequence: each byte is the code point
/// U+0000..U+00FF it denotes.
pub open spec fn spec_latin1_chars(b: Seq<u8>) -> Seq<char> {
    Seq::new(b.len(), |i: int| (b[i] as u32) as char)
}

/// Decodes Latin-1 bytes to characters.
pub(crate) fn latin1_chars(bytes: &[u8]) -> (r: Vec<char>)
    ensures
        r@ == spec_latin1_chars(bytes@),
{
    let len = bytes.len();
    let mut r: Vec<char> = Vec::new();
    let mut i: usize = 0;
    while i < len
        invariant
            i <= len,
            len == bytes@.len(),
            r@ == spec_latin1_chars(bytes@).subrange(0, i as int),
        decreases len - i,
    {
        let b = bytes[i];
        let c = match char_from_u32(b as u32) {
            Some(c) => c,
            None => {
                proof {
                    assert(false);
                }
                ' '
            },
        };
        r.push(c);
        i = i + 1;
        proof {
            assert(r@ =~= spec_latin1_chars(bytes@).subrange(0, i as int));
        }
    }
    proof {
        assert(spec_latin1_chars(bytes@).subrange(0, bytes@.len() as int) =~= spec_latin1_chars(
            bytes@,
        ));
    }
    r
}

/// The UTF-16 code units stored little-endian in `b`; a trailing odd byte is
/// ignored.
pub open spec fn spec_utf16_units(b: Seq<u8>) -> Seq<u16> {
    Seq::new((b.len() / 2) as nat, |i: int| spec_le16(b, 2 * i))
}

/// True when `u` is a UTF-16 high (leading) surrogate.
pub open spec fn spec_is_high_surrogate(u: u16) -> bool {
    0xD800 <= u < 0xDC00
}

/// True when `u` is a UTF-16 low (trailing) surrogate.
pub open spec fn spec_is_low_surrogate(u: u16) -> bool {
    0xDC00 <= u < 0xE000
}

/// The scalar value encoded by a surrogate pair.
pub open spec fn spec_surrogate_value(hi: u16, lo: u16) -> u32 {
    (0x10000 + (hi - 0xD800) * 0x400 + (lo - 0xDC00)) as u32
}

/// Strict UTF-16 decoding of the units from position `i` on: `None` when an
/// unpaired surrogate is encountered.
pub open spec fn spec_utf16_decode_from(us: Seq<u16>, i: int) -> Option<Seq<char>>
    decreases us.len() - i,
{
    if i < 0 || i >= us.len() {
        Some(Seq::empty())
    } else {
        let u0 = us[i];
        if !spec_is_high_surrogate(u0) && !spec_is_low_surrogate(u0) {
            match spec_utf16_decode_from(us, i + 1) {
                Some(rest) => Some(seq![(u0 as u32) as char] + rest),
                None => None,
            }
        } else if spec_is_high_surrogate(u0) && i + 1 < us.len() && spec_is_low_surrogate(
            us[i + 1],
        ) {
            match spec_utf16_decode_from(us, i + 2) {
                Some(rest) => Some(seq![spec_surrogate_value(u0, us[i + 1]) as char] + rest),
                None => None,
            }
        } else {
            None
        }
    }
}

/// Strict UTF-16 decoding: the character sequence, or `None` when an unpaired
/// surrogate is encountered.
pub open spec fn spec_utf16_decode(us: Seq<u16>) -> Option<Seq<char>> {
    spec_utf16_decode_from(us, 0)
}

/// Lossy UTF-16 decoding of the units from position `i` on: an unpaired
/// surrogate becomes U+FFFD.
pub open spec fn spec_utf16_lossy_from(us: Seq<u16>, i: int) -> Seq<char>
    decreases us.len() - i,
{
    if i < 0 || i >= us.len() {
        Seq::empty()
    } else {
        let u0 = us[i];
        if !spec_is_high_surrogate(u0) && !spec_is_low_surrogate(u0) {
            seq![(u0 as u32) as char] + spec_utf16_lossy_from(us, i + 1)
        } else if spec_is_high_surrogate(u0) && i + 1 < us.len() && spec_is_low_surrogate(
            us[i + 1],
        ) {
            seq![spec_surrogate_value(u0, us[i + 1]) as char] + spec_utf16_lossy_from(us, i + 2)
        } else {
            seq!['\u{FFFD}'] + spec_utf16_lossy_from(us, i + 1)
        }
    }
}

/// Lossy UTF-16 decoding: unpaired surrogates become U+FFFD.
pub open spec fn spec_utf16_lossy(us: Seq<u16>) -> Seq<char> {
    spec_utf16_lossy_from(us, 0)
}

/// Reads the UTF-16 code units of `bytes`; a trailing odd byte is ignored.
pub(crate) fn utf16_units(bytes: &[u8]) -> (r: Vec<u16>)
    ensures
        r@ == spec_utf16_units(bytes@),
{
    let len = bytes.len();
    let count = len / 2;
    let mut r: Vec<u16> = Vec::new();
    let mut i: usize = 0;
    while i < count
        invariant
            i <= count,
            count == bytes@.len() / 2,
            bytes@.len() <= usize::MAX,
            r@ == spec_utf16_units(bytes@).subrange(0, i as int),
        decreases count - i,
    {
        let u = crate::helpers::read_le16(bytes, 2 * i);
        r.push(u);
        i = i + 1;
        proof {
            assert(r@ =~= spec_utf16_units(bytes@).subrange(0, i as int));
        }
    }
    proof {
        assert(spec_utf16_units(bytes@).subrange(0, spec_utf16_units(bytes@).len() as int)
            =~= spec_utf16_units(bytes@));
    }
    r
}

/// Strict UTF-16 decoding; `Err(i)` reports the unit position of the first
/// unpaired surrogate.
pub(crate) fn utf16_decode(us: &Vec<u16>) -> (r: Result<Vec<char>, usize>)
    ensures
        match r {
            Ok(cs) => spec_utf16_decode(us@) == Some(cs@),
            Err(i) => spec_utf16_decode(us@) is None && i < us@.len(),
        },
{
    let len = us.len();
    let mut acc: Vec<char> = Vec::new();
    let mut i: usize = 0;
    while i < len
        invariant
            i <= len,
            len == us@.len(),
            forall|rest: Seq<char>|
                spec_utf16_decode_from(us@, i as int) == Some(rest) ==> spec_utf16_decode(us@)
                    == Some(acc@ + rest),
            spec_utf16_decode_from(us@, i as int) is None ==> spec_utf16_decode(us@) is None,
        decreases len - i,
    {
        let ghost j = i as int;
        let ghost prev = acc@;
        let u0 = us[i];
        if !(0xD800 <= u0 && u0 < 0xE000) {
            let c = match char_from_u32(u0 as u32) {
                Some(c) => c,
                None => {
                    proof {
                        assert(false);
                    }
                    ' '
                },
            };
            acc.push(c);
            i = i + 1;
            proof {
                let ghost piece = seq![(us@[j] as u32) as char];
                assert(acc@ =~= prev + piece);
                assert forall|rest: Seq<char>|
                    spec_utf16_decode_from(us@, i as int) == Some(rest) implies spec_utf16_decode(
                    us@,
                ) == Some(acc@ + rest) by {
                    assert(spec_utf16_decode_from(us@, j) == Some(piece + rest));
                    assert(prev + (piece + rest) =~= (prev + piece) + rest);
                }
                if spec_utf16_decode_from(us@, i as int) is None {
                    assert(spec_utf16_decode_from(us@, j) is None);
                }
            }
        } else if u0 < 0xDC00 && i + 1 < len && 0xDC00 <= us[i + 1] && us[i + 1] < 0xE000 {
            let u1 = us[i + 1];
            let scalar = 0x10000 + (u0 as u32 - 0xD800) * 0x400 + (u1 as u32 - 0xDC00);
            let c = match char_from_u32(scalar) {
                Some(c) => c,
                None => {
                    proof {
                        assert(false);
                    }
                    ' '
                },
            };
            acc.push(c);
            i = i + 2;
            proof {
                let ghost piece = seq![spec_surrogate_value(us@[j], us@[j + 1]) as char];
                assert(scalar == spec_surrogate_value(us@[j], us@[j + 1]));
                assert(acc@ =~= prev + piece);
                assert forall|rest: Seq<char>|
                    spec_utf16_decode_from(us@, i as int) == Some(rest) implies spec_utf16_decode(
                    us@,
                ) == Some(acc@ + rest) by {
                    assert(spec_utf16_decode_from(us@, j) == Some(piece + rest));
                    assert(prev + (piece + rest) =~= (prev + piece) + rest);
                }
                if spec_utf16_decode_from(us@, i as int) is None {
                    assert(spec_utf16_decode_from(us@, j) is None);
                }
            }
        } else {
            proof {
                assert(spec_utf16_decode_from(us@, j) is None);
            }
            return Err(i);
        }
    }
    proof {
        assert(spec_utf16_decode_from(us@, len as int) == Some(Seq::<char>::empty()));
        assert(acc@ + Seq::<char>::empty() =~= acc@);
    }
    Ok(acc)
}

/// The case fold of a single character: code points in the Basic
/// Multilingual Plane are mapped to their uppercase form, all others are kept
/// as they are.
pub open spec fn spec_fold1(c: char) -> Seq<char> {
    if c as u32 <= 0xFFFF {
        upper_of(c)
    } else {
        seq![c]
    }
}

/// The case fold of the characters from position `i` on, concatenated.
pub open spec fn spec_fold_from(cs: Seq<char>, i: int) -> Seq<char>
    decreases cs.len() - i,
{
    if i < 0 || i >= cs.len() {
        Seq::empty()
    } else {
        spec_fold1(cs[i]) + spec_fold_from(cs, i + 1)
    }
}

/// The case fold of a character sequence, used for all key-name comparisons.
pub open spec fn spec_fold(cs: Seq<char>) -> Seq<char> {
    spec_fold_from(cs, 0)
}

/// Applies the case fold to every character.
pub(crate) fn fold_chars(cs: &Vec<char>) -> (r: Vec<char>)
    ensures
        r@ == spec_fold(cs@),
{
    let len = cs.len();
    let mut acc: Vec<char> = Vec::new();
    let mut i: usize = 0;
    while i < len
        invariant
            i <= len,
            len == cs@.len(),
            spec_fold(cs@) == acc@ + spec_fold_from(cs@, i as int),
        decreases len - i,
    {
        let ghost j = i as int;
        let ghost prev = acc@;
        let c = cs[i];
        if c as u32 <= 0xFFFF {
            let mut up = uppercase_chars(c);
            proof {
                assert(up@ == spec_fold1(cs@[j]));
            }
            acc.append(&mut up);
        } else {
            acc.push(c);
            proof {
                assert(acc@ =~= prev + spec_fold1(cs@[j]));
            }
        }
        i = i + 1;
        proof {
            assert(spec_fold_from(cs@, j) == spec_fold1(cs@[j]) + spec_fold_from(cs@, i as int));
            assert(prev + (spec_fold1(cs@[j]) + spec_fold_from(cs@, i as int)) =~= acc@
                + spec_fold_from(cs@, i as int));
        }
    }
    proof {
        assert(acc@ + Seq::<char>::empty() =~= acc@);
    }
    acc
}

/// Lexicographic three-way comparison of character sequences by code point.
pub open spec fn spec_chars_cmp(a: Seq<char>, b: Seq<char>) -> NameOrdering
    decreases a.len(),
{
    if a.len() == 0 && b.len() == 0 {
        NameOrdering::Equal
    } else if a.len() == 0 {
        NameOrdering::Less
    } else if b.len() == 0 {
        NameOrdering::Greater
    } else if (a[0] as u32) < (b[0] as u32) {
        NameOrdering::Less
    } else if (a[0] as u32) > (b[0] as u32) {
        NameOrdering::Greater
    } else {
        spec_chars_cmp(a.drop_first(), b.drop_first())
    }
}

/// The comparison is `Equal` exactly for equal sequences.
pub proof fn lemma_chars_cmp_eq(a: Seq<char>, b: Seq<char>)
    ensures
        (spec_chars_cmp(a, b) == NameOrdering::Equal) <==> (a == b),
    decreases a.len(),
{
    if a.len() == 0 || b.len() == 0 {
        if a.len() == 0 && b.len() == 0 {
            assert(a =~= b);
        } else {
            assert(a.len() != b.len());
            assert(a != b);
        }
    } else {
        vstd::utf8::char_u32_cast(a[0], a[0] as u32);
        vstd::utf8::char_u32_cast(b[0], b[0] as u32);
        lemma_chars_cmp_eq(a.drop_first(), b.drop_first());
        if spec_chars_cmp(a, b) == NameOrdering::Equal {
            assert(a[0] as u32 == b[0] as u32);
            assert(a[0] == b[0]);
            assert(a.drop_first() == b.drop_first());
            assert(a =~= seq![a[0]] + a.drop_first());
            assert(b =~= seq![b[0]] + b.drop_first());
        }
        if a == b {
            assert(a.drop_first() =~= b.drop_first());
        }
    }
}

/// Swapping the operands swaps `Less` and `Greater`.
pub proof fn lemma_chars_cmp_flip(a: Seq<char>, b: Seq<char>)
    ensures
        (spec_chars_cmp(a, b) == NameOrdering::Less) <==> (spec_chars_cmp(b, a)
            == NameOrdering::Greater),
    decreases a.len(),
{
    if a.len() != 0 && b.len() != 0 && a[0] as u32 == b[0] as u32 {
        lemma_chars_cmp_flip(a.drop_first(), b.drop_first());
    }
}

/// The lexicographic order is transitive.
pub proof fn lemma_chars_cmp_trans(a: Seq<char>, b: Seq<char>, c: Seq<char>)
    requires
        spec_chars_cmp(a, b) == NameOrdering::Less,
        spec_chars_cmp(b, c) == NameOrdering::Less,
    ensures
        spec_chars_cmp(a, c) == NameOrdering::Less,
    decreases a.len() + b.len() + c.len(),
{
    if a.len() == 0 {
        assert(b.len() != 0);
        assert(c.len() != 0);
    } else {
        assert(b.len() != 0);
        assert(c.len() != 0);
        if a[0] as u32 == b[0] as u32 && b[0] as u32 == c[0] as u32 {
            lemma_chars_cmp_trans(a.drop_first(), b.drop_first(), c.drop_first());
        }
    }
}

/// A sequence at most as large as `b` stays below whatever `b` is below.
pub proof fn lemma_chars_cmp_le_lt(a: Seq<char>, b: Seq<char>, c: Seq<char>)
    requires
        spec_chars_cmp(a, b) == NameOrdering::Less || a == b,
        spec_chars_cmp(b, c) == NameOrdering::Less,
    ensures
        spec_chars_cmp(a, c) == NameOrdering::Less,
{
    if a != b {
        lemma_chars_cmp_trans(a, b, c);
    }
}

/// A sequence below `b` stays below whatever is at least as large as `b`.
pub proof fn lemma_chars_cmp_lt_le(a: Seq<char>, b: Seq<char>, c: Seq<char>)
    requires
        spec_chars_cmp(a, b) == NameOrdering::Less,
        spec_chars_cmp(b, c) == NameOrdering::Less || b == c,
    ensures
        spec_chars_cmp(a, c) == NameOrdering::Less,
{
    if b != c {
        lemma_chars_cmp_trans(a, b, c);
    }
}

/// Three-way comparison of two character vectors.
pub(crate) fn cmp_chars(a: &Vec<char>, b: &Vec<char>) -> (r: NameOrdering)
    ensures
        r == spec_chars_cmp(a@, b@),
{
    let a_len = a.len();
    let b_len = b.len();
    let mut i: usize = 0;
    proof {
        assert(a@.skip(0) =~= a@);
        assert(b@.skip(0) =~= b@);
    }
    while i < a_len && i < b_len
        invariant
            i <= a_len,
            i <= b_len,
            a_len == a@.len(),
            b_len == b@.len(),
            spec_chars_cmp(a@, b@) == spec_chars_cmp(
                a@.skip(i as int),
                b@.skip(i as int),
            ),
        decreases a_len - i,
    {
        let ca = a[i];
        let cb = b[i];
        if (ca as u32) < (cb as u32) {
            proof {
                assert(a@.skip(i as int)[0] == ca);
                assert(b@.skip(i as int)[0] == cb);
            }
            return NameOrdering::Less;
        }
        if (ca as u32) > (cb as u32) {
            proof {
                assert(a@.skip(i as int)[0] == ca);
                assert(b@.skip(i as int)[0] == cb);
            }
            return NameOrdering::Greater;
        }
        proof {
            assert(a@.skip(i as int)[0] == ca);
            assert(b@.skip(i as int)[0] == cb);
            assert(a@.skip(i as int).drop_first() =~= a@.skip(i + 1));
            assert(b@.skip(i as int).drop_first() =~= b@.skip(i + 1));
        }
        i = i + 1;
    }
    proof {
        assert(a@.skip(i as int).len() == a@.len() - i);
        assert(b@.skip(i as int).len() == b@.len() - i);
    }
    if i < b_len {
        NameOrdering::Less
    } else if i < a_len {
        NameOrdering::Greater
    } else {
        NameOrdering::Equal
    }
}

/// Position of the first NUL character at or after `i`, or the length when
/// there is none.
pub open spec fn spec_first_nul_from(cs: Seq<char>, i: int) -> int
    decreases cs.len() - i,
{
    if i < 0 || i >= cs.len() {
        cs.len() as int
    } else if cs[i] == '\0' {
        i
    } else {
        spec_first_nul_from(cs, i + 1)
    }
}

/// The characters before the first NUL; the whole sequence when there is
/// none.
pub open spec fn spec_truncate_nul(cs: Seq<char>) -> Seq<char> {
    cs.take(spec_first_nul_from(cs, 0))
}

/// The NUL-terminated strings held in `cs` from position `i` on: the list
/// ends at an empty string (a double NUL) or when the remainder holds no
/// terminator.
pub open spec fn spec_multi_sz_from(cs: Seq<char>, i: int) -> Seq<Seq<char>>
    decreases cs.len() - i,
    via spec_multi_sz_from_decreases
{
    if i < 0 || i >= cs.len() {
        Seq::empty()
    } else {
        let k = spec_first_nul_from(cs, i);
        if k >= cs.len() {
            Seq::empty()
        } else if k == i {
            Seq::empty()
        } else {
            seq![cs.subrange(i, k)] + spec_multi_sz_from(cs, k + 1)
        }
    }
}

#[via_fn]
proof fn spec_multi_sz_from_decreases(cs: Seq<char>, i: int) {
    if 0 <= i < cs.len() {
        lemma_first_nul_ge(cs, i);
    }
}

/// The first NUL at or after `i` is never before `i`.
pub proof fn lemma_first_nul_ge(cs: Seq<char>, i: int)
    requires
        0 <= i <= cs.len(),
    ensures
        i <= spec_first_nul_from(cs, i) <= cs.len(),
    decreases cs.len() - i,
{
    if i < cs.len() && cs[i] != '\0' {
        lemma_first_nul_ge(cs, i + 1);
    }
}

/// The NUL-terminated strings held in `cs`.
pub open spec fn spec_multi_sz(cs: Seq<char>) -> Seq<Seq<char>> {
    spec_multi_sz_from(cs, 0)
}

/// The first NUL at or after `start` is at `j` when no character in between
/// is NUL.
pub proof fn lemma_first_nul_locate(cs: Seq<char>, start: int, j: int)
    requires
        0 <= start <= j <= cs.len(),
        forall|m: int| start <= m < j ==> cs[m] != '\0',
        j < cs.len() ==> cs[j] == '\0',
    ensures
        spec_first_nul_from(cs, start) == (if j < cs.len() {
            j
        } else {
            cs.len() as int
        }),
    decreases j - start,
{
    if start < j {
        lemma_first_nul_locate(cs, start + 1, j);
    }
}

/// Lossy UTF-16 decoding: unpaired surrogates become U+FFFD.
pub(crate) fn utf16_decode_lossy(us: &Vec<u16>) -> (r: Vec<char>)
    ensures
        r@ == spec_utf16_lossy(us@),
{
    let len = us.len();
    let mut acc: Vec<char> = Vec::new();
    let mut i: usize = 0;
    while i < len
        invariant
            i <= len,
            len == us@.len(),
            spec_utf16_lossy(us@) == acc@ + spec_utf16_lossy_from(us@, i as int),
        decreases len - i,
    {
        let ghost j = i as int;
        let ghost prev = acc@;
        let u0 = us[i];
        if !(0xD800 <= u0 && u0 < 0xE000) {
            let c = match char_from_u32(u0 as u32) {
                Some(c) => c,
                None => {
                    proof {
                        assert(false);
                    }
                    ' '
                },
            };
            acc.push(c);
            i = i + 1;
            proof {
                let ghost piece = seq![(us@[j] as u32) as char];
                assert(acc@ =~= prev + piece);
                assert(spec_utf16_lossy_from(us@, j) == piece + spec_utf16_lossy_from(
                    us@,
                    i as int,
                ));
                assert(prev + (piece + spec_utf16_lossy_from(us@, i as int)) =~= acc@
                    + spec_utf16_lossy_from(us@, i as int));
            }
        } else if u0 < 0xDC00 && i + 1 < len && 0xDC00 <= us[i + 1] && us[i + 1] < 0xE000 {
            let u1 = us[i + 1];
            let scalar = 0x10000 + (u0 as u32 - 0xD800) * 0x400 + (u1 as u32 - 0xDC00);
            let c = match char_from_u32(scalar) {
                Some(c) => c,
                None => {
                    proof {
                        assert(false);
                    }
                    ' '
                },
            };
            acc.push(c);
            i = i + 2;
            proof {
                let ghost piece = seq![spec_surrogate_value(us@[j], us@[j + 1]) as char];
                assert(scalar == spec_surrogate_value(us@[j], us@[j + 1]));
                assert(acc@ =~= prev + piece);
                assert(spec_utf16_lossy_from(us@, j) == piece + spec_utf16_lossy_from(
                    us@,
                    i as int,
                ));
                assert(prev + (piece + spec_utf16_lossy_from(us@, i as int)) =~= acc@
                    + spec_utf16_lossy_from(us@, i as int));
            }
        } else {
            acc.push('\u{FFFD}');
            i = i + 1;
            proof {
                let ghost piece = seq!['\u{FFFD}'];
                assert(acc@ =~= prev + piece);
                assert(spec_utf16_lossy_from(us@, j) == piece + spec_utf16_lossy_from(
                    us@,
                    i as int,
                ));
                assert(prev + (piece + spec_utf16_lossy_from(us@, i as int)) =~= acc@
                    + spec_utf16_lossy_from(us@, i as int));
            }
        }
    }
    proof {
        assert(acc@ + Seq::<char>::empty() =~= acc@);
    }
    acc
}

} // verus!
